//! A static image layer: a rectangle and an owned RGBA buffer.

use vstd::prelude::*;
use crate::layer::{Layer, LayerModel};

verus! {

pub struct Image {
    x: u32,
    y: u32,
    width: u32,
    height: u32,
    data: Vec<u8>,
}

impl Image {
    #[verifier::type_invariant]
    spec fn inv(&self) -> bool {
        self.data@.len() == self.width * self.height * 4
    }

    pub fn new(x: u32, y: u32, width: u32, height: u32, data: Vec<u8>) -> (r: Self)
        requires
            data@.len() == width * height * 4,
        ensures
            r.model() == (LayerModel { x, y, width, height, data: data@ }),
    {
        Image { x, y, width, height, data }
    }
}

impl Layer for Image {
    closed spec fn model(&self) -> LayerModel {
        LayerModel {
            x: self.x,
            y: self.y,
            width: self.width,
            height: self.height,
            data: self.data@,
        }
    }

    fn bounding_box(&self) -> (r: (u32, u32, u32, u32)) {
        (self.x, self.y, self.width, self.height)
    }

    fn get_image_data(&self) -> (r: &Vec<u8>) {
        proof {
            use_type_invariant(&*self);
        }
        &self.data
    }
}

} // verus!
