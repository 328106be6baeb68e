//! The layer capability: anything that reports a bounding box and an RGBA
//! pixel buffer for that box can be composited, regardless of how the
//! buffer was produced.

use vstd::prelude::*;

verus! {

/// The abstract content of a layer: its rectangle on the panel and the RGBA
/// bytes inside it, row-major, four bytes per pixel.
pub ghost struct LayerModel {
    pub x: u32,
    pub y: u32,
    pub width: u32,
    pub height: u32,
    pub data: Seq<u8>,
}

impl LayerModel {
    /// A layer's buffer holds exactly width * height RGBA pixels.
    pub open spec fn wf(&self) -> bool {
        self.data.len() == self.width * self.height * 4
    }
}

pub trait Layer {
    spec fn model(&self) -> LayerModel;

    fn bounding_box(&self) -> (r: (u32, u32, u32, u32))
        ensures
            r.0 == self.model().x,
            r.1 == self.model().y,
            r.2 == self.model().width,
            r.3 == self.model().height,
    ;

    fn get_image_data(&self) -> (r: &Vec<u8>)
        ensures
            r@ == self.model().data,
            self.model().wf(),
    ;
}

} // verus!
