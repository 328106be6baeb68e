//! Driver for a small raster panel attached over a serial link.
//!
//! The library covers the panel's fixed-size binary packet protocol
//! (coordinate packing, command framing, brightness and orientation
//! encoding), the panel driver that tracks geometry and streams frames and
//! chunked pixel payloads over the serial channel, and the layered
//! compositor that blends RGBA layers into a framebuffer and converts it to
//! the panel's native RGB565 encoding. Image decoding, text rendering,
//! network fetches and configuration loading are collaborators outside the
//! library: they hand in plain pixel buffers and values.

use vstd::prelude::*;

pub mod device;
pub mod display;
pub mod gibmon_config;
pub mod image;
pub mod image_extensions;
pub mod layer;
pub mod packets;
pub mod spotify;

verus! {

} // verus!
