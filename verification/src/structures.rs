//! Plain image data shared by the importers.
use vstd::prelude::*;

verus! {

/// Pixel of an image.
#[derive(Clone, Copy, Debug, PartialEq, Eq, Structural)]
pub struct Pixel {
    /// Red
    pub r: u8,
    /// Green
    pub g: u8,
    /// Blue
    pub b: u8,
    /// Alpha
    pub a: u8,
}

/// Image with some metadata.
pub struct Image {
    /// Width of the image
    pub width: u32,
    /// Height of the image
    pub height: u32,
    /// Image data in scan lines going left to right top to bottom
    pub data: Vec<Pixel>,
}

} // verus!
