//! Quantized pixel colors, one byte per channel, as they appear in the image.

use vstd::prelude::*;

verus! {

/// A pixel color after gamma correction and quantization: each channel is an
/// integer in `0..=255`, exactly what one line of the image file carries.
#[derive(Clone, Copy, PartialEq, Eq, Structural, Debug)]
pub struct Color8 {
    pub r: u8,
    pub g: u8,
    pub b: u8,
}

impl Color8 {
    pub fn new(r: u8, g: u8, b: u8) -> (c: Color8)
        ensures
            c.r == r,
            c.g == g,
            c.b == b,
    {
        Color8 { r, g, b }
    }
}

} // verus!
