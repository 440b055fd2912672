//! Opaque RGB colors, and colors written as hexadecimal strings.
use vstd::prelude::*;

verus! {

/// An opaque color made of red, green and blue intensities.
#[derive(Debug, Clone, Copy, PartialEq, Eq, Structural)]
pub struct Rgb {
    pub r: u8,
    pub g: u8,
    pub b: u8,
}

impl Rgb {
    /// The color with the given intensities.
    pub fn from_rgb(r: u8, g: u8, b: u8) -> (res: Self)
        ensures
            res == (Rgb { r, g, b }),
    {
        Rgb { r, g, b }
    }
}

} // verus!
