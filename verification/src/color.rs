//! An RGBA color with four 8-bit channels.

use vstd::prelude::*;

verus! {

/// A color with red, green, blue and alpha channels.
///
/// Fill logic compares colors by their `(r, g, b)` channels only; the
/// alpha channel is never consulted when matching an outline color.
#[derive(Clone, Copy, PartialEq, Eq, Structural, Debug)]
pub struct Color {
    pub r: u8,
    pub g: u8,
    pub b: u8,
    pub a: u8,
}

/// The four channels of a color as a tuple, the form the pixel-buffer
/// model speaks of.
pub open spec fn rgba_of(c: Color) -> (u8, u8, u8, u8) {
    (c.r, c.g, c.b, c.a)
}

/// Whether two pixel values agree on their red, green and blue channels;
/// alpha is ignored.
pub open spec fn same_rgb(c1: (u8, u8, u8, u8), c2: (u8, u8, u8, u8)) -> bool {
    c1.0 == c2.0 && c1.1 == c2.1 && c1.2 == c2.2
}

impl Color {
    pub fn new(r: u8, g: u8, b: u8, a: u8) -> (c: Color)
        ensures
            c == (Color { r, g, b, a }),
    {
        Color { r, g, b, a }
    }
}

} // verus!
