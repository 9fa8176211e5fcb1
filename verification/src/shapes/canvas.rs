//! The canvas: establishes the pixel buffer's dimensions and background.

use vstd::prelude::*;
use crate::color::Color;

verus! {

/// A canvas of `height` by `width` pixels, all initially `color`.
#[derive(Clone, Copy, PartialEq, Eq, Structural, Debug)]
pub struct Canvas {
    pub height: u32,
    pub width: u32,
    pub color: Color,
}

impl Canvas {
    pub fn new(height: u32, width: u32, color: Color) -> (c: Canvas)
        ensures
            c == (Canvas { height, width, color }),
    {
        Canvas { height, width, color }
    }

    pub fn get_height(&self) -> (h: u32)
        ensures
            h == self.height,
    {
        self.height
    }

    pub fn get_width(&self) -> (w: u32)
        ensures
            w == self.width,
    {
        self.width
    }

    pub fn get_color(&self) -> (c: Color)
        ensures
            c == self.color,
    {
        self.color
    }
}

} // verus!
