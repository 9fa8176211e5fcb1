//! A square, rasterized as a rectangle with equal sides.

use vstd::prelude::*;
use crate::color::Color;
use crate::point::Point;

verus! {

/// A square anchored at its top-left corner.
#[derive(Clone, Copy, PartialEq, Eq, Structural, Debug)]
pub struct Square {
    pub top_left: Point,
    pub side: u32,
    pub outline_color: Color,
    pub fill_color: Color,
}

impl Square {
    pub fn new(top_left: Point, side: u32, outline_color: Color, fill_color: Color) -> (s: Square)
        ensures
            s == (Square { top_left, side, outline_color, fill_color }),
    {
        Square { top_left, side, outline_color, fill_color }
    }

    pub fn get_top_left(&self) -> (p: Point)
        ensures
            p == self.top_left,
    {
        self.top_left
    }

    pub fn get_width(&self) -> (w: u32)
        ensures
            w == self.side,
    {
        self.side
    }

    pub fn get_outline_color(&self) -> (c: Color)
        ensures
            c == self.outline_color,
    {
        self.outline_color
    }

    pub fn get_fill_color(&self) -> (c: Color)
        ensures
            c == self.fill_color,
    {
        self.fill_color
    }
}

} // verus!
