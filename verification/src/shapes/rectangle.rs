//! An axis-aligned rectangle with a one-pixel border.

use vstd::prelude::*;
use crate::color::Color;
use crate::point::Point;

verus! {

/// A rectangle anchored at its top-left corner.
#[derive(Clone, Copy, PartialEq, Eq, Structural, Debug)]
pub struct Rectangle {
    pub top_left: Point,
    pub height: u32,
    pub width: u32,
    pub outline_color: Color,
    pub fill_color: Color,
}

impl Rectangle {
    pub fn new(
        top_left: Point,
        height: u32,
        width: u32,
        outline_color: Color,
        fill_color: Color,
    ) -> (r: Rectangle)
        ensures
            r == (Rectangle { top_left, height, width, outline_color, fill_color }),
    {
        Rectangle { top_left, height, width, outline_color, fill_color }
    }

    pub fn get_top_left(&self) -> (p: Point)
        ensures
            p == self.top_left,
    {
        self.top_left
    }

    pub fn get_height(&self) -> (h: u32)
        ensures
            h == self.height,
    {
        self.height
    }

    pub fn get_width(&self) -> (w: u32)
        ensures
            w == self.width,
    {
        self.width
    }

    pub fn get_outline_color(&self) -> (c: Color)
        ensures
            c == self.outline_color,
    {
        self.outline_color
    }

    pub fn get_fill_color(&self) -> (c: Color)
        ensures
            c == self.fill_color,
    {
        self.fill_color
    }
}

} // verus!
