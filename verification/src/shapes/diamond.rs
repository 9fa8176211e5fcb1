//! A diamond, rasterized as a four-vertex polygon.

use vstd::prelude::*;
use crate::color::Color;
use crate::point::Point;

verus! {

/// A diamond given by its center and its two diagonals.
#[derive(Clone, Copy, PartialEq, Eq, Structural, Debug)]
pub struct Diamond {
    pub center: Point,
    pub horizontal_diagonal: u32,
    pub vertical_diagonal: u32,
    pub outline_color: Color,
    pub fill_color: Color,
}

impl Diamond {
    pub fn new(
        center: Point,
        horizontal_diagonal: u32,
        vertical_diagonal: u32,
        outline_color: Color,
        fill_color: Color,
    ) -> (d: Diamond)
        ensures
            d == (Diamond { center, horizontal_diagonal, vertical_diagonal, outline_color, fill_color }),
    {
        Diamond { center, horizontal_diagonal, vertical_diagonal, outline_color, fill_color }
    }

    pub fn get_center(&self) -> (p: Point)
        ensures
            p == self.center,
    {
        self.center
    }

    pub fn get_horizontal_diagonal(&self) -> (d: u32)
        ensures
            d == self.horizontal_diagonal,
    {
        self.horizontal_diagonal
    }

    pub fn get_vertical_diagonal(&self) -> (d: u32)
        ensures
            d == self.vertical_diagonal,
    {
        self.vertical_diagonal
    }

    pub fn get_outline_color(&self) -> (c: Color)
        ensures
            c == self.outline_color,
    {
        self.outline_color
    }

    pub fn get_fill_color(&self) -> (c: Color)
        ensures
            c == self.fill_color,
    {
        self.fill_color
    }
}

} // verus!
