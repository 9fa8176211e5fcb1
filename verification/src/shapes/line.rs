//! A line segment between two points.

use vstd::prelude::*;
use crate::color::Color;
use crate::point::Point;

verus! {

/// A line from `p0` to `p1`, both endpoints included when drawn.
#[derive(Clone, Copy, PartialEq, Eq, Structural, Debug)]
pub struct Line {
    pub p0: Point,
    pub p1: Point,
    pub color: Color,
}

impl Line {
    pub fn new(p0: Point, p1: Point, color: Color) -> (l: Line)
        ensures
            l == (Line { p0, p1, color }),
    {
        Line { p0, p1, color }
    }

    pub fn get_p0(&self) -> (p: Point)
        ensures
            p == self.p0,
    {
        self.p0
    }

    pub fn get_p1(&self) -> (p: Point)
        ensures
            p == self.p1,
    {
        self.p1
    }

    pub fn get_color(&self) -> (c: Color)
        ensures
            c == self.color,
    {
        self.color
    }
}

} // verus!
