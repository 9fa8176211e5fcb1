//! A triangle, rasterized as a three-vertex polygon.

use vstd::prelude::*;
use crate::color::Color;
use crate::point::Point;

verus! {

/// A triangle given by its three vertices.
#[derive(Clone, Copy, PartialEq, Eq, Structural, Debug)]
pub struct Triangle {
    pub p0: Point,
    pub p1: Point,
    pub p2: Point,
    pub outline_color: Color,
    pub fill_color: Color,
}

impl Triangle {
    pub fn new(p0: Point, p1: Point, p2: Point, outline_color: Color, fill_color: Color) -> (t:
        Triangle)
        ensures
            t == (Triangle { p0, p1, p2, outline_color, fill_color }),
    {
        Triangle { p0, p1, p2, outline_color, fill_color }
    }

    pub fn get_p0(&self) -> (p: Point)
        ensures
            p == self.p0,
    {
        self.p0
    }

    pub fn get_p1(&self) -> (p: Point)
        ensures
            p == self.p1,
    {
        self.p1
    }

    pub fn get_p2(&self) -> (p: Point)
        ensures
            p == self.p2,
    {
        self.p2
    }

    pub fn get_outline_color(&self) -> (c: Color)
        ensures
            c == self.outline_color,
    {
        self.outline_color
    }

    pub fn get_fill_color(&self) -> (c: Color)
        ensures
            c == self.fill_color,
    {
        self.fill_color
    }
}

} // verus!
