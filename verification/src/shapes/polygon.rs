//! A polygon: a closed chain of at least one vertex.

use vstd::prelude::*;
use crate::color::Color;
use crate::point::Point;

verus! {

/// A polygon whose edges connect consecutive vertices, wrapping from the
/// last vertex back to the first.  A meaningful polygon has at least one
/// vertex; the rasterizer rejects one without any.
#[derive(Debug)]
pub struct Polygon {
    pub points: Vec<Point>,
    pub outline_color: Color,
    pub fill_color: Color,
}

impl Polygon {
    pub fn new(points: Vec<Point>, outline_color: Color, fill_color: Color) -> (p: Polygon)
        ensures
            p.points == points,
            p.outline_color == outline_color,
            p.fill_color == fill_color,
    {
        Polygon { points, outline_color, fill_color }
    }

    pub fn get_points(&self) -> (pts: &Vec<Point>)
        ensures
            pts == &self.points,
    {
        &self.points
    }

    pub fn get_outline_color(&self) -> (c: Color)
        ensures
            c == self.outline_color,
    {
        self.outline_color
    }

    pub fn get_fill_color(&self) -> (c: Color)
        ensures
            c == self.fill_color,
    {
        self.fill_color
    }
}

} // verus!
