//! A circle, drawn by midpoint scan-conversion and filled from its center.

use vstd::prelude::*;
use crate::color::Color;
use crate::point::Point;

verus! {

/// A circle given by its center and radius.
#[derive(Clone, Copy, PartialEq, Eq, Structural, Debug)]
pub struct Circle {
    pub center: Point,
    pub radius: u32,
    pub outline_color: Color,
    pub fill_color: Color,
}

impl Circle {
    pub fn new(center: Point, radius: u32, outline_color: Color, fill_color: Color) -> (c: Circle)
        ensures
            c == (Circle { center, radius, outline_color, fill_color }),
    {
        Circle { center, radius, outline_color, fill_color }
    }

    pub fn get_center(&self) -> (p: Point)
        ensures
            p == self.center,
    {
        self.center
    }

    pub fn get_radius(&self) -> (r: u32)
        ensures
            r == self.radius,
    {
        self.radius
    }

    pub fn get_outline_color(&self) -> (c: Color)
        ensures
            c == self.outline_color,
    {
        self.outline_color
    }

    pub fn get_fill_color(&self) -> (c: Color)
        ensures
            c == self.fill_color,
    {
        self.fill_color
    }
}

} // verus!
