//! The shape-visitor protocol: one operation per shape variant.

use vstd::prelude::*;
use crate::errors::GenericError;
use crate::shapes::canvas::Canvas;
use crate::shapes::circle::Circle;
use crate::shapes::diamond::Diamond;
use crate::shapes::line::Line;
use crate::shapes::polygon::Polygon;
use crate::shapes::rectangle::Rectangle;
use crate::shapes::square::Square;
use crate::shapes::triangle::Triangle;

verus! {

/// A visitor over the closed set of shape variants.  Each shape's
/// `accept` dispatches to the matching operation.  A visitor carries a
/// well-formedness condition that every visit preserves.
pub trait ShapeVisitor: Sized {
    spec fn inv(&self) -> bool;

    fn visit_canvas(&mut self, canvas: &Canvas) -> (res: Result<(), GenericError>)
        requires
            old(self).inv(),
        ensures
            final(self).inv(),
    ;

    fn visit_line(&mut self, line: &Line) -> (res: Result<(), GenericError>)
        requires
            old(self).inv(),
        ensures
            final(self).inv(),
    ;

    fn visit_triangle(&mut self, triangle: &Triangle) -> (res: Result<(), GenericError>)
        requires
            old(self).inv(),
        ensures
            final(self).inv(),
    ;

    fn visit_square(&mut self, square: &Square) -> (res: Result<(), GenericError>)
        requires
            old(self).inv(),
        ensures
            final(self).inv(),
    ;

    fn visit_rectangle(&mut self, rectangle: &Rectangle) -> (res: Result<(), GenericError>)
        requires
            old(self).inv(),
        ensures
            final(self).inv(),
    ;

    fn visit_diamond(&mut self, diamond: &Diamond) -> (res: Result<(), GenericError>)
        requires
            old(self).inv(),
        ensures
            final(self).inv(),
    ;

    fn visit_polygon(&mut self, polygon: &Polygon) -> (res: Result<(), GenericError>)
        requires
            old(self).inv(),
        ensures
            final(self).inv(),
    ;

    fn visit_circle(&mut self, circle: &Circle) -> (res: Result<(), GenericError>)
        requires
            old(self).inv(),
        ensures
            final(self).inv(),
    ;
}

} // verus!
