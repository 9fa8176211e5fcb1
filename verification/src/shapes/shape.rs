//! Double dispatch: every shape accepts a visitor, and a sum type carries
//! any parsed shape to the rendering pass.

use vstd::prelude::*;
use crate::errors::GenericError;
use crate::shapes::canvas::Canvas;
use crate::shapes::circle::Circle;
use crate::shapes::diamond::Diamond;
use crate::shapes::line::Line;
use crate::shapes::polygon::Polygon;
use crate::shapes::rectangle::Rectangle;
use crate::shapes::square::Square;
use crate::shapes::triangle::Triangle;
use crate::visitor::ShapeVisitor;

verus! {

/// The one capability every shape variant offers: accept a visitor by
/// invoking the operation matching the variant.
pub trait Shape {
    fn accept<V: ShapeVisitor>(&self, shape_visitor: &mut V) -> (res: Result<(), GenericError>)
        requires
            old(shape_visitor).inv(),
        ensures
            final(shape_visitor).inv(),
    ;
}

impl Shape for Canvas {
    fn accept<V: ShapeVisitor>(&self, shape_visitor: &mut V) -> Result<(), GenericError> {
        shape_visitor.visit_canvas(self)
    }
}

impl Shape for Line {
    fn accept<V: ShapeVisitor>(&self, shape_visitor: &mut V) -> Result<(), GenericError> {
        shape_visitor.visit_line(self)
    }
}

impl Shape for Triangle {
    fn accept<V: ShapeVisitor>(&self, shape_visitor: &mut V) -> Result<(), GenericError> {
        shape_visitor.visit_triangle(self)
    }
}

impl Shape for Square {
    fn accept<V: ShapeVisitor>(&self, shape_visitor: &mut V) -> Result<(), GenericError> {
        shape_visitor.visit_square(self)
    }
}

impl Shape for Rectangle {
    fn accept<V: ShapeVisitor>(&self, shape_visitor: &mut V) -> Result<(), GenericError> {
        shape_visitor.visit_rectangle(self)
    }
}

impl Shape for Diamond {
    fn accept<V: ShapeVisitor>(&self, shape_visitor: &mut V) -> Result<(), GenericError> {
        shape_visitor.visit_diamond(self)
    }
}

impl Shape for Polygon {
    fn accept<V: ShapeVisitor>(&self, shape_visitor: &mut V) -> Result<(), GenericError> {
        shape_visitor.visit_polygon(self)
    }
}

impl Shape for Circle {
    fn accept<V: ShapeVisitor>(&self, shape_visitor: &mut V) -> Result<(), GenericError> {
        shape_visitor.visit_circle(self)
    }
}

/// A parsed shape: one of the eight supported variants.
#[derive(Debug)]
pub enum ShapeValue {
    Canvas(Canvas),
    Line(Line),
    Square(Square),
    Rectangle(Rectangle),
    Circle(Circle),
    Triangle(Triangle),
    Diamond(Diamond),
    Polygon(Polygon),
}

impl ShapeValue {
    /// Dispatches the held variant to the visitor through its own
    /// `accept`.
    pub fn accept<V: ShapeVisitor>(&self, shape_visitor: &mut V) -> (res: Result<
        (),
        GenericError,
    >)
        requires
            old(shape_visitor).inv(),
        ensures
            final(shape_visitor).inv(),
    {
        match self {
            ShapeValue::Canvas(s) => s.accept(shape_visitor),
            ShapeValue::Line(s) => s.accept(shape_visitor),
            ShapeValue::Square(s) => s.accept(shape_visitor),
            ShapeValue::Rectangle(s) => s.accept(shape_visitor),
            ShapeValue::Circle(s) => s.accept(shape_visitor),
            ShapeValue::Triangle(s) => s.accept(shape_visitor),
            ShapeValue::Diamond(s) => s.accept(shape_visitor),
            ShapeValue::Polygon(s) => s.accept(shape_visitor),
        }
    }
}

} // verus!
