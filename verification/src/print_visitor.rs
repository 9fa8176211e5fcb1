//! The text dumper: a visitor that renders each shape's human-readable
//! line into an output buffer, one line per visited shape.

use vstd::prelude::*;
use crate::color::Color;
use crate::errors::GenericError;
use crate::point::Point;
use crate::shapes::canvas::Canvas;
use crate::shapes::circle::Circle;
use crate::shapes::diamond::Diamond;
use crate::shapes::line::Line;
use crate::shapes::polygon::Polygon;
use crate::shapes::rectangle::Rectangle;
use crate::shapes::square::Square;
use crate::shapes::triangle::Triangle;
use crate::textfmt::dec_digits;
use crate::textfmt::dec_int;
use crate::textfmt::hex_digits;
use crate::textfmt::i32_to_string;
use crate::textfmt::u32_to_string;
use crate::textfmt::u8_to_hex;
use crate::textfmt::u8_to_string;
use crate::visitor::ShapeVisitor;

verus! {

/// A point's text: `(x, y)`.
pub open spec fn point_dump(p: Point) -> Seq<char> {
    "("@ + dec_int(p.x as int) + ", "@ + dec_int(p.y as int) + ")"@
}

/// A color's text: three unpadded uppercase hex channels and the
/// decimal alpha.
pub open spec fn color_dump(c: Color) -> Seq<char> {
    "#"@ + hex_digits(c.r as int) + hex_digits(c.g as int) + hex_digits(c.b as int) + " "@
        + dec_digits(c.a as int)
}

pub open spec fn canvas_dump(c: Canvas) -> Seq<char> {
    "Canvas height: "@ + dec_digits(c.height as int) + " wirth: "@ + dec_digits(c.width as int)
        + " color: "@ + color_dump(c.color)
}

pub open spec fn line_dump(l: Line) -> Seq<char> {
    "Line p0: "@ + point_dump(l.p0) + " p1: "@ + point_dump(l.p1) + " color: "@ + color_dump(
        l.color,
    )
}

pub open spec fn triangle_dump(t: Triangle) -> Seq<char> {
    "Triangle p0: "@ + point_dump(t.p0) + " p1: "@ + point_dump(t.p1) + " p2: "@ + point_dump(
        t.p2,
    ) + " outline color: "@ + color_dump(t.outline_color) + " fill color: "@ + color_dump(
        t.fill_color,
    )
}

pub open spec fn square_dump(s: Square) -> Seq<char> {
    "Square top left point: "@ + point_dump(s.top_left) + " side: "@ + dec_digits(s.side as int)
        + " outline color: "@ + color_dump(s.outline_color) + " fill color: "@ + color_dump(
        s.fill_color,
    )
}

pub open spec fn rectangle_dump(r: Rectangle) -> Seq<char> {
    "Rectangle top left point: "@ + point_dump(r.top_left) + " height: "@ + dec_digits(
        r.height as int,
    ) + " width: "@ + dec_digits(r.width as int) + " outline color: "@ + color_dump(
        r.outline_color,
    ) + " fill color: "@ + color_dump(r.fill_color)
}

pub open spec fn diamond_dump(d: Diamond) -> Seq<char> {
    "Diamond center: "@ + point_dump(d.center) + " horizontal diagonal: "@ + dec_digits(
        d.horizontal_diagonal as int,
    ) + " vertical diagonal: "@ + dec_digits(d.vertical_diagonal as int) + " outlone color: "@
        + color_dump(d.outline_color) + " fill color: "@ + color_dump(d.fill_color)
}

pub open spec fn circle_dump(c: Circle) -> Seq<char> {
    "Circle center: "@ + point_dump(c.center) + " radius: "@ + dec_digits(c.radius as int)
        + " outline color: "@ + color_dump(c.outline_color) + " fill color: "@ + color_dump(
        c.fill_color,
    )
}

/// The polygon's points, joined by a comma and a space.
pub open spec fn points_joined(pts: Seq<Point>) -> Seq<char>
    decreases pts.len(),
{
    if pts.len() == 0 {
        Seq::<char>::empty()
    } else if pts.len() == 1 {
        point_dump(pts[0])
    } else {
        points_joined(pts.drop_last()) + ", "@ + point_dump(pts.last())
    }
}

pub open spec fn polygon_dump(p: Polygon) -> Seq<char> {
    "Polygon points: "@ + points_joined(p.points@) + " outline color: "@ + color_dump(
        p.outline_color,
    ) + " fill color: "@ + color_dump(p.fill_color)
}

/// A point's text: `(x, y)`.
fn point_text(p: Point) -> (s: String)
    ensures
        s@ == point_dump(p),
{
    let mut s = "(".to_owned();
    s.append(i32_to_string(p.x).as_str());
    s.append(", ");
    s.append(i32_to_string(p.y).as_str());
    s.append(")");
    s
}

/// A color's text: hex channels and decimal alpha.
fn color_text(c: Color) -> (s: String)
    ensures
        s@ == color_dump(c),
{
    let mut s = "#".to_owned();
    s.append(u8_to_hex(c.r).as_str());
    s.append(u8_to_hex(c.g).as_str());
    s.append(u8_to_hex(c.b).as_str());
    s.append(" ");
    s.append(u8_to_string(c.a).as_str());
    s
}

/// The dumper: accumulates one line of text per visited shape.  The
/// caller prints the buffer; the library itself performs no output.
pub struct PrintShapeVisitor {
    pub output: String,
}

impl PrintShapeVisitor {
    /// A dumper with an empty output buffer.
    pub fn new() -> (v: PrintShapeVisitor)
        ensures
            v.output@ == Seq::<char>::empty(),
    {
        PrintShapeVisitor { output: String::new() }
    }

    /// The accumulated dump, one line per visited shape.
    pub fn get_output(&self) -> (s: &String)
        ensures
            s == &self.output,
    {
        &self.output
    }
}

impl ShapeVisitor for PrintShapeVisitor {
    /// The dumper has no state to keep well formed.
    open spec fn inv(&self) -> bool {
        true
    }

    fn visit_canvas(&mut self, canvas: &Canvas) -> (res: Result<(), GenericError>)
        ensures
            final(self).output@ == old(self).output@ + canvas_dump(*canvas) + "\n"@,
            res is Ok,
    {
        self.output.append("Canvas height: ");
        self.output.append(u32_to_string(canvas.height).as_str());
        self.output.append(" wirth: ");
        self.output.append(u32_to_string(canvas.width).as_str());
        self.output.append(" color: ");
        self.output.append(color_text(canvas.color).as_str());
        self.output.append("\n");
        Ok(())
    }

    fn visit_line(&mut self, line: &Line) -> (res: Result<(), GenericError>)
        ensures
            final(self).output@ == old(self).output@ + line_dump(*line) + "\n"@,
            res is Ok,
    {
        self.output.append("Line p0: ");
        self.output.append(point_text(line.p0).as_str());
        self.output.append(" p1: ");
        self.output.append(point_text(line.p1).as_str());
        self.output.append(" color: ");
        self.output.append(color_text(line.color).as_str());
        self.output.append("\n");
        Ok(())
    }

    fn visit_triangle(&mut self, triangle: &Triangle) -> (res: Result<(), GenericError>)
        ensures
            final(self).output@ == old(self).output@ + triangle_dump(*triangle) + "\n"@,
            res is Ok,
    {
        self.output.append("Triangle p0: ");
        self.output.append(point_text(triangle.p0).as_str());
        self.output.append(" p1: ");
        self.output.append(point_text(triangle.p1).as_str());
        self.output.append(" p2: ");
        self.output.append(point_text(triangle.p2).as_str());
        self.output.append(" outline color: ");
        self.output.append(color_text(triangle.outline_color).as_str());
        self.output.append(" fill color: ");
        self.output.append(color_text(triangle.fill_color).as_str());
        self.output.append("\n");
        Ok(())
    }

    fn visit_square(&mut self, square: &Square) -> (res: Result<(), GenericError>)
        ensures
            final(self).output@ == old(self).output@ + square_dump(*square) + "\n"@,
            res is Ok,
    {
        self.output.append("Square top left point: ");
        self.output.append(point_text(square.top_left).as_str());
        self.output.append(" side: ");
        self.output.append(u32_to_string(square.side).as_str());
        self.output.append(" outline color: ");
        self.output.append(color_text(square.outline_color).as_str());
        self.output.append(" fill color: ");
        self.output.append(color_text(square.fill_color).as_str());
        self.output.append("\n");
        Ok(())
    }

    fn visit_rectangle(&mut self, rectangle: &Rectangle) -> (res: Result<(), GenericError>)
        ensures
            final(self).output@ == old(self).output@ + rectangle_dump(*rectangle) + "\n"@,
            res is Ok,
    {
        self.output.append("Rectangle top left point: ");
        self.output.append(point_text(rectangle.top_left).as_str());
        self.output.append(" height: ");
        self.output.append(u32_to_string(rectangle.height).as_str());
        self.output.append(" width: ");
        self.output.append(u32_to_string(rectangle.width).as_str());
        self.output.append(" outline color: ");
        self.output.append(color_text(rectangle.outline_color).as_str());
        self.output.append(" fill color: ");
        self.output.append(color_text(rectangle.fill_color).as_str());
        self.output.append("\n");
        Ok(())
    }

    fn visit_diamond(&mut self, diamond: &Diamond) -> (res: Result<(), GenericError>)
        ensures
            final(self).output@ == old(self).output@ + diamond_dump(*diamond) + "\n"@,
            res is Ok,
    {
        self.output.append("Diamond center: ");
        self.output.append(point_text(diamond.center).as_str());
        self.output.append(" horizontal diagonal: ");
        self.output.append(u32_to_string(diamond.horizontal_diagonal).as_str());
        self.output.append(" vertical diagonal: ");
        self.output.append(u32_to_string(diamond.vertical_diagonal).as_str());
        self.output.append(" outlone color: ");
        self.output.append(color_text(diamond.outline_color).as_str());
        self.output.append(" fill color: ");
        self.output.append(color_text(diamond.fill_color).as_str());
        self.output.append("\n");
        Ok(())
    }

    fn visit_polygon(&mut self, polygon: &Polygon) -> (res: Result<(), GenericError>)
        ensures
            final(self).output@ == old(self).output@ + polygon_dump(*polygon) + "\n"@,
            res is Ok,
    {
        self.output.append("Polygon points: ");
        let points = polygon.get_points();
        let ghost pts = points@;
        let mut i: usize = 0;
        let mut joined = String::new();
        proof {
            assert(pts.take(0) =~= Seq::<Point>::empty());
            assert(joined@ =~= points_joined(pts.take(0)));
        }
        while i < points.len()
            invariant
                i <= pts.len(),
                pts == points@,
                joined@ == points_joined(pts.take(i as int)),
            decreases pts.len() - i,
        {
            if i > 0 {
                joined.append(", ");
            }
            joined.append(point_text(points[i]).as_str());
            proof {
                assert(pts.take(i as int + 1).drop_last() =~= pts.take(i as int));
                assert(pts.take(i as int + 1).last() == pts[i as int]);
                if i == 0 {
                    assert(pts.take(1).len() == 1 && pts.take(1)[0] == pts[0]);
                }
            }
            i = i + 1;
        }
        proof {
            assert(pts.take(pts.len() as int) =~= pts);
        }
        self.output.append(joined.as_str());
        self.output.append(" outline color: ");
        self.output.append(color_text(polygon.outline_color).as_str());
        self.output.append(" fill color: ");
        self.output.append(color_text(polygon.fill_color).as_str());
        self.output.append("\n");
        Ok(())
    }

    fn visit_circle(&mut self, circle: &Circle) -> (res: Result<(), GenericError>)
        ensures
            final(self).output@ == old(self).output@ + circle_dump(*circle) + "\n"@,
            res is Ok,
    {
        self.output.append("Circle center: ");
        self.output.append(point_text(circle.center).as_str());
        self.output.append(" radius: ");
        self.output.append(u32_to_string(circle.radius).as_str());
        self.output.append(" outline color: ");
        self.output.append(color_text(circle.outline_color).as_str());
        self.output.append(" fill color: ");
        self.output.append(color_text(circle.fill_color).as_str());
        self.output.append("\n");
        Ok(())
    }
}

} // verus!
