//! The rendering pass: reads the shape count, parses that many shape
//! lines, and rasterizes them in input order onto one pixel buffer.

use vstd::prelude::*;
use crate::buffer::uniform_pixels;
use crate::errors::GenericError;
use crate::errors::ParseError;
use crate::factory::ShapeFactory;
use crate::factory::ShapeModel;
use crate::factory::num_error_text;
use crate::factory::parse_uint_str;
use crate::factory::sp_shape;
use crate::fill::fill_applied;
use crate::fill::fill_region;
use crate::fill::oob_message;
use crate::midpoint::circle_points;
use crate::raster::DrawShapeVisitor;
use crate::raster::diamond_fits;
use crate::raster::diamond_vertices;
use crate::raster::in_bounds;
use crate::raster::outline_painted;
use crate::raster::paint_seq;
use crate::raster::polygon_center;
use crate::raster::rect_painted;
use crate::shapes::rectangle::Rectangle;
use crate::shapes::shape::ShapeValue;
use crate::color::rgba_of;
use crate::point::Point;
use crate::color::Color;

verus! {

// ---------------------------------------------------------------------
// Input lines, as a buffered reader yields them: split at each newline,
// a carriage return before the newline stripped.

/// The index of the first newline in `s`, or its length.
pub open spec fn newline_at(s: Seq<char>) -> int
    decreases s.len(),
{
    if s.len() == 0 || s[0] == '\n' {
        0
    } else {
        1 + newline_at(s.drop_first())
    }
}

proof fn lemma_newline_at_bounds(s: Seq<char>)
    ensures
        0 <= newline_at(s) <= s.len(),
    decreases s.len(),
{
    if s.len() > 0 && s[0] != '\n' {
        lemma_newline_at_bounds(s.drop_first());
    }
}

proof fn lemma_newline_at_is(s: Seq<char>, l: int)
    requires
        0 <= l <= s.len(),
        forall|k: int| 0 <= k < l ==> s[k] != '\n',
        l == s.len() || s[l] == '\n',
    ensures
        newline_at(s) == l,
    decreases s.len(),
{
    if s.len() == 0 || s[0] == '\n' {
        assert(l == 0);
    } else {
        assert(forall|k: int| 0 <= k < l - 1 ==> s.drop_first()[k] == s[k + 1]);
        lemma_newline_at_is(s.drop_first(), l - 1);
    }
}

/// One yielded line: the text before the newline, a carriage return
/// before the newline stripped.
pub open spec fn line_text(raw: Seq<char>, had_newline: bool) -> Seq<char> {
    if had_newline && raw.len() > 0 && raw.last() == '\r' {
        raw.drop_last()
    } else {
        raw
    }
}

/// The lines of the input, as a buffered reader yields them.
pub open spec fn split_lines(s: Seq<char>) -> Seq<Seq<char>>
    decreases s.len(),
    via split_lines_decreases
{
    if s.len() == 0 {
        Seq::<Seq<char>>::empty()
    } else {
        let k = newline_at(s);
        if k == s.len() {
            seq![line_text(s, false)]
        } else {
            seq![line_text(s.take(k), true)] + split_lines(s.skip(k + 1))
        }
    }
}

#[via_fn]
proof fn split_lines_decreases(s: Seq<char>) {
    lemma_newline_at_bounds(s);
}

/// Splits the input into the lines a buffered reader would yield.
pub(crate) fn split_into_lines(input: &str) -> (lines: Vec<String>)
    ensures
        lines@.map_values(|l: String| l@) == split_lines(input@),
{
    let n = input.unicode_len();
    let mut lines: Vec<String> = Vec::new();
    let mut i: usize = 0;
    proof {
        assert(input@.skip(0) =~= input@);
        assert(lines@.map_values(|l: String| l@) =~= Seq::<Seq<char>>::empty());
        assert(lines@.map_values(|l: String| l@) + split_lines(input@) =~= split_lines(input@));
    }
    while i < n
        invariant
            i <= n,
            n == input@.len(),
            split_lines(input@) == lines@.map_values(|l: String| l@) + split_lines(
                input@.skip(i as int),
            ),
        decreases n - i,
    {
        let start = i;
        let mut j: usize = i;
        while j < n
            invariant_except_break
                start <= j <= n,
                n == input@.len(),
                forall|k: int| start <= k < j ==> input@[k] != '\n',
            ensures
                start <= j <= n,
                n == input@.len(),
                forall|k: int| start <= k < j ==> input@[k] != '\n',
                j == n || input@[j as int] == '\n',
            decreases n - j,
        {
            if input.get_char(j) == '\n' {
                break;
            }
            j = j + 1;
        }
        let had_newline = j < n;
        let mut end = j;
        if had_newline && end > start && input.get_char(end - 1) == '\r' {
            end = end - 1;
        }
        let line = input.substring_char(start, end).to_owned();
        proof {
            let rest = input@.skip(start as int);
            assert(forall|k: int| 0 <= k < rest.len() ==> rest[k] == input@[k + start]);
            lemma_newline_at_is(rest, j - start);
            let k = newline_at(rest);
            assert(k == j - start);
            if had_newline {
                let raw = rest.take(k);
                assert(raw =~= input@.subrange(start as int, j as int));
                if raw.len() > 0 && raw.last() == '\r' {
                    assert(input@[j - 1] == '\r');
                    assert(line@ =~= raw.drop_last());
                } else {
                    assert(line@ =~= raw);
                }
                assert(line@ == line_text(raw, true));
                assert(rest.skip(k + 1) =~= input@.skip(j as int + 1));
                assert(split_lines(rest) == seq![line@] + split_lines(input@.skip(j as int + 1)));
                assert((lines@.map_values(|l: String| l@) + seq![line@]) + split_lines(
                    input@.skip(j as int + 1),
                ) =~= lines@.map_values(|l: String| l@) + (seq![line@] + split_lines(
                    input@.skip(j as int + 1),
                )));
                assert(lines@.push(line).map_values(|l: String| l@) =~= lines@.map_values(
                    |l: String| l@,
                ) + seq![line@]);
            } else {
                assert(k == rest.len());
                assert(line@ =~= rest);
                assert(split_lines(rest) == seq![line_text(rest, false)]);
                assert(line_text(rest, false) == rest);
                assert(input@.skip(n as int) =~= Seq::<char>::empty());
                assert(lines@.push(line).map_values(|l: String| l@) =~= lines@.map_values(
                    |l: String| l@,
                ) + seq![line@]);
                assert((lines@.map_values(|l: String| l@) + seq![line@]) + split_lines(
                    input@.skip(n as int),
                ) =~= lines@.map_values(|l: String| l@) + seq![line@]);
            }
        }
        lines.push(line);
        if had_newline {
            i = j + 1;
        } else {
            i = n;
        }
    }
    proof {
        assert(input@.skip(n as int) =~= Seq::<char>::empty());
        assert(split_lines(input@) =~= lines@.map_values(|l: String| l@));
    }
    lines
}

// ---------------------------------------------------------------------
// The run: count line, shape lines, then the drawing pass.

/// A failure of the whole run, at the spec level.
pub enum RunErrorModel {
    Parse(Seq<char>),
    Shape(Seq<char>),
    Draw(Seq<char>),
}

/// A failure of the whole run: reading the count or a line gives a
/// `ParseError`, a malformed shape line the factory's `GenericError`,
/// and a shape whose rasterization fails the rasterizer's error.
#[derive(Debug)]
pub enum RunError {
    Parse(ParseError),
    Shape(GenericError),
    Draw(GenericError),
}

impl View for RunError {
    type V = RunErrorModel;

    open spec fn view(&self) -> RunErrorModel {
        match self {
            RunError::Parse(e) => RunErrorModel::Parse(e.message@),
            RunError::Shape(e) => RunErrorModel::Shape(e.message@),
            RunError::Draw(e) => RunErrorModel::Draw(e.message@),
        }
    }
}

impl RunError {
    /// The message this failure carries.
    pub fn message(&self) -> (m: &String)
        ensures
            m@ == match self@ {
                RunErrorModel::Parse(s) => s,
                RunErrorModel::Shape(s) => s,
                RunErrorModel::Draw(s) => s,
            },
    {
        match self {
            RunError::Parse(e) => e.message(),
            RunError::Shape(e) => e.message(),
            RunError::Draw(e) => e.message(),
        }
    }
}

/// The shapes the input's lines parse to: `count` of them, starting
/// after the count line.
pub open spec fn sp_shapes(lines: Seq<Seq<char>>, next: int, count: int, acc: Seq<ShapeModel>)
    -> Result<Seq<ShapeModel>, RunErrorModel>
    decreases count,
{
    if count <= 0 {
        Ok(acc)
    } else if next >= lines.len() {
        Err(RunErrorModel::Parse("Error while parsing line: No more lines to parse"@))
    } else {
        match sp_shape(lines[next]) {
            Err(m) => Err(RunErrorModel::Shape(m)),
            Ok(s) => sp_shapes(lines, next + 1, count - 1, acc.push(s)),
        }
    }
}

/// What the input parses to: the count line, then exactly that many
/// shape lines.
pub open spec fn sp_run(input: Seq<char>) -> Result<Seq<ShapeModel>, RunErrorModel> {
    let lines = split_lines(input);
    if lines.len() == 0 {
        Err(RunErrorModel::Parse("Input file does not have at least one line"@))
    } else {
        match parse_uint_str(lines[0], 10, usize::MAX as int) {
            Err(e) => Err(RunErrorModel::Parse("First line of: "@ + num_error_text(e))),
            Ok(count) => sp_shapes(lines, 1, count, Seq::<ShapeModel>::empty()),
        }
    }
}

/// The buffer state a successfully rasterized shape leaves behind: the
/// drawing relation of the matching rasterization routine.
pub open spec fn draw_shape_model(dims: (u32, u32), pixels: Map<(u32, u32), (u8, u8, u8, u8)>, s: ShapeModel)
    -> ((u32, u32), Map<(u32, u32), (u8, u8, u8, u8)>) {
    match s {
        ShapeModel::Canvas(c) => {
            if 4 * (c.width as int) * (c.height as int) <= usize::MAX {
                ((c.width, c.height), uniform_pixels(c.width, c.height, rgba_of(c.color)))
            } else {
                (dims, pixels)
            }
        },
        ShapeModel::Line(l) => (
            dims,
            paint_seq(
                pixels,
                dims,
                crate::bresenham::line_points(
                    l.p0.x as int,
                    l.p0.y as int,
                    l.p1.x as int,
                    l.p1.y as int,
                ),
                rgba_of(l.color),
            ),
        ),
        ShapeModel::Square(s) => (
            dims,
            rect_painted(
                pixels,
                Rectangle {
                    top_left: s.top_left,
                    height: s.side,
                    width: s.side,
                    outline_color: s.outline_color,
                    fill_color: s.fill_color,
                },
            ),
        ),
        ShapeModel::Rectangle(r) => (dims, rect_painted(pixels, r)),
        ShapeModel::Circle(c) => (
            dims,
            circle_drawn(dims, pixels, c.center, c.radius, c.outline_color, c.fill_color),
        ),
        ShapeModel::Triangle(t) => (
            dims,
            polygon_drawn(dims, pixels, seq![t.p0, t.p1, t.p2], t.outline_color, t.fill_color),
        ),
        ShapeModel::Diamond(d) => (
            dims,
            if diamond_fits(d) {
                polygon_drawn(dims, pixels, diamond_vertices(d), d.outline_color, d.fill_color)
            } else {
                pixels
            },
        ),
        ShapeModel::Polygon { points, outline_color, fill_color } => (
            dims,
            polygon_drawn(dims, pixels, points, outline_color, fill_color),
        ),
    }
}

/// The buffer a polygon leaves behind: its outline, then, when the
/// centroid seed is on the canvas, the interior fill.
pub open spec fn polygon_drawn(
    dims: (u32, u32),
    pixels: Map<(u32, u32), (u8, u8, u8, u8)>,
    points: Seq<Point>,
    outline_color: Color,
    fill_color: Color,
) -> Map<(u32, u32), (u8, u8, u8, u8)> {
    if points.len() == 0 {
        pixels
    } else {
        let oc = rgba_of(outline_color);
        let outlined = outline_painted(pixels, dims, points, oc);
        let center = polygon_center(points);
        if in_bounds(dims, center.0, center.1) {
            fill_applied(
                outlined,
                fill_region(outlined, (center.0 as u32, center.1 as u32), oc),
                rgba_of(fill_color),
            )
        } else {
            outlined
        }
    }
}

/// The buffer a circle leaves behind: its outline, then, when the center
/// is on the canvas, the interior fill.
pub open spec fn circle_drawn(
    dims: (u32, u32),
    pixels: Map<(u32, u32), (u8, u8, u8, u8)>,
    center: Point,
    radius: u32,
    outline_color: Color,
    fill_color: Color,
) -> Map<(u32, u32), (u8, u8, u8, u8)> {
    let oc = rgba_of(outline_color);
    let outlined = paint_seq(
        pixels,
        dims,
        circle_points(center.x as int, center.y as int, radius),
        oc,
    );
    if in_bounds(dims, center.x as int, center.y as int) {
        fill_applied(outlined, fill_region(outlined, (center.x as u32, center.y as u32), oc), rgba_of(fill_color))
    } else {
        outlined
    }
}

/// Why a polygon's rasterization fails on a buffer of the given
/// dimensions, if it does: no vertices, or a centroid seed off the
/// canvas.
pub open spec fn polygon_err(dims: (u32, u32), points: Seq<Point>) -> Option<Seq<char>> {
    if points.len() == 0 {
        Some("Polygon has no points"@)
    } else {
        let center = polygon_center(points);
        if !in_bounds(dims, center.0, center.1) {
            Some(oob_message(center.0, center.1))
        } else {
            None
        }
    }
}

/// Why a shape's rasterization fails on a buffer of the given
/// dimensions, if it does; the error conditions depend only on the
/// dimensions, never on the pixels.
pub open spec fn draw_shape_err(dims: (u32, u32), s: ShapeModel) -> Option<Seq<char>> {
    match s {
        ShapeModel::Canvas(c) => {
            if 4 * (c.width as int) * (c.height as int) <= usize::MAX {
                None
            } else {
                Some("Canvas is too large"@)
            }
        },
        ShapeModel::Line(l) => None,
        ShapeModel::Square(s) => None,
        ShapeModel::Rectangle(r) => None,
        ShapeModel::Circle(c) => {
            if in_bounds(dims, c.center.x as int, c.center.y as int) {
                None
            } else {
                Some(oob_message(c.center.x as int, c.center.y as int))
            }
        },
        ShapeModel::Triangle(t) => polygon_err(dims, seq![t.p0, t.p1, t.p2]),
        ShapeModel::Diamond(d) => {
            if diamond_fits(d) {
                polygon_err(dims, diamond_vertices(d))
            } else {
                Some("Diamond vertices are out of range"@)
            }
        },
        ShapeModel::Polygon { points, outline_color, fill_color } => polygon_err(dims, points),
    }
}

/// The drawing pass over the shapes in order, from the given buffer
/// state: the state every shape leaves when each succeeds, or the first
/// failing shape's error, at which the pass halts.
pub open spec fn draw_shapes_result(
    state: ((u32, u32), Map<(u32, u32), (u8, u8, u8, u8)>),
    shapes: Seq<ShapeModel>,
) -> Result<((u32, u32), Map<(u32, u32), (u8, u8, u8, u8)>), Seq<char>>
    decreases shapes.len(),
{
    if shapes.len() == 0 {
        Ok(state)
    } else {
        match draw_shape_err(state.0, shapes[0]) {
            Some(m) => Err(m),
            None => draw_shapes_result(
                draw_shape_model(state.0, state.1, shapes[0]),
                shapes.drop_first(),
            ),
        }
    }
}

/// What the whole run produces for an input: the final buffer state
/// after parsing and drawing, or the first error on the way, each parse
/// and each drawing failure halting the run where it happens.
pub open spec fn sp_render(input: Seq<char>) -> Result<
    ((u32, u32), Map<(u32, u32), (u8, u8, u8, u8)>),
    RunErrorModel,
> {
    match sp_run(input) {
        Err(e) => Err(e),
        Ok(shapes) => match draw_shapes_result(
            ((0u32, 0u32), uniform_pixels(0, 0, (0u8, 0u8, 0u8, 0u8))),
            shapes,
        ) {
            Ok(state) => Ok(state),
            Err(m) => Err(RunErrorModel::Draw(m)),
        },
    }
}

/// The models of a list of parsed shapes.
pub open spec fn models_of(shapes: Seq<ShapeValue>) -> Seq<ShapeModel> {
    shapes.map_values(|s: ShapeValue| s@)
}

/// The whole system, from text to pixels.
pub struct Application {}

impl Application {
    /// Renders a shape description: reads the leading shape count,
    /// parses exactly that many lines, and rasterizes the shapes in
    /// input order.  Every error halts the run unrecovered: a parse
    /// failure before any drawing, a geometry failure at the first shape
    /// whose rasterization fails, and in either case no buffer is handed
    /// out.  A consequence worth noting: a shape needing an interior
    /// fill that arrives before any canvas fails here, since its fill
    /// seed cannot lie on the zero-sized buffer, while shapes that only
    /// plot pixels are still silently clipped away.
    pub fn run(input: &str) -> (res: Result<DrawShapeVisitor, RunError>)
        ensures
            match res {
                Ok(v) => v.wf() && sp_render(input@) == Ok::<
                    ((u32, u32), Map<(u32, u32), (u8, u8, u8, u8)>),
                    RunErrorModel,
                >((v.dims(), v.pixels())),
                Err(e) => sp_render(input@) == Err::<
                    ((u32, u32), Map<(u32, u32), (u8, u8, u8, u8)>),
                    RunErrorModel,
                >(e@),
            },
    {
        let shapes = match Self::read_shapes(input) {
            Ok(shapes) => shapes,
            Err(e) => {
                return Err(e);
            },
        };
        match Self::draw_shapes(&shapes) {
            Ok(visitor) => Ok(visitor),
            Err(e) => Err(RunError::Draw(e)),
        }
    }

    /// Reads the count line and parses that many shape lines.
    fn read_shapes(input: &str) -> (res: Result<Vec<ShapeValue>, RunError>)
        ensures
            match res {
                Ok(shapes) => sp_run(input@) == Ok::<Seq<ShapeModel>, RunErrorModel>(
                    models_of(shapes@),
                ),
                Err(e) => sp_run(input@) == Err::<Seq<ShapeModel>, RunErrorModel>(e@),
            },
    {
        let lines = split_into_lines(input);
        let ghost line_views = lines@.map_values(|l: String| l@);
        if lines.len() == 0 {
            return Err(
                RunError::Parse(
                    ParseError::new("Input file does not have at least one line".to_owned()),
                ),
            );
        }
        let shapes_number: usize = match crate::factory::parse_count(lines[0].as_str()) {
            Ok(num) => num,
            Err(e) => {
                let mut m = "First line of: ".to_owned();
                m.append(crate::factory::num_error_str(e));
                return Err(RunError::Parse(ParseError::new(m)));
            },
        };
        let mut shapes: Vec<ShapeValue> = Vec::new();
        let mut index: usize = 0;
        proof {
            assert(models_of(shapes@) =~= Seq::<ShapeModel>::empty());
        }
        while index < shapes_number
            invariant
                index <= shapes_number,
                line_views == lines@.map_values(|l: String| l@),
                lines@.len() >= 1,
                sp_shapes(line_views, 1, shapes_number as int, Seq::<ShapeModel>::empty())
                    == sp_shapes(
                    line_views,
                    1 + index as int,
                    shapes_number as int - index as int,
                    models_of(shapes@),
                ),
                sp_run(input@) == sp_shapes(
                    line_views,
                    1,
                    shapes_number as int,
                    Seq::<ShapeModel>::empty(),
                ),
            decreases shapes_number - index,
        {
            let ghost pre_models = models_of(shapes@);
            if 1 + index >= lines.len() {
                return Err(
                    RunError::Parse(
                        ParseError::new(
                            "Error while parsing line: No more lines to parse".to_owned(),
                        ),
                    ),
                );
            }
            let line = &lines[1 + index];
            proof {
                assert(line_views[1 + index as int] == line@);
            }
            let shape = match ShapeFactory::parse_shape(line) {
                Ok(shape) => shape,
                Err(e) => {
                    return Err(RunError::Shape(e));
                },
            };
            proof {
                assert(models_of(shapes@.push(shape)) =~= pre_models.push(shape@));
            }
            shapes.push(shape);
            index = index + 1;
        }
        Ok(shapes)
    }

    /// Rasterizes each shape in input order, halting at the first
    /// failure and handing its error up.
    fn draw_shapes(shapes: &Vec<ShapeValue>) -> (res: Result<DrawShapeVisitor, GenericError>)
        ensures
            ({
                let init = ((0u32, 0u32), uniform_pixels(0, 0, (0u8, 0u8, 0u8, 0u8)));
                match res {
                    Ok(v) => {
                        &&& v.wf()
                        &&& draw_shapes_result(init, models_of(shapes@)) == Ok::<
                            ((u32, u32), Map<(u32, u32), (u8, u8, u8, u8)>),
                            Seq<char>,
                        >((v.dims(), v.pixels()))
                    },
                    Err(e) => draw_shapes_result(init, models_of(shapes@)) == Err::<
                        ((u32, u32), Map<(u32, u32), (u8, u8, u8, u8)>),
                        Seq<char>,
                    >(e.message@),
                }
            }),
    {
        let mut draw_visitor = DrawShapeVisitor::new();
        let ghost init = (draw_visitor.dims(), draw_visitor.pixels());
        let ghost models = models_of(shapes@);
        let mut i: usize = 0;
        proof {
            assert(models.skip(0) =~= models);
        }
        while i < shapes.len()
            invariant
                i <= shapes@.len(),
                models == models_of(shapes@),
                draw_visitor.wf(),
                init == ((0u32, 0u32), uniform_pixels(0, 0, (0u8, 0u8, 0u8, 0u8))),
                draw_shapes_result(init, models) == draw_shapes_result(
                    (draw_visitor.dims(), draw_visitor.pixels()),
                    models.skip(i as int),
                ),
            decreases shapes@.len() - i,
        {
            let ghost pre = (draw_visitor.dims(), draw_visitor.pixels());
            let shape = &shapes[i];
            proof {
                assert(models[i as int] == shapes@[i as int]@);
                assert(models.skip(i as int)[0] == models[i as int]);
                assert(models.skip(i as int).drop_first() =~= models.skip(i as int + 1));
            }
            let step = match shape {
                ShapeValue::Canvas(c) => draw_visitor.rasterize_canvas(c),
                ShapeValue::Line(l) => draw_visitor.rasterize_line(l),
                ShapeValue::Square(s) => draw_visitor.rasterize_square(s),
                ShapeValue::Rectangle(r) => draw_visitor.rasterize_rectangle(r),
                ShapeValue::Circle(c) => draw_visitor.rasterize_circle(c),
                ShapeValue::Triangle(t) => draw_visitor.rasterize_triangle(t),
                ShapeValue::Diamond(d) => draw_visitor.rasterize_diamond(d),
                ShapeValue::Polygon(p) => draw_visitor.rasterize_polygon(p),
            };
            match step {
                Ok(_) => {
                    proof {
                        assert(draw_shape_err(pre.0, models[i as int]) is None);
                        assert((draw_visitor.dims(), draw_visitor.pixels()) == draw_shape_model(
                            pre.0,
                            pre.1,
                            models[i as int],
                        ));
                    }
                },
                Err(e) => {
                    proof {
                        assert(draw_shape_err(pre.0, models[i as int]) == Some(e.message@));
                        assert(draw_shapes_result(pre, models.skip(i as int)) == Err::<
                            ((u32, u32), Map<(u32, u32), (u8, u8, u8, u8)>),
                            Seq<char>,
                        >(e.message@));
                    }
                    return Err(e);
                },
            }
            i = i + 1;
        }
        proof {
            assert(models.skip(shapes@.len() as int) =~= Seq::<ShapeModel>::empty());
        }
        Ok(draw_visitor)
    }
}

} // verus!
