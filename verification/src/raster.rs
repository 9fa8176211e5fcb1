//! The rasterizer: a visitor holding the pixel buffer, with one
//! scan-conversion routine per shape variant.

use vstd::prelude::*;
use vstd::assert_maps_equal;
use vstd::assert_sets_equal;
use vstd::map::*;
use crate::buffer::PixelBuffer;
use crate::buffer::grid_dom;
use crate::buffer::image_get_pixel;
use crate::buffer::image_height;
use crate::buffer::image_new;
use crate::buffer::image_put_pixel;
use crate::buffer::image_raw_bytes;
use crate::buffer::image_width;
use crate::buffer::img_dims;
use crate::buffer::img_pixels;
use crate::buffer::img_wf;
use crate::buffer::uniform_pixels;
use crate::color::Color;
use crate::color::rgba_of;
use crate::errors::GenericError;
use crate::shapes::canvas::Canvas;
use crate::shapes::line::Line;
use crate::shapes::rectangle::Rectangle;
use crate::shapes::square::Square;
use crate::bresenham::bres_inv;
use crate::bresenham::bres_rec;
use crate::bresenham::lemma_bres_step;
use crate::bresenham::lemma_line_points_inv;
use crate::bresenham::line_points;
use crate::midpoint::circle_points;
use crate::midpoint::circle_rec;
use crate::midpoint::octant_points;
use crate::midpoint::radius_start;
use crate::fill::fill_applied;
use crate::fill::fill_region;
use crate::fill::flood_fill;
use crate::fill::oob_message;
use crate::shapes::circle::Circle;
use crate::shapes::diamond::Diamond;
use crate::shapes::polygon::Polygon;
use crate::shapes::triangle::Triangle;
use crate::point::Point;
use crate::visitor::ShapeVisitor;
use vstd::arithmetic::div_mod::lemma_fundamental_div_mod;

verus! {

/// Whether `(x, y)` lies on the buffer; off-canvas points are clipped,
/// not an error.
pub(crate) fn is_pixel_inside_image(image: &PixelBuffer, x: i64, y: i64) -> (r: bool)
    ensures
        r == in_bounds(img_dims(*image), x as int, y as int),
{
    let w = image_width(image);
    let h = image_height(image);
    x >= 0 && x < (w as i64) && y >= 0 && y < (h as i64)
}

/// A clipped pixel write: stores `color` at `(x, y)` when that point is
/// on the buffer, and does nothing otherwise.
pub(crate) fn put_pixel(image: &mut PixelBuffer, x: i64, y: i64, color: Color)
    requires
        img_wf(*old(image)),
    ensures
        img_wf(*final(image)),
        img_dims(*final(image)) == img_dims(*old(image)),
        img_pixels(*final(image)) == paint_one(
            img_pixels(*old(image)),
            img_dims(*old(image)),
            x as int,
            y as int,
            rgba_of(color),
        ),
{
    if is_pixel_inside_image(image, x, y) {
        let ghost before = img_pixels(*image);
        let ghost dims = img_dims(*image);
        image_put_pixel(image, x as u32, y as u32, color);
        proof {
            lemma_paint_one_dom(before, dims, x as int, y as int, rgba_of(color));
        }
    }
}

/// Whether `(x, y)` lies on a buffer of the given dimensions.
pub open spec fn in_bounds(dims: (u32, u32), x: int, y: int) -> bool {
    0 <= x < dims.0 && 0 <= y < dims.1
}

/// The pixel map after one clipped write: the pixel at `(x, y)` holds `c`
/// if the coordinate is in bounds, and nothing else changes.
pub open spec fn paint_one(
    m: Map<(u32, u32), (u8, u8, u8, u8)>,
    dims: (u32, u32),
    x: int,
    y: int,
    c: (u8, u8, u8, u8),
) -> Map<(u32, u32), (u8, u8, u8, u8)> {
    if in_bounds(dims, x, y) {
        m.insert((x as u32, y as u32), c)
    } else {
        m
    }
}

/// The pixel map after clipped writes of `c` at each point of `pts`, in
/// order.
pub open spec fn paint_seq(
    m: Map<(u32, u32), (u8, u8, u8, u8)>,
    dims: (u32, u32),
    pts: Seq<(int, int)>,
    c: (u8, u8, u8, u8),
) -> Map<(u32, u32), (u8, u8, u8, u8)>
    decreases pts.len(),
{
    if pts.len() == 0 {
        m
    } else {
        paint_seq(paint_one(m, dims, pts[0].0, pts[0].1, c), dims, pts.drop_first(), c)
    }
}

/// Painting preserves the domain of the pixel map.
pub proof fn lemma_paint_one_dom(
    m: Map<(u32, u32), (u8, u8, u8, u8)>,
    dims: (u32, u32),
    x: int,
    y: int,
    c: (u8, u8, u8, u8),
)
    requires
        m.dom() == grid_dom(dims.0, dims.1),
    ensures
        paint_one(m, dims, x, y, c).dom() == grid_dom(dims.0, dims.1),
{
    if in_bounds(dims, x, y) {
        assert_sets_equal!(m.insert((x as u32, y as u32), c).dom(), grid_dom(dims.0, dims.1));
    }
}

/// The rasterizer: owns the single pixel buffer every shape draws into.
/// A fresh visitor holds a zero-sized buffer, so every write is clipped
/// away until a canvas is visited.
pub struct DrawShapeVisitor {
    pub image: PixelBuffer,
}

impl DrawShapeVisitor {
    /// The buffer's `(width, height)`.
    pub open spec fn dims(&self) -> (u32, u32) {
        img_dims(self.image)
    }

    /// The buffer's contents.
    pub open spec fn pixels(&self) -> Map<(u32, u32), (u8, u8, u8, u8)> {
        img_pixels(self.image)
    }

    /// The buffer's contents cover exactly its bounds.
    pub open spec fn wf(&self) -> bool {
        img_wf(self.image)
    }

    /// A fresh rasterizer with a zero-sized buffer.
    pub fn new() -> (v: DrawShapeVisitor)
        ensures
            v.wf(),
            v.dims() == (0u32, 0u32),
    {
        let image = image_new(0, 0);
        proof {
            assert_sets_equal!(uniform_pixels(0, 0, (0u8, 0u8, 0u8, 0u8)).dom(), grid_dom(0, 0));
        }
        DrawShapeVisitor { image }
    }

    /// The buffer's width in pixels.
    pub fn width(&self) -> (w: u32)
        ensures
            w == self.dims().0,
    {
        image_width(&self.image)
    }

    /// The buffer's height in pixels.
    pub fn height(&self) -> (h: u32)
        ensures
            h == self.dims().1,
    {
        image_height(&self.image)
    }

    /// The color stored at `(x, y)`, or `None` outside the buffer.
    pub fn pixel_at(&self, x: u32, y: u32) -> (res: Option<Color>)
        requires
            self.wf(),
        ensures
            res == (if in_bounds(self.dims(), x as int, y as int) {
                let c = self.pixels()[(x, y)];
                Some(Color { r: c.0, g: c.1, b: c.2, a: c.3 })
            } else {
                Option::<Color>::None
            }),
    {
        let w = image_width(&self.image);
        let h = image_height(&self.image);
        if x < w && y < h {
            let c = image_get_pixel(&self.image, x, y);
            Some(Color { r: c.0, g: c.1, b: c.2, a: c.3 })
        } else {
            None
        }
    }

    /// The buffer's raw bytes: row major, four bytes per pixel, the
    /// pixel at `(x, y)` starting at byte `4 * (y * width + x)`.
    pub fn raw_bytes(&self) -> (bytes: Vec<u8>)
        requires
            self.wf(),
        ensures
            bytes@.len() == 4 * (self.dims().0 as int) * (self.dims().1 as int),
            forall|x: u32, y: u32|
                #![trigger self.pixels()[(x, y)]]
                x < self.dims().0 && y < self.dims().1 ==> {
                    let i = 4 * ((y as int) * (self.dims().0 as int) + (x as int));
                    let c = self.pixels()[(x, y)];
                    bytes@[i] == c.0 && bytes@[i + 1] == c.1 && bytes@[i + 2] == c.2 && bytes@[i
                        + 3] == c.3
                },
    {
        let bytes = image_raw_bytes(&self.image);
        proof {
            assert forall|x: u32, y: u32|
                x < self.dims().0 && y < self.dims().1 implies {
                let i = 4 * ((y as int) * (self.dims().0 as int) + (x as int));
                let c = #[trigger] self.pixels()[(x, y)];
                bytes@[i] == c.0 && bytes@[i + 1] == c.1 && bytes@[i + 2] == c.2 && bytes@[i + 3]
                    == c.3
            } by {
                assert(img_pixels(self.image).dom().contains((x, y)));
            }
        }
        bytes
    }

    /// Replaces the buffer with a fresh `width` by `height` one whose
    /// every pixel holds the canvas background color.  Fails, changing
    /// nothing, when the backing allocation would not fit in `usize`.
    pub fn rasterize_canvas(&mut self, canvas: &Canvas) -> (res: Result<(), GenericError>)
        requires
            old(self).wf(),
        ensures
            final(self).wf(),
            res is Ok <==> 4 * (canvas.width as int) * (canvas.height as int) <= usize::MAX,
            res is Ok ==> final(self).dims() == (canvas.width, canvas.height) && final(self).pixels()
                == uniform_pixels(canvas.width, canvas.height, rgba_of(canvas.color)),
            res matches Err(e) ==> *final(self) == *old(self) && e.message@
                == "Canvas is too large"@,
    {
        let width = canvas.get_width();
        let height = canvas.get_height();
        proof {
            assert((4 * (width as int)) * (height as int) <= 0x4_0000_0000_0000_0000)
                by (nonlinear_arith)
                requires
                    width <= 0xffff_ffffu32,
                    height <= 0xffff_ffffu32,
            ;
        }
        let bytes: u128 = 4u128 * (width as u128) * (height as u128);
        if bytes > usize::MAX as u128 {
            return Err(GenericError::new("Canvas is too large".to_owned()));
        }
        self.image = image_new(width, height);
        let color = canvas.get_color();
        let ghost zero = (0u8, 0u8, 0u8, 0u8);
        let ghost target = uniform_pixels(width, height, rgba_of(color));
        proof {
            assert_sets_equal!(uniform_pixels(width, height, zero).dom(), grid_dom(width, height));
        }
        let mut y: u32 = 0;
        while y < height
            invariant
                self.wf(),
                self.dims() == (width, height),
                y <= height,
                forall|p: (u32, u32)|
                    p.0 < width && p.1 < height ==> self.pixels()[p] == (if p.1 < y {
                        rgba_of(canvas.color)
                    } else {
                        zero
                    }),
                rgba_of(color) == rgba_of(canvas.color),
            decreases height - y,
        {
            let mut x: u32 = 0;
            while x < width
                invariant
                    self.wf(),
                    self.dims() == (width, height),
                    x <= width,
                    y < height,
                    forall|p: (u32, u32)|
                        p.0 < width && p.1 < height ==> self.pixels()[p] == (if p.1 < y || (p.1 == y
                            && p.0 < x) {
                            rgba_of(canvas.color)
                        } else {
                            zero
                        }),
                    rgba_of(color) == rgba_of(canvas.color),
                decreases width - x,
            {
                let ghost before = self.pixels();
                image_put_pixel(&mut self.image, x, y, color);
                proof {
                    assert_sets_equal!(before.insert((x, y), rgba_of(canvas.color)).dom(), grid_dom(width, height));
                }
                x = x + 1;
            }
            y = y + 1;
        }
        proof {
            assert_maps_equal!(self.pixels(), target);
        }
        Ok(())
    }
}

impl DrawShapeVisitor {
    /// Draws the line by the generalized integer traversal of
    /// `line_points`, both endpoints included, clipping each plotted
    /// point against the buffer.
    pub fn rasterize_line(&mut self, line: &Line) -> (res: Result<(), GenericError>)
        requires
            old(self).wf(),
        ensures
            final(self).wf(),
            final(self).dims() == old(self).dims(),
            final(self).pixels() == paint_seq(
                old(self).pixels(),
                old(self).dims(),
                line_points(
                    line.p0.x as int,
                    line.p0.y as int,
                    line.p1.x as int,
                    line.p1.y as int,
                ),
                rgba_of(line.color),
            ),
            res is Ok,
    {
        let color = line.get_color();
        let mut x0: i64 = line.get_p0().x as i64;
        let mut y0: i64 = line.get_p0().y as i64;
        let x1: i64 = line.get_p1().x as i64;
        let y1: i64 = line.get_p1().y as i64;

        let dx: i64 = if x1 >= x0 {
            x1 - x0
        } else {
            x0 - x1
        };
        let sx: i64 = if x0 < x1 {
            1
        } else {
            -1
        };
        let dy: i64 = if y1 >= y0 {
            -(y1 - y0)
        } else {
            -(y0 - y1)
        };
        let sy: i64 = if y0 < y1 {
            1
        } else {
            -1
        };
        let mut err: i64 = dx + dy;

        let ghost orig = self.pixels();
        let ghost dims = self.dims();
        let ghost c = rgba_of(line.color);
        let ghost full = line_points(
            line.p0.x as int,
            line.p0.y as int,
            line.p1.x as int,
            line.p1.y as int,
        );
        proof {
            lemma_line_points_inv(x0 as int, y0 as int, x1 as int, y1 as int);
            assert(full == bres_rec(
                x0 as int,
                y0 as int,
                x1 as int,
                y1 as int,
                sx as int,
                sy as int,
                dx as int,
                dy as int,
                err as int,
            ));
        }
        loop
            invariant_except_break
                self.wf(),
                self.dims() == dims,
                bres_inv(
                    x0 as int,
                    y0 as int,
                    x1 as int,
                    y1 as int,
                    sx as int,
                    sy as int,
                    dx as int,
                    dy as int,
                    err as int,
                ),
                2 * (dy as int) <= err as int <= 2 * (dx as int),
                0 <= dx as int <= 0x1_0000_0000,
                -0x1_0000_0000 <= dy as int <= 0,
                -0x8000_0000 <= x1 as int <= 0x8000_0000,
                -0x8000_0000 <= y1 as int <= 0x8000_0000,
                x1 - dx <= x0 <= x1 + dx,
                y1 + dy <= y0 <= y1 - dy,
                color == line.color,
                c == rgba_of(line.color),
                paint_seq(orig, dims, full, c) == paint_seq(
                    self.pixels(),
                    dims,
                    bres_rec(
                        x0 as int,
                        y0 as int,
                        x1 as int,
                        y1 as int,
                        sx as int,
                        sy as int,
                        dx as int,
                        dy as int,
                        err as int,
                    ),
                    c,
                ),
            ensures
                self.wf(),
                self.dims() == dims,
                self.pixels() == paint_seq(orig, dims, full, c),
            decreases (sx as int) * (x1 as int - x0 as int) + (sy as int) * (y1 as int - y0 as int),
        {
            let ghost pre = self.pixels();
            let ghost ox = x0 as int;
            let ghost oy = y0 as int;
            let ghost oerr = err as int;
            let ghost rem = bres_rec(
                ox,
                oy,
                x1 as int,
                y1 as int,
                sx as int,
                sy as int,
                dx as int,
                dy as int,
                oerr,
            );
            put_pixel(&mut self.image, x0, y0, color);
            if (x0 == x1) && (y0 == y1) {
                proof {
                    assert(rem =~= seq![(ox, oy)]);
                    assert(rem.len() == 1 && rem[0] == (ox, oy));
                    assert(rem.drop_first() =~= Seq::<(int, int)>::empty());
                    assert(paint_seq(pre, dims, rem, c) == paint_seq(
                        paint_one(pre, dims, ox, oy, c),
                        dims,
                        rem.drop_first(),
                        c,
                    ));
                    assert(rem.drop_first().len() == 0);
                    assert(paint_seq(paint_one(pre, dims, ox, oy, c), dims, rem.drop_first(), c)
                        == paint_one(pre, dims, ox, oy, c));
                    assert(paint_seq(pre, dims, rem, c) == self.pixels());
                }
                break;
            }
            proof {
                lemma_bres_step(
                    ox,
                    oy,
                    x1 as int,
                    y1 as int,
                    sx as int,
                    sy as int,
                    dx as int,
                    dy as int,
                    oerr,
                );
            }
            let e2: i64 = 2 * err;
            if e2 >= dy {
                err = err + dy;
                x0 = x0 + sx;
            }
            if e2 <= dx {
                err = err + dx;
                y0 = y0 + sy;
            }
            proof {
                let nx = if 2 * oerr >= dy as int {
                    ox + sx as int
                } else {
                    ox
                };
                let ny = if 2 * oerr <= dx as int {
                    oy + sy as int
                } else {
                    oy
                };
                let nerr = oerr + (if 2 * oerr >= dy as int {
                    dy as int
                } else {
                    0int
                }) + (if 2 * oerr <= dx as int {
                    dx as int
                } else {
                    0int
                });
                assert(x0 as int == nx && y0 as int == ny && err as int == nerr);
                let nrem = bres_rec(
                    nx,
                    ny,
                    x1 as int,
                    y1 as int,
                    sx as int,
                    sy as int,
                    dx as int,
                    dy as int,
                    nerr,
                );
                assert(rem =~= seq![(ox, oy)] + nrem);
                assert(rem.len() > 0 && rem[0] == (ox, oy));
                assert(rem.drop_first() =~= nrem);
                assert(paint_seq(pre, dims, rem, c) == paint_seq(
                    paint_one(pre, dims, rem[0].0, rem[0].1, c),
                    dims,
                    rem.drop_first(),
                    c,
                ));
                assert(paint_seq(pre, dims, rem, c) == paint_seq(
                    paint_one(pre, dims, ox, oy, c),
                    dims,
                    nrem,
                    c,
                ));
                assert(self.pixels() == paint_one(pre, dims, ox, oy, c));
                assert(x1 as int - dx as int <= nx <= x1 as int + dx as int) by (nonlinear_arith)
                    requires
                        0 <= (sx as int) * (x1 as int - nx),
                        (sx as int) * (x1 as int - nx) <= dx as int,
                        sx as int == 1 || sx as int == -1,
                ;
                assert(y1 as int + dy as int <= ny <= y1 as int - dy as int) by (nonlinear_arith)
                    requires
                        0 <= (sy as int) * (y1 as int - ny),
                        (sy as int) * (y1 as int - ny) <= -(dy as int),
                        sy as int == 1 || sy as int == -1,
                ;
            }
        }
        Ok(())
    }
}

/// The color a rectangle paints on its local cell `(i, j)`: cells on the
/// first or last row or column form the one-pixel border, the rest the
/// fill.
pub open spec fn rect_cell_color(rect: Rectangle, i: int, j: int) -> (u8, u8, u8, u8) {
    if i == 0 || i == rect.width - 1 || j == 0 || j == rect.height - 1 {
        rgba_of(rect.outline_color)
    } else {
        rgba_of(rect.fill_color)
    }
}

/// The pixel map after the rectangle's cells before column `cx`, plus
/// column `cx`'s rows before `cy`, have been painted (clipped to the
/// buffer).
pub open spec fn rect_painted_until(
    m: Map<(u32, u32), (u8, u8, u8, u8)>,
    rect: Rectangle,
    cx: int,
    cy: int,
) -> Map<(u32, u32), (u8, u8, u8, u8)> {
    Map::new(
        |p: (u32, u32)| m.dom().contains(p),
        |p: (u32, u32)|
            {
                let i = p.0 - rect.top_left.x;
                let j = p.1 - rect.top_left.y;
                if 0 <= i < rect.width && 0 <= j < rect.height && (i < cx || (i == cx && j < cy)) {
                    rect_cell_color(rect, i, j)
                } else {
                    m[p]
                }
            },
    )
}

/// The pixel map after the whole rectangle has been painted.
pub open spec fn rect_painted(
    m: Map<(u32, u32), (u8, u8, u8, u8)>,
    rect: Rectangle,
) -> Map<(u32, u32), (u8, u8, u8, u8)> {
    rect_painted_until(m, rect, rect.width as int, 0)
}

proof fn lemma_rect_start(m: Map<(u32, u32), (u8, u8, u8, u8)>, rect: Rectangle)
    ensures
        rect_painted_until(m, rect, 0, 0) == m,
{
    assert_maps_equal!(rect_painted_until(m, rect, 0, 0), m);
}

proof fn lemma_rect_new_column(m: Map<(u32, u32), (u8, u8, u8, u8)>, rect: Rectangle, cx: int)
    requires
        0 <= cx < rect.width,
    ensures
        rect_painted_until(m, rect, cx, rect.height as int) == rect_painted_until(
            m,
            rect,
            cx + 1,
            0,
        ),
{
    assert_maps_equal!(
        rect_painted_until(m, rect, cx, rect.height as int),
        rect_painted_until(m, rect, cx + 1, 0)
    );
}

proof fn lemma_rect_step(
    m: Map<(u32, u32), (u8, u8, u8, u8)>,
    dims: (u32, u32),
    rect: Rectangle,
    cx: int,
    cy: int,
)
    requires
        0 <= cx < rect.width,
        0 <= cy < rect.height,
        m.dom() == grid_dom(dims.0, dims.1),
    ensures
        paint_one(
            rect_painted_until(m, rect, cx, cy),
            dims,
            rect.top_left.x + cx,
            rect.top_left.y + cy,
            rect_cell_color(rect, cx, cy),
        ) == rect_painted_until(m, rect, cx, cy + 1),
{
    let before = rect_painted_until(m, rect, cx, cy);
    let after = rect_painted_until(m, rect, cx, cy + 1);
    let px = rect.top_left.x + cx;
    let py = rect.top_left.y + cy;
    assert(before.dom() == m.dom()) by {
        assert_sets_equal!(before.dom(), m.dom());
    }
    if in_bounds(dims, px, py) {
        let k = (px as u32, py as u32);
        assert(m.dom().contains(k));
        assert_maps_equal!(before.insert(k, rect_cell_color(rect, cx, cy)), after, p => {
            if p == k {
                assert(p.0 - rect.top_left.x == cx && p.1 - rect.top_left.y == cy);
            }
        });
    } else {
        assert_maps_equal!(before, after, p => {
            if m.dom().contains(p) && p.0 - rect.top_left.x == cx && p.1 - rect.top_left.y
                == cy {
                assert(p.0 < dims.0 && p.1 < dims.1);
                assert(p.0 == px && p.1 == py);
                assert(in_bounds(dims, px, py));
            }
        });
    }
}

impl DrawShapeVisitor {
    /// Paints every cell of the rectangle's `width` by `height` grid,
    /// border cells with the outline color and interior cells with the
    /// fill color, clipping each cell against the buffer.
    pub fn rasterize_rectangle(&mut self, rectangle: &Rectangle) -> (res: Result<
        (),
        GenericError,
    >)
        requires
            old(self).wf(),
        ensures
            final(self).wf(),
            final(self).dims() == old(self).dims(),
            final(self).pixels() == rect_painted(old(self).pixels(), *rectangle),
            res is Ok,
    {
        let width = rectangle.get_width();
        let height = rectangle.get_height();
        let top_left = rectangle.get_top_left();
        let outline_color = rectangle.get_outline_color();
        let fill_color = rectangle.get_fill_color();
        let ghost orig = self.pixels();
        let ghost dims = self.dims();
        let ghost rect = *rectangle;
        proof {
            lemma_rect_start(orig, rect);
        }
        let mut x: u32 = 0;
        while x < width
            invariant
                self.wf(),
                self.dims() == dims,
                x <= width,
                width == rect.width,
                height == rect.height,
                top_left == rect.top_left,
                outline_color == rect.outline_color,
                fill_color == rect.fill_color,
                orig.dom() == grid_dom(dims.0, dims.1),
                self.pixels() == rect_painted_until(orig, rect, x as int, 0),
            decreases width - x,
        {
            let mut y: u32 = 0;
            while y < height
                invariant
                    self.wf(),
                    self.dims() == dims,
                    x < width,
                    y <= height,
                    width == rect.width,
                    height == rect.height,
                    top_left == rect.top_left,
                    outline_color == rect.outline_color,
                    fill_color == rect.fill_color,
                    orig.dom() == grid_dom(dims.0, dims.1),
                    self.pixels() == rect_painted_until(orig, rect, x as int, y as int),
                decreases height - y,
            {
                let x_coord: i64 = (top_left.x as i64) + (x as i64);
                let y_coord: i64 = (top_left.y as i64) + (y as i64);
                let color: Color = if (x == 0) || (x == width - 1) || (y == 0) || (y == height
                    - 1) {
                    outline_color
                } else {
                    fill_color
                };
                proof {
                    assert(rgba_of(color) == rect_cell_color(rect, x as int, y as int));
                    lemma_rect_step(orig, dims, rect, x as int, y as int);
                }
                put_pixel(&mut self.image, x_coord, y_coord, color);
                y = y + 1;
            }
            proof {
                lemma_rect_new_column(orig, rect, x as int);
            }
            x = x + 1;
        }
        proof {
            assert(self.pixels() == rect_painted(orig, rect));
        }
        Ok(())
    }

    /// A square is a rectangle with equal sides: builds that rectangle
    /// and delegates to its rasterization.
    pub fn rasterize_square(&mut self, square: &Square) -> (res: Result<(), GenericError>)
        requires
            old(self).wf(),
        ensures
            final(self).wf(),
            final(self).dims() == old(self).dims(),
            final(self).pixels() == rect_painted(
                old(self).pixels(),
                Rectangle {
                    top_left: square.top_left,
                    height: square.side,
                    width: square.side,
                    outline_color: square.outline_color,
                    fill_color: square.fill_color,
                },
            ),
            res is Ok,
    {
        let rectangle = Rectangle::new(
            square.get_top_left(),
            square.get_width(),
            square.get_width(),
            square.get_outline_color(),
            square.get_fill_color(),
        );
        self.rasterize_rectangle(&rectangle)
    }
}

/// Painting a concatenation is painting the first part, then the second.
pub proof fn lemma_paint_seq_concat(
    m: Map<(u32, u32), (u8, u8, u8, u8)>,
    dims: (u32, u32),
    s1: Seq<(int, int)>,
    s2: Seq<(int, int)>,
    c: (u8, u8, u8, u8),
)
    ensures
        paint_seq(m, dims, s1 + s2, c) == paint_seq(paint_seq(m, dims, s1, c), dims, s2, c),
    decreases s1.len(),
{
    if s1.len() == 0 {
        assert(s1 + s2 =~= s2);
    } else {
        assert((s1 + s2)[0] == s1[0]);
        assert((s1 + s2).drop_first() =~= s1.drop_first() + s2);
        lemma_paint_seq_concat(
            paint_one(m, dims, s1[0].0, s1[0].1, c),
            dims,
            s1.drop_first(),
            s2,
            c,
        );
    }
}

/// Plots `color` at the eight octant-symmetric positions of offset
/// `(x, y)` around `(x_circle, y_circle)`, each clipped to the buffer.
pub(crate) fn put_pixels_in_8_parts_around_circle(
    image: &mut PixelBuffer,
    x_circle: i64,
    y_circle: i64,
    x: i64,
    y: i64,
    color: Color,
)
    requires
        img_wf(*old(image)),
        -0x8000_0000 <= x_circle <= 0x8000_0000,
        -0x8000_0000 <= y_circle <= 0x8000_0000,
        -0x1_0000_0000 <= x <= 0x1_0000_0000,
        -0x1_0000_0000 <= y <= 0x1_0000_0000,
    ensures
        img_wf(*final(image)),
        img_dims(*final(image)) == img_dims(*old(image)),
        img_pixels(*final(image)) == paint_seq(
            img_pixels(*old(image)),
            img_dims(*old(image)),
            octant_points(x_circle as int, y_circle as int, x as int, y as int),
            rgba_of(color),
        ),
{
    let add_to_x: [i64; 8] = [x, -x, x, -x, y, -y, y, -y];
    let add_to_y: [i64; 8] = [y, y, -y, -y, x, x, -x, -x];
    let ghost pts = octant_points(x_circle as int, y_circle as int, x as int, y as int);
    let ghost orig = img_pixels(*image);
    let ghost dims = img_dims(*image);
    let ghost c = rgba_of(color);
    proof {
        assert(pts.len() == 8);
        assert(forall|i: int|
            0 <= i < 8 ==> #[trigger] pts[i] == (
                x_circle as int + add_to_x@[i] as int,
                y_circle as int + add_to_y@[i] as int,
            ));
        assert(pts.take(0) =~= Seq::<(int, int)>::empty());
    }
    let mut index: usize = 0;
    while index < 8
        invariant
            img_wf(*image),
            img_dims(*image) == dims,
            index <= 8,
            -0x8000_0000 <= x_circle <= 0x8000_0000,
            -0x8000_0000 <= y_circle <= 0x8000_0000,
            -0x1_0000_0000 <= x <= 0x1_0000_0000,
            -0x1_0000_0000 <= y <= 0x1_0000_0000,
            add_to_x@ =~= seq![x, -x as i64, x, -x as i64, y, -y as i64, y, -y as i64],
            add_to_y@ =~= seq![y, y, -y as i64, -y as i64, x, x, -x as i64, -x as i64],
            pts == octant_points(x_circle as int, y_circle as int, x as int, y as int),
            c == rgba_of(color),
            orig.dom() == grid_dom(dims.0, dims.1),
            img_pixels(*image) == paint_seq(orig, dims, pts.take(index as int), c),
        decreases 8 - index,
    {
        let ghost pre = img_pixels(*image);
        put_pixel(image, x_circle + add_to_x[index], y_circle + add_to_y[index], color);
        proof {
            assert(pts[index as int] == (
                x_circle as int + add_to_x@[index as int] as int,
                y_circle as int + add_to_y@[index as int] as int,
            ));
            assert(pts.take(index as int + 1) =~= pts.take(index as int) + seq![
                pts[index as int],
            ]);
            lemma_paint_seq_concat(orig, dims, pts.take(index as int), seq![pts[index as int]], c);
            assert(paint_seq(pre, dims, seq![pts[index as int]], c) == paint_one(
                pre,
                dims,
                pts[index as int].0,
                pts[index as int].1,
                c,
            )) by {
                let s = seq![pts[index as int]];
                assert(s.len() == 1 && s[0] == pts[index as int]);
                assert(s.drop_first() =~= Seq::<(int, int)>::empty());
                let m1 = paint_one(pre, dims, s[0].0, s[0].1, c);
                assert(paint_seq(pre, dims, s, c) == paint_seq(m1, dims, s.drop_first(), c));
                assert(paint_seq(m1, dims, s.drop_first(), c) == m1);
            }
        }
        index = index + 1;
    }
    proof {
        assert(pts.take(8) =~= pts);
    }
}

impl DrawShapeVisitor {
    /// Draws the circle's outline by midpoint scan-conversion, then
    /// flood-fills from its center with the outline color as the stop
    /// color.  A center outside the canvas is a geometry error, reported
    /// after the outline has been drawn.
    pub fn rasterize_circle(&mut self, circle: &Circle) -> (res: Result<(), GenericError>)
        requires
            old(self).wf(),
        ensures
            final(self).wf(),
            final(self).dims() == old(self).dims(),
            ({
                let dims = old(self).dims();
                let oc = rgba_of(circle.outline_color);
                let outlined = paint_seq(
                    old(self).pixels(),
                    dims,
                    circle_points(circle.center.x as int, circle.center.y as int, circle.radius),
                    oc,
                );
                &&& (res is Ok <==> in_bounds(dims, circle.center.x as int, circle.center.y as int))
                &&& res is Ok ==> final(self).pixels() == fill_applied(
                    outlined,
                    fill_region(
                        outlined,
                        (circle.center.x as u32, circle.center.y as u32),
                        oc,
                    ),
                    rgba_of(circle.fill_color),
                )
                &&& res matches Err(e) ==> final(self).pixels() == outlined && e.message@
                    == oob_message(circle.center.x as int, circle.center.y as int)
            }),
    {
        let outline_color = circle.get_outline_color();
        let fill_color = circle.get_fill_color();
        let xc: i64 = circle.get_center().x as i64;
        let yc: i64 = circle.get_center().y as i64;
        let radius = circle.get_radius();
        let mut x: i64 = 0;
        let mut y: i64 = if radius <= 0x7fff_ffff {
            radius as i64
        } else {
            radius as i64 - 0x1_0000_0000
        };
        let mut d: i64 = 3 - 2 * y;
        let ghost r0 = radius_start(radius);
        let ghost rp: int = if r0 >= 0 {
            r0
        } else {
            0
        };
        let ghost orig = self.pixels();
        let ghost dims = self.dims();
        let ghost c = rgba_of(circle.outline_color);
        let ghost full = circle_points(xc as int, yc as int, radius);
        proof {
            assert(y as int == r0);
            assert(full == circle_rec(xc as int, yc as int, 0, r0, 3 - 2 * r0));
        }
        while y >= x
            invariant
                self.wf(),
                self.dims() == dims,
                orig.dom() == grid_dom(dims.0, dims.1),
                c == rgba_of(circle.outline_color),
                outline_color == circle.outline_color,
                -0x8000_0000 <= xc <= 0x8000_0000,
                -0x8000_0000 <= yc <= 0x8000_0000,
                -0x8000_0000 <= r0 <= 0x8000_0000,
                0 <= rp <= 0x8000_0000,
                r0 >= 0 ==> rp == r0,
                0 <= x,
                x <= (if r0 >= 0 {
                    r0 + 1
                } else {
                    0
                }),
                y as int >= -1 || y as int == r0,
                y as int <= r0,
                d as int <= 4 * rp + 10 + 18 * (rp - y as int),
                -(4 * rp + 0x1_0000_0000) <= d as int,
                paint_seq(orig, dims, full, c) == paint_seq(
                    self.pixels(),
                    dims,
                    circle_rec(xc as int, yc as int, x as int, y as int, d as int),
                    c,
                ),
            decreases (if y >= x {
                y - x + 1
            } else {
                0int
            }),
        {
            let ghost pre = self.pixels();
            let ghost rem = circle_rec(xc as int, yc as int, x as int, y as int, d as int);
            put_pixels_in_8_parts_around_circle(&mut self.image, xc, yc, x, y, outline_color);
            proof {
                let oct = octant_points(xc as int, yc as int, x as int, y as int);
                let nx = x as int + 1;
                let ny = if d > 0 {
                    y as int - 1
                } else {
                    y as int
                };
                let nd = if d > 0 {
                    d as int + 4 * (nx - ny) + 10
                } else {
                    d as int + 4 * nx + 6
                };
                assert(rem == oct + circle_rec(xc as int, yc as int, nx, ny, nd));
                lemma_paint_seq_concat(
                    pre,
                    dims,
                    oct,
                    circle_rec(xc as int, yc as int, nx, ny, nd),
                    c,
                );
            }
            x = x + 1;
            if d > 0 {
                y = y - 1;
                d = d + 4 * (x - y) + 10;
            } else {
                d = d + 4 * x + 6;
            }
        }
        proof {
            assert(circle_rec(xc as int, yc as int, x as int, y as int, d as int)
                == Seq::<(int, int)>::empty());
            assert(self.pixels() == paint_seq(orig, dims, full, c));
        }
        flood_fill(&mut self.image, xc, yc, outline_color, fill_color)
    }
}

/// The sum of the x coordinates of a vertex sequence.
pub open spec fn sum_x(points: Seq<Point>) -> int
    decreases points.len(),
{
    if points.len() == 0 {
        0
    } else {
        sum_x(points.drop_last()) + points.last().x
    }
}

/// The sum of the y coordinates of a vertex sequence.
pub open spec fn sum_y(points: Seq<Point>) -> int
    decreases points.len(),
{
    if points.len() == 0 {
        0
    } else {
        sum_y(points.drop_last()) + points.last().y
    }
}

/// Division truncating toward zero, as machine integer division does.
pub open spec fn trunc_div(a: int, b: int) -> int {
    if a >= 0 {
        a / b
    } else {
        -((-a) / b)
    }
}

/// The fill seed of a polygon: the truncating average of its vertex
/// coordinates, biased by the accumulator's initial `(-1, -1)`.
pub open spec fn polygon_center(points: Seq<Point>) -> (int, int) {
    (
        trunc_div(-1 + sum_x(points), points.len() as int),
        trunc_div(-1 + sum_y(points), points.len() as int),
    )
}

/// Truncating division of a possibly negative sum by a positive count.
fn div_toward_zero(a: i128, b: u128) -> (q: i64)
    requires
        1 <= b <= 0xffff_ffff_ffff_ffff,
        -(b as int) * 0x1_0000_0000 <= a as int <= (b as int) * 0x1_0000_0000,
    ensures
        q as int == trunc_div(a as int, b as int),
{
    if a >= 0 {
        let mag: u128 = a as u128;
        let quo: u128 = mag / b;
        proof {
            lemma_fundamental_div_mod(mag as int, b as int);
            assert(quo as int <= 0x1_0000_0000) by (nonlinear_arith)
                requires
                    mag as int == (b as int) * (quo as int) + (mag as int % (b as int)),
                    0 <= mag as int % (b as int),
                    mag as int <= (b as int) * 0x1_0000_0000,
                    1 <= b as int,
            ;
        }
        quo as i64
    } else {
        let mag: u128 = (-a) as u128;
        let quo: u128 = mag / b;
        proof {
            lemma_fundamental_div_mod(mag as int, b as int);
            assert(quo as int <= 0x1_0000_0000) by (nonlinear_arith)
                requires
                    mag as int == (b as int) * (quo as int) + (mag as int % (b as int)),
                    0 <= mag as int % (b as int),
                    mag as int <= (b as int) * 0x1_0000_0000,
                    1 <= b as int,
            ;
        }
        -(quo as i64)
    }
}

/// The seed point for a polygon's interior fill: the vertex centroid,
/// computed with an accumulator that starts at `(-1, -1)` and truncating
/// division by the vertex count.
fn get_polygon_center(points: &Vec<Point>) -> (center: (i64, i64))
    requires
        points@.len() >= 1,
    ensures
        (center.0 as int, center.1 as int) == polygon_center(points@),
{
    let ghost pts = points@;
    let mut sx: i128 = -1;
    let mut sy: i128 = -1;
    let mut i: usize = 0;
    while i < points.len()
        invariant
            i <= pts.len(),
            pts == points@,
            sx as int == -1 + sum_x(pts.take(i as int)),
            sy as int == -1 + sum_y(pts.take(i as int)),
            -1 - (i as int) * 0x8000_0000 <= sx as int <= -1 + (i as int) * 0x8000_0000,
            -1 - (i as int) * 0x8000_0000 <= sy as int <= -1 + (i as int) * 0x8000_0000,
        decreases pts.len() - i,
    {
        let p = points[i];
        proof {
            assert(pts.take(i as int + 1).drop_last() =~= pts.take(i as int));
            assert(pts.take(i as int + 1).last() == pts[i as int]);
        }
        sx = sx + (p.x as i128);
        sy = sy + (p.y as i128);
        i = i + 1;
    }
    proof {
        assert(pts.take(pts.len() as int) =~= pts);
        assert((points@.len() as int) * 0x8000_0000 <= (points@.len() as int) * 0x1_0000_0000)
            by (nonlinear_arith)
            requires
                points@.len() >= 1,
        ;
    }
    let len: u128 = points.len() as u128;
    let cx = div_toward_zero(sx, len);
    let cy = div_toward_zero(sy, len);
    (cx, cy)
}

/// The pixel map after the first `k` edges of the closed vertex chain
/// have been drawn with `c`.
pub open spec fn edges_painted(
    m: Map<(u32, u32), (u8, u8, u8, u8)>,
    dims: (u32, u32),
    points: Seq<Point>,
    k: int,
    c: (u8, u8, u8, u8),
) -> Map<(u32, u32), (u8, u8, u8, u8)>
    decreases k,
{
    if k <= 0 {
        m
    } else {
        let a = points[k - 1];
        let b = points[k % (points.len() as int)];
        paint_seq(
            edges_painted(m, dims, points, k - 1, c),
            dims,
            line_points(a.x as int, a.y as int, b.x as int, b.y as int),
            c,
        )
    }
}

/// The pixel map after the polygon's whole closed boundary has been
/// drawn: one line per vertex, each to the next, the last wrapping back
/// to the first.
pub open spec fn outline_painted(
    m: Map<(u32, u32), (u8, u8, u8, u8)>,
    dims: (u32, u32),
    points: Seq<Point>,
    c: (u8, u8, u8, u8),
) -> Map<(u32, u32), (u8, u8, u8, u8)> {
    edges_painted(m, dims, points, points.len() as int, c)
}

/// Draws the polygon's closed boundary: a line from each vertex to the
/// next, wrapping from the last vertex back to the first.
pub(crate) fn draw_polygon_outline(
    points: &Vec<Point>,
    outline_color: Color,
    draw_visitor: &mut DrawShapeVisitor,
) -> (res: Result<(), GenericError>)
    requires
        old(draw_visitor).wf(),
    ensures
        final(draw_visitor).wf(),
        final(draw_visitor).dims() == old(draw_visitor).dims(),
        final(draw_visitor).pixels() == outline_painted(
            old(draw_visitor).pixels(),
            old(draw_visitor).dims(),
            points@,
            rgba_of(outline_color),
        ),
        res is Ok,
{
    let ghost pts = points@;
    let ghost orig = old(draw_visitor).pixels();
    let ghost dims = old(draw_visitor).dims();
    let ghost c = rgba_of(outline_color);
    let mut point_index: usize = 0;
    while point_index < points.len()
        invariant
            draw_visitor.wf(),
            draw_visitor.dims() == dims,
            point_index <= pts.len(),
            pts == points@,
            c == rgba_of(outline_color),
            draw_visitor.pixels() == edges_painted(orig, dims, pts, point_index as int, c),
        decreases pts.len() - point_index,
    {
        let p0 = points[point_index];
        let p1 = points[(point_index + 1) % points.len()];
        let line = Line::new(p0, p1, outline_color);
        draw_visitor.rasterize_line(&line)?;
        proof {
            assert(pts[(point_index + 1) as int % (pts.len() as int)] == p1);
        }
        point_index = point_index + 1;
    }
    Ok(())
}

impl DrawShapeVisitor {
    /// Draws the polygon's closed boundary, then flood-fills from the
    /// vertex centroid with the outline color as the stop color.  A
    /// polygon without vertices is rejected; a centroid outside the
    /// canvas is a geometry error, reported after the outline has been
    /// drawn.
    pub fn rasterize_polygon(&mut self, polygon: &Polygon) -> (res: Result<(), GenericError>)
        requires
            old(self).wf(),
        ensures
            final(self).wf(),
            final(self).dims() == old(self).dims(),
            polygon.points@.len() == 0 ==> *final(self) == *old(self) && (res matches Err(e)
                && e.message@ == "Polygon has no points"@),
            polygon.points@.len() >= 1 ==> ({
                let dims = old(self).dims();
                let oc = rgba_of(polygon.outline_color);
                let outlined = outline_painted(old(self).pixels(), dims, polygon.points@, oc);
                let center = polygon_center(polygon.points@);
                &&& (res is Ok <==> in_bounds(dims, center.0, center.1))
                &&& res is Ok ==> final(self).pixels() == fill_applied(
                    outlined,
                    fill_region(outlined, (center.0 as u32, center.1 as u32), oc),
                    rgba_of(polygon.fill_color),
                )
                &&& res matches Err(e) ==> final(self).pixels() == outlined && e.message@
                    == oob_message(center.0, center.1)
            }),
    {
        let points = polygon.get_points();
        if points.len() == 0 {
            return Err(GenericError::new("Polygon has no points".to_owned()));
        }
        let outline_color = polygon.get_outline_color();
        let fill_color = polygon.get_fill_color();
        let center = get_polygon_center(points);
        draw_polygon_outline(points, outline_color, self)?;
        flood_fill(&mut self.image, center.0, center.1, outline_color, fill_color)
    }

    /// A triangle is a three-vertex polygon: builds it and delegates to
    /// polygon rasterization.
    pub fn rasterize_triangle(&mut self, triangle: &Triangle) -> (res: Result<(), GenericError>)
        requires
            old(self).wf(),
        ensures
            final(self).wf(),
            final(self).dims() == old(self).dims(),
            ({
                let pts = seq![triangle.p0, triangle.p1, triangle.p2];
                let dims = old(self).dims();
                let oc = rgba_of(triangle.outline_color);
                let outlined = outline_painted(old(self).pixels(), dims, pts, oc);
                let center = polygon_center(pts);
                &&& (res is Ok <==> in_bounds(dims, center.0, center.1))
                &&& res is Ok ==> final(self).pixels() == fill_applied(
                    outlined,
                    fill_region(outlined, (center.0 as u32, center.1 as u32), oc),
                    rgba_of(triangle.fill_color),
                )
                &&& res matches Err(e) ==> final(self).pixels() == outlined && e.message@
                    == oob_message(center.0, center.1)
            }),
    {
        let p0 = triangle.get_p0();
        let p1 = triangle.get_p1();
        let p2 = triangle.get_p2();
        let polygon = Polygon::new(
            vec![p0, p1, p2],
            triangle.get_outline_color(),
            triangle.get_fill_color(),
        );
        proof {
            assert(polygon.points@ =~= seq![triangle.p0, triangle.p1, triangle.p2]);
        }
        self.rasterize_polygon(&polygon)
    }
}

/// The four vertices a diamond delegates to polygon rasterization: left,
/// top, right and bottom, each offset from the center by half of a
/// diagonal (odd diagonals truncate).
pub open spec fn diamond_vertices(d: Diamond) -> Seq<Point> {
    let hx = d.horizontal_diagonal as int / 2;
    let vy = d.vertical_diagonal as int / 2;
    seq![
        Point { x: (d.center.x - hx) as i32, y: d.center.y },
        Point { x: d.center.x, y: (d.center.y - vy) as i32 },
        Point { x: (d.center.x + hx) as i32, y: d.center.y },
        Point { x: d.center.x, y: (d.center.y + vy) as i32 },
    ]
}

/// Whether the diamond's four vertices stay within signed 32-bit
/// coordinates.
pub open spec fn diamond_fits(d: Diamond) -> bool {
    &&& -0x8000_0000 <= d.center.x - d.horizontal_diagonal as int / 2
    &&& d.center.x + d.horizontal_diagonal as int / 2 <= 0x7fff_ffff
    &&& -0x8000_0000 <= d.center.y - d.vertical_diagonal as int / 2
    &&& d.center.y + d.vertical_diagonal as int / 2 <= 0x7fff_ffff
}

impl DrawShapeVisitor {
    /// A diamond is a four-vertex polygon: synthesizes its left, top,
    /// right and bottom vertices and delegates to polygon rasterization.
    /// Vertices beyond the signed 32-bit coordinate range are rejected.
    pub fn rasterize_diamond(&mut self, diamond: &Diamond) -> (res: Result<(), GenericError>)
        requires
            old(self).wf(),
        ensures
            final(self).wf(),
            final(self).dims() == old(self).dims(),
            !diamond_fits(*diamond) ==> *final(self) == *old(self) && (res matches Err(e)
                && e.message@ == "Diamond vertices are out of range"@),
            diamond_fits(*diamond) ==> ({
                let pts = diamond_vertices(*diamond);
                let dims = old(self).dims();
                let oc = rgba_of(diamond.outline_color);
                let outlined = outline_painted(old(self).pixels(), dims, pts, oc);
                let center = polygon_center(pts);
                &&& (res is Ok <==> in_bounds(dims, center.0, center.1))
                &&& res is Ok ==> final(self).pixels() == fill_applied(
                    outlined,
                    fill_region(outlined, (center.0 as u32, center.1 as u32), oc),
                    rgba_of(diamond.fill_color),
                )
                &&& res matches Err(e) ==> final(self).pixels() == outlined && e.message@
                    == oob_message(center.0, center.1)
            }),
    {
        let center = diamond.get_center();
        let hx: i64 = (diamond.get_horizontal_diagonal() / 2) as i64;
        let vy: i64 = (diamond.get_vertical_diagonal() / 2) as i64;
        let left: i64 = center.x as i64 - hx;
        let right: i64 = center.x as i64 + hx;
        let top: i64 = center.y as i64 - vy;
        let bottom: i64 = center.y as i64 + vy;
        if left < -0x8000_0000i64 || right > 0x7fff_ffffi64 || top < -0x8000_0000i64 || bottom
            > 0x7fff_ffffi64 {
            return Err(GenericError::new("Diamond vertices are out of range".to_owned()));
        }
        let p0 = Point::new(left as i32, center.y);
        let p1 = Point::new(center.x, top as i32);
        let p2 = Point::new(right as i32, center.y);
        let p3 = Point::new(center.x, bottom as i32);
        let polygon = Polygon::new(
            vec![p0, p1, p2, p3],
            diamond.get_outline_color(),
            diamond.get_fill_color(),
        );
        proof {
            assert(polygon.points@ =~= diamond_vertices(*diamond));
        }
        self.rasterize_polygon(&polygon)
    }
}

impl ShapeVisitor for DrawShapeVisitor {
    /// The rasterizer's visitor invariant: its buffer is well formed.
    open spec fn inv(&self) -> bool {
        self.wf()
    }

    fn visit_canvas(&mut self, canvas: &Canvas) -> Result<(), GenericError> {
        self.rasterize_canvas(canvas)
    }

    fn visit_line(&mut self, line: &Line) -> Result<(), GenericError> {
        self.rasterize_line(line)
    }

    fn visit_triangle(&mut self, triangle: &Triangle) -> Result<(), GenericError> {
        self.rasterize_triangle(triangle)
    }

    fn visit_square(&mut self, square: &Square) -> Result<(), GenericError> {
        self.rasterize_square(square)
    }

    fn visit_rectangle(&mut self, rectangle: &Rectangle) -> Result<(), GenericError> {
        self.rasterize_rectangle(rectangle)
    }

    fn visit_diamond(&mut self, diamond: &Diamond) -> Result<(), GenericError> {
        self.rasterize_diamond(diamond)
    }

    fn visit_polygon(&mut self, polygon: &Polygon) -> Result<(), GenericError> {
        self.rasterize_polygon(polygon)
    }

    fn visit_circle(&mut self, circle: &Circle) -> Result<(), GenericError> {
        self.rasterize_circle(circle)
    }
}

/// A degenerate line, both endpoints equal, paints exactly its one
/// point.
pub proof fn lemma_degenerate_line_paints_one(
    m: Map<(u32, u32), (u8, u8, u8, u8)>,
    dims: (u32, u32),
    x: int,
    y: int,
    c: (u8, u8, u8, u8),
)
    ensures
        paint_seq(m, dims, line_points(x, y, x, y), c) == paint_one(m, dims, x, y, c),
{
    crate::bresenham::lemma_line_single_point(x, y);
    let pts = line_points(x, y, x, y);
    assert(pts.drop_first() =~= Seq::<(int, int)>::empty());
    assert(paint_seq(m, dims, pts, c) == paint_seq(paint_one(m, dims, x, y, c), dims, pts.drop_first(), c));
}

/// Right after a canvas is visited, the buffer covers exactly the
/// declared bounds and every pixel holds the declared background color.
pub proof fn lemma_canvas_fills_buffer(width: u32, height: u32, c: (u8, u8, u8, u8))
    ensures
        uniform_pixels(width, height, c).dom() == grid_dom(width, height),
        forall|p: (u32, u32)|
            p.0 < width && p.1 < height ==> uniform_pixels(width, height, c)[p] == c,
{
    assert_sets_equal!(uniform_pixels(width, height, c).dom(), grid_dom(width, height));
}

} // verus!
