//! Midpoint circle scan-conversion.
//!
//! Starting at `x = 0`, `y = radius` with decision variable
//! `d = 3 - 2 * radius`, each step plots the current offset into all
//! eight octant-symmetric positions around the center, then advances `x`
//! and, when the decision variable is positive, retreats `y`, while
//! `y >= x`.

use vstd::prelude::*;

verus! {

/// The eight octant-symmetric positions of offset `(x, y)` around the
/// center `(xc, yc)`, in plotting order.
pub open spec fn octant_points(xc: int, yc: int, x: int, y: int) -> Seq<(int, int)> {
    seq![
        (xc + x, yc + y),
        (xc - x, yc + y),
        (xc + x, yc - y),
        (xc - x, yc - y),
        (xc + y, yc + x),
        (xc - y, yc + x),
        (xc + y, yc - x),
        (xc - y, yc - x),
    ]
}

/// The points the arc traversal plots from state `(x, y, d)` on.
pub open spec fn circle_rec(xc: int, yc: int, x: int, y: int, d: int) -> Seq<(int, int)>
    decreases (if y >= x {
        y - x + 1
    } else {
        0
    }),
{
    if y < x {
        Seq::<(int, int)>::empty()
    } else {
        let nx = x + 1;
        let ny = if d > 0 {
            y - 1
        } else {
            y
        };
        let nd = if d > 0 {
            d + 4 * (nx - ny) + 10
        } else {
            d + 4 * nx + 6
        };
        octant_points(xc, yc, x, y) + circle_rec(xc, yc, nx, ny, nd)
    }
}

/// The initial `y` offset: the radius read as a signed 32-bit value, the
/// way the traversal receives it.  A radius beyond `i32::MAX` wraps
/// negative and the traversal plots nothing.
pub open spec fn radius_start(radius: u32) -> int {
    if radius <= 0x7fff_ffff {
        radius as int
    } else {
        radius as int - 0x1_0000_0000
    }
}

/// The points a circle outline of the given radius around `(xc, yc)`
/// plots, in order.
pub open spec fn circle_points(xc: int, yc: int, radius: u32) -> Seq<(int, int)> {
    let y0 = radius_start(radius);
    circle_rec(xc, yc, 0, y0, 3 - 2 * y0)
}

} // verus!
