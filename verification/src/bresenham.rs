//! Integer line scan-conversion, generalized to all eight octants.
//!
//! The traversal steps from `(x0, y0)` toward `(x1, y1)`, plotting one
//! point per step and advancing `x` and/or `y` by comparing twice the
//! error accumulator against the (negated) coordinate distances.  Both
//! endpoints are included; the degenerate segment yields exactly one
//! point.

use vstd::prelude::*;

verus! {

pub open spec fn abs_i(a: int) -> int {
    if a >= 0 {
        a
    } else {
        -a
    }
}

/// The unit step from `from` toward `to`.
pub open spec fn step_dir(from: int, to: int) -> int {
    if from < to {
        1
    } else {
        -1
    }
}

/// The traversal's state invariant: `dx` and `-dy` are the initial
/// coordinate distances, the remaining distances lie between zero and
/// them, and the error accumulator is determined by how far the
/// traversal has come.
pub open spec fn bres_inv(
    x0: int,
    y0: int,
    x1: int,
    y1: int,
    sx: int,
    sy: int,
    dx: int,
    dy: int,
    err: int,
) -> bool {
    let a = sx * (x1 - x0);
    let b = sy * (y1 - y0);
    &&& (sx == 1 || sx == -1)
    &&& (sy == 1 || sy == -1)
    &&& 0 <= a
    &&& a <= dx
    &&& 0 <= b
    &&& b <= -dy
    &&& dy <= 0
    &&& err == dx + dy + (dx - a) * dy + (-dy - b) * dx
}

/// The points the traversal plots from `(x0, y0)` on, in order, both
/// endpoints included.
pub open spec fn bres_rec(
    x0: int,
    y0: int,
    x1: int,
    y1: int,
    sx: int,
    sy: int,
    dx: int,
    dy: int,
    err: int,
) -> Seq<(int, int)>
    decreases sx * (x1 - x0) + sy * (y1 - y0),
    when bres_inv(x0, y0, x1, y1, sx, sy, dx, dy, err)
    via bres_rec_decreases
{
    if x0 == x1 && y0 == y1 {
        seq![(x0, y0)]
    } else {
        let e2 = 2 * err;
        let xm = e2 >= dy;
        let ym = e2 <= dx;
        seq![(x0, y0)] + bres_rec(
            if xm {
                x0 + sx
            } else {
                x0
            },
            if ym {
                y0 + sy
            } else {
                y0
            },
            x1,
            y1,
            sx,
            sy,
            dx,
            dy,
            err + (if xm {
                dy
            } else {
                0
            }) + (if ym {
                dx
            } else {
                0
            }),
        )
    }
}

#[via_fn]
proof fn bres_rec_decreases(
    x0: int,
    y0: int,
    x1: int,
    y1: int,
    sx: int,
    sy: int,
    dx: int,
    dy: int,
    err: int,
) {
    if !(x0 == x1 && y0 == y1) {
        lemma_bres_step(x0, y0, x1, y1, sx, sy, dx, dy, err);
    }
}

/// One traversal step keeps the invariant, makes progress, and never
/// oversteps an exhausted axis.
pub proof fn lemma_bres_step(
    x0: int,
    y0: int,
    x1: int,
    y1: int,
    sx: int,
    sy: int,
    dx: int,
    dy: int,
    err: int,
)
    requires
        bres_inv(x0, y0, x1, y1, sx, sy, dx, dy, err),
        !(x0 == x1 && y0 == y1),
    ensures
        ({
            let e2 = 2 * err;
            let xm = e2 >= dy;
            let ym = e2 <= dx;
            let nx0 = if xm {
                x0 + sx
            } else {
                x0
            };
            let ny0 = if ym {
                y0 + sy
            } else {
                y0
            };
            let nerr = err + (if xm {
                dy
            } else {
                0
            }) + (if ym {
                dx
            } else {
                0
            });
            &&& xm || ym
            &&& xm ==> sx * (x1 - x0) >= 1
            &&& ym ==> sy * (y1 - y0) >= 1
            &&& bres_inv(nx0, ny0, x1, y1, sx, sy, dx, dy, nerr)
            &&& 0 <= sx * (x1 - nx0) + sy * (y1 - ny0) < sx * (x1 - x0) + sy * (y1 - y0)
        }),
{
    let a = sx * (x1 - x0);
    let b = sy * (y1 - y0);
    let e2 = 2 * err;
    let xm = e2 >= dy;
    let ym = e2 <= dx;
    assert(x0 != x1 ==> a != 0) by (nonlinear_arith)
        requires
            a == sx * (x1 - x0),
            sx == 1 || sx == -1,
    ;
    assert(y0 != y1 ==> b != 0) by (nonlinear_arith)
        requires
            b == sy * (y1 - y0),
            sy == 1 || sy == -1,
    ;
    assert(a != 0 || b != 0);
    // when the x distance is exhausted, the x branch does not fire
    if a == 0 {
        assert(b >= 1);
        assert(2 * err < dy) by (nonlinear_arith)
            requires
                err == dx + dy + (dx - 0) * dy + (-dy - b) * dx,
                b >= 1,
                b <= -dy,
                0 <= dx,
        ;
    }
    // when the y distance is exhausted, the y branch does not fire
    if b == 0 {
        assert(a >= 1);
        assert(2 * err > dx) by (nonlinear_arith)
            requires
                err == dx + dy + (dx - a) * dy + (-dy - 0) * dx,
                1 <= a,
                a <= dx,
                dy <= 0,
        ;
    }
    // at least one branch fires
    assert(xm || ym);
    let nx0 = if xm {
        x0 + sx
    } else {
        x0
    };
    let ny0 = if ym {
        y0 + sy
    } else {
        y0
    };
    let nerr = err + (if xm {
        dy
    } else {
        0
    }) + (if ym {
        dx
    } else {
        0
    });
    let na = sx * (x1 - nx0);
    let nb = sy * (y1 - ny0);
    assert(sx * sx == 1 && sy * sy == 1) by (nonlinear_arith)
        requires
            sx == 1 || sx == -1,
            sy == 1 || sy == -1,
    ;
    assert(na == if xm {
        a - 1
    } else {
        a
    }) by (nonlinear_arith)
        requires
            a == sx * (x1 - x0),
            na == sx * (x1 - nx0),
            nx0 == if xm {
                x0 + sx
            } else {
                x0
            },
            sx * sx == 1,
    ;
    assert(nb == if ym {
        b - 1
    } else {
        b
    }) by (nonlinear_arith)
        requires
            b == sy * (y1 - y0),
            nb == sy * (y1 - ny0),
            ny0 == if ym {
                y0 + sy
            } else {
                y0
            },
            sy * sy == 1,
    ;
    assert(nerr == dx + dy + (dx - na) * dy + (-dy - nb) * dx) by (nonlinear_arith)
        requires
            err == dx + dy + (dx - a) * dy + (-dy - b) * dx,
            nerr == err + (if xm {
                dy
            } else {
                0int
            }) + (if ym {
                dx
            } else {
                0int
            }),
            na == if xm {
                a - 1
            } else {
                a
            },
            nb == if ym {
                b - 1
            } else {
                b
            },
    ;
}

/// The points a line from `(x0, y0)` to `(x1, y1)` plots, in order.
pub open spec fn line_points(x0: int, y0: int, x1: int, y1: int) -> Seq<(int, int)> {
    let dx = abs_i(x1 - x0);
    let dy = -abs_i(y1 - y0);
    bres_rec(x0, y0, x1, y1, step_dir(x0, x1), step_dir(y0, y1), dx, dy, dx + dy)
}

/// The initial traversal state satisfies the invariant.
pub proof fn lemma_line_points_inv(x0: int, y0: int, x1: int, y1: int)
    ensures
        bres_inv(
            x0,
            y0,
            x1,
            y1,
            step_dir(x0, x1),
            step_dir(y0, y1),
            abs_i(x1 - x0),
            -abs_i(y1 - y0),
            abs_i(x1 - x0) + -abs_i(y1 - y0),
        ),
{
    let sx = step_dir(x0, x1);
    let sy = step_dir(y0, y1);
    let dx = abs_i(x1 - x0);
    let dy = -abs_i(y1 - y0);
    assert(sx * (x1 - x0) == dx) by (nonlinear_arith)
        requires
            sx == step_dir(x0, x1),
            dx == abs_i(x1 - x0),
            sx == if x0 < x1 {
                1int
            } else {
                -1int
            },
            dx == if x1 - x0 >= 0 {
                x1 - x0
            } else {
                -(x1 - x0)
            },
    ;
    assert(sy * (y1 - y0) == -dy) by (nonlinear_arith)
        requires
            sy == if y0 < y1 {
                1int
            } else {
                -1int
            },
            dy == if y1 - y0 >= 0 {
                -(y1 - y0)
            } else {
                y1 - y0
            },
    ;
    assert((dx - dx) * dy == 0 && (-dy - (-dy)) * dx == 0) by (nonlinear_arith);
}

/// A degenerate line plots exactly its single point.
pub proof fn lemma_line_single_point(x: int, y: int)
    ensures
        line_points(x, y, x, y) == seq![(x, y)],
{
    lemma_line_points_inv(x, y, x, y);
}

/// The trace of a horizontal segment: one point per column, start to
/// end.
proof fn lemma_bres_horizontal(x0: int, y0: int, x1: int, sx: int, sy: int, dx: int)
    requires
        sx == 1 || sx == -1,
        sy == 1 || sy == -1,
        0 <= sx * (x1 - x0),
        sx * (x1 - x0) <= dx,
    ensures
        bres_rec(x0, y0, x1, y0, sx, sy, dx, 0, dx) =~= Seq::new(
            (sx * (x1 - x0) + 1) as nat,
            |i: int| (x0 + i * sx, y0),
        ),
    decreases sx * (x1 - x0),
{
    let a = sx * (x1 - x0);
    assert((dx - a) * 0 == 0 && (0 - 0) * dx == 0) by (nonlinear_arith);
    assert(bres_inv(x0, y0, x1, y0, sx, sy, dx, 0, dx)) by {
        assert(sy * (y0 - y0) == 0) by (nonlinear_arith);
    }
    let target = Seq::new((a + 1) as nat, |i: int| (x0 + i * sx, y0));
    if x0 == x1 {
        assert(a == 0) by (nonlinear_arith)
            requires
                a == sx * (x1 - x0),
                x0 == x1,
        ;
        assert(bres_rec(x0, y0, x1, y0, sx, sy, dx, 0, dx) == seq![(x0, y0)]);
        assert(target[0] == (x0 + 0 * sx, y0));
        assert(0 * sx == 0) by (nonlinear_arith);
    } else {
        assert(a != 0) by (nonlinear_arith)
            requires
                a == sx * (x1 - x0),
                sx == 1 || sx == -1,
                x0 != x1,
        ;
        assert(2 * dx >= 0 && !(2 * dx <= dx));
        let rest = bres_rec(x0 + sx, y0, x1, y0, sx, sy, dx, 0, dx);
        assert(bres_rec(x0, y0, x1, y0, sx, sy, dx, 0, dx) == seq![(x0, y0)] + rest);
        assert(sx * (x1 - (x0 + sx)) == a - 1) by (nonlinear_arith)
            requires
                a == sx * (x1 - x0),
                sx * sx == 1,
        ;
        assert(sx * sx == 1) by (nonlinear_arith)
            requires
                sx == 1 || sx == -1,
        ;
        lemma_bres_horizontal(x0 + sx, y0, x1, sx, sy, dx);
        let sub = Seq::new(a as nat, |i: int| (x0 + sx + i * sx, y0));
        assert(rest =~= sub);
        assert forall|i: int| 0 <= i < a + 1 implies (seq![(x0, y0)] + sub)[i] == target[i] by {
            if i == 0 {
                assert(0 * sx == 0) by (nonlinear_arith);
            } else {
                assert(sub[i - 1] == (x0 + sx + (i - 1) * sx, y0));
                assert(sx + (i - 1) * sx == i * sx) by (nonlinear_arith);
            }
        }
        assert(seq![(x0, y0)] + sub =~= target);
    }
}

/// The trace of a vertical segment: one point per row, start to end.
proof fn lemma_bres_vertical(x0: int, y0: int, y1: int, sx: int, sy: int, dy: int)
    requires
        sx == 1 || sx == -1,
        sy == 1 || sy == -1,
        0 <= sy * (y1 - y0),
        sy * (y1 - y0) <= -dy,
        dy <= 0,
    ensures
        bres_rec(x0, y0, x0, y1, sx, sy, 0, dy, dy) =~= Seq::new(
            (sy * (y1 - y0) + 1) as nat,
            |i: int| (x0, y0 + i * sy),
        ),
    decreases sy * (y1 - y0),
{
    let b = sy * (y1 - y0);
    assert(bres_inv(x0, y0, x0, y1, sx, sy, 0, dy, dy)) by {
        assert(sx * (x0 - x0) == 0) by (nonlinear_arith);
        assert((0 - 0) * dy == 0 && (-dy - b) * 0 == 0) by (nonlinear_arith);
    }
    let target = Seq::new((b + 1) as nat, |i: int| (x0, y0 + i * sy));
    if y0 == y1 {
        assert(b == 0) by (nonlinear_arith)
            requires
                b == sy * (y1 - y0),
                y0 == y1,
        ;
        assert(bres_rec(x0, y0, x0, y1, sx, sy, 0, dy, dy) == seq![(x0, y0)]);
        assert(target[0] == (x0, y0 + 0 * sy));
        assert(0 * sy == 0) by (nonlinear_arith);
    } else {
        assert(b != 0) by (nonlinear_arith)
            requires
                b == sy * (y1 - y0),
                sy == 1 || sy == -1,
                y0 != y1,
        ;
        assert(b >= 1);
        assert(dy <= -b);
        assert(!(2 * dy >= dy) && 2 * dy <= 0);
        assert(sy * sy == 1) by (nonlinear_arith)
            requires
                sy == 1 || sy == -1,
        ;
        assert(sy * (y1 - (y0 + sy)) == b - 1) by (nonlinear_arith)
            requires
                b == sy * (y1 - y0),
                sy * sy == 1,
        ;
        assert(bres_inv(x0, y0 + sy, x0, y1, sx, sy, 0, dy, dy)) by {
            assert(sx * (x0 - x0) == 0) by (nonlinear_arith);
            assert((0 - 0) * dy == 0 && (-dy - (b - 1)) * 0 == 0) by (nonlinear_arith);
        }
        let rest = bres_rec(x0, y0 + sy, x0, y1, sx, sy, 0, dy, dy);
        assert(bres_rec(x0, y0, x0, y1, sx, sy, 0, dy, dy) == seq![(x0, y0)] + rest);
        lemma_bres_vertical(x0, y0 + sy, y1, sx, sy, dy);
        let sub = Seq::new(b as nat, |i: int| (x0, y0 + sy + i * sy));
        assert(rest =~= sub);
        assert forall|i: int| 0 <= i < b + 1 implies (seq![(x0, y0)] + sub)[i] == target[i] by {
            if i == 0 {
                assert(0 * sy == 0) by (nonlinear_arith);
            } else {
                assert(sub[i - 1] == (x0, y0 + sy + (i - 1) * sy));
                assert(sy + (i - 1) * sy == i * sy) by (nonlinear_arith);
            }
        }
        assert(seq![(x0, y0)] + sub =~= target);
    }
}

/// The trace of an exact diagonal: both coordinates step together.
proof fn lemma_bres_diagonal(x0: int, y0: int, x1: int, y1: int, sx: int, sy: int, d: int)
    requires
        sx == 1 || sx == -1,
        sy == 1 || sy == -1,
        sx * (x1 - x0) == sy * (y1 - y0),
        0 <= sx * (x1 - x0),
        sx * (x1 - x0) <= d,
    ensures
        bres_rec(x0, y0, x1, y1, sx, sy, d, -d, 0) =~= Seq::new(
            (sx * (x1 - x0) + 1) as nat,
            |i: int| (x0 + i * sx, y0 + i * sy),
        ),
    decreases sx * (x1 - x0),
{
    let a = sx * (x1 - x0);
    assert(bres_inv(x0, y0, x1, y1, sx, sy, d, -d, 0)) by {
        assert((d - a) * (-d) + (d - a) * d == 0) by (nonlinear_arith);
    }
    let target = Seq::new((a + 1) as nat, |i: int| (x0 + i * sx, y0 + i * sy));
    assert(sx * sx == 1 && sy * sy == 1) by (nonlinear_arith)
        requires
            sx == 1 || sx == -1,
            sy == 1 || sy == -1,
    ;
    if x0 == x1 {
        assert(a == 0) by (nonlinear_arith)
            requires
                a == sx * (x1 - x0),
                x0 == x1,
        ;
        assert(y0 == y1) by (nonlinear_arith)
            requires
                sy * (y1 - y0) == 0,
                sy * sy == 1,
        ;
        assert(bres_rec(x0, y0, x1, y1, sx, sy, d, -d, 0) == seq![(x0, y0)]);
        assert(target[0] == (x0 + 0 * sx, y0 + 0 * sy));
        assert(0 * sx == 0 && 0 * sy == 0) by (nonlinear_arith);
    } else {
        assert(a != 0) by (nonlinear_arith)
            requires
                a == sx * (x1 - x0),
                sx == 1 || sx == -1,
                x0 != x1,
        ;
        assert(a >= 1 && d >= 1);
        assert(2 * 0 >= -d && 2 * 0 <= d);
        assert(sx * (x1 - (x0 + sx)) == a - 1 && sy * (y1 - (y0 + sy)) == sy * (y1 - y0) - 1)
            by (nonlinear_arith)
            requires
                a == sx * (x1 - x0),
                sx * sx == 1,
                sy * sy == 1,
        ;
        assert(bres_inv(x0 + sx, y0 + sy, x1, y1, sx, sy, d, -d, 0)) by {
            assert((d - (a - 1)) * (-d) + (d - (a - 1)) * d == 0) by (nonlinear_arith);
        }
        let rest = bres_rec(x0 + sx, y0 + sy, x1, y1, sx, sy, d, -d, 0 + -d + d);
        assert(bres_rec(x0, y0, x1, y1, sx, sy, d, -d, 0) == seq![(x0, y0)] + rest);
        lemma_bres_diagonal(x0 + sx, y0 + sy, x1, y1, sx, sy, d);
        let sub = Seq::new(a as nat, |i: int| (x0 + sx + i * sx, y0 + sy + i * sy));
        assert(rest =~= sub);
        assert forall|i: int| 0 <= i < a + 1 implies (seq![(x0, y0)] + sub)[i] == target[i] by {
            if i == 0 {
                assert(0 * sx == 0 && 0 * sy == 0) by (nonlinear_arith);
            } else {
                assert(sub[i - 1] == (x0 + sx + (i - 1) * sx, y0 + sy + (i - 1) * sy));
                assert(sx + (i - 1) * sx == i * sx && sy + (i - 1) * sy == i * sy)
                    by (nonlinear_arith);
            }
        }
        assert(seq![(x0, y0)] + sub =~= target);
    }
}

/// Two opposite arithmetic progressions of points cover the same set.
proof fn lemma_progression_set_symmetric(x0: int, y0: int, u: int, v: int, n: int)
    requires
        n >= 0,
    ensures
        Seq::new((n + 1) as nat, |i: int| (x0 + i * u, y0 + i * v)).to_set() == Seq::new(
            (n + 1) as nat,
            |i: int| (x0 + n * u - i * u, y0 + n * v - i * v),
        ).to_set(),
{
    let fwd = Seq::new((n + 1) as nat, |i: int| (x0 + i * u, y0 + i * v));
    let bwd = Seq::new((n + 1) as nat, |i: int| (x0 + n * u - i * u, y0 + n * v - i * v));
    assert forall|p: (int, int)| fwd.to_set().contains(p) implies bwd.to_set().contains(p) by {
        let i = choose|i: int| 0 <= i < fwd.len() && fwd[i] == p;
        assert(x0 + n * u - (n - i) * u == x0 + i * u && y0 + n * v - (n - i) * v == y0 + i * v)
            by (nonlinear_arith);
        assert(bwd[n - i] == p);
        assert(bwd.contains(p));
    }
    assert forall|p: (int, int)| bwd.to_set().contains(p) implies fwd.to_set().contains(p) by {
        let i = choose|i: int| 0 <= i < bwd.len() && bwd[i] == p;
        assert((n - i) * u == n * u - i * u && (n - i) * v == n * v - i * v) by (nonlinear_arith);
        assert(fwd[n - i] == p);
        assert(fwd.contains(p));
    }
    assert(fwd.to_set() =~= bwd.to_set());
}

/// Drawing a segment in either direction plots the same pixel set, for
/// degenerate, axis-aligned and exact-diagonal segments.  (A general
/// segment's traversal can break ties toward different pixels in the
/// two directions.)
pub proof fn lemma_line_symmetric_axis_or_diagonal(x0: int, y0: int, x1: int, y1: int)
    requires
        x0 == x1 || y0 == y1 || abs_i(x1 - x0) == abs_i(y1 - y0),
    ensures
        line_points(x0, y0, x1, y1).to_set() == line_points(x1, y1, x0, y0).to_set(),
{
    let sxf = step_dir(x0, x1);
    let syf = step_dir(y0, y1);
    let sxb = step_dir(x1, x0);
    let syb = step_dir(y1, y0);
    if x0 == x1 && y0 == y1 {
        lemma_line_single_point(x0, y0);
    } else if y0 == y1 {
        let n = abs_i(x1 - x0);
        assert(sxf * (x1 - x0) == n && sxb * (x0 - x1) == n) by (nonlinear_arith)
            requires
                sxf == if x0 < x1 { 1int } else { -1int },
                sxb == if x1 < x0 { 1int } else { -1int },
                n == abs_i(x1 - x0),
                x0 != x1,
        ;
        lemma_bres_horizontal(x0, y0, x1, sxf, syf, n);
        lemma_bres_horizontal(x1, y0, x0, sxb, syb, n);
        assert(line_points(x0, y0, x1, y1) =~= Seq::new((n + 1) as nat, |i: int| (x0 + i * sxf, y0)));
        assert(line_points(x1, y1, x0, y0) =~= Seq::new((n + 1) as nat, |i: int| (x1 + i * sxb, y0)));
        lemma_progression_set_symmetric(x0, y0, sxf, 0, n);
        assert(Seq::new((n + 1) as nat, |i: int| (x0 + i * sxf, y0)) =~= Seq::new(
            (n + 1) as nat,
            |i: int| (x0 + i * sxf, y0 + i * 0),
        )) by {
            assert(forall|i: int| #![trigger i * 0] i * 0 == 0) by (nonlinear_arith);
        }
        assert(Seq::new((n + 1) as nat, |i: int| (x1 + i * sxb, y0)) =~= Seq::new(
            (n + 1) as nat,
            |i: int| (x0 + n * sxf - i * sxf, y0 + n * 0 - i * 0),
        )) by {
            assert(x0 + n * sxf == x1 && sxb == -sxf) by (nonlinear_arith)
                requires
                    sxf * (x1 - x0) == n,
                    sxf == 1 || sxf == -1,
                    sxb == if x1 < x0 { 1int } else { -1int },
                    sxf == if x0 < x1 { 1int } else { -1int },
                    x0 != x1,
            ;
            assert(forall|i: int|
                #![trigger i * sxb]
                x1 + i * sxb == x0 + n * sxf - i * sxf && i * 0 == 0 && n * 0 == 0)
                by (nonlinear_arith)
                requires
                    x0 + n * sxf == x1,
                    sxb == -sxf,
            ;
        }
    } else if x0 == x1 {
        let n = abs_i(y1 - y0);
        assert(syf * (y1 - y0) == n && syb * (y0 - y1) == n) by (nonlinear_arith)
            requires
                syf == if y0 < y1 { 1int } else { -1int },
                syb == if y1 < y0 { 1int } else { -1int },
                n == abs_i(y1 - y0),
                y0 != y1,
        ;
        lemma_bres_vertical(x0, y0, y1, sxf, syf, -n);
        lemma_bres_vertical(x0, y1, y0, sxb, syb, -n);
        assert(line_points(x0, y0, x1, y1) =~= Seq::new((n + 1) as nat, |i: int| (x0, y0 + i * syf)));
        assert(line_points(x1, y1, x0, y0) =~= Seq::new((n + 1) as nat, |i: int| (x0, y1 + i * syb)));
        lemma_progression_set_symmetric(x0, y0, 0, syf, n);
        assert(Seq::new((n + 1) as nat, |i: int| (x0, y0 + i * syf)) =~= Seq::new(
            (n + 1) as nat,
            |i: int| (x0 + i * 0, y0 + i * syf),
        )) by {
            assert(forall|i: int| #![trigger i * 0] i * 0 == 0) by (nonlinear_arith);
        }
        assert(Seq::new((n + 1) as nat, |i: int| (x0, y1 + i * syb)) =~= Seq::new(
            (n + 1) as nat,
            |i: int| (x0 + n * 0 - i * 0, y0 + n * syf - i * syf),
        )) by {
            assert(y0 + n * syf == y1 && syb == -syf) by (nonlinear_arith)
                requires
                    syf * (y1 - y0) == n,
                    syf == 1 || syf == -1,
                    syb == if y1 < y0 { 1int } else { -1int },
                    syf == if y0 < y1 { 1int } else { -1int },
                    y0 != y1,
            ;
            assert(forall|i: int|
                #![trigger i * syb]
                y1 + i * syb == y0 + n * syf - i * syf && i * 0 == 0 && n * 0 == 0)
                by (nonlinear_arith)
                requires
                    y0 + n * syf == y1,
                    syb == -syf,
            ;
        }
    } else {
        let n = abs_i(x1 - x0);
        assert(n == abs_i(y1 - y0) && n >= 1);
        assert(sxf * (x1 - x0) == n && sxb * (x0 - x1) == n) by (nonlinear_arith)
            requires
                sxf == if x0 < x1 { 1int } else { -1int },
                sxb == if x1 < x0 { 1int } else { -1int },
                n == abs_i(x1 - x0),
                x0 != x1,
        ;
        assert(y0 != y1);
        assert(syf * (y1 - y0) == n && syb * (y0 - y1) == n) by (nonlinear_arith)
            requires
                syf == if y0 < y1 { 1int } else { -1int },
                syb == if y1 < y0 { 1int } else { -1int },
                n == abs_i(y1 - y0),
                y0 != y1,
        ;
        lemma_bres_diagonal(x0, y0, x1, y1, sxf, syf, n);
        lemma_bres_diagonal(x1, y1, x0, y0, sxb, syb, n);
        assert(line_points(x0, y0, x1, y1) =~= Seq::new(
            (n + 1) as nat,
            |i: int| (x0 + i * sxf, y0 + i * syf),
        ));
        assert(line_points(x1, y1, x0, y0) =~= Seq::new(
            (n + 1) as nat,
            |i: int| (x1 + i * sxb, y1 + i * syb),
        ));
        lemma_progression_set_symmetric(x0, y0, sxf, syf, n);
        assert(Seq::new((n + 1) as nat, |i: int| (x1 + i * sxb, y1 + i * syb)) =~= Seq::new(
            (n + 1) as nat,
            |i: int| (x0 + n * sxf - i * sxf, y0 + n * syf - i * syf),
        )) by {
            assert(x0 + n * sxf == x1 && sxb == -sxf && y0 + n * syf == y1 && syb == -syf)
                by (nonlinear_arith)
                requires
                    sxf * (x1 - x0) == n,
                    syf * (y1 - y0) == n,
                    sxf == 1 || sxf == -1,
                    syf == 1 || syf == -1,
                    sxb == if x1 < x0 { 1int } else { -1int },
                    sxf == if x0 < x1 { 1int } else { -1int },
                    syb == if y1 < y0 { 1int } else { -1int },
                    syf == if y0 < y1 { 1int } else { -1int },
                    x0 != x1,
                    y0 != y1,
            ;
            assert(forall|i: int|
                #![trigger i * sxb]
                x1 + i * sxb == x0 + n * sxf - i * sxf && y1 + i * syb == y0 + n * syf - i * syf)
                by (nonlinear_arith)
                requires
                    x0 + n * sxf == x1,
                    sxb == -sxf,
                    y0 + n * syf == y1,
                    syb == -syf,
            ;
        }
    }
}

} // verus!
