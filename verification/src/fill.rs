//! Breadth-first interior fill from a seed point.
//!
//! The fill paints exactly the pixels reachable from the seed through
//! 4-adjacent in-bounds pixels whose original color differs, on the red,
//! green and blue channels, from the outline color; the seed itself is
//! painted whatever its color.  A seed outside the canvas is a geometry
//! error and nothing is painted.

use vstd::prelude::*;
use vstd::assert_maps_equal;
use vstd::assert_sets_equal;
use vstd::map::*;
use std::collections::VecDeque;
use crate::buffer::PixelBuffer;
use crate::buffer::grid_dom;
use crate::buffer::image_get_pixel;
use crate::buffer::image_height;
use crate::buffer::image_width;
use crate::buffer::img_dims;
use crate::buffer::img_pixels;
use crate::buffer::img_wf;
use crate::color::Color;
use crate::color::rgba_of;
use crate::color::same_rgb;
use crate::errors::GenericError;
use crate::raster::in_bounds;
use crate::raster::is_pixel_inside_image;
use crate::raster::paint_one;
use crate::raster::put_pixel;
use crate::textfmt::dec_int;
use crate::textfmt::i64_to_string;

verus! {

/// Whether two grid points are 4-adjacent.
pub open spec fn adjacent(p: (u32, u32), q: (u32, u32)) -> bool {
    ||| (q.0 == p.0 + 1 && q.1 == p.1)
    ||| (p.0 == q.0 + 1 && q.1 == p.1)
    ||| (q.0 == p.0 && q.1 == p.1 + 1)
    ||| (q.0 == p.0 && p.1 == q.1 + 1)
}

/// Whether the fill may spread onto `q`: its color differs from the
/// outline color on the red, green and blue channels (alpha is ignored).
pub open spec fn passable(
    m: Map<(u32, u32), (u8, u8, u8, u8)>,
    q: (u32, u32),
    outline: (u8, u8, u8, u8),
) -> bool {
    !same_rgb(m[q], outline)
}

/// A fill path: starts at the seed, steps between 4-adjacent in-bounds
/// points, and after the seed crosses only passable points.
pub open spec fn is_fill_path(
    m: Map<(u32, u32), (u8, u8, u8, u8)>,
    path: Seq<(u32, u32)>,
    seed: (u32, u32),
    outline: (u8, u8, u8, u8),
) -> bool {
    &&& path.len() >= 1
    &&& path[0] == seed
    &&& forall|i: int| 0 <= i < path.len() ==> m.dom().contains(#[trigger] path[i])
    &&& forall|i: int| 1 <= i < path.len() ==> adjacent(path[i - 1], #[trigger] path[i])
    &&& forall|i: int| 1 <= i < path.len() ==> passable(m, #[trigger] path[i], outline)
}

/// The set of points some fill path reaches: the region a fill from
/// `seed` paints.
pub open spec fn fill_region(
    m: Map<(u32, u32), (u8, u8, u8, u8)>,
    seed: (u32, u32),
    outline: (u8, u8, u8, u8),
) -> Set<(u32, u32)> {
    Set::new(
        |q: (u32, u32)|
            exists|path: Seq<(u32, u32)>|
                #[trigger] is_fill_path(m, path, seed, outline) && path.last() == q,
    )
}

/// The pixel map after painting every point of `region` with `fc`.
pub open spec fn fill_applied(
    m: Map<(u32, u32), (u8, u8, u8, u8)>,
    region: Set<(u32, u32)>,
    fc: (u8, u8, u8, u8),
) -> Map<(u32, u32), (u8, u8, u8, u8)> {
    Map::new(
        |p: (u32, u32)| m.dom().contains(p),
        |p: (u32, u32)|
            if region.contains(p) {
                fc
            } else {
                m[p]
            },
    )
}

/// The message of the geometry error for a seed outside the canvas.
pub open spec fn oob_message(x: int, y: int) -> Seq<char> {
    "Coordinates ("@ + dec_int(x) + ", "@ + dec_int(y) + ") are outside canvas"@
}

/// A seed inside the canvas lies in its own fill region.
pub proof fn lemma_region_seed(
    m: Map<(u32, u32), (u8, u8, u8, u8)>,
    seed: (u32, u32),
    outline: (u8, u8, u8, u8),
)
    requires
        m.dom().contains(seed),
    ensures
        fill_region(m, seed, outline).contains(seed),
{
    let path = seq![seed];
    assert(is_fill_path(m, path, seed, outline));
    assert(path.last() == seed);
}

/// The fill region is closed under eligible steps: a passable in-bounds
/// neighbor of a region point is in the region.
pub proof fn lemma_region_step(
    m: Map<(u32, u32), (u8, u8, u8, u8)>,
    seed: (u32, u32),
    outline: (u8, u8, u8, u8),
    p: (u32, u32),
    q: (u32, u32),
)
    requires
        fill_region(m, seed, outline).contains(p),
        adjacent(p, q),
        m.dom().contains(q),
        passable(m, q, outline),
    ensures
        fill_region(m, seed, outline).contains(q),
{
    let path = choose|path: Seq<(u32, u32)>|
        #[trigger] is_fill_path(m, path, seed, outline) && path.last() == p;
    let path2 = path.push(q);
    assert(path2.last() == q);
    assert(path2[0] == seed);
    assert forall|i: int| 0 <= i < path2.len() implies m.dom().contains(#[trigger] path2[i]) by {
        if i < path.len() {
            assert(path2[i] == path[i]);
        }
    }
    assert forall|i: int| 1 <= i < path2.len() implies adjacent(path2[i - 1], #[trigger] path2[i]) by {
        if i < path.len() {
            assert(path2[i] == path[i] && path2[i - 1] == path[i - 1]);
        } else {
            assert(path2[i] == q && path2[i - 1] == path.last());
        }
    }
    assert forall|i: int| 1 <= i < path2.len() implies passable(m, #[trigger] path2[i], outline) by {
        if i < path.len() {
            assert(path2[i] == path[i]);
        } else {
            assert(path2[i] == q);
        }
    }
    assert(is_fill_path(m, path2, seed, outline));
}

/// Every point of a column of the grid set is below the height bound, so
/// the column is finite.
proof fn lemma_column_finite(x: u32, h: u32)
    ensures
        Set::new(|p: (u32, u32)| p.0 == x && p.1 < h).finite(),
    decreases h,
{
    if h == 0 {
        assert(Set::new(|p: (u32, u32)| p.0 == x && p.1 < h) =~= Set::<(u32, u32)>::empty());
    } else {
        lemma_column_finite(x, (h - 1) as u32);
        assert(Set::new(|p: (u32, u32)| p.0 == x && p.1 < h) =~= Set::new(
            |p: (u32, u32)| p.0 == x && p.1 < (h - 1) as u32,
        ).insert((x, (h - 1) as u32)));
    }
}

/// The grid of a bounded canvas is a finite set.
pub proof fn lemma_grid_finite(w: u32, h: u32)
    ensures
        grid_dom(w, h).finite(),
    decreases w,
{
    if w == 0 {
        assert(grid_dom(w, h) =~= Set::<(u32, u32)>::empty());
    } else {
        lemma_grid_finite((w - 1) as u32, h);
        lemma_column_finite((w - 1) as u32, h);
        assert(grid_dom(w, h) =~= grid_dom((w - 1) as u32, h).union(
            Set::new(|p: (u32, u32)| p.0 == (w - 1) as u32 && p.1 < h),
        ));
    }
}

/// Whether `p` occurs in the queue's sequence.
pub open spec fn in_queue(q: Seq<(u32, u32)>, p: (u32, u32)) -> bool {
    exists|k: int| 0 <= k < q.len() && q[k] == p
}

proof fn lemma_in_queue_after_pop(q: Seq<(u32, u32)>, p: (u32, u32))
    requires
        in_queue(q, p),
        q.len() > 0,
    ensures
        p == q[0] || in_queue(q.drop_first(), p),
{
    let k = choose|k: int| 0 <= k < q.len() && q[k] == p;
    if k > 0 {
        assert(q.drop_first()[k - 1] == p);
    }
}

proof fn lemma_in_queue_after_push(q: Seq<(u32, u32)>, x: (u32, u32), p: (u32, u32))
    requires
        in_queue(q, p),
    ensures
        in_queue(q.push(x), p),
{
    let k = choose|k: int| 0 <= k < q.len() && q[k] == p;
    assert(q.push(x)[k] == p);
}

/// Whether two colors agree on their red, green and blue channels; the
/// alpha channel is never consulted.
pub fn is_the_same_color(color1: Color, color2: Color) -> (r: bool)
    ensures
        r == same_rgb(rgba_of(color1), rgba_of(color2)),
{
    color1.r == color2.r && color1.g == color2.g && color1.b == color2.b
}

/// The visited matrix as a set of grid points.
pub open spec fn visited_set(vis: Seq<Vec<bool>>, w: u32, h: u32) -> Set<(u32, u32)> {
    Set::new(|p: (u32, u32)| p.0 < w && p.1 < h && vis[p.0 as int]@[p.1 as int])
}

/// The visited matrix has one properly sized column per grid column.
pub open spec fn visited_ok(vis: Seq<Vec<bool>>, w: u32, h: u32) -> bool {
    vis.len() == w && forall|a: int| 0 <= a < w ==> (#[trigger] vis[a])@.len() == h
}

/// After a run with an empty frontier, every fill path ends on a visited
/// point: each step leads from a visited point to an eligible neighbor,
/// which the closure property forces to be visited too.
proof fn lemma_paths_visited(
    m: Map<(u32, u32), (u8, u8, u8, u8)>,
    vs: Set<(u32, u32)>,
    seed: (u32, u32),
    outline: (u8, u8, u8, u8),
    path: Seq<(u32, u32)>,
)
    requires
        is_fill_path(m, path, seed, outline),
        vs.contains(seed),
        forall|p: (u32, u32), q: (u32, u32)|
            vs.contains(p) && #[trigger] adjacent(p, q) && m.dom().contains(q) && passable(
                m,
                q,
                outline,
            ) ==> vs.contains(q),
    ensures
        vs.contains(path.last()),
    decreases path.len(),
{
    if path.len() == 1 {
        assert(path.last() == seed);
    } else {
        let prefix = path.drop_last();
        assert(is_fill_path(m, prefix, seed, outline)) by {
            assert(prefix[0] == path[0]);
            assert(forall|i: int| 0 <= i < prefix.len() ==> #[trigger] prefix[i] == path[i]);
        }
        lemma_paths_visited(m, vs, seed, outline, prefix);
        let n = path.len() - 1;
        assert(adjacent(path[n - 1], path[n]));
        assert(prefix.last() == path[n - 1]);
    }
}

/// Breadth-first fill: paints, with the fill color, exactly the points
/// reachable from the seed without crossing the outline color.  A seed
/// outside the canvas is a geometry error: nothing is painted.
#[verifier::rlimit(100)]
pub fn flood_fill(
    image: &mut PixelBuffer,
    x_start: i64,
    y_start: i64,
    outline_color: Color,
    fill_color: Color,
) -> (res: Result<(), GenericError>)
    requires
        img_wf(*old(image)),
    ensures
        img_wf(*final(image)),
        img_dims(*final(image)) == img_dims(*old(image)),
        res is Ok <==> in_bounds(img_dims(*old(image)), x_start as int, y_start as int),
        res matches Err(e) ==> img_pixels(*final(image)) == img_pixels(*old(image))
            && e.message@ == oob_message(x_start as int, y_start as int),
        res is Ok ==> img_pixels(*final(image)) == fill_applied(
            img_pixels(*old(image)),
            fill_region(
                img_pixels(*old(image)),
                (x_start as u32, y_start as u32),
                rgba_of(outline_color),
            ),
            rgba_of(fill_color),
        ),
{
    if !is_pixel_inside_image(image, x_start, y_start) {
        let mut msg = "Coordinates (".to_owned();
        msg.append(i64_to_string(x_start).as_str());
        msg.append(", ");
        msg.append(i64_to_string(y_start).as_str());
        msg.append(") are outside canvas");
        return Err(GenericError::new(msg));
    }
    let w = image_width(image);
    let h = image_height(image);
    let seed: (u32, u32) = (x_start as u32, y_start as u32);
    let ghost m0 = img_pixels(*image);
    let ghost dims = img_dims(*image);
    let ghost oc = rgba_of(outline_color);
    let ghost fc = rgba_of(fill_color);
    let ghost region = fill_region(m0, seed, oc);

    let mut queue: VecDeque<(u32, u32)> = VecDeque::new();
    queue.push_back(seed);

    let mut visited: Vec<Vec<bool>> = Vec::new();
    let mut i: u32 = 0;
    while i < w
        invariant
            i <= w,
            visited@.len() == i,
            forall|a: int|
                0 <= a < i ==> (#[trigger] visited@[a])@ =~= Seq::<bool>::new(
                    h as nat,
                    |b: int| false,
                ),
        decreases w - i,
    {
        let mut column: Vec<bool> = Vec::new();
        let mut j: u32 = 0;
        while j < h
            invariant
                j <= h,
                column@ =~= Seq::<bool>::new(j as nat, |b: int| false),
            decreases h - j,
        {
            column.push(false);
            j = j + 1;
        }
        visited.push(column);
        i = i + 1;
    }

    let ghost mut unvisited = grid_dom(w, h).difference(visited_set(visited@, w, h));
    proof {
        lemma_grid_finite(w, h);
        lemma_region_seed(m0, seed, oc);
        assert(visited_set(visited@, w, h) =~= Set::<(u32, u32)>::empty());
        assert(unvisited =~= grid_dom(w, h));
        assert_maps_equal!(img_pixels(*image),
            fill_applied(m0, visited_set(visited@, w, h), fc));
        assert(in_queue(queue@, seed)) by {
            assert(queue@[0] == seed);
        }
    }

    while queue.len() > 0
        invariant
            img_wf(*image),
            img_dims(*image) == dims,
            dims == (w, h),
            m0.dom() == grid_dom(w, h),
            seed.0 < w && seed.1 < h,
            region == fill_region(m0, seed, oc),
            oc == rgba_of(outline_color),
            fc == rgba_of(fill_color),
            visited_ok(visited@, w, h),
            forall|k: int|
                0 <= k < queue@.len() ==> region.contains(#[trigger] queue@[k]) && queue@[k].0 < w
                    && queue@[k].1 < h,
            visited_set(visited@, w, h).subset_of(region),
            img_pixels(*image) == fill_applied(m0, visited_set(visited@, w, h), fc),
            visited_set(visited@, w, h).contains(seed) || in_queue(queue@, seed),
            forall|p: (u32, u32), q: (u32, u32)|
                visited_set(visited@, w, h).contains(p) && #[trigger] adjacent(p, q) && q.0 < w
                    && q.1 < h && passable(m0, q, oc) ==> visited_set(visited@, w, h).contains(q)
                    || in_queue(queue@, q),
            unvisited == grid_dom(w, h).difference(visited_set(visited@, w, h)),
            unvisited.finite(),
        decreases unvisited.len(), queue@.len(),
    {
        let ghost old_queue = queue@;
        let ghost old_vs = visited_set(visited@, w, h);
        let point = queue.pop_front().unwrap();
        let (px, py) = point;
        proof {
            assert(old_queue[0] == point);
            assert(queue@ == old_queue.drop_first());
        }

        if visited[px as usize][py as usize] {
            proof {
                assert(old_vs.contains(point));
                if !old_vs.contains(seed) {
                    lemma_in_queue_after_pop(old_queue, seed);
                }
                assert forall|p: (u32, u32), q: (u32, u32)|
                    old_vs.contains(p) && #[trigger] adjacent(p, q) && q.0 < w && q.1 < h
                        && passable(m0, q, oc) && !old_vs.contains(q) implies in_queue(
                    queue@,
                    q,
                ) by {
                    lemma_in_queue_after_pop(old_queue, q);
                }
            }
            continue;
        }

        visited[px as usize][py as usize] = true;
        let ghost vs = visited_set(visited@, w, h);
        proof {
            assert(vs =~= old_vs.insert(point));
            assert(region.contains(point));
            assert(unvisited.contains(point));
            unvisited = unvisited.remove(point);
            assert(unvisited =~= grid_dom(w, h).difference(vs));
        }

        let ghost pre = img_pixels(*image);
        put_pixel(image, px as i64, py as i64, fill_color);
        proof {
            assert_maps_equal!(paint_one(pre, dims, px as int, py as int, fc),
                fill_applied(m0, vs, fc));
        }

        let neighbors: [(i64, i64); 4] = [
            (px as i64 + 1, py as i64),
            (px as i64 - 1, py as i64),
            (px as i64, py as i64 + 1),
            (px as i64, py as i64 - 1),
        ];
        let ghost queue_mid = queue@;
        let mut n: usize = 0;
        while n < 4
            invariant
                0 <= n <= 4,
                img_wf(*image),
                img_dims(*image) == dims,
                dims == (w, h),
                m0.dom() == grid_dom(w, h),
                region == fill_region(m0, seed, oc),
                oc == rgba_of(outline_color),
                fc == rgba_of(fill_color),
                px < w,
                py < h,
                vs == visited_set(visited@, w, h),
                vs.contains(point),
                point == (px, py),
                vs.subset_of(region),
                img_pixels(*image) == fill_applied(m0, vs, fc),
                neighbors@ =~= seq![
                    (((px as int) + 1) as i64, py as i64),
                    (((px as int) - 1) as i64, py as i64),
                    (px as i64, ((py as int) + 1) as i64),
                    (px as i64, ((py as int) - 1) as i64),
                ],
                forall|k: int|
                    0 <= k < queue@.len() ==> region.contains(#[trigger] queue@[k])
                        && queue@[k].0 < w && queue@[k].1 < h,
                forall|p: (u32, u32)| #[trigger] in_queue(queue_mid, p) ==> in_queue(queue@, p),
                forall|j: int|
                    #![trigger neighbors@[j]]
                    0 <= j < n ==> {
                        let q = ((neighbors@[j].0) as u32, (neighbors@[j].1) as u32);
                        !(in_bounds(dims, neighbors@[j].0 as int, neighbors@[j].1 as int)
                            && passable(m0, q, oc)) || vs.contains(q) || in_queue(queue@, q)
                    },
            decreases 4 - n,
        {
            let (nx, ny) = neighbors[n];
            if is_pixel_inside_image(image, nx, ny) {
                let c = image_get_pixel(image, nx as u32, ny as u32);
                let ghost nq = (nx as u32, ny as u32);
                let neighbor_color = Color { r: c.0, g: c.1, b: c.2, a: c.3 };
                if !is_the_same_color(neighbor_color, outline_color) {
                    proof {
                        if !vs.contains(nq) {
                            assert(img_pixels(*image)[nq] == m0[nq]);
                            assert(passable(m0, nq, oc));
                            assert(adjacent(point, nq));
                            lemma_region_step(m0, seed, oc, point, nq);
                        }
                        assert(region.contains(nq));
                    }
                    let ghost before_push = queue@;
                    queue.push_back((nx as u32, ny as u32));
                    proof {
                        assert(queue@ == before_push.push(nq));
                        assert forall|p: (u32, u32)| #[trigger] in_queue(before_push, p) implies
                            in_queue(queue@, p) by {
                            lemma_in_queue_after_push(before_push, nq, p);
                        }
                        assert(in_queue(queue@, nq)) by {
                            assert(queue@[queue@.len() - 1] == nq);
                        }
                    }
                } else {
                    proof {
                        assert(m0.dom().contains(nq));
                        if !vs.contains(nq) {
                            assert(img_pixels(*image)[nq] == m0[nq]);
                            assert(!passable(m0, nq, oc));
                        }
                    }
                }
            }
            n = n + 1;
        }

        proof {
            // the frontier invariant after processing this point
            if !vs.contains(seed) && !in_queue(queue@, seed) {
                assert(!old_vs.contains(seed));
                lemma_in_queue_after_pop(old_queue, seed);
                assert(seed == point || in_queue(old_queue.drop_first(), seed));
                assert(in_queue(queue_mid, seed) || seed == point);
            }
            assert forall|p: (u32, u32), q: (u32, u32)|
                vs.contains(p) && #[trigger] adjacent(p, q) && q.0 < w && q.1 < h && passable(
                    m0,
                    q,
                    oc,
                ) && !vs.contains(q) implies in_queue(queue@, q) by {
                if old_vs.contains(p) {
                    lemma_in_queue_after_pop(old_queue, q);
                    assert(q == point || in_queue(old_queue.drop_first(), q));
                    assert(!(q == point));
                    assert(in_queue(queue_mid, q));
                } else {
                    // p is the freshly visited point: q is one of its four
                    // neighbors, handled by the neighbor loop
                    assert(p == point);
                    let nbs = seq![
                        (((px as int) + 1) as i64, py as i64),
                        (((px as int) - 1) as i64, py as i64),
                        (px as i64, ((py as int) + 1) as i64),
                        (px as i64, ((py as int) - 1) as i64),
                    ];
                    let j: int = if q.0 == p.0 + 1 && q.1 == p.1 {
                        0
                    } else if p.0 == q.0 + 1 && q.1 == p.1 {
                        1
                    } else if q.0 == p.0 && q.1 == p.1 + 1 {
                        2
                    } else {
                        3
                    };
                    assert((nbs[j].0 as u32, nbs[j].1 as u32) == q);
                    assert(in_bounds(dims, nbs[j].0 as int, nbs[j].1 as int));
                }
            }
        }
    }

    proof {
        let vs = visited_set(visited@, w, h);
        assert(vs.contains(seed));
        assert forall|q: (u32, u32)| region.contains(q) implies vs.contains(q) by {
            let path = choose|path: Seq<(u32, u32)>|
                #[trigger] is_fill_path(m0, path, seed, oc) && path.last() == q;
            assert forall|p: (u32, u32), r: (u32, u32)|
                vs.contains(p) && #[trigger] adjacent(p, r) && m0.dom().contains(r) && passable(
                    m0,
                    r,
                    oc,
                ) implies vs.contains(r) by {
                assert(r.0 < w && r.1 < h);
            }
            lemma_paths_visited(m0, vs, seed, oc, path);
        }
        assert_sets_equal!(vs, region);
    }
    Ok(())
}

/// Every point on a fill path over an already-filled buffer lies in the
/// original fill region: an unfilled point keeps its color, so a path
/// crossing it was already possible before the fill.
proof fn lemma_refill_path_in_region(
    m: Map<(u32, u32), (u8, u8, u8, u8)>,
    seed: (u32, u32),
    outline: (u8, u8, u8, u8),
    fc: (u8, u8, u8, u8),
    path: Seq<(u32, u32)>,
)
    requires
        is_fill_path(
            fill_applied(m, fill_region(m, seed, outline), fc),
            path,
            seed,
            outline,
        ),
    ensures
        fill_region(m, seed, outline).contains(path.last()),
    decreases path.len(),
{
    let region = fill_region(m, seed, outline);
    let r1 = fill_applied(m, region, fc);
    assert(r1.dom() == m.dom()) by {
        assert_sets_equal!(r1.dom(), m.dom());
    }
    if path.len() == 1 {
        assert(path.last() == seed);
        assert(m.dom().contains(seed));
        lemma_region_seed(m, seed, outline);
    } else {
        let prefix = path.drop_last();
        assert(is_fill_path(r1, prefix, seed, outline)) by {
            assert(prefix[0] == path[0]);
            assert(forall|i: int| 0 <= i < prefix.len() ==> #[trigger] prefix[i] == path[i]);
        }
        lemma_refill_path_in_region(m, seed, outline, fc, prefix);
        let n = path.len() - 1;
        let p = path[n - 1];
        let q = path[n];
        assert(prefix.last() == p);
        assert(adjacent(p, q));
        assert(passable(r1, q, outline));
        if !region.contains(q) {
            assert(r1[q] == m[q]);
            assert(passable(m, q, outline));
            lemma_region_step(m, seed, outline, p, q);
        }
    }
}

/// Filling an already-filled buffer again changes no pixel: the second
/// fill's region is contained in the first's, whose pixels already hold
/// the fill color.
pub proof fn lemma_fill_idempotent(
    m: Map<(u32, u32), (u8, u8, u8, u8)>,
    seed: (u32, u32),
    outline: (u8, u8, u8, u8),
    fc: (u8, u8, u8, u8),
)
    ensures
        ({
            let once = fill_applied(m, fill_region(m, seed, outline), fc);
            fill_applied(once, fill_region(once, seed, outline), fc) == once
        }),
{
    let region = fill_region(m, seed, outline);
    let once = fill_applied(m, region, fc);
    let region2 = fill_region(once, seed, outline);
    assert forall|q: (u32, u32)| region2.contains(q) implies region.contains(q) by {
        let path = choose|path: Seq<(u32, u32)>|
            #[trigger] is_fill_path(once, path, seed, outline) && path.last() == q;
        lemma_refill_path_in_region(m, seed, outline, fc, path);
    }
    assert_maps_equal!(fill_applied(once, region2, fc), once, p => {
        if region2.contains(p) {
            assert(region.contains(p));
        }
    });
}

/// A fill paints exactly its region: every region point receives the
/// fill color, every other pixel keeps its color, and the region never
/// extends past an outline-colored pixel other than the seed itself.
pub proof fn lemma_fill_covers_region(
    m: Map<(u32, u32), (u8, u8, u8, u8)>,
    seed: (u32, u32),
    outline: (u8, u8, u8, u8),
    fc: (u8, u8, u8, u8),
)
    ensures
        forall|p: (u32, u32)|
            m.dom().contains(p) && fill_region(m, seed, outline).contains(p) ==> fill_applied(
                m,
                fill_region(m, seed, outline),
                fc,
            )[p] == fc,
        forall|p: (u32, u32)|
            m.dom().contains(p) && !fill_region(m, seed, outline).contains(p) ==> fill_applied(
                m,
                fill_region(m, seed, outline),
                fc,
            )[p] == m[p],
        forall|p: (u32, u32)|
            #[trigger] fill_region(m, seed, outline).contains(p) && p != seed ==> !same_rgb(
                m[p],
                outline,
            ),
{
    let region = fill_region(m, seed, outline);
    assert forall|p: (u32, u32)| #[trigger] region.contains(p) && p != seed implies !same_rgb(
        m[p],
        outline,
    ) by {
        let path = choose|path: Seq<(u32, u32)>|
            #[trigger] is_fill_path(m, path, seed, outline) && path.last() == p;
        if path.len() == 1 {
            assert(path.last() == seed);
        } else {
            assert(passable(m, path[path.len() - 1], outline));
        }
    }
}

} // verus!
