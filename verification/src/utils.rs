//! Shared pipeline steps: triangulation, visibility filtering, extrusion and
//! final baking.

use vstd::prelude::*;
use crate::coord::{coord_bounded, Coord, COORD_LIMIT};
use crate::mesh::GenerateDensityMeshError;
use crate::triangle::{triangles_in_range, Triangle};

verus! {

/// Orders the first pair ascending and swaps the second pair the same way.
pub fn paired_min_max(a1: i64, b1: i64, a2: i64, b2: i64) -> (r: (i64, i64, i64, i64))
    ensures
        r == (if a1 < b1 {
            (a1, b1, a2, b2)
        } else {
            (b1, a1, b2, a2)
        }),
{
    if a1 < b1 {
        (a1, b1, a2, b2)
    } else {
        (b1, a1, b2, a2)
    }
}

/// Ghost mirror of [`are_edges_connected`]: the two edges join the same two
/// points, in either direction.
pub open spec fn spec_edges_connected(a_from: int, a_to: int, b_from: int, b_to: int) -> bool {
    (a_from == b_from && a_to == b_to) || (a_from == b_to && a_to == b_from)
}

/// Two directed edges connect the same two points, in either direction.
pub fn are_edges_connected(a_from: usize, a_to: usize, b_from: usize, b_to: usize) -> (r: bool)
    ensures
        r == spec_edges_connected(a_from as int, a_to as int, b_from as int, b_to as int),
{
    (a_from == b_from && a_to == b_to) || (a_from == b_to && a_to == b_from)
}

/// Ghost mirror of [`does_triangle_share_edge`].
pub open spec fn spec_shared_corners(a: int, b: int, c: int, from: int, to: int) -> int {
    (if a == from || a == to {
        1int
    } else {
        0int
    }) + (if b == from || b == to {
        1int
    } else {
        0int
    }) + (if c == from || c == to {
        1int
    } else {
        0int
    })
}

/// How many of the triangle's corners `a`, `b`, `c` lie on the edge
/// `from -> to`.
pub fn does_triangle_share_edge(a: usize, b: usize, c: usize, from: usize, to: usize) -> (r: u8)
    ensures
        r as int == spec_shared_corners(a as int, b as int, c as int, from as int, to as int),
{
    let mut result: u8 = 0;
    if a == from || a == to {
        result = result + 1;
    }
    if b == from || b == to {
        result = result + 1;
    }
    if c == from || c == to {
        result = result + 1;
    }
    result
}

/// Twice the signed area of the triangle `(o, a, b)`: zero exactly when the
/// three points are collinear.
pub open spec fn cross_of(o: Coord, a: Coord, b: Coord) -> int {
    (a.x - o.x) * (b.y - o.y) - (a.y - o.y) * (b.x - o.x)
}

/// A point set with no three points spanning a proper triangle: fewer than
/// three points, or all of them on one line.
pub open spec fn degenerate_points(points: Seq<Coord>) -> bool {
    ||| points.len() < 3
    ||| forall|i: int, j: int, k: int|
        0 <= i < points.len() && 0 <= j < points.len() && 0 <= k < points.len()
            ==> #[trigger] cross_of(points[i], points[j], points[k]) == 0
}

/// All points of the list are in the working coordinate range `b`.
pub open spec fn points_bounded(points: Seq<Coord>, b: int) -> bool {
    forall|i: int|
        0 <= i < points.len() ==> coord_bounded(
            (#[trigger] points[i]).x as int,
            points[i].y as int,
            b,
        )
}

/// Exact cross product of in-range coordinates.
fn cross_exec(o: Coord, a: Coord, b: Coord) -> (r: i128)
    requires
        coord_bounded(o.x as int, o.y as int, 8 * COORD_LIMIT as int),
        coord_bounded(a.x as int, a.y as int, 8 * COORD_LIMIT as int),
        coord_bounded(b.x as int, b.y as int, 8 * COORD_LIMIT as int),
    ensures
        r == cross_of(o, a, b),
{
    let px: i128 = a.x as i128 - o.x as i128;
    let py: i128 = a.y as i128 - o.y as i128;
    let qx: i128 = b.x as i128 - o.x as i128;
    let qy: i128 = b.y as i128 - o.y as i128;
    proof {
        lemma_diff_prod_bound(px as int, qy as int);
        lemma_diff_prod_bound(py as int, qx as int);
    }
    px * qy - py * qx
}

/// Product of two coordinate differences stays far within `i128`.
pub(crate) proof fn lemma_diff_prod_bound(a: int, c: int)
    requires
        -16 * COORD_LIMIT as int <= a <= 16 * COORD_LIMIT as int,
        -16 * COORD_LIMIT as int <= c <= 16 * COORD_LIMIT as int,
    ensures
        -0x100_0000_0000_0000_0000_0000 <= a * c <= 0x100_0000_0000_0000_0000_0000,
{
    let b = 16 * COORD_LIMIT as int;
    assert(-(b * b) <= a * c <= b * b) by (nonlinear_arith)
        requires -b <= a <= b, -b <= c <= b, b >= 0;
    assert(b * b == 0x100_0000_0000_0000_0000_0000) by (nonlinear_arith)
        requires b == 16 * COORD_LIMIT as int, COORD_LIMIT == 0x100_0000_0000;
}

/// Triple cross products decompose over a common origin.
#[verifier::rlimit(100)]
proof fn lemma_cross_decompose(o: Coord, a: Coord, b: Coord, c: Coord)
    ensures
        cross_of(a, b, c) == cross_of(o, b, c) - cross_of(o, a, c) + cross_of(o, a, b),
{
    let ox = o.x as int;
    let oy = o.y as int;
    let ax = a.x as int;
    let ay = a.y as int;
    let bx = b.x as int;
    let by = b.y as int;
    let cx = c.x as int;
    let cy = c.y as int;
    assert((bx - ax) * (cy - ay) - (by - ay) * (cx - ax) == ((bx - ox) * (cy - oy) - (by - oy) * (cx
        - ox)) - ((ax - ox) * (cy - oy) - (ay - oy) * (cx - ox)) + ((ax - ox) * (by - oy) - (ay
        - oy) * (bx - ox))) by (nonlinear_arith);
}

/// Two vectors each parallel to a nonzero direction are parallel to each
/// other.
proof fn lemma_parallel(dx: int, dy: int, ux: int, uy: int, vx: int, vy: int)
    requires
        dx != 0 || dy != 0,
        dx * uy == dy * ux,
        dx * vy == dy * vx,
    ensures
        ux * vy == uy * vx,
{
    if dx != 0 {
        assert(dx * (ux * vy - uy * vx) == 0) by (nonlinear_arith)
            requires dx * uy == dy * ux, dx * vy == dy * vx;
        assert(ux * vy == uy * vx) by (nonlinear_arith)
            requires dx != 0, dx * (ux * vy - uy * vx) == 0;
    } else {
        assert(dy * (ux * vy - uy * vx) == 0) by (nonlinear_arith)
            requires dx * uy == dy * ux, dx * vy == dy * vx;
        assert(ux * vy == uy * vx) by (nonlinear_arith)
            requires dy != 0, dy * (ux * vy - uy * vx) == 0;
    }
}

/// If every point is collinear with one fixed pair of distinct points, every
/// triple of points is collinear.
proof fn lemma_all_on_line(points: Seq<Coord>, j: int)
    requires
        0 <= j < points.len(),
        points[j] != points[0],
        points.len() >= 1,
        forall|k: int|
            0 <= k < points.len() ==> #[trigger] cross_of(points[0], points[j], points[k]) == 0,
    ensures
        forall|a: int, b: int, c: int|
            0 <= a < points.len() && 0 <= b < points.len() && 0 <= c < points.len()
                ==> #[trigger] cross_of(points[a], points[b], points[c]) == 0,
{
    let o = points[0];
    let d = points[j];
    assert forall|a: int, b: int, c: int|
        0 <= a < points.len() && 0 <= b < points.len() && 0 <= c < points.len() implies #[trigger]
        cross_of(points[a], points[b], points[c]) == 0 by {
        let pa = points[a];
        let pb = points[b];
        let pc = points[c];
        let dx = d.x - o.x;
        let dy = d.y - o.y;
        assert(cross_of(o, d, pa) == 0);
        assert(cross_of(o, d, pb) == 0);
        assert(cross_of(o, d, pc) == 0);
        assert(dx != 0 || dy != 0);
        lemma_parallel(dx, dy, pa.x - o.x, pa.y - o.y, pb.x - o.x, pb.y - o.y);
        lemma_parallel(dx, dy, pa.x - o.x, pa.y - o.y, pc.x - o.x, pc.y - o.y);
        lemma_parallel(dx, dy, pb.x - o.x, pb.y - o.y, pc.x - o.x, pc.y - o.y);
        lemma_cross_decompose(o, pa, pb, pc);
    }
}

/// Finds three points spanning a proper triangle, or reports that the point
/// set is degenerate.
fn find_spanning_triple(points: &Vec<Coord>) -> (r: Option<(usize, usize, usize)>)
    requires
        points_bounded(points@, 8 * COORD_LIMIT as int),
    ensures
        r is Some ==> {
            let (i, j, k) = r->Some_0;
            &&& points@.len() >= 3
            &&& i < points@.len()
            &&& j < points@.len()
            &&& k < points@.len()
            &&& cross_of(points@[i as int], points@[j as int], points@[k as int]) != 0
        },
        r is None ==> degenerate_points(points@),
{
    let n = points.len();
    if n < 3 {
        return None;
    }
    let base = points[0];
    let mut j: usize = 1;
    while j < n && points[j].x == base.x && points[j].y == base.y
        invariant
            1 <= j <= n,
            n == points@.len(),
            base == points@[0],
            forall|l: int| 0 <= l < j ==> points@[l] == base,
        decreases n - j,
    {
        j = j + 1;
    }
    if j == n {
        proof {
            assert forall|a: int, b: int, c: int|
                0 <= a < points@.len() && 0 <= b < points@.len() && 0 <= c < points@.len() implies
                #[trigger] cross_of(points@[a], points@[b], points@[c]) == 0 by {
                assert(points@[a] == base && points@[b] == base && points@[c] == base);
            }
        }
        return None;
    }
    let d = points[j];
    let mut k: usize = 0;
    while k < n
        invariant
            0 <= k <= n,
            n == points@.len(),
            n >= 3,
            j < n,
            base == points@[0],
            d == points@[j as int],
            d != base,
            points_bounded(points@, 8 * COORD_LIMIT as int),
            forall|l: int| 0 <= l < k ==> #[trigger] cross_of(base, d, points@[l]) == 0,
        decreases n - k,
    {
        let c = cross_exec(base, d, points[k]);
        if c != 0 {
            return Some((0, j, k));
        }
        k = k + 1;
    }
    proof {
        lemma_all_on_line(points@, j as int);
    }
    None
}

/// The scaled coordinate (milli-units) of a pixel column or row, rounded
/// towards zero.
pub open spec fn px_of(v: int) -> int {
    crate::scalar::div_trunc(v, 1000)
}

/// Whether the pixel `(x, y)` lies inside the triangle `(a, b, c)` (given in
/// milli-units): on the inner side of each edge's right-perpendicular.
pub open spec fn point_in_triangle(a: Coord, b: Coord, c: Coord, x: int, y: int) -> bool {
    let px = 1000 * x;
    let py = 1000 * y;
    &&& (px - a.x) * (b.y - a.y) + (py - a.y) * (a.x - b.x) >= 0
    &&& (px - b.x) * (c.y - b.y) + (py - b.y) * (b.x - c.x) >= 0
    &&& (px - c.x) * (a.y - c.y) + (py - c.y) * (c.x - a.x) >= 0
}

/// Whether the density at pixel `(x, y)` is above the visibility threshold
/// (milli-units).
pub open spec fn pixel_visible(m: crate::map::DensityMap, thr: int, x: int, y: int) -> bool {
    m.spec_value_at_point(x, y) * 1000 > thr * 255
}

/// Samples and visible samples of one pixel row `fx..=x` of the triangle's
/// bounding box: how many pixels lie inside the triangle, and how many of
/// those are visible.
pub open spec fn row_counts(
    a: Coord,
    b: Coord,
    c: Coord,
    m: crate::map::DensityMap,
    thr: int,
    fx: int,
    x: int,
    y: int,
) -> (int, int)
    decreases x - fx + 1,
{
    if x < fx {
        (0, 0)
    } else {
        let (s, v) = row_counts(a, b, c, m, thr, fx, x - 1, y);
        if point_in_triangle(a, b, c, x, y) {
            (s + 1, if pixel_visible(m, thr, x, y) {
                v + 1
            } else {
                v
            })
        } else {
            (s, v)
        }
    }
}

/// Samples and visible samples of the pixel rows `fy..=y`, columns
/// `fx..=tx`.
pub open spec fn rect_counts(
    a: Coord,
    b: Coord,
    c: Coord,
    m: crate::map::DensityMap,
    thr: int,
    fx: int,
    tx: int,
    fy: int,
    y: int,
) -> (int, int)
    decreases y - fy + 1,
{
    if y < fy {
        (0, 0)
    } else {
        let (s0, v0) = rect_counts(a, b, c, m, thr, fx, tx, fy, y - 1);
        let (s1, v1) = row_counts(a, b, c, m, thr, fx, tx, y);
        (s0 + s1, v0 + v1)
    }
}

/// Ghost mirror of [`is_triangle_visible`]: more than half of the pixels
/// inside the triangle's bounding box that lie in the triangle are visible
/// (false when no pixel lies inside).
pub open spec fn spec_triangle_visible(
    a: Coord,
    b: Coord,
    c: Coord,
    m: crate::map::DensityMap,
    thr: int,
) -> bool {
    let fx = spec_min3(px_of(a.x as int), px_of(b.x as int), px_of(c.x as int));
    let fy = spec_min3(px_of(a.y as int), px_of(b.y as int), px_of(c.y as int));
    let tx = spec_max3(px_of(a.x as int), px_of(b.x as int), px_of(c.x as int));
    let ty = spec_max3(px_of(a.y as int), px_of(b.y as int), px_of(c.y as int));
    let (s, v) = rect_counts(a, b, c, m, thr, fx, tx, fy, ty);
    2 * v > s
}

/// Least of three values.
pub open spec fn spec_min3(p: int, q: int, r: int) -> int {
    if p <= q && p <= r {
        p
    } else if q <= r {
        q
    } else {
        r
    }
}

/// Greatest of three values.
pub open spec fn spec_max3(p: int, q: int, r: int) -> int {
    if p >= q && p >= r {
        p
    } else if q >= r {
        q
    } else {
        r
    }
}

/// Row counts are non-negative, visible at most sampled, sampled at most the
/// row length.
proof fn lemma_row_counts_bound(
    a: Coord,
    b: Coord,
    c: Coord,
    m: crate::map::DensityMap,
    thr: int,
    fx: int,
    x: int,
    y: int,
)
    ensures
        ({
            let (s, v) = row_counts(a, b, c, m, thr, fx, x, y);
            0 <= v <= s && s <= (if x < fx {
                0int
            } else {
                x - fx + 1
            })
        }),
    decreases x - fx + 1,
{
    if x >= fx {
        lemma_row_counts_bound(a, b, c, m, thr, fx, x - 1, y);
    }
}

/// Rectangle counts are non-negative, visible at most sampled, sampled at
/// most the rectangle area.
proof fn lemma_rect_counts_bound(
    a: Coord,
    b: Coord,
    c: Coord,
    m: crate::map::DensityMap,
    thr: int,
    fx: int,
    tx: int,
    fy: int,
    y: int,
)
    requires
        tx - fx + 1 <= 0x1_0000_0000_0000,
    ensures
        ({
            let (s, v) = rect_counts(a, b, c, m, thr, fx, tx, fy, y);
            0 <= v <= s && s <= (if y < fy {
                0int
            } else {
                (y - fy + 1) * 0x1_0000_0000_0000
            })
        }),
    decreases y - fy + 1,
{
    if y >= fy {
        lemma_rect_counts_bound(a, b, c, m, thr, fx, tx, fy, y - 1);
        lemma_row_counts_bound(a, b, c, m, thr, fx, tx, y);
        let (s0, v0) = rect_counts(a, b, c, m, thr, fx, tx, fy, y - 1);
        let (s1, v1) = row_counts(a, b, c, m, thr, fx, tx, y);
        assert((y - fy + 1) * 0x1_0000_0000_0000 == (y - 1 - fy + 1) * 0x1_0000_0000_0000
            + 0x1_0000_0000_0000) by (nonlinear_arith);
        if y - 1 < fy {
            assert((y - 1 - fy + 1) * 0x1_0000_0000_0000 == 0) by (nonlinear_arith)
                requires y - 1 - fy + 1 == 0;
        }
    }
}

/// Whether the density at pixel `(x, y)` is above the visibility threshold.
pub fn is_point_visible(x: i64, y: i64, map: &crate::map::DensityMap, visibility_threshold: i64)
    -> (r: bool)
    requires
        map.wf(),
    ensures
        r == pixel_visible(*map, visibility_threshold as int, x as int, y as int),
{
    let v = map.value_at_point(x, y);
    (v as i128) * 1000 > (visibility_threshold as i128) * 255
}

/// Whether the pixel `(x, y)` lies inside the triangle `(a, b, c)`.
fn point_in_triangle_exec(a: Coord, b: Coord, c: Coord, x: i64, y: i64) -> (r: bool)
    requires
        coord_bounded(a.x as int, a.y as int, 4 * COORD_LIMIT as int),
        coord_bounded(b.x as int, b.y as int, 4 * COORD_LIMIT as int),
        coord_bounded(c.x as int, c.y as int, 4 * COORD_LIMIT as int),
        -8 * COORD_LIMIT as int <= 1000 * x <= 8 * COORD_LIMIT as int,
        -8 * COORD_LIMIT as int <= 1000 * y <= 8 * COORD_LIMIT as int,
    ensures
        r == point_in_triangle(a, b, c, x as int, y as int),
{
    let px: i128 = 1000 * (x as i128);
    let py: i128 = 1000 * (y as i128);
    proof {
        lemma_diff_prod_bound(px - a.x, (b.y - a.y) as int);
        lemma_diff_prod_bound(py - a.y, (a.x - b.x) as int);
        lemma_diff_prod_bound(px - b.x, (c.y - b.y) as int);
        lemma_diff_prod_bound(py - b.y, (b.x - c.x) as int);
        lemma_diff_prod_bound(px - c.x, (a.y - c.y) as int);
        lemma_diff_prod_bound(py - c.y, (c.x - a.x) as int);
    }
    let dab: i128 = (px - a.x as i128) * (b.y as i128 - a.y as i128) + (py - a.y as i128) * (
    a.x as i128 - b.x as i128);
    let dbc: i128 = (px - b.x as i128) * (c.y as i128 - b.y as i128) + (py - b.y as i128) * (
    b.x as i128 - c.x as i128);
    let dca: i128 = (px - c.x as i128) * (a.y as i128 - c.y as i128) + (py - c.y as i128) * (
    c.x as i128 - a.x as i128);
    dab >= 0 && dbc >= 0 && dca >= 0
}

/// The pixel column or row of a milli-unit coordinate, rounded towards zero.
fn px_of_exec(v: i64) -> (r: i64)
    requires
        coord_bounded(v as int, 0, 8 * COORD_LIMIT as int),
    ensures
        r == px_of(v as int),
        -8 * COORD_LIMIT as int <= 1000 * r <= 8 * COORD_LIMIT as int,
        coord_bounded(r as int, 0, 8 * COORD_LIMIT as int),
    {
    let r = crate::scalar::div_trunc_i128(v as i128, 1000);
    proof {
        lemma_px_scale_bound(v as int);
    }
    r as i64
}

/// Truncated division by one thousand shrinks, and scaling back stays within
/// the original magnitude.
proof fn lemma_px_scale_bound(v: int)
    requires
        -8 * COORD_LIMIT as int <= v <= 8 * COORD_LIMIT as int,
    ensures
        -8 * COORD_LIMIT as int <= 1000 * crate::scalar::div_trunc(v, 1000) <= 8 * COORD_LIMIT
            as int,
        -8 * COORD_LIMIT as int <= crate::scalar::div_trunc(v, 1000) <= 8 * COORD_LIMIT as int,
{
    let b = 8 * COORD_LIMIT as int;
    if v >= 0 {
        assert(0 <= 1000 * (v / 1000) <= v) by (nonlinear_arith)
            requires v >= 0;
    } else {
        assert(0 <= 1000 * ((-v) / 1000) <= -v) by (nonlinear_arith)
            requires v < 0;
        assert(1000 * (-((-v) / 1000)) == -(1000 * ((-v) / 1000))) by (nonlinear_arith);
    }
}

/// Least of three values.
pub(crate) fn min3(p: i64, q: i64, r: i64) -> (m: i64)
    ensures
        m == spec_min3(p as int, q as int, r as int),
{
    if p <= q && p <= r {
        p
    } else if q <= r {
        q
    } else {
        r
    }
}

/// Greatest of three values.
pub(crate) fn max3(p: i64, q: i64, r: i64) -> (m: i64)
    ensures
        m == spec_max3(p as int, q as int, r as int),
{
    if p >= q && p >= r {
        p
    } else if q >= r {
        q
    } else {
        r
    }
}

/// Whether the triangle `(a, b, c)` is visible against the density map: scan
/// every pixel of the triangle's bounding box, and keep the triangle exactly
/// when more than half of the pixels inside it are visible.
pub fn is_triangle_visible(
    a: Coord,
    b: Coord,
    c: Coord,
    map: &crate::map::DensityMap,
    settings: &crate::settings::GenerateDensityMeshSettings,
) -> (r: bool)
    requires
        map.wf(),
        coord_bounded(a.x as int, a.y as int, 4 * COORD_LIMIT as int),
        coord_bounded(b.x as int, b.y as int, 4 * COORD_LIMIT as int),
        coord_bounded(c.x as int, c.y as int, 4 * COORD_LIMIT as int),
    ensures
        r == spec_triangle_visible(a, b, c, *map, settings.visibility_threshold as int),
{
    let thr = settings.visibility_threshold;
    let fx = min3(px_of_exec(a.x), px_of_exec(b.x), px_of_exec(c.x));
    let tx = max3(px_of_exec(a.x), px_of_exec(b.x), px_of_exec(c.x));
    let fy = min3(px_of_exec(a.y), px_of_exec(b.y), px_of_exec(c.y));
    let ty = max3(px_of_exec(a.y), px_of_exec(b.y), px_of_exec(c.y));
    let mut samples: u128 = 0;
    let mut count: u128 = 0;
    let mut y: i64 = fy;
    proof {
        lemma_rect_counts_bound(a, b, c, *map, thr as int, fx as int, tx as int, fy as int, fy - 1);
    }
    while y <= ty
        invariant
            map.wf(),
            fy <= y <= ty + 1,
            fx <= tx,
            -8 * COORD_LIMIT as int <= 1000 * fx,
            1000 * tx <= 8 * COORD_LIMIT as int,
            -8 * COORD_LIMIT as int <= 1000 * fy,
            1000 * ty <= 8 * COORD_LIMIT as int,
            coord_bounded(a.x as int, a.y as int, 4 * COORD_LIMIT as int),
            coord_bounded(b.x as int, b.y as int, 4 * COORD_LIMIT as int),
            coord_bounded(c.x as int, c.y as int, 4 * COORD_LIMIT as int),
            (samples as int, count as int) == rect_counts(
                a,
                b,
                c,
                *map,
                thr as int,
                fx as int,
                tx as int,
                fy as int,
                y - 1,
            ),
        decreases ty - y + 1,
    {
        let ghost row_start = (samples as int, count as int);
        let mut x: i64 = fx;
        proof {
            lemma_rect_counts_bound(
                a,
                b,
                c,
                *map,
                thr as int,
                fx as int,
                tx as int,
                fy as int,
                y - 1,
            );
            if y - 1 >= fy {
                assert((y - 1 - fy + 1) * 0x1_0000_0000_0000
                    <= 0x1_0000_0000_0000_0000_0000_0000) by (nonlinear_arith)
                    requires 0 <= y - 1 - fy + 1 <= 0x1_0000_0000_0000;
            }
        }
        while x <= tx
            invariant
                map.wf(),
                fy <= y <= ty,
                fx <= x <= tx + 1,
                -8 * COORD_LIMIT as int <= 1000 * fx,
                1000 * tx <= 8 * COORD_LIMIT as int,
                -8 * COORD_LIMIT as int <= 1000 * y <= 8 * COORD_LIMIT as int,
                coord_bounded(a.x as int, a.y as int, 4 * COORD_LIMIT as int),
                coord_bounded(b.x as int, b.y as int, 4 * COORD_LIMIT as int),
                coord_bounded(c.x as int, c.y as int, 4 * COORD_LIMIT as int),
                row_start == rect_counts(
                    a,
                    b,
                    c,
                    *map,
                    thr as int,
                    fx as int,
                    tx as int,
                    fy as int,
                    y - 1,
                ),
                row_start.0 + row_start.1 >= 0,
                0 <= row_start.1 <= row_start.0,
                row_start.0 <= 0x1_0000_0000_0000_0000_0000_0000,
                ({
                    let (rs, rv) = row_counts(
                        a,
                        b,
                        c,
                        *map,
                        thr as int,
                        fx as int,
                        x - 1,
                        y as int,
                    );
                    samples as int == row_start.0 + rs && count as int == row_start.1 + rv
                }),
            decreases tx - x + 1,
        {
            proof {
                lemma_row_counts_bound(a, b, c, *map, thr as int, fx as int, x - 1, y as int);
                assert((0x1_0000_0000_0000 + 1) * 0x1_0000_0000_0000
                    <= 0x1_0000_0000_0000_0000_0000_0000 + 0x1_0000_0000_0000) by (nonlinear_arith);
            }
            if point_in_triangle_exec(a, b, c, x, y) {
                samples = samples + 1;
                if is_point_visible(x, y, map, thr) {
                    count = count + 1;
                }
            }
            x = x + 1;
        }
        proof {
            lemma_row_counts_bound(a, b, c, *map, thr as int, fx as int, tx as int, y as int);
        }
        y = y + 1;
    }
    proof {
        lemma_rect_counts_bound(a, b, c, *map, thr as int, fx as int, tx as int, fy as int, ty as int);
    }
    2 * count > samples
}

/// Some entry of the renumbering map sends an old point index to `j`.
pub open spec fn map_hits(map: Seq<Option<usize>>, j: int) -> bool {
    exists|i: int| 0 <= i < map.len() && #[trigger] map[i] == Some(j as usize)
}

/// How baking selects and renumbers points: `map` sends each old point index
/// to its place in the compacted point list. A point survives exactly when
/// some triangle references it; survivors keep their relative order and their
/// coordinates, and every triangle is renumbered through `map`.
pub open spec fn bake_selection(
    points: Seq<Coord>,
    triangles: Seq<Triangle>,
    r: crate::mesh::DensityMesh,
    map: Seq<Option<usize>>,
) -> bool {
    &&& map.len() == points.len()
    &&& forall|i: int|
        0 <= i < map.len() ==> ((#[trigger] map[i]) is Some <==> crate::mesh::point_referenced(
            triangles,
            i,
        ))
    &&& forall|i: int|
        0 <= i < map.len() && map[i] is Some ==> (#[trigger] map[i])->0 < r.points@.len()
            && r.points@[map[i]->0 as int] == points[i]
    &&& forall|i1: int, i2: int|
        0 <= i1 < i2 < map.len() && map[i1] is Some && map[i2] is Some ==> (#[trigger] map[i1])->0
            < (#[trigger] map[i2])->0
    &&& forall|j: int| 0 <= j < r.points@.len() ==> #[trigger] map_hits(map, j)
    &&& r.triangles@.len() == triangles.len()
    &&& forall|k: int|
        0 <= k < triangles.len() ==> {
            let t = #[trigger] triangles[k];
            &&& map[t.a as int] is Some
            &&& map[t.b as int] is Some
            &&& map[t.c as int] is Some
            &&& r.triangles@[k] == (Triangle {
                a: map[t.a as int]->0,
                b: map[t.b as int]->0,
                c: map[t.c as int]->0,
            })
        }
}

/// Whether some triangle of the list references point index `i`.
fn is_referenced(triangles: &Vec<Triangle>, i: usize) -> (r: bool)
    ensures
        r == crate::mesh::point_referenced(triangles@, i as int),
{
    let mut k: usize = 0;
    while k < triangles.len()
        invariant
            k <= triangles@.len(),
            forall|l: int| 0 <= l < k ==> !(#[trigger] triangles@[l]).references(i as int),
        decreases triangles@.len() - k,
    {
        let t = triangles[k];
        if t.a == i || t.b == i || t.c == i {
            proof {
                assert(triangles@[k as int].references(i as int));
            }
            return true;
        }
        k = k + 1;
    }
    false
}

/// Drop every point no triangle references, keep the survivors in order, and
/// renumber the triangles to the compacted point list.
pub fn bake_final_mesh(points: Vec<Coord>, triangles: Vec<Triangle>) -> (r:
    crate::mesh::DensityMesh)
    requires
        triangles_in_range(triangles@, points@.len() as int),
        points_bounded(points@, crate::mesh::MESH_COORD_LIMIT as int),
    ensures
        r.wf(),
        exists|map: Seq<Option<usize>>| bake_selection(points@, triangles@, r, map),
{
    let n = points.len();
    let mut mapping: Vec<Option<usize>> = Vec::new();
    let mut new_points: Vec<Coord> = Vec::new();
    let mut i: usize = 0;
    while i < n
        invariant
            n == points@.len(),
            points_bounded(points@, crate::mesh::MESH_COORD_LIMIT as int),
            i <= n,
            mapping@.len() == i,
            new_points@.len() <= i,
            forall|l: int|
                0 <= l < i ==> ((#[trigger] mapping@[l]) is Some
                    <==> crate::mesh::point_referenced(triangles@, l)),
            forall|l: int|
                0 <= l < i && mapping@[l] is Some ==> (#[trigger] mapping@[l])->0
                    < new_points@.len() && new_points@[mapping@[l]->0 as int] == points@[l],
            forall|l1: int, l2: int|
                0 <= l1 < l2 < i && mapping@[l1] is Some && mapping@[l2] is Some ==> (
                #[trigger] mapping@[l1])->0 < (#[trigger] mapping@[l2])->0,
            forall|j: int| 0 <= j < new_points@.len() ==> #[trigger] map_hits(mapping@, j),
            forall|j: int|
                0 <= j < new_points@.len() ==> coord_bounded(
                    (#[trigger] new_points@[j]).x as int,
                    new_points@[j].y as int,
                    crate::mesh::MESH_COORD_LIMIT as int,
                ),
        decreases n - i,
    {
        let ghost pre_map = mapping@;
        let ghost pre_pts = new_points@;
        if is_referenced(&triangles, i) {
            mapping.push(Some(new_points.len()));
            new_points.push(points[i]);
        } else {
            mapping.push(None);
        }
        proof {
            assert forall|j: int| 0 <= j < new_points@.len() implies #[trigger] map_hits(
                mapping@,
                j,
            ) by {
                if j < pre_pts.len() {
                    assert(map_hits(pre_map, j));
                    let l = choose|l: int|
                        0 <= l < pre_map.len() && #[trigger] pre_map[l] == Some(j as usize);
                    assert(mapping@[l] == Some(j as usize));
                } else {
                    assert(mapping@[i as int] == Some(j as usize));
                }
            }
            assert forall|j: int| 0 <= j < new_points@.len() implies coord_bounded(
                (#[trigger] new_points@[j]).x as int,
                new_points@[j].y as int,
                crate::mesh::MESH_COORD_LIMIT as int,
            ) by {
                if j >= pre_pts.len() {
                    assert(new_points@[j] == points@[i as int]);
                    assert(coord_bounded(
                        points@[i as int].x as int,
                        points@[i as int].y as int,
                        crate::mesh::MESH_COORD_LIMIT as int,
                    ));
                }
            }
        }
        i = i + 1;
    }
    let mut new_triangles: Vec<Triangle> = Vec::new();
    let mut k: usize = 0;
    while k < triangles.len()
        invariant
            n == points@.len(),
            mapping@.len() == n,
            triangles_in_range(triangles@, n as int),
            k <= triangles@.len(),
            new_triangles@.len() == k,
            forall|l: int|
                0 <= l < n ==> ((#[trigger] mapping@[l]) is Some
                    <==> crate::mesh::point_referenced(triangles@, l)),
            forall|l: int|
                0 <= l < n && mapping@[l] is Some ==> (#[trigger] mapping@[l])->0
                    < new_points@.len() && new_points@[mapping@[l]->0 as int] == points@[l],
            forall|kk: int|
                0 <= kk < k ==> {
                    let t = #[trigger] triangles@[kk];
                    &&& mapping@[t.a as int] is Some
                    &&& mapping@[t.b as int] is Some
                    &&& mapping@[t.c as int] is Some
                    &&& new_triangles@[kk] == (Triangle {
                        a: mapping@[t.a as int]->0,
                        b: mapping@[t.b as int]->0,
                        c: mapping@[t.c as int]->0,
                    })
                },
        decreases triangles@.len() - k,
    {
        let t = triangles[k];
        proof {
            assert(triangles@[k as int].in_range(n as int));
            assert(triangles@[k as int].references(t.a as int));
            assert(triangles@[k as int].references(t.b as int));
            assert(triangles@[k as int].references(t.c as int));
            assert(crate::mesh::point_referenced(triangles@, t.a as int));
            assert(crate::mesh::point_referenced(triangles@, t.b as int));
            assert(crate::mesh::point_referenced(triangles@, t.c as int));
        }
        let na = mapping[t.a].unwrap();
        let nb = mapping[t.b].unwrap();
        let nc = mapping[t.c].unwrap();
        new_triangles.push(Triangle { a: na, b: nb, c: nc });
        k = k + 1;
    }
    let r = crate::mesh::DensityMesh { points: new_points, triangles: new_triangles };
    proof {
        assert forall|kk: int| 0 <= kk < r.triangles@.len() implies (
        #[trigger] r.triangles@[kk]).in_range(r.points@.len() as int) by {
            let t = triangles@[kk];
            assert(triangles@[kk].in_range(n as int));
            assert(mapping@[t.a as int] is Some && mapping@[t.b as int] is Some && mapping@[t.c
                as int] is Some);
        }
        assert forall|j: int| 0 <= j < r.points@.len() implies crate::mesh::point_referenced(
            r.triangles@,
            j,
        ) by {
            assert(map_hits(mapping@, j));
            let l = choose|l: int| 0 <= l < mapping@.len() && #[trigger] mapping@[l] == Some(
                j as usize,
            );
            assert(crate::mesh::point_referenced(triangles@, l));
            let k0 = choose|k0: int|
                0 <= k0 < triangles@.len() && (#[trigger] triangles@[k0]).references(l);
            assert(r.triangles@[k0].references(j));
        }
        assert(bake_selection(points@, triangles@, r, mapping@));
    }
    r
}

/// The `e`-th directed edge of the triangle list, as
/// `(triangle index, from point, to point)`: each triangle contributes its
/// three sides in order.
pub open spec fn edge_of(ts: Seq<Triangle>, e: int) -> (int, int, int) {
    let t = ts[e / 3];
    if e % 3 == 0 {
        (e / 3, t.a as int, t.b as int)
    } else if e % 3 == 1 {
        (e / 3, t.b as int, t.c as int)
    } else {
        (e / 3, t.c as int, t.a as int)
    }
}

/// The edge lies on the outline: no edge of another triangle joins the same
/// two points.
pub open spec fn triple_on_outline(ts: Seq<Triangle>, ed: (int, int, int)) -> bool {
    !exists|e2: int|
        #![trigger edge_of(ts, e2)]
        0 <= e2 < 3 * ts.len() && edge_of(ts, e2).0 != ed.0 && spec_edges_connected(
            ed.1,
            ed.2,
            edge_of(ts, e2).1,
            edge_of(ts, e2).2,
        )
}

/// The outline of the triangle list: its directed edges that no other
/// triangle's edge joins, in edge order.
pub open spec fn outline_of(ts: Seq<Triangle>) -> Seq<(int, int, int)> {
    Seq::new((3 * ts.len()) as nat, |e: int| edge_of(ts, e)).filter(
        |ed: (int, int, int)| triple_on_outline(ts, ed),
    )
}

/// Edge triples as mathematical integers.
pub open spec fn edge_triples_view(s: Seq<(usize, usize, usize)>) -> Seq<(int, int, int)> {
    s.map_values(|e: (usize, usize, usize)| (e.0 as int, e.1 as int, e.2 as int))
}

/// The first index at or after `i` whose edge leaves from (`use_to` false) or
/// arrives at (`use_to` true) point `a`; `-1` when there is none.
pub open spec fn first_match(ol: Seq<(int, int, int)>, a: int, i: int, use_to: bool) -> int
    decreases ol.len() - i,
{
    if i < 0 || i >= ol.len() {
        -1
    } else if (if use_to {
        ol[i].2
    } else {
        ol[i].1
    }) == a {
        i
    } else {
        first_match(ol, a, i + 1, use_to)
    }
}

proof fn lemma_first_match_found(ol: Seq<(int, int, int)>, a: int, i: int, l: int, use_to: bool)
    requires
        0 <= i <= l < ol.len(),
        (if use_to {
            ol[l].2
        } else {
            ol[l].1
        }) == a,
        forall|m: int|
            i <= m < l ==> (if use_to {
                (#[trigger] ol[m]).2
            } else {
                ol[m].1
            }) != a,
    ensures
        first_match(ol, a, i, use_to) == l,
    decreases l - i,
{
    if i < l {
        lemma_first_match_found(ol, a, i + 1, l, use_to);
    }
}

proof fn lemma_first_match_none(ol: Seq<(int, int, int)>, a: int, i: int, use_to: bool)
    requires
        0 <= i,
        forall|m: int|
            i <= m < ol.len() ==> (if use_to {
                (#[trigger] ol[m]).2
            } else {
                ol[m].1
            }) != a,
    ensures
        first_match(ol, a, i, use_to) == -1,
    decreases ol.len() - i,
{
    if i < ol.len() {
        lemma_first_match_none(ol, a, i + 1, use_to);
    }
}

/// Componentwise difference, at the ghost level.
pub open spec fn spec_sub(a: Coord, b: Coord) -> Coord {
    Coord { x: (a.x - b.x) as i64, y: (a.y - b.y) as i64 }
}

/// Componentwise sum, at the ghost level.
pub open spec fn spec_add(a: Coord, b: Coord) -> Coord {
    Coord { x: (a.x + b.x) as i64, y: (a.y + b.y) as i64 }
}

/// The negated right-perpendicular, at the ghost level.
pub open spec fn spec_perp_neg(v: Coord) -> Coord {
    Coord { x: (-v.y) as i64, y: v.x }
}

/// The right-perpendicular, at the ghost level.
pub open spec fn spec_perp(v: Coord) -> Coord {
    Coord { x: v.y, y: (-v.x) as i64 }
}

/// The miter offset point for outline vertex `m`: average the negated
/// right-perpendiculars of the incoming and outgoing outline directions,
/// normalize, scale by the extrusion size and add to the vertex.
pub open spec fn miter_from(m: Coord, pm_dir: Coord, mn_dir: Coord, size: int) -> Coord {
    let pm = spec_perp_neg(pm_dir.spec_normalized());
    let mn = spec_perp_neg(mn_dir.spec_normalized());
    spec_add(m, spec_add(pm, mn).spec_normalized().spec_scaled(size))
}

/// The offset point of the `k`-th outline edge's source vertex. When the
/// vertex has an incoming outline edge, the incoming direction comes from its
/// source point; an open vertex without one continues straight along its own
/// edge.
pub open spec fn extrude_offset(points: Seq<Coord>, ol: Seq<(int, int, int)>, k: int, size: int)
    -> Coord {
    let m = points[ol[k].1];
    let n = points[ol[k].2];
    let fi = first_match(ol, ol[k].1, 0, true);
    let pm_dir = if fi >= 0 {
        spec_sub(m, points[ol[fi].1])
    } else {
        spec_sub(n, m)
    };
    miter_from(m, pm_dir, spec_sub(n, m), size)
}

/// The offset points of all outline edges, in outline order.
pub open spec fn extrude_offsets_seq(points: Seq<Coord>, ol: Seq<(int, int, int)>, size: int)
    -> Seq<Coord> {
    Seq::new(ol.len(), |k: int| extrude_offset(points, ol, k, size))
}

/// The two skirt triangles of every outline edge, in outline order, indexing
/// offset points after the first `points_len` entries.
pub open spec fn skirt_triangles_seq(points_len: int, ol: Seq<(int, int, int)>) -> Seq<Triangle> {
    Seq::new(
        (2 * ol.len()) as nat,
        |t: int|
            {
                let k = t / 2;
                let ea = first_match(ol, ol[k].1, 0, false);
                let eb0 = first_match(ol, ol[k].2, 0, false);
                let eb = if eb0 >= 0 {
                    eb0
                } else {
                    0int
                };
                if t % 2 == 0 {
                    Triangle { a: ol[k].2 as usize, b: ol[k].1 as usize, c: (points_len + ea) as usize }
                } else {
                    Triangle {
                        a: (points_len + ea) as usize,
                        b: (points_len + eb) as usize,
                        c: ol[k].2 as usize,
                    }
                }
            },
    )
}

/// Every outline edge of a triangle list gets its pair of skirt triangles
/// when the extrusion output is appended: the first joins the original edge
/// to the offset of its source vertex, the second closes the quad through the
/// offset of its target vertex.
pub proof fn lemma_skirt_pair_present(
    points: Seq<Coord>,
    triangles: Seq<Triangle>,
    p2: Seq<Coord>,
    t2: Seq<Triangle>,
    size: int,
    k: int,
)
    requires
        p2 == points + extrude_offsets_seq(points, outline_of(triangles), size),
        t2 == triangles + skirt_triangles_seq(points.len() as int, outline_of(triangles)),
        0 <= k < outline_of(triangles).len(),
    ensures
        ({
            let ol = outline_of(triangles);
            let ea = first_match(ol, ol[k].1, 0, false);
            let eb0 = first_match(ol, ol[k].2, 0, false);
            let eb = if eb0 >= 0 {
                eb0
            } else {
                0int
            };
            &&& t2.len() == triangles.len() + 2 * ol.len()
            &&& t2[triangles.len() + 2 * k] == (Triangle {
                a: ol[k].2 as usize,
                b: ol[k].1 as usize,
                c: (points.len() + ea) as usize,
            })
            &&& t2[triangles.len() + 2 * k + 1] == (Triangle {
                a: (points.len() + ea) as usize,
                b: (points.len() + eb) as usize,
                c: ol[k].2 as usize,
            })
            &&& p2[points.len() + ea] == extrude_offset(points, ol, ea, size)
            &&& p2[points.len() + eb] == extrude_offset(points, ol, eb, size)
        }),
{
    let ol = outline_of(triangles);
    let sk = skirt_triangles_seq(points.len() as int, ol);
    assert(t2[triangles.len() + 2 * k] == sk[2 * k]);
    assert(t2[triangles.len() + 2 * k + 1] == sk[2 * k + 1]);
    assert((2 * k) / 2 == k && (2 * k) % 2 == 0);
    assert((2 * k + 1) / 2 == k && (2 * k + 1) % 2 == 1);
    let ea = first_match(ol, ol[k].1, 0, false);
    let eb0 = first_match(ol, ol[k].2, 0, false);
    let eb = if eb0 >= 0 {
        eb0
    } else {
        0int
    };
    lemma_first_match_bounds(ol, ol[k].1, 0, false);
    lemma_first_match_bounds(ol, ol[k].2, 0, false);
    if ea == -1 {
        lemma_first_match_misses(ol, ol[k].1, 0, k, false);
    }
    assert(p2[points.len() + ea] == extrude_offsets_seq(points, ol, size)[ea]);
    assert(p2[points.len() + eb] == extrude_offsets_seq(points, ol, size)[eb]);
}

/// The extrusion law carried through baking: after extruding and baking,
/// every outline edge of the pre-extrusion triangles still has its pair of
/// skirt triangles in the completed mesh, spanning the same coordinates: the
/// edge's two endpoints and the offset points of its vertices.
#[verifier::rlimit(100)]
pub proof fn lemma_skirts_survive_bake(
    points: Seq<Coord>,
    triangles: Seq<Triangle>,
    p2: Seq<Coord>,
    t2: Seq<Triangle>,
    size: int,
    mesh: crate::mesh::DensityMesh,
    k: int,
)
    requires
        p2 == points + extrude_offsets_seq(points, outline_of(triangles), size),
        t2 == triangles + skirt_triangles_seq(points.len() as int, outline_of(triangles)),
        triangles_in_range(t2, p2.len() as int),
        exists|m: Seq<Option<usize>>| bake_selection(p2, t2, mesh, m),
        0 <= k < outline_of(triangles).len(),
        0 <= outline_of(triangles)[k].1 < points.len(),
        0 <= outline_of(triangles)[k].2 < points.len(),
        p2.len() <= usize::MAX,
    ensures
        ({
            let ol = outline_of(triangles);
            let ea = first_match(ol, ol[k].1, 0, false);
            let eb0 = first_match(ol, ol[k].2, 0, false);
            let eb = if eb0 >= 0 {
                eb0
            } else {
                0int
            };
            let lower = mesh.triangles@[triangles.len() + 2 * k];
            let upper = mesh.triangles@[triangles.len() + 2 * k + 1];
            &&& mesh.triangles@.len() == t2.len()
            &&& lower.in_range(mesh.points@.len() as int)
            &&& upper.in_range(mesh.points@.len() as int)
            &&& mesh.points@[lower.a as int] == points[ol[k].2]
            &&& mesh.points@[lower.b as int] == points[ol[k].1]
            &&& mesh.points@[lower.c as int] == extrude_offset(points, ol, ea, size)
            &&& mesh.points@[upper.a as int] == extrude_offset(points, ol, ea, size)
            &&& mesh.points@[upper.b as int] == extrude_offset(points, ol, eb, size)
            &&& mesh.points@[upper.c as int] == points[ol[k].2]
        }),
{
    let ol = outline_of(triangles);
    let tl = triangles.len() as int;
    lemma_skirt_pair_present(points, triangles, p2, t2, size, k);
    lemma_bake_preserves_triangle(p2, t2, mesh, tl + 2 * k);
    lemma_bake_preserves_triangle(p2, t2, mesh, tl + 2 * k + 1);
    let ea = first_match(ol, ol[k].1, 0, false);
    let eb0 = first_match(ol, ol[k].2, 0, false);
    let eb = if eb0 >= 0 {
        eb0
    } else {
        0int
    };
    assert(p2.len() == points.len() + ol.len());
    lemma_first_match_bounds(ol, ol[k].1, 0, false);
    lemma_first_match_bounds(ol, ol[k].2, 0, false);
    if ea == -1 {
        lemma_first_match_misses(ol, ol[k].1, 0, k, false);
    }
    assert(0 <= ea < ol.len() && 0 <= eb < ol.len());
    assert(((points.len() + ea) as usize) as int == points.len() + ea);
    assert(((points.len() + eb) as usize) as int == points.len() + eb);
    assert((ol[k].1 as usize) as int == ol[k].1);
    assert((ol[k].2 as usize) as int == ol[k].2);
    assert(t2[tl + 2 * k].a as int == ol[k].2);
    assert(t2[tl + 2 * k].b as int == ol[k].1);
    assert(t2[tl + 2 * k].c as int == points.len() + ea);
    assert(t2[tl + 2 * k + 1].a as int == points.len() + ea);
    assert(t2[tl + 2 * k + 1].b as int == points.len() + eb);
    assert(t2[tl + 2 * k + 1].c as int == ol[k].2);
    assert(p2[ol[k].1] == points[ol[k].1]);
    assert(p2[ol[k].2] == points[ol[k].2]);
    assert(p2[points.len() + ea] == extrude_offset(points, ol, ea, size));
    assert(p2[points.len() + eb] == extrude_offset(points, ol, eb, size));
}

/// A first-match result is `-1` or an index into the outline.
pub proof fn lemma_first_match_bounds(ol: Seq<(int, int, int)>, a: int, i: int, use_to: bool)
    ensures
        first_match(ol, a, i, use_to) == -1 || (0 <= first_match(ol, a, i, use_to) < ol.len()),
    decreases ol.len() - i,
{
    if 0 <= i < ol.len() {
        lemma_first_match_bounds(ol, a, i + 1, use_to);
    }
}

/// Baking keeps every triangle, renumbered but with the same corner
/// coordinates: the completed mesh's triangle `k` spans the same points as
/// the unbaked triangle `k`.
pub proof fn lemma_bake_preserves_triangle(
    points: Seq<Coord>,
    triangles: Seq<Triangle>,
    r: crate::mesh::DensityMesh,
    k: int,
)
    requires
        exists|m: Seq<Option<usize>>| bake_selection(points, triangles, r, m),
        triangles_in_range(triangles, points.len() as int),
        0 <= k < triangles.len(),
    ensures
        r.triangles@.len() == triangles.len(),
        r.triangles@[k].in_range(r.points@.len() as int),
        r.points@[r.triangles@[k].a as int] == points[triangles[k].a as int],
        r.points@[r.triangles@[k].b as int] == points[triangles[k].b as int],
        r.points@[r.triangles@[k].c as int] == points[triangles[k].c as int],
{
    let m = choose|m: Seq<Option<usize>>| bake_selection(points, triangles, r, m);
    let t = triangles[k];
    assert(triangles[k].in_range(points.len() as int));
    assert(m[t.a as int] is Some && m[t.b as int] is Some && m[t.c as int] is Some);
    assert(r.points@[m[t.a as int]->0 as int] == points[t.a as int]);
    assert(r.points@[m[t.b as int]->0 as int] == points[t.b as int]);
    assert(r.points@[m[t.c as int]->0 as int] == points[t.c as int]);
}

/// A sequence whose elements all satisfy the predicate filters to itself.
pub proof fn lemma_filter_all<A>(s: Seq<A>, pred: spec_fn(A) -> bool)
    requires
        forall|i: int| 0 <= i < s.len() ==> pred(#[trigger] s[i]),
    ensures
        s.filter(pred) == s,
    decreases s.len(),
{
    reveal(Seq::filter);
    if s.len() > 0 {
        lemma_filter_all(s.drop_last(), pred);
        assert(s.drop_last().push(s.last()) =~= s);
    } else {
        assert(s.filter(pred) =~= s);
    }
}

/// Filtering a sequence extended by one element keeps the element exactly
/// when it satisfies the predicate.
pub proof fn lemma_filter_push<A>(s: Seq<A>, x: A, pred: spec_fn(A) -> bool)
    ensures
        s.push(x).filter(pred) == (if pred(x) {
            s.filter(pred).push(x)
        } else {
            s.filter(pred)
        }),
{
    reveal(Seq::filter);
    assert(s.push(x).drop_last() =~= s);
    assert(s.push(x).last() == x);
    assert(s.push(x).len() == s.len() + 1);
}

/// The `e`-th directed edge of the triangle list.
fn edge_at(triangles: &Vec<Triangle>, e: usize) -> (r: (usize, usize, usize))
    requires
        e < 3 * triangles@.len(),
    ensures
        (r.0 as int, r.1 as int, r.2 as int) == edge_of(triangles@, e as int),
        r.0 < triangles@.len(),
{
    let t = triangles[e / 3];
    let rem = e % 3;
    if rem == 0 {
        (e / 3, t.a, t.b)
    } else if rem == 1 {
        (e / 3, t.b, t.c)
    } else {
        (e / 3, t.c, t.a)
    }
}

/// Whether the `e`-th directed edge lies on the outline.
fn is_outline_edge(triangles: &Vec<Triangle>, e: usize) -> (r: bool)
    requires
        e < 3 * triangles@.len(),
        3 * triangles@.len() <= usize::MAX,
    ensures
        r == triple_on_outline(triangles@, edge_of(triangles@, e as int)),
{
    let ed = edge_at(triangles, e);
    let total = 3 * triangles.len();
    let mut e2: usize = 0;
    while e2 < total
        invariant
            total == 3 * triangles@.len(),
            e2 <= total,
            e < total,
            (ed.0 as int, ed.1 as int, ed.2 as int) == edge_of(triangles@, e as int),
            forall|m: int|
                0 <= m < e2 ==> !((#[trigger] edge_of(triangles@, m)).0 != ed.0
                    && spec_edges_connected(
                    ed.1 as int,
                    ed.2 as int,
                    edge_of(triangles@, m).1,
                    edge_of(triangles@, m).2,
                )),
        decreases total - e2,
    {
        let other = edge_at(triangles, e2);
        if other.0 != ed.0 && are_edges_connected(ed.1, ed.2, other.1, other.2) {
            return false;
        }
        e2 = e2 + 1;
    }
    true
}

/// The outline edges of the triangle list, in edge order, as
/// `(triangle index, from point, to point)`.
pub(crate) fn collect_outline(triangles: &Vec<Triangle>) -> (r: Vec<(usize, usize, usize)>)
    requires
        3 * triangles@.len() <= usize::MAX,
    ensures
        edge_triples_view(r@) == outline_of(triangles@),
        forall|k: int|
            0 <= k < r@.len() ==> {
                let ed = #[trigger] r@[k];
                &&& ed.0 < triangles@.len()
                &&& (ed.1 == triangles@[ed.0 as int].a || ed.1 == triangles@[ed.0 as int].b
                    || ed.1 == triangles@[ed.0 as int].c)
                &&& (ed.2 == triangles@[ed.0 as int].a || ed.2 == triangles@[ed.0 as int].b
                    || ed.2 == triangles@[ed.0 as int].c)
            },
{
    let total = 3 * triangles.len();
    let mut r: Vec<(usize, usize, usize)> = Vec::new();
    let mut e: usize = 0;
    proof {
        assert(Seq::new(0nat, |i: int| edge_of(triangles@, i)).filter(
            |ed: (int, int, int)| triple_on_outline(triangles@, ed),
        ) =~= Seq::<(int, int, int)>::empty());
        assert(edge_triples_view(r@) =~= Seq::<(int, int, int)>::empty());
    }
    while e < total
        invariant
            total == 3 * triangles@.len(),
            e <= total,
            edge_triples_view(r@) == Seq::new(e as nat, |i: int| edge_of(triangles@, i)).filter(
                |ed: (int, int, int)| triple_on_outline(triangles@, ed),
            ),
            forall|k: int|
                0 <= k < r@.len() ==> {
                    let ed = #[trigger] r@[k];
                    &&& ed.0 < triangles@.len()
                    &&& (ed.1 == triangles@[ed.0 as int].a || ed.1 == triangles@[ed.0 as int].b
                        || ed.1 == triangles@[ed.0 as int].c)
                    &&& (ed.2 == triangles@[ed.0 as int].a || ed.2 == triangles@[ed.0 as int].b
                        || ed.2 == triangles@[ed.0 as int].c)
                },
        decreases total - e,
    {
        let ghost prefix = Seq::new(e as nat, |i: int| edge_of(triangles@, i));
        let ghost pred = |ed: (int, int, int)| triple_on_outline(triangles@, ed);
        let ed = edge_at(triangles, e);
        let ghost pre_r = r@;
        if is_outline_edge(triangles, e) {
            r.push(ed);
        }
        proof {
            let extended = Seq::new((e + 1) as nat, |i: int| edge_of(triangles@, i));
            assert(extended =~= prefix.push(edge_of(triangles@, e as int)));
            lemma_filter_push(prefix, edge_of(triangles@, e as int), pred);
            if pred(edge_of(triangles@, e as int)) {
                assert(edge_triples_view(r@) =~= edge_triples_view(pre_r).push(
                    edge_of(triangles@, e as int),
                ));
            }
            assert(edge_triples_view(r@) =~= extended.filter(pred));
        }
        e = e + 1;
    }
    proof {
        assert(Seq::new(total as nat, |i: int| edge_of(triangles@, i)) =~= Seq::new(
            (3 * triangles@.len()) as nat,
            |i: int| edge_of(triangles@, i),
        ));
    }
    r
}

/// The first outline entry leaving from (`use_to` false) or arriving at
/// (`use_to` true) point `a`.
pub(crate) fn find_first_match(outline: &Vec<(usize, usize, usize)>, a: usize, use_to: bool) -> (r: Option<
    usize,
>)
    ensures
        ({
            let fm = first_match(edge_triples_view(outline@), a as int, 0, use_to);
            &&& r is Some ==> fm == r->0 && r->0 < outline@.len()
            &&& r is None ==> fm == -1
        }),
{
    let ghost ol = edge_triples_view(outline@);
    let n = outline.len();
    let mut l: usize = 0;
    while l < n
        invariant
            n == outline@.len(),
            ol == edge_triples_view(outline@),
            l <= n,
            forall|m: int|
                0 <= m < l ==> (if use_to {
                    (#[trigger] ol[m]).2
                } else {
                    ol[m].1
                }) != a,
        decreases n - l,
    {
        let entry = outline[l];
        let hit = if use_to {
            entry.2 == a
        } else {
            entry.1 == a
        };
        if hit {
            proof {
                lemma_first_match_found(ol, a as int, 0, l as int, use_to);
            }
            return Some(l);
        }
        l = l + 1;
    }
    proof {
        lemma_first_match_none(ol, a as int, 0, use_to);
    }
    None
}

/// The scaled direction of a near-unit vector stays within the extrusion
/// size.
proof fn lemma_scaled_unit_bound(v: Coord, size: int)
    requires
        coord_bounded(v.x as int, v.y as int, 2 * crate::scalar::MILLI as int),
        0 <= size <= crate::settings::SEPARATION_LIMIT,
    ensures
        coord_bounded(
            crate::scalar::div_trunc(v.x * size, crate::scalar::MILLI as int),
            crate::scalar::div_trunc(v.y * size, crate::scalar::MILLI as int),
            2 * crate::settings::SEPARATION_LIMIT as int,
        ),
{
    lemma_scaled_component_bound(v.x as int, size);
    lemma_scaled_component_bound(v.y as int, size);
}

proof fn lemma_scaled_component_bound(x: int, size: int)
    requires
        -2000 <= x <= 2000,
        0 <= size <= crate::settings::SEPARATION_LIMIT,
    ensures
        -2 * crate::settings::SEPARATION_LIMIT as int <= crate::scalar::div_trunc(x * size, 1000)
            <= 2 * crate::settings::SEPARATION_LIMIT as int,
{
    let s = crate::settings::SEPARATION_LIMIT as int;
    assert(-2000 * s <= x * size <= 2000 * s) by (nonlinear_arith)
        requires -2000 <= x <= 2000, 0 <= size <= s;
    if x * size >= 0 {
        assert((x * size) / 1000 <= (2000 * s) / 1000) by (nonlinear_arith)
            requires 0 <= x * size <= 2000 * s;
        assert((2000 * s) / 1000 == 2 * s) by (nonlinear_arith);
        assert((x * size) / 1000 >= 0) by (nonlinear_arith)
            requires x * size >= 0;
    } else {
        assert((-(x * size)) / 1000 <= (2000 * s) / 1000) by (nonlinear_arith)
            requires 0 <= -(x * size) <= 2000 * s;
        assert((2000 * s) / 1000 == 2 * s) by (nonlinear_arith);
        assert((-(x * size)) / 1000 >= 0) by (nonlinear_arith)
            requires x * size < 0;
    }
}

/// Outline detection and skirt generation: find the outline edges of the
/// triangle set, compute an offset point for each outline vertex along its
/// miter direction, and emit two skirt triangles per outline edge joining the
/// original edge to the offset edge. Returns the offset points (to append to
/// the point list) and the skirt triangles (indexing the combined list).
pub fn extrude(points: &Vec<Coord>, triangles: &Vec<Triangle>, size: i64) -> (r: (
    Vec<Coord>,
    Vec<Triangle>,
))
    requires
        triangles_in_range(triangles@, points@.len() as int),
        points_bounded(
            points@,
            crate::mesh::MESH_COORD_LIMIT as int - 2 * crate::settings::SEPARATION_LIMIT as int,
        ),
        0 <= size <= crate::settings::SEPARATION_LIMIT,
        3 * triangles@.len() <= usize::MAX,
        points@.len() + 3 * triangles@.len() <= usize::MAX,
    ensures
        ({
            let ol = outline_of(triangles@);
            &&& r.0@.len() == ol.len()
            &&& r.1@.len() == 2 * ol.len()
            &&& forall|k: int|
                0 <= k < ol.len() ==> 0 <= (#[trigger] ol[k]).1 < points@.len() && 0 <= ol[k].2
                    < points@.len()
            &&& forall|k: int|
                0 <= k < ol.len() ==> #[trigger] r.0@[k] == extrude_offset(
                    points@,
                    ol,
                    k,
                    size as int,
                )
            &&& forall|k: int|
                0 <= k < ol.len() ==> {
                    let ea = first_match(ol, (#[trigger] ol[k]).1, 0, false);
                    let eb0 = first_match(ol, ol[k].2, 0, false);
                    let eb = if eb0 >= 0 {
                        eb0
                    } else {
                        0int
                    };
                    &&& 0 <= ea < ol.len()
                    &&& 0 <= eb < ol.len()
                    &&& r.1@[2 * k] == (Triangle {
                        a: ol[k].2 as usize,
                        b: ol[k].1 as usize,
                        c: (points@.len() + ea) as usize,
                    })
                    &&& r.1@[2 * k + 1] == (Triangle {
                        a: (points@.len() + ea) as usize,
                        b: (points@.len() + eb) as usize,
                        c: ol[k].2 as usize,
                    })
                }
            &&& points_bounded(r.0@, crate::mesh::MESH_COORD_LIMIT as int)
        }),
{
    let outline = collect_outline(triangles);
    let ghost ol = outline_of(triangles@);
    let n_out = outline.len();
    proof {
        assert(ol.len() <= 3 * triangles@.len()) by {
            Seq::new((3 * triangles@.len()) as nat, |i: int| edge_of(triangles@, i))
                .lemma_filter_len(|ed: (int, int, int)| triple_on_outline(triangles@, ed));
        }
        assert forall|k: int| 0 <= k < ol.len() implies 0 <= (#[trigger] ol[k]).1 < points@.len()
            && 0 <= ol[k].2 < points@.len() by {
            assert(ol[k] == edge_triples_view(outline@)[k]);
            let entry = outline@[k];
            assert(triangles@[entry.0 as int].in_range(points@.len() as int));
        }
    }
    let mut offsets: Vec<Coord> = Vec::new();
    let mut k: usize = 0;
    while k < n_out
        invariant
            n_out == outline@.len(),
            ol == edge_triples_view(outline@),
            ol == outline_of(triangles@),
            points_bounded(
                points@,
                crate::mesh::MESH_COORD_LIMIT as int - 2
                    * crate::settings::SEPARATION_LIMIT as int,
            ),
            0 <= size <= crate::settings::SEPARATION_LIMIT,
            forall|kk: int|
                0 <= kk < ol.len() ==> 0 <= (#[trigger] ol[kk]).1 < points@.len() && 0 <= ol[kk].2
                    < points@.len(),
            k <= n_out,
            offsets@.len() == k,
            forall|kk: int|
                0 <= kk < k ==> #[trigger] offsets@[kk] == extrude_offset(
                    points@,
                    ol,
                    kk,
                    size as int,
                ),
            points_bounded(offsets@, crate::mesh::MESH_COORD_LIMIT as int),
        decreases n_out - k,
    {
        let entry = outline[k];
        proof {
            assert(ol[k as int] == (entry.0 as int, entry.1 as int, entry.2 as int));
        }
        let m = points[entry.1];
        let nn = points[entry.2];
        let incoming = find_first_match(&outline, entry.1, true);
        let pm_dir = match incoming {
            Some(l) => {
                let prev = outline[l];
                proof {
                    assert(ol[l as int] == (prev.0 as int, prev.1 as int, prev.2 as int));
                }
                m.sub(points[prev.1])
            },
            None => nn.sub(m),
        };
        let mn_dir = nn.sub(m);
        let pm = pm_dir.normalized().right().neg();
        let mn = mn_dir.normalized().right().neg();
        let dir = pm.add(mn).normalized();
        let delta = dir.scaled(size);
        proof {
            lemma_scaled_unit_bound(dir, size as int);
        }
        let off = m.add(delta);
        proof {
            assert(off == extrude_offset(points@, ol, k as int, size as int));
        }
        let ghost pre = offsets@;
        offsets.push(off);
        k = k + 1;
    }
    let mut skirts: Vec<Triangle> = Vec::new();
    let mut k2: usize = 0;
    let base = points.len();
    while k2 < n_out
        invariant
            n_out == outline@.len(),
            ol == edge_triples_view(outline@),
            base == points@.len(),
            base + n_out <= usize::MAX,
            k2 <= n_out,
            skirts@.len() == 2 * k2,
            forall|kk: int|
                0 <= kk < k2 ==> {
                    let ea = first_match(ol, (#[trigger] ol[kk]).1, 0, false);
                    let eb0 = first_match(ol, ol[kk].2, 0, false);
                    let eb = if eb0 >= 0 {
                        eb0
                    } else {
                        0int
                    };
                    &&& 0 <= ea < ol.len()
                    &&& 0 <= eb < ol.len()
                    &&& skirts@[2 * kk] == (Triangle {
                        a: ol[kk].2 as usize,
                        b: ol[kk].1 as usize,
                        c: (base + ea) as usize,
                    })
                    &&& skirts@[2 * kk + 1] == (Triangle {
                        a: (base + ea) as usize,
                        b: (base + eb) as usize,
                        c: ol[kk].2 as usize,
                    })
                },
        decreases n_out - k2,
    {
        let entry = outline[k2];
        proof {
            assert(ol[k2 as int] == (entry.0 as int, entry.1 as int, entry.2 as int));
        }
        let ea = match find_first_match(&outline, entry.1, false) {
            Some(l) => l,
            None => {
                proof {
                    lemma_first_match_misses(ol, entry.1 as int, 0, k2 as int, false);
                }
                0
            },
        };
        let eb = match find_first_match(&outline, entry.2, false) {
            Some(l) => l,
            None => 0,
        };
        skirts.push(Triangle { a: entry.2, b: entry.1, c: base + ea });
        skirts.push(Triangle { a: base + ea, b: base + eb, c: entry.2 });
        k2 = k2 + 1;
    }
    (offsets, skirts)
}

/// A `-1` search result means no index matches.
pub(crate) proof fn lemma_first_match_misses(ol: Seq<(int, int, int)>, a: int, i: int, m: int, use_to: bool)
    requires
        0 <= i <= m < ol.len(),
        first_match(ol, a, i, use_to) == -1,
    ensures
        (if use_to {
            ol[m].2
        } else {
            ol[m].1
        }) != a,
    decreases m - i,
{
    if i < m {
        lemma_first_match_misses(ol, a, i + 1, m, use_to);
    }
}

/// The Delaunay triangulation the backend computes for a point list: a
/// function of the points alone, `None` when no seed triangle is found.
pub uninterp spec fn delaunay_of(points: Seq<Coord>) -> Option<Seq<Triangle>>;

/// Relies on `triangulation::Delaunay::new`: a deterministic function of the
/// input points (the crate uses no clock, randomness or seeded hashing), so
/// its result carries the name `delaunay_of`. It returns `None` when it
/// finds no seed triangle, and otherwise a triangulation whose vertex list
/// holds only indices of the input points, three per triangle (so three
/// times the triangle count is the vertex list's length, a `usize`). Within
/// the working coordinate range the backend's intermediate `f32` products
/// stay finite and the comparisons it unwraps never see a not-a-number, so
/// the call returns; larger coordinates could drive its seed search into a
/// panicking comparison.
#[verifier::external_body]
fn delaunay_triangles(points: &Vec<Coord>) -> (r: Option<Vec<Triangle>>)
    requires
        points_bounded(points@, COORD_LIMIT as int),
    ensures
        r is Some <==> delaunay_of(points@) is Some,
        r is Some ==> r->Some_0@ == delaunay_of(points@)->0,
        r is Some ==> triangles_in_range(r->Some_0@, points@.len() as int),
        r is Some ==> 3 * r->Some_0@.len() <= usize::MAX,
{
    let pts: Vec<triangulation::Point> = points.iter().map(
        |p| triangulation::Point::new(p.x as _, p.y as _),
    ).collect();
    let del = triangulation::Delaunay::new(&pts)?;
    Some(
        del.dcel.vertices.chunks(3).map(|t| Triangle { a: t[0], b: t[1], c: t[2] }).collect(),
    )
}

/// Delaunay triangulation of the point set, as triangles indexing into it:
/// exactly the backend's result. Fails with `FailedTriangulation` exactly
/// when the input is degenerate (fewer than three points, or all points on
/// one line) or the backend finds no seed triangle.
pub fn triangulate(points: &Vec<Coord>) -> (r: Result<Vec<Triangle>, GenerateDensityMeshError>)
    requires
        points_bounded(points@, COORD_LIMIT as int),
    ensures
        r is Ok <==> !degenerate_points(points@) && delaunay_of(points@) is Some,
        r is Err ==> r->Err_0 is FailedTriangulation,
        r is Ok ==> r->Ok_0@ == delaunay_of(points@)->0,
        r is Ok ==> triangles_in_range(r->Ok_0@, points@.len() as int),
        r is Ok ==> 3 * r->Ok_0@.len() <= usize::MAX,
{
    proof {
        lemma_bound_widen(points@, COORD_LIMIT as int, 8 * COORD_LIMIT as int);
    }
    match find_spanning_triple(points) {
        None => Err(GenerateDensityMeshError::FailedTriangulation),
        Some(_witness) => {
            proof {
                assert(!degenerate_points(points@));
            }
            match delaunay_triangles(points) {
                Some(triangles) => Ok(triangles),
                None => Err(GenerateDensityMeshError::FailedTriangulation),
            }
        },
    }
}

/// Points of a list within a bound stay within any wider bound.
pub(crate) proof fn lemma_bound_widen(points: Seq<Coord>, b1: int, b2: int)
    requires
        points_bounded(points, b1),
        b1 <= b2,
    ensures
        points_bounded(points, b2),
{
    assert forall|i: int| 0 <= i < points.len() implies coord_bounded(
        (#[trigger] points[i]).x as int,
        points[i].y as int,
        b2,
    ) by {
        assert(coord_bounded(points[i].x as int, points[i].y as int, b1));
    }
}

} // verus!
