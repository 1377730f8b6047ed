//! Exact segment intersection via the parametric 2x2 linear system.
//!
//! A segment from `a` to `b` is the set of points `a + t*(b - a)` with
//! `t` in `[0, 1]`. Two segments intersect where the 2x2 linear system
//! formed by their parametric forms has a solution with both parameters
//! in `[0, 1]`; a zero determinant (parallel or collinear segments)
//! uniformly yields no intersection. The solution is rational, and each
//! coordinate is rounded to the nearest grid unit.

use vstd::prelude::*;
use vstd::arithmetic::div_mod::{
    lemma_fundamental_div_mod, lemma_fundamental_div_mod_converse, lemma_mod_bound,
};
use crate::geom::{Point, GeomError, vertex_in_bounds, imin, imax, lemma_mul_bound};
use crate::polygon::Polygon;

verus! {

/// 2D cross product of the vectors `(ax, ay)` and `(bx, by)`.
pub open spec fn cross(ax: int, ay: int, bx: int, by: int) -> int {
    ax * by - ay * bx
}

/// Division rounded to the nearest integer, halves rounded up;
/// meaningful for a positive divisor.
pub open spec fn round_div(n: int, d: int) -> int
    recommends
        d > 0,
{
    (2 * n + d) / (2 * d)
}

/// Floor division by a positive divisor (the `/` of mathematical
/// integers, which rounds toward negative infinity).
fn floor_div(n: i128, d: i128) -> (r: i128)
    requires
        0 < d <= 1_000_000_000_000_000_000_000_000,
        -1_000_000_000_000_000_000_000_000 <= n <= 1_000_000_000_000_000_000_000_000,
    ensures
        r == n as int / d as int,
{
    if n >= 0 {
        n / d
    } else {
        let m = -n;
        let q = (m + d - 1) / d;
        proof {
            let mi = m as int;
            let di = d as int;
            let qi = q as int;
            lemma_fundamental_div_mod(mi + di - 1, di);
            lemma_mod_bound(mi + di - 1, di);
            let r0 = (mi + di - 1) % di;
            assert((-qi) * di + (di - 1 - r0) == -mi) by (nonlinear_arith)
                requires mi + di - 1 == di * qi + r0;
            lemma_fundamental_div_mod_converse(-mi, di, -qi, di - 1 - r0);
        }
        -q
    }
}

/// Division rounded to the nearest grid unit, halves rounded up.
pub fn round_div_i128(n: i128, d: i128) -> (r: i128)
    requires
        0 < d <= 100_000_000_000_000,
        -100_000_000_000_000_000_000 <= n <= 100_000_000_000_000_000_000,
    ensures
        r == round_div(n as int, d as int),
{
    floor_div(2 * n + d, 2 * d)
}

/// If `n / d` lies between `lo` and `hi`, so does its rounding.
pub proof fn lemma_round_div_bounds(n: int, d: int, lo: int, hi: int)
    requires
        d > 0,
        d * lo <= n,
        n <= d * hi,
    ensures
        lo <= round_div(n, d) <= hi,
{
    let q = (2 * n + d) / (2 * d);
    let r = (2 * n + d) % (2 * d);
    lemma_fundamental_div_mod(2 * n + d, 2 * d);
    lemma_mod_bound(2 * n + d, 2 * d);
    assert(lo <= q) by (nonlinear_arith)
        requires
            d > 0,
            d * lo <= n,
            2 * n + d == 2 * d * q + r,
            0 <= r < 2 * d;
    assert(q <= hi) by (nonlinear_arith)
        requires
            d > 0,
            n <= d * hi,
            2 * n + d == 2 * d * q + r,
            0 <= r < 2 * d;
}

/// Determinant of the system for segments `a`-`b` and `c`-`d`: the cross
/// product of the two direction vectors. Zero means parallel.
pub open spec fn seg_det(a: Point, b: Point, c: Point, d: Point) -> int {
    cross(b.x - a.x, b.y - a.y, d.x - c.x, d.y - c.y)
}

/// Numerator of the parameter `t` along `a`-`b` at the intersection.
pub open spec fn seg_t_num(a: Point, b: Point, c: Point, d: Point) -> int {
    cross(c.x - a.x, c.y - a.y, d.x - c.x, d.y - c.y)
}

/// Numerator of the parameter `u` along `c`-`d` at the intersection.
pub open spec fn seg_u_num(a: Point, b: Point, c: Point, d: Point) -> int {
    cross(c.x - a.x, c.y - a.y, b.x - a.x, b.y - a.y)
}

/// Where segments `a`-`b` and `c`-`d` intersect, with each coordinate
/// rounded to the nearest grid unit; `None` when the segments are
/// parallel (zero determinant, whether or not they overlap) or when the
/// intersection of the two carrying lines falls outside either segment.
pub open spec fn segment_intersection_spec(a: Point, b: Point, c: Point, d: Point) -> Option<
    Point,
> {
    let det = seg_det(a, b, c, d);
    if det == 0 {
        None
    } else {
        let sg: int = if det > 0 { 1 } else { -1 };
        let dd = sg * det;
        let tn = sg * seg_t_num(a, b, c, d);
        let un = sg * seg_u_num(a, b, c, d);
        if 0 <= tn && tn <= dd && 0 <= un && un <= dd {
            Some(
                Point {
                    x: round_div(dd * a.x + tn * (b.x - a.x), dd) as i64,
                    y: round_div(dd * a.y + tn * (b.y - a.y), dd) as i64,
                },
            )
        } else {
            None
        }
    }
}

/// An intersection point lies within the bounding box of each segment:
/// the rounded solution has both parameters in `[0, 1]`.
pub proof fn lemma_segment_intersection_bbox(a: Point, b: Point, c: Point, d: Point)
    ensures
        segment_intersection_spec(a, b, c, d) matches Some(p) ==> imin(a.x as int, b.x as int)
            <= p.x as int <= imax(a.x as int, b.x as int) && imin(a.y as int, b.y as int)
            <= p.y as int <= imax(a.y as int, b.y as int),
{
    let det = seg_det(a, b, c, d);
    if det != 0 {
        let sg: int = if det > 0 { 1 } else { -1 };
        let dd = sg * det;
        let tn = sg * seg_t_num(a, b, c, d);
        let un = sg * seg_u_num(a, b, c, d);
        if 0 <= tn && tn <= dd && 0 <= un && un <= dd {
            assert(dd > 0) by (nonlinear_arith)
                requires
                    det != 0,
                    sg == if det > 0 { 1int } else { -1int },
                    dd == sg * det;
            let xnum = dd * a.x + tn * (b.x - a.x);
            let ynum = dd * a.y + tn * (b.y - a.y);
            assert(dd * imin(a.x as int, b.x as int) <= xnum <= dd * imax(
                a.x as int,
                b.x as int,
            )) by (nonlinear_arith)
                requires
                    0 <= tn <= dd,
                    xnum == dd * a.x + tn * (b.x - a.x);
            assert(dd * imin(a.y as int, b.y as int) <= ynum <= dd * imax(
                a.y as int,
                b.y as int,
            )) by (nonlinear_arith)
                requires
                    0 <= tn <= dd,
                    ynum == dd * a.y + tn * (b.y - a.y);
            lemma_round_div_bounds(
                xnum,
                dd,
                imin(a.x as int, b.x as int),
                imax(a.x as int, b.x as int),
            );
            lemma_round_div_bounds(
                ynum,
                dd,
                imin(a.y as int, b.y as int),
                imax(a.y as int, b.y as int),
            );
        }
    }
}

/// Computes `segment_intersection_spec` exactly: solves the parametric
/// system for segments `a`-`b` and `c`-`d` in exact integer arithmetic
/// and rounds the solution to the grid.
pub fn segment_intersection(a: Point, b: Point, c: Point, d: Point) -> (r: Option<Point>)
    requires
        vertex_in_bounds(a),
        vertex_in_bounds(b),
        vertex_in_bounds(c),
        vertex_in_bounds(d),
    ensures
        r == segment_intersection_spec(a, b, c, d),
{
    let ax = a.x as i128;
    let ay = a.y as i128;
    let abx = b.x as i128 - ax;
    let aby = b.y as i128 - ay;
    let cdx = d.x as i128 - c.x as i128;
    let cdy = d.y as i128 - c.y as i128;
    let eax = c.x as i128 - ax;
    let eay = c.y as i128 - ay;
    proof {
        lemma_mul_bound(abx as int, cdy as int, 2_000_000, 2_000_000);
        lemma_mul_bound(aby as int, cdx as int, 2_000_000, 2_000_000);
        lemma_mul_bound(eax as int, cdy as int, 2_000_000, 2_000_000);
        lemma_mul_bound(eay as int, cdx as int, 2_000_000, 2_000_000);
        lemma_mul_bound(eax as int, aby as int, 2_000_000, 2_000_000);
        lemma_mul_bound(eay as int, abx as int, 2_000_000, 2_000_000);
    }
    let det = abx * cdy - aby * cdx;
    if det == 0 {
        return None;
    }
    let tnum = eax * cdy - eay * cdx;
    let unum = eax * aby - eay * abx;
    let sg: i128 = if det > 0 { 1 } else { -1 };
    let dd = sg * det;
    let tn = sg * tnum;
    let un = sg * unum;
    if tn < 0 || tn > dd || un < 0 || un > dd {
        return None;
    }
    proof {
        lemma_mul_bound(dd as int, a.x as int, 8_000_000_000_000, 1_000_000);
        lemma_mul_bound(dd as int, a.y as int, 8_000_000_000_000, 1_000_000);
        lemma_mul_bound(tn as int, abx as int, 8_000_000_000_000, 2_000_000);
        lemma_mul_bound(tn as int, aby as int, 8_000_000_000_000, 2_000_000);
    }
    let xnum = dd * ax + tn * abx;
    let ynum = dd * ay + tn * aby;
    let x = round_div_i128(xnum, dd);
    let y = round_div_i128(ynum, dd);
    proof {
        lemma_segment_intersection_bbox(a, b, c, d);
    }
    Some(Point { x: x as i64, y: y as i64 })
}

/// First edge of the boundary loop, scanning from vertex position `i`
/// onward, whose closed segment intersects segment `s`-`e`; the edge at
/// position `k` runs from the cyclic predecessor of vertex `k` to vertex
/// `k`. Yields the predecessor position and the intersection point.
pub open spec fn find_intersection_from(s: Point, e: Point, bound: Seq<Point>, i: int) -> Option<
    (int, Point),
>
    decreases bound.len() - i,
{
    if i < 0 || i >= bound.len() {
        None
    } else {
        let j = if i == 0 {
            bound.len() - 1
        } else {
            i - 1
        };
        match segment_intersection_spec(s, e, bound[j], bound[i]) {
            Some(p) => Some((j, p)),
            None => find_intersection_from(s, e, bound, i + 1),
        }
    }
}

/// First boundary edge intersecting segment `s`-`e`, over the whole loop.
pub open spec fn find_intersection_spec(s: Point, e: Point, bound: Seq<Point>) -> Option<
    (int, Point),
> {
    find_intersection_from(s, e, bound, 0)
}

/// A found intersection lies within the bounding box of `s`-`e`.
pub proof fn lemma_find_intersection_bbox(s: Point, e: Point, bound: Seq<Point>, i: int)
    ensures
        find_intersection_from(s, e, bound, i) matches Some(jp) ==> imin(s.x as int, e.x as int)
            <= jp.1.x as int <= imax(s.x as int, e.x as int) && imin(s.y as int, e.y as int)
            <= jp.1.y as int <= imax(s.y as int, e.y as int),
    decreases bound.len() - i,
{
    if 0 <= i < bound.len() {
        let j = if i == 0 {
            bound.len() - 1
        } else {
            i - 1
        };
        lemma_segment_intersection_bbox(s, e, bound[j], bound[i]);
        lemma_find_intersection_bbox(s, e, bound, i + 1);
    }
}

/// Scans the boundary's edges in order, from the edge ending at vertex 0
/// (which starts at the last vertex) onward, and returns the first whose
/// segment intersects `start`-`end`, as the starting vertex position of
/// that edge and the intersection point. `NoIntersectionFound` reports
/// that no boundary edge crosses the segment.
pub fn find_intersection(start: Point, end: Point, bounds: &Polygon) -> (r: Result<
    (usize, Point),
    GeomError,
>)
    requires
        vertex_in_bounds(start),
        vertex_in_bounds(end),
        bounds.wf(),
    ensures
        match find_intersection_spec(start, end, bounds@) {
            Some(jp) => r matches Ok(q) && q.0 as int == jp.0 && q.1 == jp.1,
            None => r matches Err(e) && e is NoIntersectionFound,
        },
{
    let n = bounds.len();
    let mut i: usize = 0;
    while i < n
        invariant
            0 <= i <= n,
            n == bounds@.len(),
            bounds.wf(),
            vertex_in_bounds(start),
            vertex_in_bounds(end),
            find_intersection_spec(start, end, bounds@) == find_intersection_from(
                start,
                end,
                bounds@,
                i as int,
            ),
        decreases n - i,
    {
        let j = if i == 0 {
            n - 1
        } else {
            i - 1
        };
        assert(vertex_in_bounds(bounds@[j as int]) && vertex_in_bounds(bounds@[i as int]));
        match segment_intersection(start, end, bounds.vertex(j), bounds.vertex(i)) {
            Some(p) => {
                return Ok((j, p));
            },
            None => {},
        }
        i = i + 1;
    }
    Err(GeomError::NoIntersectionFound)
}

} // verus!
