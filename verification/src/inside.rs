//! Point-in-polygon containment by the crossing-number (even-odd) rule.
//!
//! For each vertex of the tested polygon a conceptual ray is cast in the
//! +x direction and its crossings against every boundary edge are
//! counted; the vertex is inside iff the count is odd. All comparisons
//! against the rational crossing abscissa are made exactly, by
//! cross-multiplication in integer arithmetic.

use vstd::prelude::*;
use crate::geom::{Point, imin, imax, lemma_mul_bound, vertex_in_bounds};
use crate::polygon::Polygon;

verus! {

/// Position of the cyclic predecessor of vertex position `i` in a loop
/// of `n` vertices.
pub open spec fn pred_idx(n: int, i: int) -> int {
    if i == 0 {
        n - 1
    } else {
        i - 1
    }
}

/// Whether the rational `n / d` (with `d` nonzero) is at least `k`.
pub open spec fn rat_ge(n: int, d: int, k: int) -> bool {
    if d > 0 {
        n >= k * d
    } else {
        n <= k * d
    }
}

/// Whether the rational `n / d` (with `d` nonzero) is at most `k`.
pub open spec fn rat_le(n: int, d: int, k: int) -> bool {
    if d > 0 {
        n <= k * d
    } else {
        n >= k * d
    }
}

/// Whether the +x ray from `p` crosses the boundary edge from `s` to
/// `e`. A vertical edge crosses iff it lies strictly right of `p` and
/// `p.y` is within its y-range; a horizontal edge is tangent and never
/// crosses; otherwise the edge's line reaches `p.y` at the abscissa
/// `s.x + (p.y - s.y)*(s.x - e.x)/(s.y - e.y)`, and the edge crosses iff
/// that abscissa is at least `p.x` and within the edge's x-range.
pub open spec fn edge_crossing(p: Point, s: Point, e: Point) -> bool {
    if s.x == e.x {
        p.x < s.x && imin(s.y as int, e.y as int) <= p.y <= imax(s.y as int, e.y as int)
    } else if s.y == e.y {
        false
    } else {
        let dx = s.x - e.x;
        let dy = s.y - e.y;
        let num = s.x * dy + (p.y - s.y) * dx;
        rat_ge(num, dy, p.x as int) && rat_ge(num, dy, imin(s.x as int, e.x as int)) && rat_le(
            num,
            dy,
            imax(s.x as int, e.x as int),
        )
    }
}

/// Number of boundary edges among the first `k` (the edge at position
/// `i` runs from the cyclic predecessor of vertex `i` to vertex `i`)
/// that the +x ray from `p` crosses.
pub open spec fn crossings(p: Point, b: Seq<Point>, k: int) -> nat
    decreases k,
{
    if k <= 0 {
        0
    } else {
        crossings(p, b, k - 1) + (if edge_crossing(p, b[pred_idx(b.len() as int, k - 1)], b[k - 1]) {
            1nat
        } else {
            0nat
        })
    }
}

/// Whether `p` is inside the boundary loop `b`: its ray crossing count
/// is odd.
pub open spec fn point_in_polygon(p: Point, b: Seq<Point>) -> bool {
    crossings(p, b, b.len() as int) % 2 == 1
}

/// Whether every vertex of `poly` is inside the boundary loop `b`.
pub open spec fn all_inside(poly: Seq<Point>, b: Seq<Point>) -> bool {
    forall|i: int| 0 <= i < poly.len() ==> point_in_polygon(#[trigger] poly[i], b)
}

/// Decides `edge_crossing` exactly in integer arithmetic.
fn edge_crossing_exec(p: Point, s: Point, e: Point) -> (r: bool)
    requires
        vertex_in_bounds(p),
        vertex_in_bounds(s),
        vertex_in_bounds(e),
    ensures
        r == edge_crossing(p, s, e),
{
    if s.x == e.x {
        let ylo = if s.y <= e.y { s.y } else { e.y };
        let yhi = if s.y <= e.y { e.y } else { s.y };
        p.x < s.x && ylo <= p.y && p.y <= yhi
    } else if s.y == e.y {
        false
    } else {
        let dx = s.x as i128 - e.x as i128;
        let dy = s.y as i128 - e.y as i128;
        proof {
            lemma_mul_bound(s.x as int, dy as int, 1_000_000, 2_000_000);
            lemma_mul_bound(p.y - s.y, dx as int, 2_000_000, 2_000_000);
        }
        let num = s.x as i128 * dy + (p.y as i128 - s.y as i128) * dx;
        let xlo = if s.x <= e.x { s.x } else { e.x };
        let xhi = if s.x <= e.x { e.x } else { s.x };
        proof {
            lemma_mul_bound(p.x as int, dy as int, 1_000_000, 2_000_000);
            lemma_mul_bound(xlo as int, dy as int, 1_000_000, 2_000_000);
            lemma_mul_bound(xhi as int, dy as int, 1_000_000, 2_000_000);
        }
        let ge_px = if dy > 0 {
            num >= p.x as i128 * dy
        } else {
            num <= p.x as i128 * dy
        };
        let ge_lo = if dy > 0 {
            num >= xlo as i128 * dy
        } else {
            num <= xlo as i128 * dy
        };
        let le_hi = if dy > 0 {
            num <= xhi as i128 * dy
        } else {
            num >= xhi as i128 * dy
        };
        ge_px && ge_lo && le_hi
    }
}

/// Decides `point_in_polygon` by counting ray crossings edge by edge.
pub fn point_in_polygon_exec(p: Point, boundary: &Polygon) -> (r: bool)
    requires
        vertex_in_bounds(p),
        boundary.wf(),
    ensures
        r == point_in_polygon(p, boundary@),
{
    let n = boundary.len();
    let mut count: u64 = 0;
    let mut k: usize = 0;
    while k < n
        invariant
            0 <= k <= n,
            n == boundary@.len(),
            boundary.wf(),
            vertex_in_bounds(p),
            count <= k,
            count == crossings(p, boundary@, k as int),
        decreases n - k,
    {
        let j = if k == 0 {
            n - 1
        } else {
            k - 1
        };
        if edge_crossing_exec(p, boundary.vertex(j), boundary.vertex(k)) {
            count = count + 1;
        }
        k = k + 1;
    }
    count % 2 == 1
}

/// Containment test: `Ok(())` iff every vertex of `poly` is inside the
/// boundary loop; otherwise the per-vertex flags, in vertex order, with
/// `true` marking a vertex inside the boundary.
pub fn is_inside(poly: &Polygon, boundary: &Polygon) -> (r: Result<(), Vec<bool>>)
    requires
        poly.wf(),
        boundary.wf(),
    ensures
        r is Ok <==> all_inside(poly@, boundary@),
        r matches Err(flags) ==> flags@.len() == poly@.len() && forall|i: int|
            0 <= i < poly@.len() ==> flags@[i] == point_in_polygon(#[trigger] poly@[i], boundary@),
{
    let n = poly.len();
    let mut flags: Vec<bool> = Vec::new();
    let mut all: bool = true;
    let mut i: usize = 0;
    while i < n
        invariant
            0 <= i <= n,
            n == poly@.len(),
            poly.wf(),
            boundary.wf(),
            flags@.len() == i,
            forall|k: int|
                0 <= k < i ==> flags@[k] == point_in_polygon(#[trigger] poly@[k], boundary@),
            all <==> (forall|k: int|
                0 <= k < i ==> point_in_polygon(#[trigger] poly@[k], boundary@)),
        decreases n - i,
    {
        let inside = point_in_polygon_exec(poly.vertex(i), boundary);
        flags.push(inside);
        if !inside {
            all = false;
        }
        i = i + 1;
    }
    if all {
        Ok(())
    } else {
        Err(flags)
    }
}

} // verus!
