//! Alpha-shape extraction: filter a triangulation by circumradius, keep
//! the boundary edges by parity, and walk them into an ordered loop.
//!
//! The circumradius test `R < alpha` is decided exactly: with squared
//! side lengths `a2`, `b2`, `c2`, Heron's formula gives
//! `16*area^2 = 2*(a2*b2 + b2*c2 + c2*a2) - a2^2 - b2^2 - c2^2`, and
//! `R < alpha` holds iff the triangle is non-degenerate and
//! `a2*b2*c2 < 16*area^2 * alpha^2`, all in integer arithmetic.

use vstd::prelude::*;
use crate::geom::{
    Point, GeomError, site_in_bounds, all_sites_in_bounds, sq_dist, lemma_mul_bound, ALPHA_LIMIT,
    MAX_POINTS,
};
use crate::polygon::Polygon;

verus! {

/// Three positions into the site buffer, naming one triangle of the
/// externally computed triangulation.
#[derive(Clone, Copy, PartialEq, Eq, Structural, Debug)]
pub struct Triangle {
    pub a: usize,
    pub b: usize,
    pub c: usize,
}

/// The alpha radius threshold, in grid units: triangles whose
/// circumradius reaches it are discarded. `Infinite` keeps every
/// triangle, which degenerates toward the outer hull of the
/// triangulation.
#[derive(Clone, Copy, PartialEq, Eq, Structural, Debug)]
pub enum Alpha {
    Infinite,
    Finite(i64),
}

/// An unordered pair of site positions; `(i, j)` and `(j, i)` denote
/// the same edge.
pub type EdgePair = (usize, usize);

/// Whether every triangle of the list names sites below position `n`.
pub open spec fn tris_in_range(tris: Seq<Triangle>, n: int) -> bool {
    forall|k: int|
        0 <= k < tris.len() ==> (#[trigger] tris[k]).a < n && tris[k].b < n && tris[k].c < n
}

/// Whether every edge endpoint is below position `n`.
pub open spec fn edges_in_range(edges: Seq<EdgePair>, n: int) -> bool {
    forall|k: int| 0 <= k < edges.len() ==> (#[trigger] edges[k]).0 < n && edges[k].1 < n
}

/// Whether the alpha-shape filter keeps a triangle: its circumradius is
/// strictly below the alpha threshold. Degenerate (zero-area) triangles
/// have no finite circumradius and are never kept by a finite alpha.
pub open spec fn triangle_kept(points: Seq<Point>, t: Triangle, alpha: Alpha) -> bool {
    match alpha {
        Alpha::Infinite => true,
        Alpha::Finite(r) => {
            let a2 = sq_dist(points[t.a as int], points[t.b as int]);
            let b2 = sq_dist(points[t.b as int], points[t.c as int]);
            let c2 = sq_dist(points[t.c as int], points[t.a as int]);
            let area16 = 2 * (a2 * b2 + b2 * c2 + c2 * a2) - a2 * a2 - b2 * b2 - c2 * c2;
            area16 > 0 && a2 * b2 * c2 < area16 * r * r
        },
    }
}

/// Whether `e` joins sites `i` and `j`, in either order.
pub open spec fn same_edge(e: EdgePair, i: usize, j: usize) -> bool {
    (e.0 == i && e.1 == j) || (e.0 == j && e.1 == i)
}

/// First position at or after `k` holding the edge `{i, j}`, or -1.
pub open spec fn edge_match_idx(edges: Seq<EdgePair>, i: usize, j: usize, k: int) -> int
    decreases edges.len() - k,
{
    if k < 0 || k >= edges.len() {
        -1
    } else if same_edge(edges[k], i, j) {
        k
    } else {
        edge_match_idx(edges, i, j, k + 1)
    }
}

/// Toggles the presence of edge `{i, j}`: removes its first occurrence
/// if present (it was interior, shared by two kept triangles), inserts
/// it at the end otherwise.
pub open spec fn toggle_edge(edges: Seq<EdgePair>, i: usize, j: usize) -> Seq<EdgePair> {
    let k = edge_match_idx(edges, i, j, 0);
    if k >= 0 {
        edges.remove(k)
    } else {
        edges.push((i, j))
    }
}

/// The boundary edges after processing the first `m` triangles: each
/// kept triangle toggles its three edges in order, so the edges left
/// present are those kept an odd number of times.
pub open spec fn kept_edges(points: Seq<Point>, tris: Seq<Triangle>, alpha: Alpha, m: int) -> Seq<
    EdgePair,
>
    decreases m,
{
    if m <= 0 {
        Seq::empty()
    } else {
        let prev = kept_edges(points, tris, alpha, m - 1);
        let t = tris[m - 1];
        if triangle_kept(points, t, alpha) {
            toggle_edge(toggle_edge(toggle_edge(prev, t.a, t.b), t.b, t.c), t.c, t.a)
        } else {
            prev
        }
    }
}

/// A match found by `edge_match_idx` is a real position.
proof fn lemma_edge_match_in_range(edges: Seq<EdgePair>, i: usize, j: usize, k: int)
    ensures
        edge_match_idx(edges, i, j, k) >= 0 ==> k <= edge_match_idx(edges, i, j, k)
            < edges.len(),
    decreases edges.len() - k,
{
    if 0 <= k < edges.len() && !same_edge(edges[k], i, j) {
        lemma_edge_match_in_range(edges, i, j, k + 1);
    }
}

/// Toggling an in-range edge keeps every endpoint in range.
proof fn lemma_toggle_in_range(edges: Seq<EdgePair>, i: usize, j: usize, n: int)
    requires
        edges_in_range(edges, n),
        i < n,
        j < n,
    ensures
        edges_in_range(toggle_edge(edges, i, j), n),
{
    lemma_edge_match_in_range(edges, i, j, 0);
    let k = edge_match_idx(edges, i, j, 0);
    if k >= 0 {
        assert forall|m: int| 0 <= m < edges.remove(k).len() implies (#[trigger] edges.remove(k)[m]).0
            < n && edges.remove(k)[m].1 < n by {
            if m < k {
                assert(edges.remove(k)[m] == edges[m]);
            } else {
                assert(edges.remove(k)[m] == edges[m + 1]);
            }
        }
    }
}

/// Number of entries still unused.
pub open spec fn count_unused(used: Seq<bool>) -> nat
    decreases used.len(),
{
    if used.len() == 0 {
        0
    } else {
        count_unused(used.drop_last()) + (if used.last() {
            0nat
        } else {
            1nat
        })
    }
}

/// Marking an unused entry used lowers the count by one.
proof fn lemma_count_unused_update(used: Seq<bool>, k: int)
    requires
        0 <= k < used.len(),
        !used[k],
    ensures
        count_unused(used.update(k, true)) == count_unused(used) - 1,
    decreases used.len(),
{
    if k == used.len() - 1 {
        assert(used.update(k, true).drop_last() =~= used.drop_last());
    } else {
        lemma_count_unused_update(used.drop_last(), k);
        assert(used.update(k, true).drop_last() =~= used.drop_last().update(k, true));
    }
}

/// First unused edge at or after position `k` that continues a path
/// ending in `last` without stepping straight back to `prev`; yields its
/// position and its far endpoint.
pub open spec fn next_edge(
    edges: Seq<EdgePair>,
    used: Seq<bool>,
    last: usize,
    prev: usize,
    k: int,
) -> Option<(int, usize)>
    decreases edges.len() - k,
{
    if k < 0 || k >= edges.len() {
        None
    } else if !used[k] && edges[k].0 == last && edges[k].1 != prev {
        Some((k, edges[k].1))
    } else if !used[k] && edges[k].1 == last && edges[k].0 != prev {
        Some((k, edges[k].0))
    } else {
        next_edge(edges, used, last, prev, k + 1)
    }
}

/// What `next_edge` finds is an unused in-range position whose far
/// endpoint is an endpoint of that edge.
proof fn lemma_next_edge_some(
    edges: Seq<EdgePair>,
    used: Seq<bool>,
    last: usize,
    prev: usize,
    k: int,
)
    requires
        used.len() == edges.len(),
    ensures
        next_edge(edges, used, last, prev, k) matches Some(kn) ==> k <= kn.0 < edges.len()
            && !used[kn.0] && (edges[kn.0].0 == kn.1 || edges[kn.0].1 == kn.1) && kn.1 != prev,
    decreases edges.len() - k,
{
    if 0 <= k < edges.len() {
        lemma_next_edge_some(edges, used, last, prev, k + 1);
    }
}

/// Walks the boundary edges from the path's current end: repeatedly
/// extends the path with the far endpoint of the first unused continuing
/// edge, marking it used. Stops with `true` (a closed loop) when the
/// continuation would return to the path's first vertex, and with
/// `false` (an unterminated path) when no continuation exists.
pub open spec fn traverse(edges: Seq<EdgePair>, used: Seq<bool>, path: Seq<usize>) -> (Seq<
    usize,
>, bool)
    recommends
        path.len() >= 2,
        used.len() == edges.len(),
    decreases count_unused(used),
    via traverse_decreases
{
    if path.len() < 2 || used.len() != edges.len() {
        (path, false)
    } else {
        match next_edge(edges, used, path[path.len() - 1], path[path.len() - 2], 0) {
            None => (path, false),
            Some((k, nxt)) => {
                if nxt == path[0] {
                    (path, true)
                } else {
                    traverse(edges, used.update(k, true), path.push(nxt))
                }
            },
        }
    }
}

#[via_fn]
proof fn traverse_decreases(edges: Seq<EdgePair>, used: Seq<bool>, path: Seq<usize>) {
    if path.len() >= 2 && used.len() == edges.len() {
        lemma_next_edge_some(edges, used, path[path.len() - 1], path[path.len() - 2], 0);
        match next_edge(edges, used, path[path.len() - 1], path[path.len() - 2], 0) {
            None => {},
            Some((k, nxt)) => {
                if nxt != path[0] {
                    lemma_count_unused_update(used, k);
                }
            },
        }
    }
}

/// A walk never shortens the path, and a walk that closes has walked at
/// least a triangle: it cannot close while the path holds only the two
/// endpoints of the starting edge, because the continuation may not
/// step straight back.
proof fn lemma_traverse_growth(edges: Seq<EdgePair>, used: Seq<bool>, path: Seq<usize>)
    requires
        path.len() >= 2,
        used.len() == edges.len(),
    ensures
        traverse(edges, used, path).0.len() >= path.len(),
        traverse(edges, used, path).1 ==> traverse(edges, used, path).0.len() >= 3,
        traverse(edges, used, path).0[0] == path[0],
    decreases count_unused(used),
{
    let last = path[path.len() - 1];
    let prev = path[path.len() - 2];
    lemma_next_edge_some(edges, used, last, prev, 0);
    match next_edge(edges, used, last, prev, 0) {
        None => {},
        Some((k, nxt)) => {
            if nxt == path[0] {
                if path.len() == 2 {
                    assert(prev == path[0]);
                    assert(false);
                }
            } else {
                lemma_count_unused_update(used, k);
                lemma_traverse_growth(edges, used.update(k, true), path.push(nxt));
            }
        },
    }
}

/// Whether every position of a path is below `n`.
pub open spec fn all_below(s: Seq<usize>, n: int) -> bool {
    forall|i: int| 0 <= i < s.len() ==> #[trigger] s[i] < n
}

/// Every vertex position a walk adds comes from an edge endpoint, so
/// walks over in-range edges keep every path position in range.
proof fn lemma_traverse_in_range(
    edges: Seq<EdgePair>,
    used: Seq<bool>,
    path: Seq<usize>,
    n: int,
)
    requires
        path.len() >= 2,
        used.len() == edges.len(),
        edges_in_range(edges, n),
        all_below(path, n),
    ensures
        all_below(traverse(edges, used, path).0, n),
    decreases count_unused(used),
{
    let last = path[path.len() - 1];
    let prev = path[path.len() - 2];
    lemma_next_edge_some(edges, used, last, prev, 0);
    match next_edge(edges, used, last, prev, 0) {
        None => {},
        Some((k, nxt)) => {
            if nxt != path[0] {
                lemma_count_unused_update(used, k);
                assert(nxt < n);
                assert forall|i: int| 0 <= i < path.push(nxt).len() implies #[trigger] path.push(
                    nxt,
                )[i] < n by {
                    if i < path.len() {
                        assert(path.push(nxt)[i] == path[i]);
                    }
                }
                lemma_traverse_in_range(edges, used.update(k, true), path.push(nxt), n);
            }
        },
    }
}

/// The vertices named by a path of site positions, in path order.
pub open spec fn path_points(points: Seq<Point>, path: Seq<usize>) -> Seq<Point> {
    Seq::new(path.len(), |i: int| points[path[i] as int])
}

/// The unused-marks sequence in which only the starting edge is used.
pub open spec fn initial_used(n: nat) -> Seq<bool> {
    Seq::new(n, |i: int| i == 0)
}

/// Whether the inputs satisfy the alpha-shape preconditions: at least 4
/// sites, not more than the cap, every site within the site coordinate
/// bound, and a finite alpha within its bound.
pub open spec fn alpha_input_ok(points: Seq<Point>, alpha: Alpha) -> bool {
    4 <= points.len() <= MAX_POINTS && all_sites_in_bounds(points) && match alpha {
        Alpha::Infinite => true,
        Alpha::Finite(v) => 0 <= v <= ALPHA_LIMIT,
    }
}

/// Result of an alpha-shape computation, over mathematical sequences.
pub enum AlphaResult {
    /// A closed boundary loop, in walk order.
    Shape(Seq<Point>),
    /// The walk stopped before closing; the partial path walked so far.
    Incomplete(Seq<Point>),
    /// The preconditions on sites or alpha do not hold.
    BadInput,
    /// A triangle names a site position out of range.
    BadTriangulation,
}

/// The whole alpha-shape computation: filter triangles by circumradius,
/// toggle their edges into the boundary edge set, and walk that set
/// from its first edge into a loop.
pub open spec fn alpha_shape_spec(points: Seq<Point>, tris: Seq<Triangle>, alpha: Alpha) -> AlphaResult {
    if !alpha_input_ok(points, alpha) {
        AlphaResult::BadInput
    } else if !tris_in_range(tris, points.len() as int) {
        AlphaResult::BadTriangulation
    } else {
        let edges = kept_edges(points, tris, alpha, tris.len() as int);
        if edges.len() == 0 {
            AlphaResult::Incomplete(Seq::empty())
        } else {
            let path0 = seq![edges[0].0, edges[0].1];
            let walked = traverse(edges, initial_used(edges.len()), path0);
            if walked.1 {
                AlphaResult::Shape(path_points(points, walked.0))
            } else {
                AlphaResult::Incomplete(path_points(points, walked.0))
            }
        }
    }
}

/// An alpha shape's vertices are a subset of the input sites: every
/// vertex of a closed (or partial) result is one of the input points.
pub proof fn lemma_alpha_shape_vertices_from_input(
    points: Seq<Point>,
    tris: Seq<Triangle>,
    alpha: Alpha,
)
    ensures
        alpha_shape_spec(points, tris, alpha) matches AlphaResult::Shape(s) ==> forall|i: int|
            0 <= i < s.len() ==> points.contains(#[trigger] s[i]),
        alpha_shape_spec(points, tris, alpha) matches AlphaResult::Incomplete(s) ==> forall|
            i: int,
        |
            0 <= i < s.len() ==> points.contains(#[trigger] s[i]),
{
    let n = points.len() as int;
    if alpha_input_ok(points, alpha) && tris_in_range(tris, n) {
        lemma_kept_edges_in_range(points, tris, alpha, tris.len() as int);
        let edges = kept_edges(points, tris, alpha, tris.len() as int);
        if edges.len() > 0 {
            let path0 = seq![edges[0].0, edges[0].1];
            let used0 = initial_used(edges.len());
            lemma_traverse_in_range(edges, used0, path0, n);
            let walked = traverse(edges, used0, path0).0;
            assert forall|i: int| 0 <= i < path_points(points, walked).len() implies points.contains(
                #[trigger] path_points(points, walked)[i],
            ) by {
                assert(walked[i] < n);
                assert(path_points(points, walked)[i] == points[walked[i] as int]);
            }
        }
    }
}

/// Squared distance between two sites, exactly, in wide arithmetic.
fn sq_dist_exec(p: Point, q: Point) -> (r: i128)
    requires
        site_in_bounds(p),
        site_in_bounds(q),
    ensures
        r == sq_dist(p, q),
        0 <= r <= 80_000_000_000,
{
    let dx = p.x as i128 - q.x as i128;
    let dy = p.y as i128 - q.y as i128;
    proof {
        lemma_mul_bound(dx as int, dx as int, 200_000, 200_000);
        lemma_mul_bound(dy as int, dy as int, 200_000, 200_000);
        assert(dx * dx >= 0) by (nonlinear_arith);
        assert(dy * dy >= 0) by (nonlinear_arith);
    }
    dx * dx + dy * dy
}

/// Decides `triangle_kept` exactly in integer arithmetic.
fn triangle_kept_exec(points: &Vec<Point>, t: Triangle, alpha: Alpha) -> (r: bool)
    requires
        all_sites_in_bounds(points@),
        (t.a as int) < points@.len(),
        (t.b as int) < points@.len(),
        (t.c as int) < points@.len(),
        alpha matches Alpha::Finite(v) ==> 0 <= v <= ALPHA_LIMIT,
    ensures
        r == triangle_kept(points@, t, alpha),
{
    match alpha {
        Alpha::Infinite => true,
        Alpha::Finite(rad) => {
            let pa = points[t.a];
            let pb = points[t.b];
            let pc = points[t.c];
            let a2 = sq_dist_exec(pa, pb);
            let b2 = sq_dist_exec(pb, pc);
            let c2 = sq_dist_exec(pc, pa);
            proof {
                lemma_mul_bound(a2 as int, b2 as int, 80_000_000_000, 80_000_000_000);
                lemma_mul_bound(b2 as int, c2 as int, 80_000_000_000, 80_000_000_000);
                lemma_mul_bound(c2 as int, a2 as int, 80_000_000_000, 80_000_000_000);
                lemma_mul_bound(a2 as int, a2 as int, 80_000_000_000, 80_000_000_000);
                lemma_mul_bound(b2 as int, b2 as int, 80_000_000_000, 80_000_000_000);
                lemma_mul_bound(c2 as int, c2 as int, 80_000_000_000, 80_000_000_000);
            }
            let ab = a2 * b2;
            let bc = b2 * c2;
            let ca = c2 * a2;
            let area16 = 2 * (ab + bc + ca) - a2 * a2 - b2 * b2 - c2 * c2;
            if area16 <= 0 {
                return false;
            }
            proof {
                lemma_mul_bound(ab as int, c2 as int, 6_400_000_000_000_000_000_000, 80_000_000_000);
                lemma_mul_bound(
                    area16 as int,
                    rad as int,
                    60_000_000_000_000_000_000_000,
                    10_000_000,
                );
                lemma_mul_bound(
                    (area16 * rad as i128) as int,
                    rad as int,
                    600_000_000_000_000_000_000_000_000_000,
                    10_000_000,
                );
            }
            ab * c2 < area16 * (rad as i128) * (rad as i128)
        },
    }
}

/// Toggles the presence of edge `{i, j}` in the boundary edge list.
fn toggle_edge_exec(edges: &mut Vec<EdgePair>, i: usize, j: usize)
    ensures
        final(edges)@ == toggle_edge(old(edges)@, i, j),
{
    let n = edges.len();
    let mut k: usize = 0;
    while k < n
        invariant
            0 <= k <= n,
            n == edges@.len(),
            edges@ == old(edges)@,
            edge_match_idx(edges@, i, j, 0) == edge_match_idx(edges@, i, j, k as int),
        decreases n - k,
    {
        let e = edges[k];
        if (e.0 == i && e.1 == j) || (e.0 == j && e.1 == i) {
            edges.remove(k);
            return;
        }
        k = k + 1;
    }
    edges.push((i, j));
}

/// Looks the vertices of a position path up in the site buffer.
fn path_to_points(points: &Vec<Point>, path: &Vec<usize>) -> (r: Vec<Point>)
    requires
        all_below(path@, points@.len() as int),
    ensures
        r@ == path_points(points@, path@),
{
    let mut out: Vec<Point> = Vec::new();
    let mut i: usize = 0;
    while i < path.len()
        invariant
            0 <= i <= path@.len(),
            all_below(path@, points@.len() as int),
            out@.len() == i,
            forall|k: int| 0 <= k < i ==> out@[k] == points@[path@[k] as int],
        decreases path@.len() - i,
    {
        let idx = path[i];
        out.push(points[idx]);
        i = i + 1;
    }
    proof {
        assert(out@ =~= path_points(points@, path@));
    }
    out
}

/// Scans the boundary edges in order for the first unused continuation.
fn find_next_edge(edges: &Vec<EdgePair>, used: &Vec<bool>, last: usize, prev: usize) -> (r: Option<
    (usize, usize),
>)
    requires
        used@.len() == edges@.len(),
    ensures
        match next_edge(edges@, used@, last, prev, 0) {
            Some(kn) => r matches Some(q) && q.0 as int == kn.0 && q.1 == kn.1,
            None => r is None,
        },
{
    let n = edges.len();
    let mut k: usize = 0;
    while k < n
        invariant
            0 <= k <= n,
            n == edges@.len(),
            used@.len() == edges@.len(),
            next_edge(edges@, used@, last, prev, 0) == next_edge(edges@, used@, last, prev, k as int),
        decreases n - k,
    {
        if !used[k] {
            let e = edges[k];
            if e.0 == last && e.1 != prev {
                return Some((k, e.1));
            }
            if e.1 == last && e.0 != prev {
                return Some((k, e.0));
            }
        }
        k = k + 1;
    }
    None
}

/// Extracts the alpha shape of the sites from their triangulation:
/// keeps the edges of triangles whose circumradius is below `alpha` (by
/// parity, so interior edges cancel) and walks the remaining boundary
/// edges into an ordered loop, starting from the first boundary edge.
///
/// Returns the closed loop as a polygon; `BoundaryTraversalIncomplete`
/// carries the partial path when the walk stops before closing, and the
/// caller decides whether to accept it. The result is a function of the
/// arguments alone: identical inputs give identical outputs.
pub fn alpha_shape(points: &Vec<Point>, triangles: &Vec<Triangle>, alpha: Alpha) -> (r: Result<
    Polygon,
    GeomError,
>)
    ensures
        match alpha_shape_spec(points@, triangles@, alpha) {
            AlphaResult::Shape(s) => r matches Ok(p) && p@ == s && p.wf(),
            AlphaResult::Incomplete(s) => (r matches Err(e) && e matches
                GeomError::BoundaryTraversalIncomplete(partial) && partial@ == s),
            AlphaResult::BadInput => (r matches Err(e) && e is PreconditionViolation),
            AlphaResult::BadTriangulation => (r matches Err(e) && e is TriangulationFailure),
        },
{
    let n = points.len();
    if n < 4 || n > MAX_POINTS {
        return Err(GeomError::PreconditionViolation);
    }
    match alpha {
        Alpha::Infinite => {},
        Alpha::Finite(v) => {
            if v < 0 || v > ALPHA_LIMIT {
                return Err(GeomError::PreconditionViolation);
            }
        },
    }
    let mut i: usize = 0;
    while i < n
        invariant
            0 <= i <= n,
            n == points@.len(),
            forall|k: int| 0 <= k < i ==> site_in_bounds(#[trigger] points@[k]),
        decreases n - i,
    {
        let p = points[i];
        if p.x < -crate::geom::COORD_LIMIT || p.x > crate::geom::COORD_LIMIT
            || p.y < -crate::geom::COORD_LIMIT || p.y > crate::geom::COORD_LIMIT {
            return Err(GeomError::PreconditionViolation);
        }
        i = i + 1;
    }
    assert(alpha_input_ok(points@, alpha));
    let mut m: usize = 0;
    while m < triangles.len()
        invariant
            0 <= m <= triangles@.len(),
            forall|k: int|
                0 <= k < m ==> (#[trigger] triangles@[k]).a < points@.len() && triangles@[k].b
                    < points@.len() && triangles@[k].c < points@.len(),
            n == points@.len(),
            alpha_input_ok(points@, alpha),
        decreases triangles@.len() - m,
    {
        let t = triangles[m];
        if t.a >= n || t.b >= n || t.c >= n {
            return Err(GeomError::TriangulationFailure);
        }
        m = m + 1;
    }
    assert(alpha_input_ok(points@, alpha));
    assert(tris_in_range(triangles@, points@.len() as int));
    let mut edges: Vec<EdgePair> = Vec::new();
    let mut m2: usize = 0;
    while m2 < triangles.len()
        invariant
            0 <= m2 <= triangles@.len(),
            n == points@.len(),
            alpha_input_ok(points@, alpha),
            tris_in_range(triangles@, n as int),
            edges@ == kept_edges(points@, triangles@, alpha, m2 as int),
            edges_in_range(edges@, n as int),
        decreases triangles@.len() - m2,
    {
        let t = triangles[m2];
        if triangle_kept_exec(points, t, alpha) {
            proof {
                lemma_toggle_in_range(edges@, t.a, t.b, n as int);
                lemma_toggle_in_range(toggle_edge(edges@, t.a, t.b), t.b, t.c, n as int);
                lemma_toggle_in_range(
                    toggle_edge(toggle_edge(edges@, t.a, t.b), t.b, t.c),
                    t.c,
                    t.a,
                    n as int,
                );
            }
            toggle_edge_exec(&mut edges, t.a, t.b);
            toggle_edge_exec(&mut edges, t.b, t.c);
            toggle_edge_exec(&mut edges, t.c, t.a);
        }
        m2 = m2 + 1;
    }
    if edges.len() == 0 {
        assert(path_points(points@, Seq::<usize>::empty()) =~= Seq::<Point>::empty());
        return Err(GeomError::BoundaryTraversalIncomplete(Vec::new()));
    }
    let ne = edges.len();
    let mut used: Vec<bool> = Vec::new();
    let mut k: usize = 0;
    while k < ne
        invariant
            0 <= k <= ne,
            used@.len() == k,
            forall|j: int| 0 <= j < k ==> #[trigger] used@[j] == (j == 0),
        decreases ne - k,
    {
        used.push(k == 0);
        k = k + 1;
    }
    proof {
        assert(used@ =~= initial_used(edges@.len()));
    }
    let e0 = edges[0];
    let mut path: Vec<usize> = Vec::new();
    path.push(e0.0);
    path.push(e0.1);
    let ghost used0 = used@;
    let ghost path0 = path@;
    proof {
        assert(path0 =~= seq![edges@[0].0, edges@[0].1]);
    }
    loop
        invariant
            n == points@.len(),
            alpha_input_ok(points@, alpha),
            tris_in_range(triangles@, n as int),
            edges@ == kept_edges(points@, triangles@, alpha, triangles@.len() as int),
            edges@.len() > 0,
            edges_in_range(edges@, n as int),
            used@.len() == edges@.len(),
            path@.len() >= 2,
            all_below(path@, n as int),
            used0 == initial_used(edges@.len()),
            path0 == seq![edges@[0].0, edges@[0].1],
            traverse(edges@, used@, path@) == traverse(edges@, used0, path0),
        decreases count_unused(used@),
    {
        let plen = path.len();
        let last = path[plen - 1];
        let prev = path[plen - 2];
        proof {
            lemma_next_edge_some(edges@, used@, last, prev, 0);
        }
        match find_next_edge(&edges, &used, last, prev) {
            None => {
                assert(traverse(edges@, used@, path@) == (path@, false));
                let partial = path_to_points(points, &path);
                return Err(GeomError::BoundaryTraversalIncomplete(partial));
            },
            Some((kk, nxt)) => {
                if nxt == path[0] {
                    assert(traverse(edges@, used@, path@) == (path@, true));
                    proof {
                        lemma_traverse_growth(edges@, used0, path0);
                        lemma_traverse_in_range(edges@, used0, path0, n as int);
                    }
                    let pts = path_to_points(points, &path);
                    proof {
                        assert forall|q: int|
                            0 <= q < pts@.len() implies crate::geom::vertex_in_bounds(
                            #[trigger] pts@[q],
                        ) by {
                            assert(pts@[q] == points@[path@[q] as int]);
                            assert(site_in_bounds(points@[path@[q] as int]));
                        }
                    }
                    return Ok(Polygon { pts });
                }
                proof {
                    lemma_count_unused_update(used@, kk as int);
                }
                used[kk] = true;
                path.push(nxt);
            },
        }
    }
}

/// Every edge the toggling pass keeps joins two in-range positions.
proof fn lemma_kept_edges_in_range(points: Seq<Point>, tris: Seq<Triangle>, alpha: Alpha, m: int)
    requires
        tris_in_range(tris, points.len() as int),
        m <= tris.len(),
    ensures
        edges_in_range(kept_edges(points, tris, alpha, m), points.len() as int),
    decreases m,
{
    if m > 0 {
        lemma_kept_edges_in_range(points, tris, alpha, m - 1);
        let prev = kept_edges(points, tris, alpha, m - 1);
        let t = tris[m - 1];
        if triangle_kept(points, t, alpha) {
            lemma_toggle_in_range(prev, t.a, t.b, points.len() as int);
            lemma_toggle_in_range(toggle_edge(prev, t.a, t.b), t.b, t.c, points.len() as int);
            lemma_toggle_in_range(
                toggle_edge(toggle_edge(prev, t.a, t.b), t.b, t.c),
                t.c,
                t.a,
                points.len() as int,
            );
        }
    }
}

} // verus!
