//! Regularization: reshaping a polygon that partially exits a boundary
//! so it follows the boundary instead of protruding.
//!
//! Starting from the first vertex flagged inside, the polygon's vertex
//! cycle is walked. Each inside vertex is emitted as-is; a run of
//! consecutive outside vertices between two inside vertices is replaced
//! by exactly two points: where the edge leaving the last inside vertex
//! crosses the boundary, and where the edge entering the next inside
//! vertex crosses it. A run that spans the wrap-around of the cycle is
//! handled like any other.

use vstd::prelude::*;
use crate::geom::{Point, GeomError, vertex_in_bounds};
use crate::polygon::{Polygon, all_vertices_in_bounds};
use crate::segment::{find_intersection, find_intersection_spec, lemma_find_intersection_bbox};

verus! {

/// First position at or after `i` whose flag is set, or `flags.len()`.
pub open spec fn first_inside(flags: Seq<bool>, i: int) -> int
    decreases flags.len() - i,
{
    if i < 0 || i >= flags.len() {
        flags.len() as int
    } else if flags[i] {
        i
    } else {
        first_inside(flags, i + 1)
    }
}

/// Cyclic offset of position `c` from position `start` in a cycle of
/// length `n`, walking forward.
pub open spec fn cyc_off(c: int, start: int, n: int) -> int {
    if c >= start {
        c - start
    } else {
        c + n - start
    }
}

/// Position `k` steps forward of `current` in the cycle, for `k` up to
/// the cycle length.
pub open spec fn cyc_fwd(current: int, k: int, n: int) -> int {
    if current + k < n {
        current + k
    } else {
        current + k - n
    }
}

/// First flagged position strictly after `current` cyclically, scanning
/// `k` steps forward and onward; falls back to `current` after a full
/// turn (unreachable when some flag is set).
pub open spec fn next_inside_step(flags: Seq<bool>, current: int, k: int) -> int
    decreases flags.len() + 1 - k,
{
    let n = flags.len() as int;
    if k < 1 || k > n {
        current
    } else {
        let idx = cyc_fwd(current, k, n);
        if 0 <= idx < n && flags[idx] {
            idx
        } else {
            next_inside_step(flags, current, k + 1)
        }
    }
}

/// First flagged position strictly after `current`, cyclically; reaches
/// `current` itself after a full turn.
pub open spec fn next_inside(flags: Seq<bool>, current: int) -> int {
    next_inside_step(flags, current, 1)
}

/// `next_inside_step` lands on a flagged position, and walking forward
/// from step `k` either reaches `start` or strictly advances the cyclic
/// offset from `start` by at least `k`.
proof fn lemma_next_inside_step(flags: Seq<bool>, start: int, current: int, k: int)
    requires
        0 <= start < flags.len(),
        flags[start],
        0 <= current < flags.len(),
        1 <= k <= flags.len() - cyc_off(current, start, flags.len() as int),
    ensures
        ({
            let n = flags.len() as int;
            let r = next_inside_step(flags, current, k);
            0 <= r < n && flags[r] && (r == start || cyc_off(r, start, n) >= cyc_off(
                current,
                start,
                n,
            ) + k)
        }),
    decreases flags.len() + 1 - k,
{
    let n = flags.len() as int;
    let ks = n - cyc_off(current, start, n);
    let idx = cyc_fwd(current, k, n);
    assert(cyc_fwd(current, ks, n) == start);
    if 0 <= idx < n && flags[idx] {
    } else {
        assert(k < ks);
        lemma_next_inside_step(flags, start, current, k + 1);
    }
}

/// `next_inside` lands on a flagged position that is `start` itself or
/// one strictly farther along the cycle than `current`.
proof fn lemma_next_inside(flags: Seq<bool>, start: int, current: int)
    requires
        0 <= start < flags.len(),
        flags[start],
        0 <= current < flags.len(),
    ensures
        ({
            let n = flags.len() as int;
            let r = next_inside(flags, current);
            0 <= r < n && flags[r] && (r == start || cyc_off(r, start, n) > cyc_off(
                current,
                start,
                n,
            ))
        }),
{
    lemma_next_inside_step(flags, start, current, 1);
}

/// The regularization walk from `current`, an inside vertex: emits
/// `poly[current]`, then, when one or more outside vertices follow
/// before the next inside vertex, the two boundary crossings that
/// replace the run; stops after the step that returns to `start`.
/// `None` reports that some required boundary crossing does not exist.
pub open spec fn walk(
    poly: Seq<Point>,
    bound: Seq<Point>,
    flags: Seq<bool>,
    start: int,
    current: int,
) -> Option<Seq<Point>>
    decreases poly.len() - cyc_off(current, start, poly.len() as int),
    via walk_decreases
{
    let n = poly.len() as int;
    if !(0 <= start < n && 0 <= current < n && flags.len() == n && flags[start]) {
        None
    } else {
        let nxt = next_inside(flags, current);
        let after = if current + 1 == n {
            0
        } else {
            current + 1
        };
        let head = seq![poly[current]];
        if nxt == after {
            if nxt == start {
                Some(head)
            } else {
                match walk(poly, bound, flags, start, nxt) {
                    Some(rest) => Some(head + rest),
                    None => None,
                }
            }
        } else {
            let last_out = if nxt == 0 {
                n - 1
            } else {
                nxt - 1
            };
            match (
                find_intersection_spec(poly[current], poly[after], bound),
                find_intersection_spec(poly[last_out], poly[nxt], bound),
            ) {
                (Some(jp1), Some(jp2)) => {
                    let seg = head + seq![jp1.1, jp2.1];
                    if nxt == start {
                        Some(seg)
                    } else {
                        match walk(poly, bound, flags, start, nxt) {
                            Some(rest) => Some(seg + rest),
                            None => None,
                        }
                    }
                },
                _ => None,
            }
        }
    }
}

#[via_fn]
proof fn walk_decreases(
    poly: Seq<Point>,
    bound: Seq<Point>,
    flags: Seq<bool>,
    start: int,
    current: int,
) {
    let n = poly.len() as int;
    if 0 <= start < n && 0 <= current < n && flags.len() == n && flags[start] {
        lemma_next_inside(flags, start, current);
    }
}

/// A successful walk emits at least three points: either it passes a
/// run of outside vertices (one vertex plus two crossings) or it emits
/// every vertex from `current` around to `start`.
proof fn lemma_walk_len(
    poly: Seq<Point>,
    bound: Seq<Point>,
    flags: Seq<bool>,
    start: int,
    current: int,
)
    requires
        0 <= start < poly.len(),
        0 <= current < poly.len(),
        flags.len() == poly.len(),
        flags[start],
    ensures
        walk(poly, bound, flags, start, current) matches Some(s) ==> s.len() >= 3 || s.len()
            >= poly.len() - cyc_off(current, start, poly.len() as int),
    decreases poly.len() - cyc_off(current, start, poly.len() as int),
{
    let n = poly.len() as int;
    lemma_next_inside(flags, start, current);
    let nxt = next_inside(flags, current);
    if nxt != start {
        lemma_walk_len(poly, bound, flags, start, nxt);
    }
}

/// Every point a successful walk emits is within the polygon
/// coordinate bound: kept vertices come from the polygon, and each crossing lies in
/// the bounding box of one of the polygon's edges.
proof fn lemma_walk_bounds(
    poly: Seq<Point>,
    bound: Seq<Point>,
    flags: Seq<bool>,
    start: int,
    current: int,
)
    requires
        0 <= start < poly.len(),
        0 <= current < poly.len(),
        flags.len() == poly.len(),
        flags[start],
        all_vertices_in_bounds(poly),
    ensures
        walk(poly, bound, flags, start, current) matches Some(s) ==> all_vertices_in_bounds(s),
    decreases poly.len() - cyc_off(current, start, poly.len() as int),
{
    let n = poly.len() as int;
    lemma_next_inside(flags, start, current);
    let nxt = next_inside(flags, current);
    let after = if current + 1 == n {
        0
    } else {
        current + 1
    };
    let last_out = if nxt == 0 {
        n - 1
    } else {
        nxt - 1
    };
    lemma_find_intersection_bbox(poly[current], poly[after], bound, 0);
    lemma_find_intersection_bbox(poly[last_out], poly[nxt], bound, 0);
    if nxt != start {
        lemma_walk_bounds(poly, bound, flags, start, nxt);
    }
    match walk(poly, bound, flags, start, current) {
        Some(s) => {
            assert forall|i: int| 0 <= i < s.len() implies vertex_in_bounds(#[trigger] s[i]) by {
                if nxt == after {
                    if nxt != start {
                        let rest = walk(poly, bound, flags, start, nxt)->Some_0;
                        if i >= 1 {
                            assert(s[i] == rest[i - 1]);
                        }
                    }
                } else {
                    if nxt != start {
                        let rest = walk(poly, bound, flags, start, nxt)->Some_0;
                        if i >= 3 {
                            assert(s[i] == rest[i - 3]);
                        }
                    }
                }
            }
        },
        None => {},
    }
}

/// Scans forward cyclically for the first flagged position strictly
/// after `current`; `anchor` is any flagged position, which bounds the
/// scan.
fn next_inside_exec(flags: &Vec<bool>, current: usize, anchor: usize) -> (r: usize)
    requires
        current < flags@.len(),
        anchor < flags@.len(),
        flags@[anchor as int],
    ensures
        r as int == next_inside(flags@, current as int),
        r < flags@.len(),
        flags@[r as int],
{
    let n = flags.len();
    let ghost ks = n as int - cyc_off(current as int, anchor as int, n as int);
    let mut k: usize = 1;
    loop
        invariant
            1 <= k <= ks,
            ks == n as int - cyc_off(current as int, anchor as int, n as int),
            n == flags@.len(),
            current < n,
            anchor < n,
            flags@[anchor as int],
            next_inside(flags@, current as int) == next_inside_step(
                flags@,
                current as int,
                k as int,
            ),
        decreases ks - k,
    {
        let idx = if current < n - k {
            current + k
        } else {
            current - (n - k)
        };
        assert(idx as int == cyc_fwd(current as int, k as int, n as int));
        if flags[idx] {
            proof {
                lemma_next_inside_step(flags@, anchor as int, current as int, k as int);
            }
            return idx;
        }
        proof {
            assert(cyc_fwd(current as int, ks, n as int) == anchor as int);
            assert((k as int) < ks);
        }
        k = k + 1;
    }
}

/// Regularizes a polygon against a boundary, given the per-vertex
/// inside flags that the containment test produced: inside vertices are
/// kept, and each run of outside vertices is replaced by the two points
/// where the polygon crosses the boundary around the run.
///
/// With no vertex flagged inside there is nothing to hug the boundary
/// from, and the input is rejected with `PreconditionViolation`; a
/// missing boundary crossing is reported as `NoIntersectionFound` (the
/// recommended fallback is dropping the polygon). When every vertex is
/// flagged inside, the output equals the input unchanged. The result is
/// a function of the arguments alone.
pub fn regularize(poly: &Polygon, bounding: &Polygon, inside: &Vec<bool>) -> (r: Result<
    Polygon,
    GeomError,
>)
    requires
        poly.wf(),
        bounding.wf(),
        inside@.len() == poly@.len(),
    ensures
        ({
            let start = first_inside(inside@, 0);
            if start >= poly@.len() {
                r matches Err(e) && e is PreconditionViolation
            } else {
                match walk(poly@, bounding@, inside@, start, start) {
                    Some(s) => r matches Ok(p) && p@ == s && p.wf(),
                    None => r matches Err(e) && e is NoIntersectionFound,
                }
            }
        }),
        (forall|i: int| 0 <= i < inside@.len() ==> #[trigger] inside@[i]) ==> (r matches Ok(p)
            && p@ == poly@),
{
    let n = poly.len();
    let mut start: usize = 0;
    loop
        invariant
            0 <= start <= n,
            n == inside@.len(),
            n == poly@.len() >= 3,
            first_inside(inside@, 0) == first_inside(inside@, start as int),
        ensures
            start < n,
            inside@[start as int],
            first_inside(inside@, 0) == start as int,
        decreases n - start,
    {
        if start >= n {
            proof {
                if forall|i: int| 0 <= i < inside@.len() ==> #[trigger] inside@[i] {
                    assert(first_inside(inside@, 0) == 0);
                    assert(false);
                }
            }
            return Err(GeomError::PreconditionViolation);
        }
        if inside[start] {
            break;
        }
        start = start + 1;
    }
    let mut out: Vec<Point> = Vec::new();
    let mut current: usize = start;
    proof {
        match walk(poly@, bounding@, inside@, start as int, start as int) {
            Some(rest) => {
                assert(Seq::<Point>::empty() + rest =~= rest);
            },
            None => {},
        }
    }
    loop
        invariant_except_break
            match walk(poly@, bounding@, inside@, start as int, current as int) {
                Some(rest) => walk(poly@, bounding@, inside@, start as int, start as int)
                    == Some(out@ + rest),
                None => walk(poly@, bounding@, inside@, start as int, start as int) is None,
            },
        invariant
            n == poly@.len() >= 3,
            n == inside@.len(),
            poly.wf(),
            bounding.wf(),
            0 <= start < n,
            inside@[start as int],
            first_inside(inside@, 0) == start as int,
            0 <= current < n,
        ensures
            walk(poly@, bounding@, inside@, start as int, start as int) == Some(out@),
        decreases n as int - cyc_off(current as int, start as int, n as int),
    {
        let ghost out_pre = out@;
        out.push(poly.vertex(current));
        let nxt = next_inside_exec(inside, current, start);
        proof {
            lemma_next_inside(inside@, start as int, current as int);
        }
        let after = if current + 1 == n {
            0
        } else {
            current + 1
        };
        let ghost w_cur = walk(poly@, bounding@, inside@, start as int, current as int);
        let ghost w_nxt = walk(poly@, bounding@, inside@, start as int, nxt as int);
        if nxt != after {
            let last_out = if nxt == 0 {
                n - 1
            } else {
                nxt - 1
            };
            let p1 = match find_intersection(poly.vertex(current), poly.vertex(after), bounding) {
                Ok(jp) => jp.1,
                Err(_) => {
                    proof {
                        if forall|i: int| 0 <= i < inside@.len() ==> #[trigger] inside@[i] {
                            lemma_regularize_identity(poly@, bounding@, inside@);
                        }
                    }
                    return Err(GeomError::NoIntersectionFound);
                },
            };
            let p2 = match find_intersection(poly.vertex(last_out), poly.vertex(nxt), bounding) {
                Ok(jp) => jp.1,
                Err(_) => {
                    proof {
                        if forall|i: int| 0 <= i < inside@.len() ==> #[trigger] inside@[i] {
                            lemma_regularize_identity(poly@, bounding@, inside@);
                        }
                    }
                    return Err(GeomError::NoIntersectionFound);
                },
            };
            out.push(p1);
            out.push(p2);
            proof {
                let seg = seq![poly@[current as int], p1, p2];
                assert(out@ =~= out_pre + seg);
                assert(seq![poly@[current as int]] + seq![p1, p2] =~= seg);
                match w_nxt {
                    Some(rest) => {
                        if nxt != start {
                            assert(w_cur == Some(seg + rest));
                            assert(out_pre + (seg + rest) =~= out@ + rest);
                        }
                    },
                    None => {},
                }
            }
        } else {
            proof {
                let seg = seq![poly@[current as int]];
                assert(out@ =~= out_pre + seg);
                match w_nxt {
                    Some(rest) => {
                        if nxt != start {
                            assert(w_cur == Some(seg + rest));
                            assert(out_pre + (seg + rest) =~= out@ + rest);
                        }
                    },
                    None => {},
                }
            }
        }
        if nxt == start {
            proof {
                assert(w_cur matches Some(seg2) && out@ =~= out_pre + seg2);
            }
            break;
        }
        current = nxt;
    }
    proof {
        lemma_walk_len(poly@, bounding@, inside@, start as int, start as int);
        lemma_walk_bounds(poly@, bounding@, inside@, start as int, start as int);
        if forall|i: int| 0 <= i < inside@.len() ==> #[trigger] inside@[i] {
            lemma_regularize_identity(poly@, bounding@, inside@);
        }
    }
    Ok(Polygon { pts: out })
}

/// The identity law of regularization: when every vertex is flagged
/// inside, the walk starts at vertex 0 and emits the polygon unchanged.
pub proof fn lemma_regularize_identity(
    poly: Seq<Point>,
    bound: Seq<Point>,
    flags: Seq<bool>,
)
    requires
        flags.len() == poly.len(),
        poly.len() >= 1,
        forall|i: int| 0 <= i < flags.len() ==> #[trigger] flags[i],
    ensures
        first_inside(flags, 0) == 0,
        walk(poly, bound, flags, 0, 0) == Some(poly),
{
    lemma_walk_identity_from(poly, bound, flags, 0);
    assert(poly.skip(0) =~= poly);
}

/// With every flag set the walk from `current` emits exactly the
/// vertices from `current` to the end of the buffer.
proof fn lemma_walk_identity_from(
    poly: Seq<Point>,
    bound: Seq<Point>,
    flags: Seq<bool>,
    current: int,
)
    requires
        flags.len() == poly.len(),
        poly.len() >= 1,
        0 <= current < poly.len(),
        forall|i: int| 0 <= i < flags.len() ==> #[trigger] flags[i],
    ensures
        walk(poly, bound, flags, 0, current) == Some(poly.skip(current)),
    decreases poly.len() - current,
{
    let n = poly.len() as int;
    let after = if current + 1 == n {
        0
    } else {
        current + 1
    };
    assert(cyc_fwd(current, 1, n) == after);
    assert(next_inside(flags, current) == after);
    if after == 0 {
        assert(seq![poly[current]] =~= poly.skip(current));
    } else {
        lemma_walk_identity_from(poly, bound, flags, after);
        assert(seq![poly[current]] + poly.skip(current + 1) =~= poly.skip(current));
    }
}

} // verus!
