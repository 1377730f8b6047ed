//! Triangle-fan indexing for turning a convex polygon into a triangle
//! list: the presentation layer pairs these indices with its own vertex
//! buffers.

use vstd::prelude::*;

verus! {

/// The triangle-fan index list for a convex polygon of `n` vertices:
/// `n - 2` triangles `(0, t+1, t+2)` for `t` from 0 to `n - 3`,
/// flattened in order.
pub open spec fn fan_indices_spec(n: int) -> Seq<u32> {
    Seq::new(
        (3 * (n - 2)) as nat,
        |j: int|
            (if j % 3 == 0 {
                0int
            } else {
                j / 3 + j % 3
            }) as u32,
    )
}

/// Computes the triangle-fan index list of a convex polygon of `n`
/// vertices. A polygon needs at least 3 vertices to triangulate, and
/// the vertex count must fit an index of 32 bits.
pub fn fan_indices(n: usize) -> (r: Vec<u32>)
    requires
        3 <= n <= 0x1_0000_0000,
    ensures
        r@ == fan_indices_spec(n as int),
        r@.len() == 3 * (n - 2),
{
    let mut out: Vec<u32> = Vec::new();
    let mut i: usize = 1;
    while i <= n - 2
        invariant
            3 <= n <= 0x1_0000_0000,
            1 <= i <= n - 1,
            out@.len() == 3 * (i - 1),
            forall|j: int|
                0 <= j < out@.len() ==> #[trigger] out@[j] == fan_indices_spec(n as int)[j],
        decreases n - i,
    {
        let ghost pre = out@;
        out.push(0);
        out.push(i as u32);
        out.push((i + 1) as u32);
        proof {
            assert forall|j: int| 0 <= j < out@.len() implies #[trigger] out@[j]
                == fan_indices_spec(n as int)[j] by {
                if j < pre.len() {
                    assert(out@[j] == pre[j]);
                } else {
                    assert(j / 3 == i - 1 && j % 3 == j - 3 * (i - 1)) by (nonlinear_arith)
                        requires
                            3 * (i - 1) <= j < 3 * i,
                            1 <= i;
                }
            }
        }
        i = i + 1;
    }
    proof {
        assert(out@ =~= fan_indices_spec(n as int));
    }
    out
}

} // verus!
