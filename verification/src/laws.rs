//! Determinism of the engine, stated as laws.
//!
//! Every executable entry point of the engine pins its result, in its
//! `ensures` clause, to a spec-level function of the call's arguments
//! alone. These lemmas state the consequence explicitly: two results
//! that both satisfy the contract for the same arguments are equal, so
//! two calls with identical point sequences and parameters produce
//! identical output vertex sequences, in identical order.

use vstd::prelude::*;
use crate::geom::Point;
use crate::alpha::{alpha_shape_spec, Alpha, AlphaResult, Triangle};
use crate::voronoi::{generate_voronoi_spec, VoronoiResult};

verus! {

/// Two alpha-shape results for identical sites, triangle lists and
/// alpha are identical.
pub proof fn lemma_alpha_shape_deterministic(
    points: Seq<Point>,
    tris: Seq<Triangle>,
    alpha: Alpha,
    r1: AlphaResult,
    r2: AlphaResult,
)
    requires
        r1 == alpha_shape_spec(points, tris, alpha),
        r2 == alpha_shape_spec(points, tris, alpha),
    ensures
        r1 == r2,
{
}

/// Two cell-filtering results for identical sites, triangle lists, raw
/// cells and parameters are identical.
pub proof fn lemma_generate_voronoi_deterministic(
    points: Seq<Point>,
    tris: Seq<Triangle>,
    cells: Seq<Seq<Point>>,
    s_num: int,
    s_den: int,
    reg: bool,
    r1: VoronoiResult,
    r2: VoronoiResult,
)
    requires
        r1 == generate_voronoi_spec(points, tris, cells, s_num, s_den, reg),
        r2 == generate_voronoi_spec(points, tris, cells, s_num, s_den, reg),
    ensures
        r1 == r2,
{
}

} // verus!
