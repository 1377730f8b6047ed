//! Points, coordinate bounds, and the error taxonomy shared by the engine.

use vstd::prelude::*;

verus! {

/// Largest magnitude allowed for a site coordinate handed to the engine.
///
/// Sites this small keep every intermediate product of the alpha-shape
/// circumradius test inside `i128`.
pub const COORD_LIMIT: i64 = 100_000;

/// Largest magnitude allowed for a polygon vertex coordinate.
///
/// Derived polygons (inflated hulls, raw Voronoi cells) may stick out past
/// the site bound, but never past this one.
pub const POLY_LIMIT: i64 = 1_000_000;

/// Largest finite alpha radius accepted by the alpha-shape filter.
pub const ALPHA_LIMIT: i64 = 10_000_000;

/// Largest number of sites accepted per call; the engine targets tens to
/// low hundreds of points, and this cap keeps centroid sums small.
pub const MAX_POINTS: usize = 10_000;

/// A point of the fixed-point grid: `x` and `y` count grid units.
#[derive(Clone, Copy, PartialEq, Eq, Structural, Debug)]
pub struct Point {
    pub x: i64,
    pub y: i64,
}

/// Whether a point is within the site coordinate bound.
pub open spec fn site_in_bounds(p: Point) -> bool {
    -COORD_LIMIT <= p.x <= COORD_LIMIT && -COORD_LIMIT <= p.y <= COORD_LIMIT
}

/// Whether a point is within the polygon vertex coordinate bound.
pub open spec fn vertex_in_bounds(p: Point) -> bool {
    -POLY_LIMIT <= p.x <= POLY_LIMIT && -POLY_LIMIT <= p.y <= POLY_LIMIT
}

/// Whether every point of a sequence is within the site bound.
pub open spec fn all_sites_in_bounds(s: Seq<Point>) -> bool {
    forall|i: int| 0 <= i < s.len() ==> site_in_bounds(#[trigger] s[i])
}

/// Squared Euclidean distance between two points, exactly.
pub open spec fn sq_dist(p: Point, q: Point) -> int {
    (p.x - q.x) * (p.x - q.x) + (p.y - q.y) * (p.y - q.y)
}

/// Smaller of two integers.
pub open spec fn imin(a: int, b: int) -> int {
    if a <= b { a } else { b }
}

/// Larger of two integers.
pub open spec fn imax(a: int, b: int) -> int {
    if a <= b { b } else { a }
}

/// A product of two factors is bounded by the product of their bounds.
pub proof fn lemma_mul_bound(x: int, y: int, mx: int, my: int) by (nonlinear_arith)
    requires
        -mx <= x <= mx,
        -my <= y <= my,
        0 <= mx,
        0 <= my,
    ensures
        -(mx * my) <= x * y <= mx * my,
{
}

/// How a geometric computation can fail; every failure is returned to the
/// caller as a value, never raised as a panic or printed as a diagnostic.
#[derive(Clone, Debug)]
pub enum GeomError {
    /// The input violates a stated precondition (too few sites, a
    /// coordinate out of bounds, mismatched lengths); fatal for this input.
    PreconditionViolation,
    /// The triangle list is not a valid triangulation of the sites
    /// (an index out of range).
    TriangulationFailure,
    /// The alpha-shape edge walk could not find a continuation before the
    /// loop closed; carries the partial vertex path walked so far, and the
    /// caller decides whether a partial shape is acceptable.
    BoundaryTraversalIncomplete(Vec<Point>),
    /// Regularization needed a boundary crossing on some transition
    /// segment but no boundary edge intersects it; the recommended
    /// fallback is dropping the affected cell.
    NoIntersectionFound,
}

impl GeomError {
    /// Short description of the error, for callers that report it.
    pub fn describe(&self) -> String {
        match self {
            GeomError::PreconditionViolation => "precondition violation".to_string(),
            GeomError::TriangulationFailure => "triangulation failure".to_string(),
            GeomError::BoundaryTraversalIncomplete(_) => "boundary traversal incomplete".to_string(),
            GeomError::NoIntersectionFound => "no intersection found".to_string(),
        }
    }
}

} // verus!
