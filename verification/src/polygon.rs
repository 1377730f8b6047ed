//! Polygons: ordered cyclic vertex loops over grid points.

use vstd::prelude::*;
use crate::geom::{Point, GeomError, vertex_in_bounds};

verus! {

/// An ordered, cyclic sequence of vertices: the first and last vertices
/// are adjacent, and no duplicate closing vertex is stored.
///
/// A well-formed polygon has at least 3 vertices, each within the
/// polygon coordinate bound.
#[derive(Clone, Debug)]
pub struct Polygon {
    pub pts: Vec<Point>,
}

impl View for Polygon {
    type V = Seq<Point>;

    open spec fn view(&self) -> Seq<Point> {
        self.pts@
    }
}

/// Whether every point of a vertex sequence is within the polygon
/// coordinate bound.
pub open spec fn all_vertices_in_bounds(s: Seq<Point>) -> bool {
    forall|i: int| 0 <= i < s.len() ==> vertex_in_bounds(#[trigger] s[i])
}

impl Polygon {
    /// The polygon's well-formedness invariant.
    pub open spec fn wf(&self) -> bool {
        self@.len() >= 3 && all_vertices_in_bounds(self@)
    }

    /// Builds a polygon from an ordered vertex loop.
    ///
    /// Rejects a loop of fewer than 3 vertices, or one with a vertex out
    /// of the coordinate bound, with `PreconditionViolation`.
    pub fn from_points(pts: Vec<Point>) -> (r: Result<Polygon, GeomError>)
        ensures
            (pts@.len() >= 3 && all_vertices_in_bounds(pts@)) <==> r is Ok,
            r matches Ok(p) ==> p@ == pts@ && p.wf(),
            r is Err ==> (r matches Err(e) && e is PreconditionViolation),
    {
        if pts.len() < 3 {
            return Err(GeomError::PreconditionViolation);
        }
        let mut i: usize = 0;
        while i < pts.len()
            invariant
                0 <= i <= pts@.len(),
                forall|k: int| 0 <= k < i ==> vertex_in_bounds(#[trigger] pts@[k]),
            decreases pts@.len() - i,
        {
            let p = pts[i];
            if p.x < -crate::geom::POLY_LIMIT || p.x > crate::geom::POLY_LIMIT
                || p.y < -crate::geom::POLY_LIMIT || p.y > crate::geom::POLY_LIMIT {
                return Err(GeomError::PreconditionViolation);
            }
            i = i + 1;
        }
        Ok(Polygon { pts })
    }

    /// The ordered vertex loop.
    pub fn points(&self) -> (r: &Vec<Point>)
        ensures
            r@ == self@,
    {
        &self.pts
    }

    /// Number of vertices.
    pub fn len(&self) -> (r: usize)
        ensures
            r == self@.len(),
    {
        self.pts.len()
    }

    /// A copy of the polygon with the same vertex loop.
    pub fn duplicate(&self) -> (r: Polygon)
        ensures
            r@ == self@,
    {
        let mut pts: Vec<Point> = Vec::new();
        let mut i: usize = 0;
        while i < self.pts.len()
            invariant
                0 <= i <= self@.len(),
                pts@.len() == i,
                forall|k: int| 0 <= k < i ==> pts@[k] == self@[k],
            decreases self@.len() - i,
        {
            pts.push(self.pts[i]);
            i = i + 1;
        }
        proof {
            assert(pts@ =~= self@);
        }
        Polygon { pts }
    }

    /// The vertex at a given position.
    pub fn vertex(&self, i: usize) -> (r: Point)
        requires
            i < self@.len(),
        ensures
            r == self@[i as int],
    {
        self.pts[i]
    }
}

} // verus!
