//! Voronoi cell filtering: build an inflated containment hull from the
//! sites' alpha shape and keep (or regularize) the raw per-site cells
//! of the externally computed diagram.

use vstd::prelude::*;
use crate::geom::{
    Point, GeomError, site_in_bounds, all_sites_in_bounds, lemma_mul_bound, MAX_POINTS,
    COORD_LIMIT,
};
use crate::polygon::{Polygon, all_vertices_in_bounds};
use crate::segment::{round_div, lemma_round_div_bounds};
use crate::inside::{is_inside, all_inside, point_in_polygon};
use crate::clip::{regularize, walk, first_inside};
use crate::alpha::{alpha_shape, alpha_shape_spec, Alpha, AlphaResult, Triangle,
    lemma_alpha_shape_vertices_from_input};

verus! {

/// Sum of the x coordinates of a vertex loop.
pub open spec fn sum_x(h: Seq<Point>) -> int
    decreases h.len(),
{
    if h.len() == 0 {
        0
    } else {
        sum_x(h.drop_last()) + h.last().x
    }
}

/// Sum of the y coordinates of a vertex loop.
pub open spec fn sum_y(h: Seq<Point>) -> int
    decreases h.len(),
{
    if h.len() == 0 {
        0
    } else {
        sum_y(h.drop_last()) + h.last().y
    }
}

/// The x coordinate of vertex `i` scaled about the hull's centroid by
/// `s_num / s_den` and rounded to the grid: the exact value is
/// `cx + (x - cx) * s` with centroid `cx = sum_x / n`, which over a
/// common denominator is `(s_den*sum_x + s_num*(n*x - sum_x)) / (n*s_den)`.
pub open spec fn inflate_x(h: Seq<Point>, i: int, s_num: int, s_den: int) -> int {
    let n = h.len() as int;
    round_div(s_den * sum_x(h) + s_num * (n * h[i].x - sum_x(h)), n * s_den)
}

/// The y coordinate of vertex `i` scaled about the hull's centroid.
pub open spec fn inflate_y(h: Seq<Point>, i: int, s_num: int, s_den: int) -> int {
    let n = h.len() as int;
    round_div(s_den * sum_y(h) + s_num * (n * h[i].y - sum_y(h)), n * s_den)
}

/// The hull scaled about its centroid, vertex by vertex.
pub open spec fn inflated_hull(h: Seq<Point>, s_num: int, s_den: int) -> Seq<Point> {
    Seq::new(
        h.len(),
        |i: int|
            Point {
                x: inflate_x(h, i, s_num, s_den) as i64,
                y: inflate_y(h, i, s_num, s_den) as i64,
            },
    )
}

/// Scales every vertex of `hull` about the hull's centroid (the
/// arithmetic mean of its vertices) by `scale_num / scale_den`,
/// rounding each coordinate to the nearest grid unit. A factor above
/// one inflates the hull outward about its centroid.
pub fn inflate(hull: &Polygon, scale_num: i64, scale_den: i64) -> (r: Polygon)
    requires
        hull.wf(),
        hull@.len() <= MAX_POINTS,
        all_sites_in_bounds(hull@),
        1 <= scale_den <= 1_000_000,
        scale_den <= scale_num <= 4 * scale_den,
    ensures
        r@ == inflated_hull(hull@, scale_num as int, scale_den as int),
        r.wf(),
        r@.len() == hull@.len(),
{
    let n = hull.len();
    let mut sx: i128 = 0;
    let mut sy: i128 = 0;
    let mut i: usize = 0;
    while i < n
        invariant
            0 <= i <= n,
            n == hull@.len(),
            hull.wf(),
            all_sites_in_bounds(hull@),
            sx == sum_x(hull@.take(i as int)),
            sy == sum_y(hull@.take(i as int)),
            -(i as int) * COORD_LIMIT <= sx <= (i as int) * COORD_LIMIT,
            -(i as int) * COORD_LIMIT <= sy <= (i as int) * COORD_LIMIT,
        decreases n - i,
    {
        let p = hull.vertex(i);
        proof {
            assert(hull@.take(i + 1).drop_last() =~= hull@.take(i as int));
            assert(hull@.take(i + 1).last() == hull@[i as int]);
        }
        sx = sx + p.x as i128;
        sy = sy + p.y as i128;
        i = i + 1;
    }
    proof {
        assert(hull@.take(n as int) =~= hull@);
    }
    proof {
        lemma_mul_bound(n as int, scale_den as int, 10_000, 1_000_000);
    }
    let den: i128 = n as i128 * scale_den as i128;
    proof {
        assert(den > 0) by (nonlinear_arith)
            requires
                den == n as i128 * scale_den as i128,
                n >= 3,
                scale_den >= 1;
    }
    let mut out: Vec<Point> = Vec::new();
    let mut j: usize = 0;
    while j < n
        invariant
            0 <= j <= n,
            n == hull@.len(),
            3 <= n <= MAX_POINTS,
            hull.wf(),
            all_sites_in_bounds(hull@),
            sx == sum_x(hull@),
            sy == sum_y(hull@),
            -(n as int) * COORD_LIMIT <= sx <= (n as int) * COORD_LIMIT,
            -(n as int) * COORD_LIMIT <= sy <= (n as int) * COORD_LIMIT,
            1 <= scale_den <= 1_000_000,
            scale_den <= scale_num <= 4 * scale_den,
            den == n as int * scale_den as int,
            0 < den <= 10_000_000_000,
            out@.len() == j,
            forall|k: int|
                0 <= k < j ==> #[trigger] out@[k] == (Point {
                    x: inflate_x(hull@, k, scale_num as int, scale_den as int) as i64,
                    y: inflate_y(hull@, k, scale_num as int, scale_den as int) as i64,
                }),
            all_vertices_in_bounds(out@),
        decreases n - j,
    {
        let p = hull.vertex(j);
        proof {
            lemma_mul_bound(n as int, p.x as int, 10_000, 100_000);
            lemma_mul_bound(n as int, p.y as int, 10_000, 100_000);
            lemma_mul_bound(scale_den as int, sx as int, 1_000_000, 1_000_000_000);
            lemma_mul_bound(scale_den as int, sy as int, 1_000_000, 1_000_000_000);
            lemma_mul_bound(
                scale_num as int,
                n as int * p.x as int - sx as int,
                4_000_000,
                2_000_000_000,
            );
            lemma_mul_bound(
                scale_num as int,
                n as int * p.y as int - sy as int,
                4_000_000,
                2_000_000_000,
            );
        }
        let numx: i128 = scale_den as i128 * sx + scale_num as i128 * (n as i128 * p.x as i128
            - sx);
        let numy: i128 = scale_den as i128 * sy + scale_num as i128 * (n as i128 * p.y as i128
            - sy);
        proof {
            assert(den * (-900_000) <= numx <= den * 900_000) by (nonlinear_arith)
                requires
                    numx == scale_den * sx + scale_num * (n * (hull@[j as int].x as i128) - sx),
                    den == n as i128 * scale_den as i128,
                    1 <= scale_den,
                    scale_den <= scale_num <= 4 * scale_den,
                    3 <= n,
                    -(n as int) * 100_000 <= sx <= (n as int) * 100_000,
                    -100_000 <= hull@[j as int].x <= 100_000;
            assert(den * (-900_000) <= numy <= den * 900_000) by (nonlinear_arith)
                requires
                    numy == scale_den * sy + scale_num * (n * (hull@[j as int].y as i128) - sy),
                    den == n as i128 * scale_den as i128,
                    1 <= scale_den,
                    scale_den <= scale_num <= 4 * scale_den,
                    3 <= n,
                    -(n as int) * 100_000 <= sy <= (n as int) * 100_000,
                    -100_000 <= hull@[j as int].y <= 100_000;
            lemma_round_div_bounds(numx as int, den as int, -900_000, 900_000);
            lemma_round_div_bounds(numy as int, den as int, -900_000, 900_000);
        }
        let x = crate::segment::round_div_i128(numx, den);
        let y = crate::segment::round_div_i128(numy, den);
        out.push(Point { x: x as i64, y: y as i64 });
        j = j + 1;
    }
    proof {
        assert(out@ =~= inflated_hull(hull@, scale_num as int, scale_den as int));
    }
    Polygon { pts: out }
}

/// One bounded Voronoi cell: its generating site and its polygon.
#[derive(Clone, Debug)]
pub struct Cell {
    pub site: Point,
    pub polygon: Polygon,
}

impl View for Cell {
    type V = (Point, Seq<Point>);

    open spec fn view(&self) -> (Point, Seq<Point>) {
        (self.site, self.polygon@)
    }
}

/// The cells kept for a site set, in site order; a finite, restartable
/// sequence that can be read any number of times.
#[derive(Clone, Debug)]
pub struct Cells {
    pub cells: Vec<Cell>,
}

impl View for Cells {
    type V = Seq<(Point, Seq<Point>)>;

    open spec fn view(&self) -> Seq<(Point, Seq<Point>)> {
        Seq::new(self.cells@.len(), |i: int| self.cells@[i]@)
    }
}

impl Cells {
    /// The kept cells, in site order.
    pub fn iter_cells(&self) -> (r: &Vec<Cell>)
        ensures
            r@.len() == self@.len(),
            forall|i: int| 0 <= i < r@.len() ==> #[trigger] r@[i]@ == self@[i],
    {
        &self.cells
    }

    /// Number of kept cells.
    pub fn len(&self) -> (r: usize)
        ensures
            r == self@.len(),
    {
        self.cells.len()
    }
}

/// The per-vertex inside flags of a cell against the hull.
pub open spec fn cell_flags(cell: Seq<Point>, hull: Seq<Point>) -> Seq<bool> {
    Seq::new(cell.len(), |i: int| point_in_polygon(cell[i], hull))
}

/// What becomes of one raw cell: kept unchanged when fully inside the
/// hull; otherwise regularized against the hull when `reg` asks for it
/// (and dropped if regularization fails), else dropped.
pub open spec fn cell_outcome(site: Point, cell: Seq<Point>, hull: Seq<Point>, reg: bool) -> Option<
    (Point, Seq<Point>),
> {
    if all_inside(cell, hull) {
        Some((site, cell))
    } else if reg {
        let flags = cell_flags(cell, hull);
        let start = first_inside(flags, 0);
        if start >= cell.len() {
            None
        } else {
            match walk(cell, hull, flags, start, start) {
                Some(s) => Some((site, s)),
                None => None,
            }
        }
    } else {
        None
    }
}

/// The outcomes of the first `i` raw cells, kept ones in site order.
pub open spec fn filtered_cells(
    sites: Seq<Point>,
    cells: Seq<Seq<Point>>,
    hull: Seq<Point>,
    reg: bool,
    i: int,
) -> Seq<(Point, Seq<Point>)>
    decreases i,
{
    if i <= 0 {
        Seq::empty()
    } else {
        let prev = filtered_cells(sites, cells, hull, reg, i - 1);
        match cell_outcome(sites[i - 1], cells[i - 1], hull, reg) {
            Some(c) => prev.push(c),
            None => prev,
        }
    }
}

/// The vertex loops of a list of polygons.
pub open spec fn polygon_views(cells: Seq<Polygon>) -> Seq<Seq<Point>> {
    Seq::new(cells.len(), |i: int| cells[i]@)
}

/// Result of a Voronoi cell filtering run, over mathematical sequences.
pub enum VoronoiResult {
    /// The kept cells, in site order.
    Kept(Seq<(Point, Seq<Point>)>),
    /// The containment hull walk stopped before closing.
    Incomplete(Seq<Point>),
    /// The preconditions on sites, alpha or hull size do not hold.
    BadInput,
    /// A triangle names a site position out of range.
    BadTriangulation,
}

/// The whole cell-filtering computation. With fewer than four sites no
/// containment hull exists, and every raw cell is kept as it is; with
/// four or more, the alpha shape at infinite alpha is inflated by
/// `s_num / s_den` about its centroid and each raw cell is held against
/// it.
pub open spec fn generate_voronoi_spec(
    points: Seq<Point>,
    tris: Seq<Triangle>,
    cells: Seq<Seq<Point>>,
    s_num: int,
    s_den: int,
    reg: bool,
) -> VoronoiResult {
    if points.len() < 4 {
        VoronoiResult::Kept(Seq::new(points.len(), |i: int| (points[i], cells[i])))
    } else {
        match alpha_shape_spec(points, tris, Alpha::Infinite) {
            AlphaResult::Shape(hull) => {
                if hull.len() > MAX_POINTS {
                    VoronoiResult::BadInput
                } else {
                    VoronoiResult::Kept(
                        filtered_cells(
                            points,
                            cells,
                            inflated_hull(hull, s_num, s_den),
                            reg,
                            points.len() as int,
                        ),
                    )
                }
            },
            AlphaResult::Incomplete(s) => VoronoiResult::Incomplete(s),
            AlphaResult::BadInput => VoronoiResult::BadInput,
            AlphaResult::BadTriangulation => VoronoiResult::BadTriangulation,
        }
    }
}

/// Computes the bounded Voronoi cells kept for a site set: one raw cell
/// per site comes from the external diagram computation, and each is
/// kept unchanged if it lies inside the inflated containment hull,
/// regularized against the hull if `regularize_spilled` is set, and
/// dropped otherwise. Output order follows site input order, and the
/// result is a function of the arguments alone.
pub fn generate_voronoi(
    points: &Vec<Point>,
    triangles: &Vec<Triangle>,
    raw_cells: &Vec<Polygon>,
    scale_num: i64,
    scale_den: i64,
    regularize_spilled: bool,
) -> (r: Result<Cells, GeomError>)
    requires
        raw_cells@.len() == points@.len(),
        forall|i: int| 0 <= i < raw_cells@.len() ==> (#[trigger] raw_cells@[i]).wf(),
        1 <= scale_den <= 1_000_000,
        scale_den <= scale_num <= 4 * scale_den,
    ensures
        match generate_voronoi_spec(
            points@,
            triangles@,
            polygon_views(raw_cells@),
            scale_num as int,
            scale_den as int,
            regularize_spilled,
        ) {
            VoronoiResult::Kept(cs) => r matches Ok(out) && out@ == cs,
            VoronoiResult::Incomplete(s) => (r matches Err(e) && e matches
                GeomError::BoundaryTraversalIncomplete(partial) && partial@ == s),
            VoronoiResult::BadInput => (r matches Err(e) && e is PreconditionViolation),
            VoronoiResult::BadTriangulation => (r matches Err(e) && e is TriangulationFailure),
        },
{
    let n = points.len();
    if n < 4 {
        let mut cells: Vec<Cell> = Vec::new();
        let mut i: usize = 0;
        while i < n
            invariant
                0 <= i <= n,
                n == points@.len(),
                raw_cells@.len() == n,
                cells@.len() == i,
                forall|k: int|
                    0 <= k < i ==> #[trigger] cells@[k]@ == (points@[k], raw_cells@[k]@),
            decreases n - i,
        {
            cells.push(Cell { site: points[i], polygon: raw_cells[i].duplicate() });
            i = i + 1;
        }
        let out = Cells { cells };
        proof {
            assert(out@ =~= Seq::new(
                points@.len(),
                |i: int| (points@[i], polygon_views(raw_cells@)[i]),
            ));
        }
        return Ok(out);
    }
    let hull = match alpha_shape(points, triangles, Alpha::Infinite) {
        Ok(h) => h,
        Err(e) => {
            return Err(e);
        },
    };
    if hull.len() > MAX_POINTS {
        return Err(GeomError::PreconditionViolation);
    }
    proof {
        lemma_alpha_shape_vertices_from_input(points@, triangles@, Alpha::Infinite);
        assert(all_sites_in_bounds(points@));
        assert forall|i: int| 0 <= i < hull@.len() implies site_in_bounds(#[trigger] hull@[i]) by {
            assert(points@.contains(hull@[i]));
            let j = choose|j: int| 0 <= j < points@.len() && points@[j] == hull@[i];
            assert(site_in_bounds(points@[j]));
        }
    }
    let hull_infl = inflate(&hull, scale_num, scale_den);
    let ghost hseq = hull_infl@;
    let mut cells: Vec<Cell> = Vec::new();
    let mut i: usize = 0;
    while i < n
        invariant
            0 <= i <= n,
            n == points@.len(),
            raw_cells@.len() == n,
            forall|k: int| 0 <= k < raw_cells@.len() ==> (#[trigger] raw_cells@[k]).wf(),
            hull_infl.wf(),
            hull_infl@ == hseq,
            Seq::new(cells@.len(), |k: int| cells@[k]@) =~= filtered_cells(
                points@,
                polygon_views(raw_cells@),
                hseq,
                regularize_spilled,
                i as int,
            ),
        decreases n - i,
    {
        let cell = &raw_cells[i];
        let ghost pre = Seq::new(cells@.len(), |k: int| cells@[k]@);
        match is_inside(cell, &hull_infl) {
            Ok(_) => {
                cells.push(Cell { site: points[i], polygon: cell.duplicate() });
            },
            Err(flags) => {
                proof {
                    assert(flags@ =~= cell_flags(cell@, hseq));
                }
                if regularize_spilled {
                    match regularize(cell, &hull_infl, &flags) {
                        Ok(pg) => {
                            cells.push(Cell { site: points[i], polygon: pg });
                        },
                        Err(_) => {},
                    }
                }
            },
        }
        proof {
            assert(Seq::new(cells@.len(), |k: int| cells@[k]@) =~= filtered_cells(
                points@,
                polygon_views(raw_cells@),
                hseq,
                regularize_spilled,
                i + 1,
            ));
        }
        i = i + 1;
    }
    let out = Cells { cells };
    Ok(out)
}

} // verus!
