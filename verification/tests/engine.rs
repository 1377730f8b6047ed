//! Unit tests of the geometry engine on hand-built inputs.
//!
//! Coordinates are fixed-point grid units; where the scale matters a
//! test says what one unit stands for.

use level_generator::geom::{GeomError, Point};
use level_generator::polygon::Polygon;
use level_generator::segment::{find_intersection, segment_intersection};
use level_generator::inside::is_inside;
use level_generator::clip::regularize;
use level_generator::alpha::{alpha_shape, Alpha, Triangle};
use level_generator::voronoi::{generate_voronoi, inflate};
use level_generator::mesh::fan_indices;

fn pt(x: i64, y: i64) -> Point {
    Point { x, y }
}

fn poly(pts: &[(i64, i64)]) -> Polygon {
    Polygon::from_points(pts.iter().map(|&(x, y)| pt(x, y)).collect()).unwrap()
}

fn square_1000() -> Polygon {
    // The unit square at 1000 grid units per 1.0.
    poly(&[(-1000, -1000), (-1000, 1000), (1000, 1000), (1000, -1000)])
}

#[test]
fn triangle_inside_square() {
    let square = square_1000();
    let triangle = poly(&[(0, 500), (-500, -500), (500, -500)]);
    assert!(is_inside(&triangle, &square).is_ok())
}

#[test]
fn triangle_inside_triangle() {
    let t1 = poly(&[(0, 1000), (-1000, -1000), (1000, -1000)]);
    let t2 = poly(&[(0, 500), (-500, -500), (500, -500)]);
    assert!(is_inside(&t2, &t1).is_ok())
}

#[test]
fn triangle_vertex_moved_outside_square() {
    // Moving the apex of the contained triangle above the square makes
    // the test fail, and the flags name the offending vertex.
    let square = square_1000();
    let triangle = poly(&[(0, 2000), (-500, -500), (500, -500)]);
    let flags = is_inside(&triangle, &square).unwrap_err();
    assert_eq!(flags, vec![false, true, true]);
}

#[test]
fn nothing() {
    // One vertex inside, two outside, boundary equal to the polygon
    // itself: the walk replaces the outside run with the two boundary
    // crossings next to the inside vertex.
    let t1 = poly(&[(0, 1), (-1, -1), (1, -1)]);
    let flags = vec![false, false, true];
    let out = regularize(&t1, &t1, &flags).unwrap();
    assert_eq!(out.points(), &vec![pt(1, -1), pt(0, 1), pt(1, -1)]);
}

#[test]
fn correctly_builds_triangle() {
    assert_eq!(fan_indices(3), vec![0, 1, 2]);
}

#[test]
fn correctly_builds_square() {
    assert_eq!(fan_indices(4), vec![0, 1, 2, 0, 2, 3]);
}

#[test]
fn fan_indices_pentagon() {
    assert_eq!(fan_indices(5), vec![0, 1, 2, 0, 2, 3, 0, 3, 4]);
}

#[test]
fn from_points_rejects_fewer_than_three() {
    let r = Polygon::from_points(vec![pt(0, 0), pt(1, 1)]);
    assert!(matches!(r, Err(GeomError::PreconditionViolation)));
}

#[test]
fn from_points_rejects_out_of_bounds() {
    let r = Polygon::from_points(vec![pt(0, 0), pt(2_000_000, 0), pt(0, 1)]);
    assert!(matches!(r, Err(GeomError::PreconditionViolation)));
}

#[test]
fn segment_intersection_crossing() {
    let r = segment_intersection(pt(0, 0), pt(2, 2), pt(0, 2), pt(2, 0));
    assert_eq!(r, Some(pt(1, 1)));
}

#[test]
fn segment_intersection_parallel() {
    let r = segment_intersection(pt(0, 0), pt(1, 0), pt(0, 1), pt(1, 1));
    assert_eq!(r, None);
}

#[test]
fn find_intersection_reports_missing_crossing() {
    let square = square_1000();
    let r = find_intersection(pt(5000, 5000), pt(6000, 6000), &square);
    assert!(matches!(r, Err(GeomError::NoIntersectionFound)));
}

#[test]
fn regularize_identity_when_all_inside() {
    let square = square_1000();
    let triangle = poly(&[(0, 500), (-500, -500), (500, -500)]);
    let flags = vec![true, true, true];
    let out = regularize(&triangle, &square, &flags).unwrap();
    assert_eq!(out.points(), triangle.points());
}

#[test]
fn regularize_rejects_no_inside_vertex() {
    let square = square_1000();
    let triangle = poly(&[(5000, 5000), (6000, 5000), (5000, 6000)]);
    let flags = vec![false, false, false];
    let r = regularize(&triangle, &square, &flags);
    assert!(matches!(r, Err(GeomError::PreconditionViolation)));
}

#[test]
fn regularize_clips_spilling_vertex() {
    // The third vertex sticks out past x = 1000; the run around it is
    // replaced by the two crossings of the right boundary edge, the
    // second rounded to the nearest grid unit (-500/3 rounds to -167).
    let square = square_1000();
    let triangle = poly(&[(0, 500), (-500, -500), (1500, -500)]);
    let flags = is_inside(&triangle, &square).unwrap_err();
    assert_eq!(flags, vec![true, true, false]);
    let out = regularize(&triangle, &square, &flags).unwrap();
    assert_eq!(
        out.points(),
        &vec![pt(0, 500), pt(-500, -500), pt(1000, -500), pt(1000, -167)]
    );
}

#[test]
fn alpha_shape_infinite_square_hull() {
    // Four corners and the center: the four center triangles cancel
    // their interior edges and the boundary walk yields the corners in
    // cyclic order.
    let points = vec![
        pt(-1000, -1000),
        pt(1000, -1000),
        pt(1000, 1000),
        pt(-1000, 1000),
        pt(0, 0),
    ];
    let tris = vec![
        Triangle { a: 0, b: 1, c: 4 },
        Triangle { a: 1, b: 2, c: 4 },
        Triangle { a: 2, b: 3, c: 4 },
        Triangle { a: 3, b: 0, c: 4 },
    ];
    let hull = alpha_shape(&points, &tris, Alpha::Infinite).unwrap();
    assert_eq!(
        hull.points(),
        &vec![pt(-1000, -1000), pt(1000, -1000), pt(1000, 1000), pt(-1000, 1000)]
    );
}

#[test]
fn alpha_threshold_keeps_and_drops() {
    // The right triangle with legs of 1000 has circumradius
    // 1000*sqrt(2)/2, about 707.1: alpha 708 keeps it, alpha 707 drops
    // it. The second triangle is far larger and is dropped either way.
    let points = vec![pt(0, 0), pt(1000, 0), pt(0, 1000), pt(10_000, 10_000)];
    let tris = vec![Triangle { a: 0, b: 1, c: 2 }, Triangle { a: 1, b: 3, c: 2 }];
    let kept = alpha_shape(&points, &tris, Alpha::Finite(708)).unwrap();
    assert_eq!(kept.points(), &vec![pt(0, 0), pt(1000, 0), pt(0, 1000)]);
    let dropped = alpha_shape(&points, &tris, Alpha::Finite(707));
    match dropped {
        Err(GeomError::BoundaryTraversalIncomplete(partial)) => assert!(partial.is_empty()),
        other => panic!("expected an incomplete traversal, got {:?}", other),
    }
}

#[test]
fn alpha_shape_rejects_too_few_points() {
    let points = vec![pt(0, 0), pt(1000, 0), pt(0, 1000)];
    let r = alpha_shape(&points, &vec![], Alpha::Infinite);
    assert!(matches!(r, Err(GeomError::PreconditionViolation)));
}

#[test]
fn alpha_shape_rejects_out_of_bounds_site() {
    let points = vec![pt(0, 0), pt(1000, 0), pt(0, 1000), pt(200_000, 0)];
    let r = alpha_shape(&points, &vec![], Alpha::Infinite);
    assert!(matches!(r, Err(GeomError::PreconditionViolation)));
}

#[test]
fn alpha_shape_rejects_negative_alpha() {
    let points = vec![pt(0, 0), pt(1000, 0), pt(0, 1000), pt(1000, 1000)];
    let r = alpha_shape(&points, &vec![], Alpha::Finite(-1));
    assert!(matches!(r, Err(GeomError::PreconditionViolation)));
}

#[test]
fn alpha_shape_rejects_bad_triangle_index() {
    let points = vec![pt(0, 0), pt(1000, 0), pt(0, 1000), pt(1000, 1000)];
    let tris = vec![Triangle { a: 0, b: 1, c: 9 }];
    let r = alpha_shape(&points, &tris, Alpha::Infinite);
    assert!(matches!(r, Err(GeomError::TriangulationFailure)));
}

#[test]
fn inflate_square_about_origin() {
    // Centroid at the origin: scaling by 11/10 moves each corner from
    // 1000 to 1100 exactly.
    let square = square_1000();
    let grown = inflate(&square, 11, 10);
    assert_eq!(
        grown.points(),
        &vec![pt(-1100, -1100), pt(-1100, 1100), pt(1100, 1100), pt(1100, -1100)]
    );
}

#[test]
fn inflate_triangle_off_center() {
    // Centroid (1000, 1000); each vertex moves away from it by a tenth
    // of its distance.
    let t = poly(&[(0, 0), (3000, 0), (0, 3000)]);
    let grown = inflate(&t, 11, 10);
    assert_eq!(
        grown.points(),
        &vec![pt(-100, -100), pt(3200, -100), pt(-100, 3200)]
    );
}

#[test]
fn voronoi_single_site_keeps_full_square() {
    // One site at the origin against a square boundary of half-width 1
    // (1000 units): the single raw cell is the full square and is kept
    // unchanged.
    let points = vec![pt(0, 0)];
    let square = square_1000();
    let cells = generate_voronoi(&points, &vec![], &vec![square.clone()], 11, 10, false).unwrap();
    let kept = cells.iter_cells();
    assert_eq!(kept.len(), 1);
    assert_eq!(kept[0].site, pt(0, 0));
    assert_eq!(kept[0].polygon.points(), square.points());
}

#[test]
fn voronoi_drops_cell_outside_hull() {
    // Four corner sites plus one raw cell per site: the cell around the
    // first corner pokes far outside the inflated hull and is dropped;
    // the small cell near the center is kept.
    let points = vec![pt(-1000, -1000), pt(1000, -1000), pt(1000, 1000), pt(-1000, 1000)];
    let tris = vec![Triangle { a: 0, b: 1, c: 2 }, Triangle { a: 0, b: 2, c: 3 }];
    let far = poly(&[(2000, 2000), (3000, 2000), (2000, 3000)]);
    let small = poly(&[(-100, -100), (100, -100), (100, 100), (-100, 100)]);
    let raw = vec![far.clone(), small.clone(), small.clone(), small.clone()];
    let cells = generate_voronoi(&points, &tris, &raw, 11, 10, false).unwrap();
    let kept = cells.iter_cells();
    assert_eq!(kept.len(), 3);
    for c in kept {
        assert_eq!(c.polygon.points(), small.points());
    }
    assert_eq!(kept[0].site, pt(1000, -1000));
}

#[test]
fn determinism_identical_inputs_identical_outputs() {
    let points = vec![
        pt(-1000, -1000),
        pt(1000, -1000),
        pt(1000, 1000),
        pt(-1000, 1000),
        pt(0, 0),
    ];
    let tris = vec![
        Triangle { a: 0, b: 1, c: 4 },
        Triangle { a: 1, b: 2, c: 4 },
        Triangle { a: 2, b: 3, c: 4 },
        Triangle { a: 3, b: 0, c: 4 },
    ];
    let h1 = alpha_shape(&points, &tris, Alpha::Infinite).unwrap();
    let h2 = alpha_shape(&points, &tris, Alpha::Infinite).unwrap();
    assert_eq!(h1.points(), h2.points());

    let cell = poly(&[(-100, -100), (100, -100), (0, 100)]);
    let raw = vec![cell.clone(), cell.clone(), cell.clone(), cell.clone(), cell.clone()];
    let c1 = generate_voronoi(&points, &tris, &raw, 11, 10, true).unwrap();
    let c2 = generate_voronoi(&points, &tris, &raw, 11, 10, true).unwrap();
    assert_eq!(c1.len(), c2.len());
    for (a, b) in c1.iter_cells().iter().zip(c2.iter_cells().iter()) {
        assert_eq!(a.site, b.site);
        assert_eq!(a.polygon.points(), b.polygon.points());
    }
}

#[test]
fn regularize_wraparound_run() {
    // The outside run spans the wrap-around of the cycle: the walk
    // starts at the first inside vertex and still replaces the run
    // with the two crossings around it.
    let t1 = poly(&[(0, 1), (-1, -1), (1, -1)]);
    let flags = vec![false, true, true];
    let out = regularize(&t1, &t1, &flags).unwrap();
    assert_eq!(
        out.points(),
        &vec![pt(-1, -1), pt(1, -1), pt(0, 1), pt(0, 1)]
    );
}
