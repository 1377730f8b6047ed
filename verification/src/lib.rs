//! Planar geometry engine for procedural level generation.
//!
//! The engine derives bounded polygonal regions from a set of 2D sites:
//! it extracts a tight boundary polygon around a point cloud (an alpha
//! shape), filters the per-site cells of a Voronoi partition against an
//! inflated containment hull, and reconciles cells that spill outside a
//! target boundary (containment testing and regularization).
//!
//! Coordinates are fixed-point: every coordinate is an `i64` number of
//! grid units, and the caller picks what one unit means. All geometric
//! predicates are evaluated exactly in integer arithmetic, so there are
//! no epsilon tolerances anywhere in the engine. Operations that produce
//! points off the grid (segment intersection, hull inflation) round each
//! coordinate to the nearest grid unit.
//!
//! Delaunay triangulation and the raw (unfiltered) Voronoi cells are
//! consumed as inputs: an external triangulator produces a triangle list
//! over the sites, and an external diagram builder produces one raw cell
//! per site. Everything after that point is verified.

pub mod geom;
pub mod polygon;
pub mod segment;
pub mod inside;
pub mod alpha;
pub mod clip;
pub mod voronoi;
pub mod mesh;
pub mod laws;
