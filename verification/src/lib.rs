//! Incremental Delaunay triangulation of points with integer coordinates by
//! the Bowyer-Watson algorithm, built as an engine that a caller advances one
//! unit of work at a time.
//!
//! All geometry is exact: a circumcircle is held as a rational centre and a
//! point on the circle, and the test whether a point lies inside one is
//! decided in integer arithmetic.

pub mod cavity;
pub mod circle;
pub mod delauney_triangulation;
pub mod internal_state;
pub mod math;
pub mod mesh;
pub mod properties;
