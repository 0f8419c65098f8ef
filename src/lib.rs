//! Survey flight planning over a projected plane.
//!
//! Given a search polygon and the polygon's minimum rotated rectangle in a projected
//! reference system, a drone profile and, when available, an elevation grid, the planner
//! lays parallel swath lines across the area and places photo waypoints along them in
//! boustrophedon order, shortening the stride and moving the waypoints where the terrain
//! slopes.
//!
//! All quantities are integers in fixed units: lengths and coordinates in millimetres,
//! stations along a line in quarter millimetres, overlap in basis points, angles in
//! thousandths of a degree, speeds in millimetres per second and times in milliseconds.
//! Projection between geographic and projected coordinates, and the photo footprint's
//! trigonometry, are done by the caller.
pub mod arith;
pub mod elevation;
pub mod footprint;
pub mod geometry;
pub mod metrics;
pub mod orientation;
pub mod passes;
pub mod plan;
pub mod slope;
pub mod sweep;
pub mod waypoint;
