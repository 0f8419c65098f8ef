//! Waypoints as the sweep produces them, in projected coordinates.
use crate::geometry::ProjPoint;
use vstd::prelude::*;

verus! {

/// Largest magnitude of a waypoint coordinate, in millimetres.
pub const POSITION_LIMIT: i64 = 1_000_000_000_000_000;

/// The ground square one photo covers: four corners, the first repeated to close the
/// ring, and the point straight below the camera.
#[derive(Clone, Copy, Debug, PartialEq, Eq)]
pub struct CoverageRect {
    pub coords: [ProjPoint; 5],
    pub center: ProjPoint,
}

/// One stop of the flight.
#[derive(Clone, Copy, Debug, PartialEq, Eq)]
pub struct Waypoint {
    pub coverage_rect: CoverageRect,
    /// Where the drone stops, in the projected plane.
    pub position: ProjPoint,
    /// Camera pitch, in thousandths of a degree.
    pub bearing_millideg: i64,
    /// Flying height above ground, in millimetres.
    pub altitude_mm: u64,
    /// Index of the swath line, counted from the middle line.
    pub line: i64,
    /// Place along the swath line, from its middle, in quarter millimetres in the sweep
    /// direction.
    pub station: i64,
}

} // verus!
