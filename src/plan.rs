//! The planning request: checks on the inputs, the choice between the terrain sweep and
//! the fixed-resolution sweep, and the assembled result.
use crate::elevation::ElevationGrid;
use crate::footprint::{spacing_of, swath_spacing, Drone, PlanError, FULL_OVERLAP};
use crate::geometry::{
    ring_area, ring_within, twice_area, twice_signed_area, ProjPoint, COORD_LIMIT, MAX_VERTICES,
};
use crate::metrics::{calculate_flight_time, calculate_search_area, flight_time_ms};
use crate::orientation::{is_first_longest, longest_edge};
use crate::passes::{alternating, serpentine};
use crate::sweep::{
    fixed_lines, fixed_sweep, frame_spec, sweep_frame, terrain_lines, terrain_sweep,
    truncated_lines, SweepFrame,
};
use crate::waypoint::Waypoint;
use vstd::prelude::*;

verus! {

/// A finished plan.
#[derive(Clone, Debug)]
pub struct FlightPlanResult {
    /// Waypoints in flight order.
    pub waypoints: Vec<Waypoint>,
    /// Area of the search polygon, in square millimetres.
    pub search_area_mm2: u128,
    /// Estimated flight time, in milliseconds.
    pub est_flight_time_ms: u128,
    /// Swath lines cut short because they reached the candidate cap.
    pub truncated_lines: u64,
}

/// The first reason, in the order checked, why a request cannot be planned.
pub open spec fn request_error(
    polygon: Seq<ProjPoint>,
    mbr: Seq<ProjPoint>,
    drone: Drone,
    footprint_mm: int,
) -> Option<PlanError> {
    if drone.overlap_bp >= FULL_OVERLAP {
        Some(PlanError::OverlapTooHigh)
    } else if footprint_mm > COORD_LIMIT || drone.altitude_mm > COORD_LIMIT {
        Some(PlanError::OutOfRange)
    } else if spacing_of(footprint_mm, drone.overlap_bp as int) == 0 {
        Some(PlanError::NonPositiveSpacing)
    } else if drone.speed_mm_per_s == 0 {
        Some(PlanError::ZeroSpeed)
    } else if polygon.len() > MAX_VERTICES || !ring_within(polygon, COORD_LIMIT as int)
        || !ring_within(mbr, COORD_LIMIT as int) {
        Some(PlanError::OutOfRange)
    } else if twice_signed_area(polygon) == 0 {
        Some(PlanError::DegeneratePolygon)
    } else if !(exists|k: int| is_first_longest(mbr, k)) {
        Some(PlanError::DegenerateRectangle)
    } else {
        None
    }
}

/// The sweep frame of a valid request.
pub open spec fn request_frame(mbr: Seq<ProjPoint>, drone: Drone, footprint_mm: int) -> SweepFrame {
    frame_spec(
        mbr,
        choose|k: int| is_first_longest(mbr, k),
        spacing_of(footprint_mm, drone.overlap_bp as int),
    )
}

/// Whether elevation data is at hand for the whole request.
pub open spec fn usable(terrain: Option<&ElevationGrid>) -> bool {
    match terrain {
        Some(g) => g.wf(),
        None => false,
    }
}

fn ring_in_range(ring: &Vec<ProjPoint>) -> (r: bool)
    ensures
        r == ring_within(ring@, COORD_LIMIT as int),
{
    let mut i: usize = 0;
    while i < ring.len()
        invariant
            0 <= i <= ring.len(),
            ring_within(ring@.take(i as int), COORD_LIMIT as int),
        decreases ring.len() - i,
    {
        let p = ring[i];
        if p.x < -COORD_LIMIT || p.x > COORD_LIMIT || p.y < -COORD_LIMIT || p.y > COORD_LIMIT {
            assert(!crate::geometry::within(ring@[i as int], COORD_LIMIT as int));
            return false;
        }
        proof {
            assert forall|t: int| 0 <= t < i + 1 implies crate::geometry::within(
                #[trigger] ring@.take(i as int + 1)[t],
                COORD_LIMIT as int,
            ) by {
                if t < i {
                    assert(ring@.take(i as int + 1)[t] == ring@.take(i as int)[t]);
                }
            }
        }
        i = i + 1;
    }
    assert(ring@.take(ring.len() as int) =~= ring@);
    true
}

/// Plans the survey of `polygon` (a ring in the projected plane) with the drone, given the
/// polygon's minimum rotated rectangle `mbr` as a closed ring and the ground footprint of
/// one photo. With a usable elevation grid the whole request takes the terrain sweep,
/// otherwise the whole request takes the fixed-resolution sweep.
pub fn generate_flightpath(
    polygon: &Vec<ProjPoint>,
    mbr: &Vec<ProjPoint>,
    drone: &Drone,
    footprint_mm: u64,
    terrain: Option<&ElevationGrid>,
) -> (r: Result<FlightPlanResult, PlanError>)
    ensures
        request_error(polygon@, mbr@, *drone, footprint_mm as int) matches Some(e) ==> r == Err::<
            FlightPlanResult,
            PlanError,
        >(e),
        request_error(polygon@, mbr@, *drone, footprint_mm as int) is None ==> r is Ok,
        r matches Ok(plan) ==> {
            let f = request_frame(mbr@, *drone, footprint_mm as int);
            let fp = footprint_mm as int;
            let alt = drone.altitude_mm as int;
            &&& plan.search_area_mm2 == ring_area(polygon@)
            &&& plan.est_flight_time_ms == flight_time_ms(
                plan.waypoints@,
                drone.speed_mm_per_s as int,
            )
            &&& terrain matches Some(g) ==> g.wf() ==> {
                &&& plan.waypoints@ == serpentine(terrain_lines(polygon@, f, fp, alt, *g))
                &&& alternating(terrain_lines(polygon@, f, fp, alt, *g))
                &&& plan.truncated_lines == truncated_lines(
                    polygon@,
                    f,
                    fp,
                    alt,
                    *g,
                    2 * f.half_lines + 1,
                )
            }
            &&& !usable(terrain) ==> {
                &&& plan.waypoints@ == serpentine(fixed_lines(polygon@, f, fp, alt))
                &&& alternating(fixed_lines(polygon@, f, fp, alt))
                &&& plan.truncated_lines == 0
            }
        },
{
    if drone.overlap_bp >= FULL_OVERLAP {
        return Err(PlanError::OverlapTooHigh);
    }
    if footprint_mm > COORD_LIMIT as u64 || drone.altitude_mm > COORD_LIMIT as u64 {
        return Err(PlanError::OutOfRange);
    }
    let spacing = match swath_spacing(footprint_mm, drone.overlap_bp) {
        Ok(s) => s,
        Err(e) => {
            return Err(e);
        },
    };
    if drone.speed_mm_per_s == 0 {
        return Err(PlanError::ZeroSpeed);
    }
    if polygon.len() > MAX_VERTICES || !ring_in_range(polygon) || !ring_in_range(mbr) {
        return Err(PlanError::OutOfRange);
    }
    if twice_area(polygon) == 0 {
        return Err(PlanError::DegeneratePolygon);
    }
    let k = match longest_edge(mbr) {
        Ok(k) => k,
        Err(e) => {
            proof {
                assert forall|j: int| !is_first_longest(mbr@, j) by {
                    if is_first_longest(mbr@, j) {
                        assert(crate::orientation::edge_sq(mbr@, j) == 0);
                    }
                }
            }
            return Err(e);
        },
    };
    proof {
        let c = choose|j: int| is_first_longest(mbr@, j);
        assert(is_first_longest(mbr@, c));
        if c < k {
            assert(crate::orientation::edge_sq(mbr@, c) < crate::orientation::edge_sq(mbr@, k as int));
        } else if c > k {
            assert(crate::orientation::edge_sq(mbr@, k as int) < crate::orientation::edge_sq(mbr@, c));
        }
        assert(c == k);
    }
    let frame = sweep_frame(mbr, k, spacing as i64);
    let footprint = footprint_mm as i64;
    let alt = drone.altitude_mm as i64;
    let (waypoints, cut) = match terrain {
        Some(grid) => {
            if grid.is_usable() {
                terrain_sweep(polygon, &frame, footprint, alt, grid)
            } else {
                (fixed_sweep(polygon, &frame, footprint, alt), 0)
            }
        },
        None => (fixed_sweep(polygon, &frame, footprint, alt), 0),
    };
    proof {
        assert(frame == request_frame(mbr@, *drone, footprint_mm as int));
    }
    let search_area_mm2 = calculate_search_area(polygon);
    let est_flight_time_ms = calculate_flight_time(&waypoints, drone.speed_mm_per_s);
    Ok(FlightPlanResult { waypoints, search_area_mm2, est_flight_time_ms, truncated_lines: cut })
}

} // verus!
