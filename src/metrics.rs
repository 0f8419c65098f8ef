//! Derived figures of a plan: the surveyed area and the time the flight takes.
use crate::arith::{floor_root, floor_sqrt};
use crate::geometry::{ring_area, ring_within, twice_area, within, ProjPoint, COORD_LIMIT, MAX_VERTICES};
use crate::waypoint::{Waypoint, POSITION_LIMIT};
use vstd::prelude::*;

verus! {

/// Length of the straight leg from `a` to `b`, in whole millimetres.
pub open spec fn leg_length(a: ProjPoint, b: ProjPoint) -> int {
    floor_sqrt((b.x - a.x) * (b.x - a.x) + (b.y - a.y) * (b.y - a.y))
}

/// Length of the flight through the waypoints in order.
pub open spec fn path_length(ws: Seq<Waypoint>) -> int
    decreases ws.len(),
{
    if ws.len() < 2 {
        0
    } else {
        path_length(ws.drop_last()) + leg_length(ws[ws.len() - 2].position, ws.last().position)
    }
}

/// Flight time in milliseconds at `speed` millimetres per second; none below two waypoints.
pub open spec fn flight_time_ms(ws: Seq<Waypoint>, speed: int) -> int {
    if ws.len() < 2 {
        0
    } else {
        path_length(ws) * 1000 / speed
    }
}

/// Area enclosed by the search polygon, in square millimetres.
pub fn calculate_search_area(polygon: &Vec<ProjPoint>) -> (r: u128)
    requires
        polygon.len() <= MAX_VERTICES,
        ring_within(polygon@, COORD_LIMIT as int),
    ensures
        r == ring_area(polygon@),
{
    let t = twice_area(polygon);
    if t >= 0 {
        (t / 2) as u128
    } else {
        ((-t) / 2) as u128
    }
}

/// Estimated flight time through the waypoints, in milliseconds.
pub fn calculate_flight_time(waypoints: &Vec<Waypoint>, speed_mm_per_s: u64) -> (r: u128)
    requires
        speed_mm_per_s > 0,
        forall|t: int|
            0 <= t < waypoints.len() ==> within(#[trigger] waypoints[t].position, POSITION_LIMIT as int),
    ensures
        r == flight_time_ms(waypoints@, speed_mm_per_s as int),
{
    let n = waypoints.len();
    if n < 2 {
        return 0;
    }
    let mut total: u128 = 0;
    let mut i: usize = 1;
    proof {
        assert(waypoints@.take(1).len() == 1);
    }
    while i < n
        invariant
            n == waypoints.len(),
            1 <= i <= n,
            forall|t: int|
                0 <= t < waypoints.len() ==> within(#[trigger] waypoints[t].position, POSITION_LIMIT as int),
            total == path_length(waypoints@.take(i as int)),
            total <= 3_000_000_000_000_000 * i,
        decreases n - i,
    {
        let a = waypoints[i - 1].position;
        let b = waypoints[i].position;
        proof {
            assert(within(waypoints[i - 1].position, POSITION_LIMIT as int));
            assert(within(waypoints[i as int].position, POSITION_LIMIT as int));
        }
        let ex: i128 = b.x as i128 - a.x as i128;
        let ey: i128 = b.y as i128 - a.y as i128;
        assert(0 <= ex * ex <= 4_000_000_000_000_000_000_000_000_000_000 && 0 <= ey * ey
            <= 4_000_000_000_000_000_000_000_000_000_000) by (nonlinear_arith)
            requires
                -2_000_000_000_000_000 <= ex <= 2_000_000_000_000_000,
                -2_000_000_000_000_000 <= ey <= 2_000_000_000_000_000,
        ;
        let leg = floor_root((ex * ex + ey * ey) as u128);
        proof {
            crate::arith::lemma_floor_sqrt_exists((ex * ex + ey * ey) as int);
            let l = leg as int;
            assert(l <= 3_000_000_000_000_000) by (nonlinear_arith)
                requires
                    l * l <= 8_000_000_000_000_000_000_000_000_000_000,
                    l >= 0,
            ;
            let s = waypoints@.take(i as int + 1);
            assert(s.drop_last() =~= waypoints@.take(i as int));
            assert(s[s.len() - 2] == waypoints@[i - 1]);
            assert(s.last() == waypoints@[i as int]);
            assert(3_000_000_000_000_000 * i <= 3_000_000_000_000_000 * usize::MAX) by (nonlinear_arith)
                requires
                    i <= usize::MAX,
            ;
        }
        total = total + leg;
        i = i + 1;
    }
    assert(waypoints@.take(n as int) =~= waypoints@);
    total * 1000 / (speed_mm_per_s as u128)
}

} // verus!
