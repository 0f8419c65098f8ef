//! Points of the projected plane, polygon rings, their area and point membership.
use geo::CoordinatePosition;
use vstd::prelude::*;

verus! {

/// Largest magnitude, in millimetres, of an input coordinate or length.
pub const COORD_LIMIT: i64 = 1_000_000_000_000;

/// Largest magnitude of a coordinate handed to the membership test.
pub const TEST_LIMIT: i64 = 1_152_921_504_606_846_976;

/// Largest magnitude of a point visited by the sweep.
pub const POINT_LIMIT: i64 = 100_000_000_000_000;

/// Largest number of vertices of a polygon ring.
pub const MAX_VERTICES: usize = 1_000_000;

/// A point of the projected plane, in millimetres east (`x`) and north (`y`).
#[derive(Clone, Copy, Debug, PartialEq, Eq)]
pub struct ProjPoint {
    pub x: i64,
    pub y: i64,
}

pub open spec fn within(p: ProjPoint, limit: int) -> bool {
    -limit <= p.x <= limit && -limit <= p.y <= limit
}

pub open spec fn ring_within(ring: Seq<ProjPoint>, limit: int) -> bool {
    forall|i: int| 0 <= i < ring.len() ==> within(#[trigger] ring[i], limit)
}

/// A ring as plain coordinate pairs.
pub open spec fn ring_pairs(ring: Seq<ProjPoint>) -> Seq<(int, int)> {
    ring.map_values(|p: ProjPoint| (p.x as int, p.y as int))
}

/// Whether the closed ring through `ring` holds the point `(x, y)` inside or on its boundary.
pub uninterp spec fn ring_covers(ring: Seq<(int, int)>, x: int, y: int) -> bool;

/// Relies on geo's `CoordinatePosition::coordinate_position` for a `Polygon<i128>` made by
/// `Polygon::new`, which closes the ring: the point is inside the ring or on its boundary.
/// The bound keeps geo's integer orientation test within `i128`.
#[verifier::external_body]
pub(crate) fn covers(ring: &Vec<ProjPoint>, p: ProjPoint) -> (r: bool)
    requires
        ring_within(ring@, TEST_LIMIT as int),
        within(p, TEST_LIMIT as int),
    ensures
        r == ring_covers(ring_pairs(ring@), p.x as int, p.y as int),
{
    let coords: Vec<geo::Coord<i128>> = ring.iter().map(|q| geo::Coord { x: q.x as i128, y: q.y as i128 }).collect();
    let polygon = geo::Polygon::new(geo::LineString::new(coords), vec![]);
    match polygon.coordinate_position(&geo::Coord { x: p.x as i128, y: p.y as i128 }) {
        geo::coordinate_position::CoordPos::Inside => true,
        geo::coordinate_position::CoordPos::OnBoundary => true,
        geo::coordinate_position::CoordPos::Outside => false,
    }
}

pub open spec fn cross(a: ProjPoint, b: ProjPoint) -> int {
    a.x * b.y - b.x * a.y
}

/// Sum of the cross products of the first `n` edges of the ring closed back to its start.
pub open spec fn shoelace(ring: Seq<ProjPoint>, n: int) -> int
    decreases n,
{
    if n <= 0 || ring.len() == 0 {
        0
    } else {
        shoelace(ring, n - 1) + cross(ring[n - 1], ring[n % (ring.len() as int)])
    }
}

/// Twice the signed area enclosed by the ring (positive when counter-clockwise).
pub open spec fn twice_signed_area(ring: Seq<ProjPoint>) -> int {
    shoelace(ring, ring.len() as int)
}

/// Unsigned area enclosed by the ring, in square millimetres, rounded down.
pub open spec fn ring_area(ring: Seq<ProjPoint>) -> int {
    if twice_signed_area(ring) >= 0 {
        twice_signed_area(ring) / 2
    } else {
        -twice_signed_area(ring) / 2
    }
}

proof fn lemma_cross_bound(a: ProjPoint, b: ProjPoint)
    requires
        within(a, COORD_LIMIT as int),
        within(b, COORD_LIMIT as int),
    ensures
        -1_000_000_000_000_000_000_000_000 <= a.x * b.y <= 1_000_000_000_000_000_000_000_000,
        -1_000_000_000_000_000_000_000_000 <= b.x * a.y <= 1_000_000_000_000_000_000_000_000,
        -2_000_000_000_000_000_000_000_000 <= cross(a, b) <= 2_000_000_000_000_000_000_000_000,
{
    let l = COORD_LIMIT as int;
    assert(-l * l <= a.x * b.y <= l * l) by (nonlinear_arith)
        requires
            -l <= a.x <= l,
            -l <= b.y <= l,
            l > 0,
    ;
    assert(-l * l <= b.x * a.y <= l * l) by (nonlinear_arith)
        requires
            -l <= b.x <= l,
            -l <= a.y <= l,
            l > 0,
    ;
}

/// Twice the signed area of the ring, by the shoelace formula.
pub fn twice_area(ring: &Vec<ProjPoint>) -> (r: i128)
    requires
        ring.len() <= MAX_VERTICES,
        ring_within(ring@, COORD_LIMIT as int),
    ensures
        r == twice_signed_area(ring@),
        -2_000_000_000_000_000_000_000_000_000_000 <= r <= 2_000_000_000_000_000_000_000_000_000_000,
{
    let n = ring.len();
    let mut sum: i128 = 0;
    let mut i: usize = 0;
    while i < n
        invariant
            n == ring.len(),
            n <= MAX_VERTICES,
            ring_within(ring@, COORD_LIMIT as int),
            0 <= i <= n,
            sum == shoelace(ring@, i as int),
            -2_000_000_000_000_000_000_000_000 * i <= sum <= 2_000_000_000_000_000_000_000_000 * i,
        decreases n - i,
    {
        let a = ring[i];
        let b = ring[(i + 1) % n];
        proof {
            assert(within(ring@[i as int], COORD_LIMIT as int));
            assert(within(ring@[(i as int + 1) % (n as int)], COORD_LIMIT as int));
            lemma_cross_bound(a, b);
            assert(2_000_000_000_000_000_000_000_000 * i <= 2_000_000_000_000_000_000_000_000 * MAX_VERTICES)
                by (nonlinear_arith)
                requires
                    i < MAX_VERTICES,
            ;
        }
        sum = sum + ((a.x as i128) * (b.y as i128) - (b.x as i128) * (a.y as i128));
        i = i + 1;
    }
    assert(2_000_000_000_000_000_000_000_000 * n <= 2_000_000_000_000_000_000_000_000 * MAX_VERTICES)
        by (nonlinear_arith)
        requires
            n <= MAX_VERTICES,
    ;
    sum
}

} // verus!
