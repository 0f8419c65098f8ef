//! Drone profile, request errors, and the spacing between swath lines.
use vstd::prelude::*;

verus! {

/// Overlap is given in basis points: hundredths of a percent.
pub const FULL_OVERLAP: u64 = 10_000;

/// Camera and flight profile of the drone.
#[derive(Clone, Debug)]
pub struct Drone {
    pub model: String,
    /// Field of view, in thousandths of a degree.
    pub fov_millideg: u64,
    /// Flying height above ground, in millimetres.
    pub altitude_mm: u64,
    /// Forward and side overlap of photos, in basis points (`7000` is 70 %).
    pub overlap_bp: u64,
    /// Cruise speed, in millimetres per second.
    pub speed_mm_per_s: u64,
}

/// Why a planning request cannot produce a plan.
#[derive(Clone, Copy, Debug, PartialEq, Eq)]
pub enum PlanError {
    /// Overlap of 100 % or more leaves no room between swath lines.
    OverlapTooHigh,
    /// The photo footprint, or the swath spacing derived from it, is not positive.
    NonPositiveSpacing,
    /// A length or coordinate lies outside the range the planner computes with.
    OutOfRange,
    /// The search polygon encloses no area, or has too many vertices.
    DegeneratePolygon,
    /// The bounding rectangle has no edge of positive length.
    DegenerateRectangle,
    /// The cruise speed is zero.
    ZeroSpeed,
}

/// `footprint * (1 - overlap / 100 %)`, rounded down to whole millimetres.
pub open spec fn spacing_of(footprint: int, overlap_bp: int) -> int {
    footprint * (FULL_OVERLAP - overlap_bp) / (FULL_OVERLAP as int)
}

/// Distance between neighbouring swath lines, from the ground footprint of one photo
/// and the overlap between photos.
pub fn swath_spacing(footprint_mm: u64, overlap_bp: u64) -> (r: Result<u64, PlanError>)
    ensures
        overlap_bp >= FULL_OVERLAP ==> r == Err::<u64, PlanError>(PlanError::OverlapTooHigh),
        overlap_bp < FULL_OVERLAP && footprint_mm > crate::geometry::COORD_LIMIT ==> r == Err::<
            u64,
            PlanError,
        >(PlanError::OutOfRange),
        overlap_bp < FULL_OVERLAP && footprint_mm <= crate::geometry::COORD_LIMIT
            && spacing_of(footprint_mm as int, overlap_bp as int) == 0 ==> r == Err::<
            u64,
            PlanError,
        >(PlanError::NonPositiveSpacing),
        overlap_bp < FULL_OVERLAP && footprint_mm <= crate::geometry::COORD_LIMIT
            && spacing_of(footprint_mm as int, overlap_bp as int) > 0 ==> r == Ok::<u64, PlanError>(
            spacing_of(footprint_mm as int, overlap_bp as int) as u64,
        ),
        r is Ok ==> 0 < r->Ok_0 <= footprint_mm,
        r is Ok ==> r->Ok_0 == spacing_of(footprint_mm as int, overlap_bp as int),
{
    if overlap_bp >= FULL_OVERLAP {
        return Err(PlanError::OverlapTooHigh);
    }
    if footprint_mm > crate::geometry::COORD_LIMIT as u64 {
        return Err(PlanError::OutOfRange);
    }
    let keep: u64 = FULL_OVERLAP - overlap_bp;
    assert(footprint_mm * keep <= 1_000_000_000_000 * 10_000) by (nonlinear_arith)
        requires
            footprint_mm <= 1_000_000_000_000,
            keep <= 10_000,
    ;
    let spacing: u64 = footprint_mm * keep / FULL_OVERLAP;
    assert(spacing <= footprint_mm) by (nonlinear_arith)
        requires
            spacing == footprint_mm * keep / 10_000,
            keep <= 10_000,
    ;
    if spacing == 0 {
        Err(PlanError::NonPositiveSpacing)
    } else {
        Ok(spacing)
    }
}

/// Every overlap below 100 % gives a positive spacing no wider than the footprint, once the
/// footprint is wide enough for the remaining share to reach a whole millimetre; an overlap of
/// 100 % or more is refused.
pub proof fn lemma_spacing_positive(footprint_mm: u64, overlap_bp: u64)
    requires
        footprint_mm <= crate::geometry::COORD_LIMIT,
        footprint_mm * (FULL_OVERLAP - overlap_bp) >= FULL_OVERLAP || overlap_bp >= FULL_OVERLAP,
    ensures
        overlap_bp < FULL_OVERLAP ==> 0 < spacing_of(footprint_mm as int, overlap_bp as int)
            <= footprint_mm,
{
    if overlap_bp < FULL_OVERLAP {
        let k = FULL_OVERLAP - overlap_bp;
        assert(0 < footprint_mm * k / 10_000 <= footprint_mm) by (nonlinear_arith)
            requires
                footprint_mm * k >= 10_000,
                0 < k <= 10_000,
        ;
    }
}

} // verus!
