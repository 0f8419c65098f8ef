//! How the local terrain gradient shortens the stride, widens the photo footprint and
//! moves a waypoint.
//!
//! A gradient is given as the elevation differences `(a, b)` across a baseline of `s`
//! millimetres: the slope angle has tangent `|(a, b)| / s`, so its cosine is
//! `s / sqrt(s^2 + a^2 + b^2)`.
use crate::arith::{
    combination, lemma_floor_sqrt_monotone, lemma_root_of_square, lemma_scaled_norm_dominates,
    scaled_combination, scaled_root, scaled_sqrt, ROOT_SCALE,
};
use crate::elevation::{ELEVATION_LIMIT, PIXEL_LIMIT};
use crate::geometry::{within, ProjPoint, COORD_LIMIT, POINT_LIMIT};
use vstd::prelude::*;

verus! {

pub open spec fn slope_radicand(s: int, g: (int, int)) -> int {
    s * s + g.0 * g.0 + g.1 * g.1
}

/// The slope's cosine is below one tenth.
pub open spec fn too_steep(s: int, g: (int, int)) -> bool {
    100 * s * s < slope_radicand(s, g)
}

/// Stride after a placed waypoint, in quarter millimetres: the spacing times the cosine of
/// the slope, the cosine taken as at least one tenth; the full spacing on unknown slope.
pub open spec fn stride_quarters(spacing: int, s: int, g: Option<(int, int)>) -> int {
    match g {
        None => 4 * spacing,
        Some(g) => if too_steep(s, g) {
            4 * spacing / 10
        } else {
            4 * spacing * s * ROOT_SCALE / scaled_sqrt(slope_radicand(s, g))
        },
    }
}

/// Half the side of a photo's ground square: the footprint divided by twice the cosine of
/// the slope, the cosine taken as at least one tenth.
pub open spec fn half_width(footprint: int, s: int, g: Option<(int, int)>) -> int {
    match g {
        None => footprint / 2,
        Some(g) => if too_steep(s, g) {
            footprint * 5
        } else {
            footprint * scaled_sqrt(slope_radicand(s, g)) / (2 * s * ROOT_SCALE)
        },
    }
}

/// The point moved by `alt` millimetres at right angles (counter-clockwise) to the
/// gradient; on a level gradient the direction is north. Unmoved when the gradient is unknown.
pub open spec fn displaced(p: ProjPoint, alt: int, g: Option<(int, int)>) -> ProjPoint {
    match g {
        None => p,
        Some(g) => if g.0 == 0 && g.1 == 0 {
            ProjPoint { x: p.x, y: (p.y + alt) as i64 }
        } else {
            let n = scaled_sqrt(g.0 * g.0 + g.1 * g.1);
            ProjPoint {
                x: (p.x + combination(-alt, 0, g.1, g.0, n)) as i64,
                y: (p.y + combination(alt, 0, g.0, g.1, n)) as i64,
            }
        },
    }
}

pub open spec fn gradient_in_range(g: Option<(i64, i64)>) -> bool {
    g matches Some(v) ==> -2 * ELEVATION_LIMIT <= v.0 <= 2 * ELEVATION_LIMIT && -2
        * ELEVATION_LIMIT <= v.1 <= 2 * ELEVATION_LIMIT
}

pub open spec fn gradient_view(g: Option<(i64, i64)>) -> Option<(int, int)> {
    match g {
        None => None,
        Some(v) => Some((v.0 as int, v.1 as int)),
    }
}

proof fn lemma_radicand_bounds(s: int, a: int, b: int)
    requires
        0 < s <= 4 * PIXEL_LIMIT,
        -2 * ELEVATION_LIMIT <= a <= 2 * ELEVATION_LIMIT,
        -2 * ELEVATION_LIMIT <= b <= 2 * ELEVATION_LIMIT,
    ensures
        s * s <= slope_radicand(s, (a, b)),
        slope_radicand(s, (a, b)) <= 24_000_000_000_000_000_000,
        scaled_sqrt(slope_radicand(s, (a, b))) >= s * ROOT_SCALE,
        slope_radicand(s, (a, b)) * ROOT_SCALE * ROOT_SCALE
            <= 21_267_647_932_558_653_966_460_912_964_485_513_215,
{
    let k = ROOT_SCALE as int;
    let q = slope_radicand(s, (a, b));
    assert(0 <= a * a <= 4_000_000_000_000_000_000 && 0 <= b * b <= 4_000_000_000_000_000_000)
        by (nonlinear_arith)
        requires
            -2 * ELEVATION_LIMIT <= a <= 2 * ELEVATION_LIMIT,
            -2 * ELEVATION_LIMIT <= b <= 2 * ELEVATION_LIMIT,
    ;
    assert(0 < s * s <= 16_000_000_000_000_000_000) by (nonlinear_arith)
        requires
            0 < s <= 4 * PIXEL_LIMIT,
    ;
    assert(q * k * k <= 24_000_000_000_000_000_000 * k * k) by (nonlinear_arith)
        requires
            q <= 24_000_000_000_000_000_000,
            k > 0,
    ;
    assert((s * k) * (s * k) <= q * k * k) by (nonlinear_arith)
        requires
            s * s <= q,
            k > 0,
    ;
    assert(s * k >= 0) by (nonlinear_arith)
        requires
            s > 0,
            k > 0,
    ;
    lemma_root_of_square(s * k);
    lemma_floor_sqrt_monotone((s * k) * (s * k), q * k * k);
}

fn sum_of_squares(a: i64, b: i64) -> (r: u128)
    requires
        -2 * ELEVATION_LIMIT <= a <= 2 * ELEVATION_LIMIT,
        -2 * ELEVATION_LIMIT <= b <= 2 * ELEVATION_LIMIT,
    ensures
        r == a * a + b * b,
        r <= 8_000_000_000_000_000_000,
{
    assert(0 <= a * a <= 4_000_000_000_000_000_000 && 0 <= b * b <= 4_000_000_000_000_000_000)
        by (nonlinear_arith)
        requires
            -2 * ELEVATION_LIMIT <= a <= 2 * ELEVATION_LIMIT,
            -2 * ELEVATION_LIMIT <= b <= 2 * ELEVATION_LIMIT,
    ;
    let aa: i128 = (a as i128) * (a as i128);
    let bb: i128 = (b as i128) * (b as i128);
    (aa as u128) + (bb as u128)
}

/// Stride after a placed waypoint, in quarter millimetres.
pub fn stride_of(spacing: i64, s: i64, g: Option<(i64, i64)>) -> (r: i64)
    requires
        0 < spacing <= COORD_LIMIT,
        0 < s <= 4 * PIXEL_LIMIT,
        gradient_in_range(g),
    ensures
        r == stride_quarters(spacing as int, s as int, gradient_view(g)),
        0 <= r <= 4 * spacing,
{
    match g {
        None => 4 * spacing,
        Some((a, b)) => {
            proof {
                lemma_radicand_bounds(s as int, a as int, b as int);
            }
            let q: u128 = (s as u128) * (s as u128) + sum_of_squares(a, b);
            assert(100 * s * s <= 1_600_000_000_000_000_000_000) by (nonlinear_arith)
                requires
                    0 < s <= 4 * PIXEL_LIMIT,
            ;
            if 100 * (s as u128) * (s as u128) < q {
                4 * spacing / 10
            } else {
                let root = scaled_root(q);
                assert(4 * spacing * s * ROOT_SCALE <= 4 * COORD_LIMIT * (4 * PIXEL_LIMIT) * ROOT_SCALE)
                    by (nonlinear_arith)
                    requires
                        0 < spacing <= COORD_LIMIT,
                        0 < s <= 4 * PIXEL_LIMIT,
                ;
                let num: u128 = 4 * (spacing as u128) * (s as u128) * ROOT_SCALE;
                assert(num <= 4 * COORD_LIMIT * (4 * PIXEL_LIMIT) * ROOT_SCALE) by (nonlinear_arith)
                    requires
                        num == 4 * spacing * s * ROOT_SCALE,
                        0 < spacing <= COORD_LIMIT,
                        0 < s <= 4 * PIXEL_LIMIT,
                ;
                let v = num / root;
                assert(num == 4 * spacing * (s * ROOT_SCALE)) by (nonlinear_arith)
                    requires
                        num == 4 * spacing * s * ROOT_SCALE,
                ;
                assert(v <= 4 * spacing) by (nonlinear_arith)
                    requires
                        v == num / root,
                        num == 4 * spacing * (s * ROOT_SCALE),
                        root >= s * ROOT_SCALE,
                        s * ROOT_SCALE > 0,
                        spacing > 0,
                ;
                v as i64
            }
        },
    }
}

/// Half the side of a photo's ground square, in millimetres.
pub fn half_width_of(footprint: i64, s: i64, g: Option<(i64, i64)>) -> (r: i64)
    requires
        0 < footprint <= COORD_LIMIT,
        0 < s <= 4 * PIXEL_LIMIT,
        gradient_in_range(g),
    ensures
        r == half_width(footprint as int, s as int, gradient_view(g)),
        0 <= r <= 5 * footprint,
{
    match g {
        None => footprint / 2,
        Some((a, b)) => {
            proof {
                lemma_radicand_bounds(s as int, a as int, b as int);
            }
            let q: u128 = (s as u128) * (s as u128) + sum_of_squares(a, b);
            assert(100 * s * s <= 1_600_000_000_000_000_000_000) by (nonlinear_arith)
                requires
                    0 < s <= 4 * PIXEL_LIMIT,
            ;
            if 100 * (s as u128) * (s as u128) < q {
                footprint * 5
            } else {
                let root = scaled_root(q);
                proof {
                    let k = ROOT_SCALE as int;
                    let t = 10 * s * k;
                    assert(q * k * k <= t * t) by (nonlinear_arith)
                        requires
                            q <= 100 * s * s,
                            t == 10 * s * k,
                            k > 0,
                    ;
                    assert(t >= 0) by (nonlinear_arith)
                        requires
                            t == 10 * s * k,
                            s > 0,
                            k > 0,
                    ;
                    lemma_root_of_square(t);
                    lemma_floor_sqrt_monotone(q * k * k, t * t);
                }
                let den: u128 = 2 * (s as u128) * ROOT_SCALE;
                assert(footprint * root <= COORD_LIMIT * (10 * (4 * PIXEL_LIMIT) * ROOT_SCALE))
                    by (nonlinear_arith)
                    requires
                        0 < footprint <= COORD_LIMIT,
                        0 <= root <= 10 * s * ROOT_SCALE,
                        0 < s <= 4 * PIXEL_LIMIT,
                ;
                let num: u128 = (footprint as u128) * root;
                assert(num <= footprint * (10 * s * ROOT_SCALE)) by (nonlinear_arith)
                    requires
                        num == footprint * root,
                        root <= 10 * s * ROOT_SCALE,
                        footprint > 0,
                ;
                let v = num / den;
                assert(v <= 5 * footprint) by (nonlinear_arith)
                    requires
                        v == num / den,
                        den == 2 * s * ROOT_SCALE,
                        num <= footprint * (10 * s * ROOT_SCALE),
                        s * ROOT_SCALE > 0,
                        footprint > 0,
                ;
                v as i64
            }
        },
    }
}

/// The waypoint moved sideways to the gradient by `alt` millimetres.
pub fn displace(p: ProjPoint, alt: i64, g: Option<(i64, i64)>) -> (r: ProjPoint)
    requires
        -POINT_LIMIT <= p.x <= POINT_LIMIT,
        -POINT_LIMIT <= p.y <= POINT_LIMIT,
        0 <= alt <= COORD_LIMIT,
        gradient_in_range(g),
    ensures
        r == displaced(p, alt as int, gradient_view(g)),
        within(r, POINT_LIMIT + COORD_LIMIT),
{
    match g {
        None => p,
        Some((a, b)) => {
            if a == 0 && b == 0 {
                ProjPoint { x: p.x, y: p.y + alt }
            } else {
                let q: u128 = sum_of_squares(a, b);
                proof {
                    lemma_scaled_norm_dominates(a as int, b as int);
                }
                let n = scaled_root(q);
                let sx = scaled_combination(-(alt as i128), 0, b as i128, a as i128, n as i128);
                let sy = scaled_combination(alt as i128, 0, a as i128, b as i128, n as i128);
                ProjPoint { x: p.x + sx, y: p.y + sy }
            }
        },
    }
}

} // verus!
