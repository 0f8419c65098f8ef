//! Integer helpers for the fixed-point geometry: floor division and square roots.
use vstd::prelude::*;

verus! {

/// Scale factor applied before taking a square root, so that a root of a small
/// quantity keeps about six decimal digits of precision.
pub const ROOT_SCALE: u128 = 1_048_576;

/// Largest radicand accepted by `floor_root`.
pub const ROOT_INPUT_LIMIT: u128 = 21_267_647_932_558_653_966_460_912_964_485_513_215;

/// `r` is the floor of the square root of `q`.
pub open spec fn is_floor_root(r: int, q: int) -> bool {
    0 <= r && r * r <= q && q < (r + 1) * (r + 1)
}

/// The floor of the square root of a non-negative integer.
pub open spec fn floor_sqrt(q: int) -> int {
    choose|r: int| is_floor_root(r, q)
}

/// The floor of `ROOT_SCALE * sqrt(q)`.
pub open spec fn scaled_sqrt(q: int) -> int {
    floor_sqrt(q * ROOT_SCALE * ROOT_SCALE)
}

/// Floor of `a / b` for a positive divisor, on mathematical integers.
pub open spec fn div_floor(a: int, b: int) -> int {
    a / b
}

pub proof fn lemma_floor_root_unique(r: int, s: int, q: int)
    requires
        is_floor_root(r, q),
        is_floor_root(s, q),
    ensures
        r == s,
{
    if r < s {
        assert((r + 1) * (r + 1) <= s * s) by (nonlinear_arith)
            requires
                0 <= r,
                r + 1 <= s,
        ;
    } else if s < r {
        assert((s + 1) * (s + 1) <= r * r) by (nonlinear_arith)
            requires
                0 <= s,
                s + 1 <= r,
        ;
    }
}

pub proof fn lemma_floor_sqrt_is_root(r: int, q: int)
    requires
        is_floor_root(r, q),
    ensures
        floor_sqrt(q) == r,
{
    assert(is_floor_root(floor_sqrt(q), q));
    lemma_floor_root_unique(floor_sqrt(q), r, q);
}

/// The floor square root of a square is its base.
pub proof fn lemma_root_of_square(s: int)
    requires
        s >= 0,
    ensures
        floor_sqrt(s * s) == s,
{
    assert((s + 1) * (s + 1) == s * s + 2 * s + 1) by (nonlinear_arith);
    lemma_floor_sqrt_is_root(s, s * s);
}

/// Floor of the square root, by bisection.
pub fn floor_root(q: u128) -> (r: u128)
    requires
        q <= ROOT_INPUT_LIMIT,
    ensures
        r == floor_sqrt(q as int),
        r < 0x4000_0000_0000_0000,
{
    let mut lo: u128 = 0;
    let mut hi: u128 = 0x4000_0000_0000_0000;
    assert(hi * hi == 0x1000_0000_0000_0000_0000_0000_0000_0000);
    while hi - lo > 1
        invariant
            lo < hi <= 0x4000_0000_0000_0000,
            lo * lo <= q,
            q < hi * hi,
        decreases hi - lo,
    {
        let mid: u128 = lo + (hi - lo) / 2;
        assert(mid * mid <= 0x1000_0000_0000_0000_0000_0000_0000_0000) by (nonlinear_arith)
            requires
                mid < 0x4000_0000_0000_0000,
        ;
        if mid * mid <= q {
            lo = mid;
        } else {
            hi = mid;
        }
    }
    assert(hi == lo + 1);
    proof {
        lemma_floor_sqrt_is_root(lo as int, q as int);
    }
    lo
}

/// `floor(ROOT_SCALE * sqrt(q))`.
pub fn scaled_root(q: u128) -> (r: u128)
    requires
        q * ROOT_SCALE * ROOT_SCALE <= ROOT_INPUT_LIMIT,
    ensures
        r == scaled_sqrt(q as int),
        r < 0x4000_0000_0000_0000,
{
    floor_root(q * ROOT_SCALE * ROOT_SCALE)
}

/// Floor division by a positive divisor.
pub fn floor_div(a: i128, b: i128) -> (r: i128)
    requires
        b > 0,
    ensures
        r == div_floor(a as int, b as int),
{
    if a >= 0 {
        a / b
    } else {
        let n: i128 = -(a + 1);
        let q: i128 = n / b;
        proof {
            let r = n % b;
            vstd::arithmetic::div_mod::lemma_fundamental_div_mod(n as int, b as int);
            assert(a == (-q - 1) * b + (b - r - 1)) by (nonlinear_arith)
                requires
                    n == b * q + r,
                    n == -(a + 1),
            ;
            vstd::arithmetic::div_mod::lemma_fundamental_div_mod_converse(
                a as int,
                b as int,
                -q - 1,
                b - r - 1,
            );
        }
        -q - 1
    }
}

/// Every non-negative integer has a floor square root.
pub proof fn lemma_floor_sqrt_exists(q: int)
    requires
        q >= 0,
    ensures
        is_floor_root(floor_sqrt(q), q),
    decreases q,
{
    if q == 0 {
        assert(is_floor_root(0, 0));
    } else {
        lemma_floor_sqrt_exists(q - 1);
        let r = floor_sqrt(q - 1);
        if q < (r + 1) * (r + 1) {
            assert(is_floor_root(r, q));
        } else {
            assert(q < (r + 2) * (r + 2)) by (nonlinear_arith)
                requires
                    q - 1 < (r + 1) * (r + 1),
                    r >= 0,
            ;
            assert(is_floor_root(r + 1, q));
        }
    }
}

/// The floor square root is monotone.
pub proof fn lemma_floor_sqrt_monotone(a: int, b: int)
    requires
        0 <= a <= b,
    ensures
        floor_sqrt(a) <= floor_sqrt(b),
{
    lemma_floor_sqrt_exists(a);
    lemma_floor_sqrt_exists(b);
    let ra = floor_sqrt(a);
    let rb = floor_sqrt(b);
    if ra > rb {
        assert((rb + 1) * (rb + 1) <= ra * ra) by (nonlinear_arith)
            requires
                rb >= 0,
                rb + 1 <= ra,
        ;
    }
}

/// `scaled_sqrt(c * c + d * d)` is at least `ROOT_SCALE` times the larger of `|c|`, `|d|`.
pub proof fn lemma_scaled_norm_dominates(c: int, d: int)
    ensures
        scaled_sqrt(c * c + d * d) >= ROOT_SCALE * c,
        scaled_sqrt(c * c + d * d) >= -ROOT_SCALE * c,
        scaled_sqrt(c * c + d * d) >= ROOT_SCALE * d,
        scaled_sqrt(c * c + d * d) >= -ROOT_SCALE * d,
{
    let k = ROOT_SCALE as int;
    let ac = if c >= 0 { c } else { -c };
    let ad = if d >= 0 { d } else { -d };
    assert(ac * ac == c * c) by (nonlinear_arith)
        requires
            ac == c || ac == -c,
    ;
    assert(ad * ad == d * d) by (nonlinear_arith)
        requires
            ad == d || ad == -d,
    ;
    assert(c * c >= 0 && d * d >= 0) by (nonlinear_arith);
    assert((k * ac) * (k * ac) <= (c * c + d * d) * k * k) by (nonlinear_arith)
        requires
            ac * ac == c * c,
            d * d >= 0,
            k > 0,
    ;
    assert((k * ad) * (k * ad) <= (c * c + d * d) * k * k) by (nonlinear_arith)
        requires
            ad * ad == d * d,
            c * c >= 0,
            k > 0,
    ;
    assert(ac >= 0 && ad >= 0);
    assert(k * ac >= 0 && k * ad >= 0) by (nonlinear_arith)
        requires
            ac >= 0,
            ad >= 0,
            k > 0,
    ;
    lemma_root_of_square(k * ac);
    lemma_root_of_square(k * ad);
    lemma_floor_sqrt_monotone((k * ac) * (k * ac), (c * c + d * d) * k * k);
    lemma_floor_sqrt_monotone((k * ad) * (k * ad), (c * c + d * d) * k * k);
}

/// Magnitude bound for the inputs of `scaled_combination`.
pub const FACTOR_LIMIT: i128 = 70_368_744_177_664;

/// Magnitude bound for the direction components of `scaled_combination`.
pub const DIRECTION_LIMIT: i128 = 4_398_046_511_104;

/// `floor(ROOT_SCALE * (a * c + b * d) / den)`: the component of `(a, b)` along a direction
/// `(c, d)` whose scaled length is `den`.
pub open spec fn combination(a: int, b: int, c: int, d: int, den: int) -> int {
    (ROOT_SCALE * (a * c + b * d)) / den
}

/// Evaluates `combination`; the result is no larger than `|a| + |b|` because `den` is at
/// least `ROOT_SCALE` times each of `|c|` and `|d|`.
pub fn scaled_combination(a: i128, b: i128, c: i128, d: i128, den: i128) -> (r: i64)
    requires
        -FACTOR_LIMIT <= a <= FACTOR_LIMIT,
        -FACTOR_LIMIT <= b <= FACTOR_LIMIT,
        -DIRECTION_LIMIT <= c <= DIRECTION_LIMIT,
        -DIRECTION_LIMIT <= d <= DIRECTION_LIMIT,
        den > 0,
        den >= ROOT_SCALE * c,
        den >= -ROOT_SCALE * c,
        den >= ROOT_SCALE * d,
        den >= -ROOT_SCALE * d,
    ensures
        r == combination(a as int, b as int, c as int, d as int, den as int),
        -(abs_of(a as int) + abs_of(b as int)) <= r <= abs_of(a as int) + abs_of(b as int),
{
    let ghost k = ROOT_SCALE as int;
    let ghost aa = abs_of(a as int);
    let ghost ab = abs_of(b as int);
    assert(-FACTOR_LIMIT * DIRECTION_LIMIT <= a * c <= FACTOR_LIMIT * DIRECTION_LIMIT)
        by (nonlinear_arith)
        requires
            -FACTOR_LIMIT <= a <= FACTOR_LIMIT,
            -DIRECTION_LIMIT <= c <= DIRECTION_LIMIT,
    ;
    assert(-FACTOR_LIMIT * DIRECTION_LIMIT <= b * d <= FACTOR_LIMIT * DIRECTION_LIMIT)
        by (nonlinear_arith)
        requires
            -FACTOR_LIMIT <= b <= FACTOR_LIMIT,
            -DIRECTION_LIMIT <= d <= DIRECTION_LIMIT,
    ;
    let num: i128 = (ROOT_SCALE as i128) * (a * c + b * d);
    assert(k * (a * c) <= aa * den && k * (a * c) >= -aa * den) by (nonlinear_arith)
        requires
            aa == a || aa == -a,
            aa >= 0,
            den >= k * c,
            den >= -k * c,
            k > 0,
    ;
    assert(k * (b * d) <= ab * den && k * (b * d) >= -ab * den) by (nonlinear_arith)
        requires
            ab == b || ab == -b,
            ab >= 0,
            den >= k * d,
            den >= -k * d,
            k > 0,
    ;
    let q = floor_div(num, den);
    proof {
        let n = num as int;
        let t = aa + ab;
        assert(-t * den <= n <= t * den) by (nonlinear_arith)
            requires
                n == k * (a * c) + k * (b * d),
                k * (a * c) <= aa * den,
                k * (a * c) >= -aa * den,
                k * (b * d) <= ab * den,
                k * (b * d) >= -ab * den,
                t == aa + ab,
        ;
        vstd::arithmetic::div_mod::lemma_fundamental_div_mod(n, den as int);
        let qq = n / (den as int);
        let rr = n % (den as int);
        assert(-t <= qq <= t) by (nonlinear_arith)
            requires
                n == den * qq + rr,
                0 <= rr < den,
                -t * den <= n <= t * den,
                den > 0,
        ;
    }
    q as i64
}

pub open spec fn abs_of(v: int) -> int {
    if v >= 0 {
        v
    } else {
        -v
    }
}

} // verus!
