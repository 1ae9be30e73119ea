//! Fixed-point scalar arithmetic.
//!
//! A fixed-point value stores millionths of a unit in an `i64`: the unit
//! length is [`SCALE`].  All derived quantities (dot products, plane offsets,
//! rotation terms) are computed exactly in `i128` and rounded back explicitly,
//! so every operation is a pure, reproducible function of its inputs.

use vstd::prelude::*;

verus! {

/// Number of fixed-point steps in one unit of length.
pub const SCALE: i64 = 1_000_000;

/// Truncating division (rounding toward zero), as mathematical ints.
pub open spec fn spec_tdiv(a: int, b: int) -> int {
    if a >= 0 {
        a / b
    } else {
        -((-a) / b)
    }
}

/// Truncating division by a divisor of either sign, as mathematical ints.
pub open spec fn spec_tdiv_s(a: int, b: int) -> int {
    if b >= 0 {
        spec_tdiv(a, b)
    } else {
        -spec_tdiv(a, -b)
    }
}

/// Truncating division of `a` by a positive divisor `b`.
pub fn tdiv128(a: i128, b: i128) -> (q: i128)
    requires
        b > 0,
        a > i128::MIN,
    ensures
        q == spec_tdiv(a as int, b as int),
{
    if a >= 0 {
        let qu: u128 = (a as u128) / (b as u128);
        qu as i128
    } else {
        let qu: u128 = ((-a) as u128) / (b as u128);
        assert(qu == (-(a as int)) / (b as int));
        assert(qu <= -(a as int)) by {
            vstd::arithmetic::div_mod::lemma_div_is_ordered(0, -(a as int), b as int);
            assert(qu * (b as int) <= -(a as int)) by {
                vstd::arithmetic::div_mod::lemma_fundamental_div_mod(-(a as int), b as int);
            }
        }
        -(qu as i128)
    }
}

/// Truncating division of `a` by a nonzero divisor of either sign.
pub fn tdiv128_s(a: i128, b: i128) -> (q: i128)
    requires
        b != 0,
        b > i128::MIN,
        a > i128::MIN,
    ensures
        q == spec_tdiv_s(a as int, b as int),
{
    if b > 0 {
        tdiv128(a, b)
    } else {
        -tdiv128(a, -b)
    }
}

/// One full turn (two pi), in fixed-point steps.
pub const TWO_PI_FIX: u64 = 6_283_184;

/// Half a turn (pi), in fixed-point steps.
pub const PI_FIX: u64 = 3_141_592;

/// A quarter turn (pi / 2), in fixed-point steps.
pub const HALF_PI_FIX: u64 = 1_570_796;

/// An eighth of a turn (pi / 4), in fixed-point steps.
pub const QUARTER_PI_FIX: u64 = 785_398;

/// Clamp a value into the fixed-point interval for [-1, 1].
pub open spec fn spec_clamp_unit(v: int) -> int {
    if v > SCALE {
        SCALE as int
    } else if v < -SCALE {
        -SCALE
    } else {
        v
    }
}

/// Degree-5 Taylor polynomial of sine at 0, on fixed-point angles in
/// [0, pi/4], clamped into the unit interval.
pub open spec fn spec_sin_quarter(x: int) -> int {
    spec_clamp_unit(
        x - (x * x * x) / 6_000_000_000_000
            + (x * x * x * x * x) / 120_000_000_000_000_000_000_000_000,
    )
}

/// Degree-6 Taylor polynomial of cosine at 0, on fixed-point angles in
/// [0, pi/4], clamped into the unit interval.
pub open spec fn spec_cos_quarter(x: int) -> int {
    spec_clamp_unit(
        1_000_000 - (x * x) / 2_000_000 + (x * x * x * x) / 24_000_000_000_000_000_000
            - (x * x * x * x * x * x) / 720_000_000_000_000_000_000_000_000_000_000,
    )
}

/// Sine on fixed-point angles in [0, pi/2], folded onto [0, pi/4] through the
/// co-function identity.
pub open spec fn spec_sin_half(x: int) -> int {
    if x <= QUARTER_PI_FIX {
        spec_sin_quarter(x)
    } else {
        spec_cos_quarter(HALF_PI_FIX - x)
    }
}

/// Cosine on fixed-point angles in [0, pi/2], folded onto [0, pi/4].
pub open spec fn spec_cos_half(x: int) -> int {
    if x <= QUARTER_PI_FIX {
        spec_cos_quarter(x)
    } else {
        spec_sin_quarter(HALF_PI_FIX - x)
    }
}

/// Sine of any fixed-point angle: reduce modulo one turn, then by quadrant.
pub open spec fn spec_sin(theta: int) -> int {
    let r = theta % (TWO_PI_FIX as int);
    if r < HALF_PI_FIX {
        spec_sin_half(r)
    } else if r < PI_FIX {
        spec_sin_half(PI_FIX - r)
    } else if r < PI_FIX + HALF_PI_FIX {
        -spec_sin_half(r - PI_FIX)
    } else {
        -spec_sin_half(TWO_PI_FIX - r)
    }
}

/// Cosine of any fixed-point angle: reduce modulo one turn, then by quadrant.
pub open spec fn spec_cos(theta: int) -> int {
    let r = theta % (TWO_PI_FIX as int);
    if r < HALF_PI_FIX {
        spec_cos_half(r)
    } else if r < PI_FIX {
        -spec_cos_half(PI_FIX - r)
    } else if r < PI_FIX + HALF_PI_FIX {
        -spec_cos_half(r - PI_FIX)
    } else {
        spec_cos_half(TWO_PI_FIX - r)
    }
}

/// Taylor sine on [0, pi/4] (a slightly wider domain is accepted so the
/// folded argument `pi/2 - x` always fits).
fn sin_quarter(x: u64) -> (s: i64)
    requires
        x <= 800_000,
    ensures
        s == spec_sin_quarter(x as int),
        -SCALE <= s <= SCALE,
{
    let xw: u128 = x as u128;
    proof {
        assert(xw * xw <= 800_000 * 800_000) by (nonlinear_arith)
            requires
                xw <= 800_000,
        ;
    }
    let x2: u128 = xw * xw;
    proof {
        assert(x2 * xw <= 640_000_000_000 * 800_000) by (nonlinear_arith)
            requires
                x2 <= 640_000_000_000 && xw <= 800_000,
        ;
    }
    let x3: u128 = x2 * xw;
    proof {
        assert(x3 * x2 <= 512_000_000_000_000_000 * 640_000_000_000) by (nonlinear_arith)
            requires
                x3 <= 512_000_000_000_000_000 && x2 <= 640_000_000_000,
        ;
    }
    let x5: u128 = x3 * x2;
    proof {
        let xi = x as int;
        assert(x5 == xi * xi * xi * xi * xi) by (nonlinear_arith)
            requires
                x5 == x3 * x2 && x3 == xi * xi * xi && x2 == xi * xi,
        ;
    }
    let t3: u128 = x3 / 6_000_000_000_000;
    let t5: u128 = x5 / 120_000_000_000_000_000_000_000_000;
    proof {
        assert(t3 <= 512_000_000_000_000_000int / 6_000_000_000_000) by {
            vstd::arithmetic::div_mod::lemma_div_is_ordered(
                x3 as int,
                512_000_000_000_000_000,
                6_000_000_000_000,
            );
        }
        assert(t5 <= 327_680_000_000_000_000_000_000_000_000int
            / 120_000_000_000_000_000_000_000_000) by {
            vstd::arithmetic::div_mod::lemma_div_is_ordered(
                x5 as int,
                327_680_000_000_000_000_000_000_000_000,
                120_000_000_000_000_000_000_000_000,
            );
        }
    }
    let raw: i128 = x as i128 - t3 as i128 + t5 as i128;
    if raw > SCALE as i128 {
        SCALE
    } else if raw < -(SCALE as i128) {
        -SCALE
    } else {
        raw as i64
    }
}

/// Taylor cosine on [0, pi/4] (same widened domain as [`sin_quarter`]).
fn cos_quarter(x: u64) -> (c: i64)
    requires
        x <= 800_000,
    ensures
        c == spec_cos_quarter(x as int),
        -SCALE <= c <= SCALE,
{
    let xw: u128 = x as u128;
    proof {
        assert(xw * xw <= 800_000 * 800_000) by (nonlinear_arith)
            requires
                xw <= 800_000,
        ;
    }
    let x2: u128 = xw * xw;
    proof {
        assert(x2 * x2 <= 640_000_000_000 * 640_000_000_000) by (nonlinear_arith)
            requires
                x2 <= 640_000_000_000,
        ;
    }
    let x4: u128 = x2 * x2;
    proof {
        assert(x4 * x2 <= 409_600_000_000_000_000_000_000 * 640_000_000_000)
            by (nonlinear_arith)
            requires
                x4 <= 409_600_000_000_000_000_000_000 && x2 <= 640_000_000_000,
        ;
    }
    let x6: u128 = x4 * x2;
    proof {
        let xi = x as int;
        assert(x4 == xi * xi * xi * xi) by (nonlinear_arith)
            requires
                x4 == x2 * x2 && x2 == xi * xi,
        ;
        assert(x6 == xi * xi * xi * xi * xi * xi) by (nonlinear_arith)
            requires
                x6 == x4 * x2 && x4 == xi * xi * xi * xi && x2 == xi * xi,
        ;
    }
    let t2: u128 = x2 / 2_000_000;
    let t4: u128 = x4 / 24_000_000_000_000_000_000;
    let t6: u128 = x6 / 720_000_000_000_000_000_000_000_000_000_000;
    proof {
        vstd::arithmetic::div_mod::lemma_div_is_ordered(x2 as int, 640_000_000_000, 2_000_000);
        vstd::arithmetic::div_mod::lemma_div_is_ordered(
            x4 as int,
            409_600_000_000_000_000_000_000,
            24_000_000_000_000_000_000,
        );
        vstd::arithmetic::div_mod::lemma_div_is_ordered(
            x6 as int,
            262_144_000_000_000_000_000_000_000_000_000_000,
            720_000_000_000_000_000_000_000_000_000_000,
        );
    }
    let raw: i128 = SCALE as i128 - t2 as i128 + t4 as i128 - t6 as i128;
    if raw > SCALE as i128 {
        SCALE
    } else if raw < -(SCALE as i128) {
        -SCALE
    } else {
        raw as i64
    }
}

/// Reduce a fixed-point angle into [0, one turn), as Euclidean remainder.
fn mod_turn(theta: i64) -> (r: u64)
    requires
        theta > i64::MIN,
    ensures
        r == theta as int % (TWO_PI_FIX as int),
{
    if theta >= 0 {
        (theta as u64) % TWO_PI_FIX
    } else {
        let m: u64 = ((-theta) as u64) % TWO_PI_FIX;
        let r: u64 = if m == 0 {
            0
        } else {
            TWO_PI_FIX - m
        };
        proof {
            let t = theta as int;
            let p = TWO_PI_FIX as int;
            let q = (-t) / p;
            vstd::arithmetic::div_mod::lemma_fundamental_div_mod(-t, p);
            if m == 0 {
                vstd::arithmetic::div_mod::lemma_fundamental_div_mod_converse(t, p, -q, 0);
            } else {
                vstd::arithmetic::div_mod::lemma_fundamental_div_mod_converse(
                    t,
                    p,
                    -q - 1,
                    p - m,
                );
            }
        }
        r
    }
}

/// Sine and cosine of a fixed-point angle, each in the fixed-point unit
/// interval.  The result is the exact value of [`spec_sin`] / [`spec_cos`]:
/// a deterministic Taylor evaluation after quadrant reduction.
pub fn sin_cos(theta: i64) -> (sc: (i64, i64))
    requires
        theta > i64::MIN,
    ensures
        sc.0 == spec_sin(theta as int),
        sc.1 == spec_cos(theta as int),
        -SCALE <= sc.0 <= SCALE,
        -SCALE <= sc.1 <= SCALE,
{
    let r: u64 = mod_turn(theta);
    let (x, sin_sign, cos_sign): (u64, bool, bool) = if r < HALF_PI_FIX {
        (r, false, false)
    } else if r < PI_FIX {
        (PI_FIX - r, false, true)
    } else if r < PI_FIX + HALF_PI_FIX {
        (r - PI_FIX, true, true)
    } else {
        (TWO_PI_FIX - r, true, false)
    };
    let (s_abs, c_abs): (i64, i64) = if x <= QUARTER_PI_FIX {
        (sin_quarter(x), cos_quarter(x))
    } else {
        (cos_quarter(HALF_PI_FIX - x), sin_quarter(HALF_PI_FIX - x))
    };
    let s: i64 = if sin_sign {
        -s_abs
    } else {
        s_abs
    };
    let c: i64 = if cos_sign {
        -c_abs
    } else {
        c_abs
    };
    (s, c)
}

/// Bound on a product from bounds on its factors.
pub proof fn lemma_mul_le(a: int, b: int, la: int, lb: int)
    requires
        -la <= a <= la,
        -lb <= b <= lb,
        0 <= la,
        0 <= lb,
    ensures
        -(la * lb) <= a * b <= la * lb,
{
    assert(-(la * lb) <= a * b <= la * lb) by (nonlinear_arith)
        requires
            -la <= a <= la && -lb <= b <= lb && 0 <= la && 0 <= lb,
    ;
}

/// Bound on a truncating quotient from a bound on the dividend.
pub proof fn lemma_tdiv_bound(a: int, b: int, l: int)
    requires
        b > 0,
        -l <= a <= l,
        0 <= l,
    ensures
        -(l / b) <= spec_tdiv(a, b) <= l / b,
{
    if a >= 0 {
        vstd::arithmetic::div_mod::lemma_div_is_ordered(a, l, b);
        assert(a / b >= 0) by {
            vstd::arithmetic::div_mod::lemma_div_is_ordered(0, a, b);
        }
    } else {
        vstd::arithmetic::div_mod::lemma_div_is_ordered(-a, l, b);
        assert((-a) / b >= 0) by {
            vstd::arithmetic::div_mod::lemma_div_is_ordered(0, -a, b);
        }
    }
}

/// Integer square root: the largest `r` with `r * r <= n`.
pub fn isqrt(n: u128) -> (r: u128)
    ensures
        r * r <= n,
        (r + 1) * (r + 1) > n,
{
    let mut lo: u128 = 0;
    let mut hi: u128 = if n < 0xffff_ffff_ffff_ffff {
        n + 1
    } else {
        0x1_0000_0000_0000_0000
    };
    proof {
        assert(hi * hi > n) by (nonlinear_arith)
            requires
                hi >= 1,
                (n < 0xffff_ffff_ffff_ffff ==> hi == n + 1)
                    && (n >= 0xffff_ffff_ffff_ffff ==> hi == 0x1_0000_0000_0000_0000),
        ;
    }
    while lo + 1 < hi
        invariant
            lo < hi,
            hi <= 0x1_0000_0000_0000_0000,
            lo * lo <= n,
            hi * hi > n,
        decreases hi - lo,
    {
        let mid: u128 = lo + (hi - lo) / 2;
        proof {
            assert(mid * mid <= 0xffff_ffff_ffff_ffff * 0xffff_ffff_ffff_ffff)
                by (nonlinear_arith)
                requires
                    mid <= 0xffff_ffff_ffff_ffff,
            ;
        }
        if mid * mid <= n {
            lo = mid;
        } else {
            hi = mid;
        }
    }
    lo
}

} // verus!
