//! Fixed-point arithmetic for orbital geometry: truncating signed division,
//! integer square roots, and a rational approximation of sine and cosine on
//! millidegree angles.
use vstd::prelude::*;

verus! {

/// Quotient of `a / b` rounded toward zero, for `b > 0`; this is what Rust's
/// `/` computes on signed integers.
pub open spec fn tdiv(a: int, b: int) -> int {
    if a >= 0 {
        a / b
    } else {
        -((-a) / b)
    }
}

/// `r` is the integer square root of `n`.
pub open spec fn is_isqrt(n: int, r: int) -> bool {
    r >= 0 && r * r <= n < (r + 1) * (r + 1)
}

/// The integer square root of `n`, as a function.
pub open spec fn sqrt_floor(n: int) -> int {
    choose|r: int| is_isqrt(n, r)
}

/// Every nonnegative integer has an integer square root, so `sqrt_floor`
/// satisfies its defining property.
pub proof fn lemma_sqrt_floor(n: int)
    requires
        n >= 0,
    ensures
        is_isqrt(n, sqrt_floor(n)),
    decreases n,
{
    if n == 0 {
        assert(is_isqrt(0, 0));
    } else {
        lemma_sqrt_floor(n - 1);
        let r = sqrt_floor(n - 1);
        if (r + 1) * (r + 1) <= n {
            assert(is_isqrt(n, r + 1)) by (nonlinear_arith)
                requires
                    is_isqrt(n - 1, r),
                    (r + 1) * (r + 1) <= n,
            ;
        } else {
            assert(is_isqrt(n, r));
        }
    }
}

/// The integer square root is unique.
pub proof fn lemma_isqrt_unique(n: int, r1: int, r2: int)
    requires
        is_isqrt(n, r1),
        is_isqrt(n, r2),
    ensures
        r1 == r2,
{
    assert(r1 == r2) by (nonlinear_arith)
        requires
            r1 >= 0 && r1 * r1 <= n < (r1 + 1) * (r1 + 1),
            r2 >= 0 && r2 * r2 <= n < (r2 + 1) * (r2 + 1),
    ;
}

/// Integer square root, rounded down.
pub fn isqrt_u128(n: u128) -> (r: u128)
    ensures
        is_isqrt(n as int, r as int),
        r as int == sqrt_floor(n as int),
        r < 0x1_0000_0000_0000_0000,
{
    if n == 0 {
        proof {
            lemma_sqrt_floor(0);
            lemma_isqrt_unique(0, 0, sqrt_floor(0));
        }
        return 0;
    }
    let mut lo: u128 = 0;
    let mut hi: u128 = 0x1_0000_0000_0000_0000;
    while lo + 1 < hi
        invariant
            lo < hi <= 0x1_0000_0000_0000_0000,
            (lo as int) * (lo as int) <= n as int,
            (n as int) < (hi as int) * (hi as int),
        decreases hi - lo,
    {
        let mid = lo + (hi - lo) / 2;
        // mid * mid <= n  <==>  mid <= n / mid, and the latter cannot overflow
        if mid <= n / mid {
            proof {
                assert((mid as int) * (mid as int) <= n as int) by (nonlinear_arith)
                    requires
                        mid as int <= n as int / mid as int,
                        mid as int > 0,
                        n as int >= 0,
                ;
            }
            lo = mid;
        } else {
            proof {
                assert((mid as int) * (mid as int) > n as int) by (nonlinear_arith)
                    requires
                        mid as int > n as int / mid as int,
                        mid as int > 0,
                        n as int >= 0,
                ;
            }
            hi = mid;
        }
    }
    proof {
        lemma_sqrt_floor(n as int);
        lemma_isqrt_unique(n as int, lo as int, sqrt_floor(n as int));
    }
    lo
}

/// Sine of an angle in millidegrees restricted to `[0, 180000]`, scaled by
/// one million, by the classical rational approximation
/// `sin x ~ 4x(180-x) / (40500 - x(180-x))` (degrees); exact at 0, 90 and
/// 180 degrees, within 0.0017 of the true sine elsewhere.
pub open spec fn sin_half_micro(d: nat) -> int {
    let x = d * (180000 - d);
    (4 * x * 1000000) as int / (40500000000 - x) as int
}

/// Sine of an angle in millidegrees, scaled by one million; the angle is
/// first reduced modulo a full turn.
pub open spec fn sin_micro(x: nat) -> int {
    let d = x % 360000;
    if d < 180000 {
        sin_half_micro(d)
    } else {
        -sin_half_micro((d - 180000) as nat)
    }
}

/// Cosine of an angle in millidegrees, scaled by one million.
pub open spec fn cos_micro(x: nat) -> int {
    sin_micro((x + 90000) as nat)
}

/// The product `d * (180000 - d)` stays below the approximation's
/// denominator offset, which also bounds the result by one million.
proof fn lemma_half_wave_bounds(d: nat)
    requires
        d <= 180000,
    ensures
        0 <= d * (180000 - d) <= 8100000000,
        0 <= sin_half_micro(d) <= 1000000,
{
    assert(d * (180000 - d) <= 8100000000) by (nonlinear_arith)
        requires
            0 <= d <= 180000,
    ;
    assert(d * (180000 - d) >= 0) by (nonlinear_arith)
        requires
            0 <= d <= 180000,
    ;
    let x = (d * (180000 - d)) as int;
    let num = 4 * x * 1000000;
    let den = 40500000000 - x;
    assert(den >= 32400000000);
    assert(num <= den * 1000000) by (nonlinear_arith)
        requires
            0 <= x <= 8100000000,
            num == 4 * x * 1000000,
            den == 40500000000 - x,
    ;
    assert(sin_half_micro(d) <= 1000000) by {
        vstd::arithmetic::div_mod::lemma_div_is_ordered(num, den * 1000000, den);
        vstd::arithmetic::div_mod::lemma_div_multiples_vanish(1000000, den);
    }
    assert(sin_half_micro(d) >= 0) by {
        vstd::arithmetic::div_mod::lemma_div_pos_is_pos(num, den);
    }
}

fn sin_half_mdeg(d: u64) -> (r: u64)
    requires
        d <= 180000,
    ensures
        r as int == sin_half_micro(d as nat),
        r <= 1000000,
{
    proof {
        lemma_half_wave_bounds(d as nat);
    }
    let x: u64 = d * (180000 - d);
    let num: u128 = 4 * (x as u128) * 1000000;
    let den: u128 = 40500000000 - (x as u128);
    let r = (num / den) as u64;
    r
}

/// Sine of `x` millidegrees, scaled by one million.
pub fn sin_mdeg(x: u64) -> (r: i64)
    ensures
        r as int == sin_micro(x as nat),
        -1000000 <= r <= 1000000,
{
    let d = x % 360000;
    if d < 180000 {
        sin_half_mdeg(d) as i64
    } else {
        -(sin_half_mdeg(d - 180000) as i64)
    }
}

/// Cosine of `x` millidegrees, scaled by one million.
pub fn cos_mdeg(x: u64) -> (r: i64)
    requires
        x <= u64::MAX - 90000,
    ensures
        r as int == cos_micro(x as nat),
        -1000000 <= r <= 1000000,
{
    sin_mdeg(x + 90000)
}

/// Divide a signed 128-bit value by a positive divisor, rounding toward zero.
pub fn tdiv_i128(a: i128, b: u128) -> (r: i128)
    requires
        b > 0,
        b <= i128::MAX as u128,
        a > i128::MIN,
    ensures
        r as int == tdiv(a as int, b as int),
        -vstd::math::abs(a as int) <= r as int <= vstd::math::abs(a as int),
{
    proof {
        if a >= 0 {
            vstd::arithmetic::div_mod::lemma_div_is_ordered_by_denominator(a as int, 1, b as int);
            vstd::arithmetic::div_mod::lemma_div_pos_is_pos(a as int, b as int);
        } else {
            vstd::arithmetic::div_mod::lemma_div_is_ordered_by_denominator(
                -(a as int),
                1,
                b as int,
            );
            vstd::arithmetic::div_mod::lemma_div_pos_is_pos(-(a as int), b as int);
        }
    }
    if a >= 0 {
        ((a as u128) / b) as i128
    } else {
        let m = -a;
        -(((m as u128) / b) as i128)
    }
}

} // verus!
