//! Fixed-point arithmetic: the scalar type of the whole library.
//!
//! A value is an `i64` holding the real number scaled by `2^16`, so
//! [`FX_ONE`] stands for `1.0`.  Products and quotients truncate toward
//! zero, as the specifications below state exactly.

use vstd::prelude::*;
use vstd::arithmetic::div_mod::{lemma_div_is_ordered, lemma_div_multiples_vanish};
use vstd::arithmetic::mul::lemma_mul_inequality;

verus! {

/// The fixed-point representation of `1.0`: values are scaled by `2^16`.
pub const FX_ONE: i64 = 65536;

/// Largest magnitude accepted by [`fx_mul`]: factors up to `2^31` keep the
/// raw 128-bit-free product within `i64` range.
pub const FX_FACTOR_MAX: i64 = 0x8000_0000;

/// Absolute value of a mathematical integer.
pub open spec fn abs_i(a: int) -> int {
    if a >= 0 {
        a
    } else {
        -a
    }
}

/// The fixed-point product: `a * b / 2^16`, truncated toward zero.
pub open spec fn fx_mul_spec(a: int, b: int) -> int {
    if (a >= 0) == (b >= 0) {
        (abs_i(a) * abs_i(b)) / 65536
    } else {
        -((abs_i(a) * abs_i(b)) / 65536)
    }
}

/// Multiplies two fixed-point numbers, truncating toward zero.
pub fn fx_mul(a: i64, b: i64) -> (r: i64)
    requires
        -FX_FACTOR_MAX <= a <= FX_FACTOR_MAX,
        -FX_FACTOR_MAX <= b <= FX_FACTOR_MAX,
    ensures
        r == fx_mul_spec(a as int, b as int),
{
    let ua: u64 = if a >= 0 {
        a as u64
    } else {
        (-a) as u64
    };
    let ub: u64 = if b >= 0 {
        b as u64
    } else {
        (-b) as u64
    };
    assert(ua as int == abs_i(a as int));
    assert(ub as int == abs_i(b as int));
    assert(ua * ub <= 0x4000_0000_0000_0000) by (nonlinear_arith)
        requires
            ua <= 0x8000_0000,
            ub <= 0x8000_0000,
    ;
    let p: u64 = ua * ub;
    let q: u64 = p / 65536;
    if (a >= 0) == (b >= 0) {
        q as i64
    } else {
        -(q as i64)
    }
}

/// The fixed-point product of values bounded by `m` and `n` is bounded by
/// `m * n / 2^16`.
pub proof fn lemma_fx_mul_bound(a: int, b: int, m: int, n: int)
    requires
        abs_i(a) <= m,
        abs_i(b) <= n,
        0 <= m,
        0 <= n,
    ensures
        abs_i(fx_mul_spec(a, b)) <= (m * n) / 65536,
{
    lemma_mul_inequality(abs_i(a), m, abs_i(b));
    lemma_mul_inequality(abs_i(b), n, m);
    assert(m * abs_i(b) == abs_i(b) * m) by (nonlinear_arith);
    assert(abs_i(a) * abs_i(b) <= m * n);
    lemma_div_is_ordered(abs_i(a) * abs_i(b), m * n, 65536);
    assert(abs_i(a) * abs_i(b) >= 0) by (nonlinear_arith)
        requires
            abs_i(a) >= 0,
            abs_i(b) >= 0,
    ;
    assert((abs_i(a) * abs_i(b)) / 65536 >= 0);
}

/// Scaling a non-negative value by a factor between `0` and `1` (in fixed
/// point) keeps it between `0` and the value itself.
pub proof fn lemma_fx_mul_unit_bound(d: int, g: int)
    requires
        0 <= d,
        0 <= g <= 65536,
    ensures
        0 <= fx_mul_spec(d, g) <= d,
{
    lemma_mul_inequality(g, 65536, d);
    assert(d * g == g * d) by (nonlinear_arith);
    assert(d * g >= 0) by (nonlinear_arith)
        requires
            d >= 0,
            g >= 0,
    ;
    lemma_div_is_ordered(d * g, d * 65536, 65536);
    lemma_div_multiples_vanish(d, 65536);
    assert((65536 * d) == d * 65536) by (nonlinear_arith);
}

/// The integer square root: the largest `r` with `r * r <= n`.
pub open spec fn sqrt_floor(n: int) -> int
    decreases n,
{
    if n < 1 {
        0
    } else {
        let r = sqrt_floor(n - 1);
        if (r + 1) * (r + 1) <= n {
            r + 1
        } else {
            r
        }
    }
}

/// `sqrt_floor(n)` is the floor of the real square root of `n`.
pub proof fn lemma_sqrt_floor(n: int)
    requires
        n >= 0,
    ensures
        0 <= sqrt_floor(n),
        sqrt_floor(n) * sqrt_floor(n) <= n,
        n < (sqrt_floor(n) + 1) * (sqrt_floor(n) + 1),
    decreases n,
{
    if n >= 1 {
        lemma_sqrt_floor(n - 1);
        let r0 = sqrt_floor(n - 1);
        if (r0 + 1) * (r0 + 1) <= n {
            assert(n < ((r0 + 1) + 1) * ((r0 + 1) + 1)) by (nonlinear_arith)
                requires
                    0 <= r0,
                    n - 1 < (r0 + 1) * (r0 + 1),
            ;
        }
    }
}

/// Any `r` bracketing `n` between consecutive squares is `sqrt_floor(n)`.
pub proof fn lemma_sqrt_floor_unique(n: int, r: int)
    requires
        0 <= r,
        r * r <= n,
        n < (r + 1) * (r + 1),
    ensures
        r == sqrt_floor(n),
{
    lemma_sqrt_floor(n);
    let s = sqrt_floor(n);
    assert(r == s) by (nonlinear_arith)
        requires
            0 <= r,
            0 <= s,
            r * r <= n,
            n < (r + 1) * (r + 1),
            s * s <= n,
            n < (s + 1) * (s + 1),
    ;
}

/// Computes the integer square root by bisection.
pub fn isqrt(x: u128) -> (r: u64)
    requires
        x < 0x4000_0000_0000_0000_0000_0000_0000_0000,
    ensures
        r as int == sqrt_floor(x as int),
{
    let mut lo: u128 = 0;
    let mut hi: u128 = 0x8000_0000_0000_0000;
    assert((hi as int) * (hi as int) == 0x4000_0000_0000_0000_0000_0000_0000_0000) by (nonlinear_arith)
        requires
            hi == 0x8000_0000_0000_0000,
    ;
    while hi - lo > 1
        invariant
            lo < hi <= 0x8000_0000_0000_0000,
            (lo as int) * (lo as int) <= x as int,
            (x as int) < (hi as int) * (hi as int),
        decreases hi - lo,
    {
        let mid: u128 = lo + (hi - lo) / 2;
        assert((mid as int) * (mid as int) < 0x4000_0000_0000_0000_0000_0000_0000_0000) by (nonlinear_arith)
            requires
                mid < 0x8000_0000_0000_0000,
        ;
        if mid * mid <= x {
            lo = mid;
        } else {
            hi = mid;
        }
    }
    proof {
        lemma_sqrt_floor_unique(x as int, lo as int);
    }
    lo as u64
}

/// The quotient `a * 2^16 / m`, truncated toward zero.
pub open spec fn scale_div_spec(a: int, m: int) -> int {
    if a >= 0 {
        (a * 65536) / m
    } else {
        -(((-a) * 65536) / m)
    }
}

/// Divides `a` by `m` in fixed point, for `|a| <= m`: the result is the
/// fixed-point representation of a number in `[-1, 1]`.
pub fn scale_div(a: i64, m: i64) -> (r: i64)
    requires
        1 <= m,
        -m <= a <= m,
    ensures
        r == scale_div_spec(a as int, m as int),
        -65536 <= r <= 65536,
{
    let ua: u128 = if a >= 0 {
        a as u128
    } else {
        (-a) as u128
    };
    assert(ua as int == abs_i(a as int));
    let q: u128 = (ua * 65536) / (m as u128);
    proof {
        lemma_mul_inequality(ua as int, m as int, 65536);
        assert(ua as int * 65536 <= m as int * 65536);
        lemma_div_is_ordered(ua as int * 65536, m as int * 65536, m as int);
        lemma_div_multiples_vanish(65536, m as int);
        assert(m as int * 65536 == 65536 * m as int) by (nonlinear_arith);
        assert(q <= 65536);
    }
    if a >= 0 {
        q as i64
    } else {
        -(q as i64)
    }
}

} // verus!
