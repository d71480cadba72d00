//! Integer helpers for the fixed-point simulation arithmetic: absolute value,
//! division that rounds toward zero, division that rounds away from zero, and
//! an integer square root.

use vstd::prelude::*;
use vstd::arithmetic::div_mod::lemma_fundamental_div_mod;
use vstd::arithmetic::div_mod::lemma_mod_bound;

verus! {

/// Absolute value of a mathematical integer.
pub open spec fn iabs(a: int) -> int {
    if a < 0 {
        -a
    } else {
        a
    }
}

/// Quotient of `a / d` rounded toward zero (the rounding of Rust's `/`),
/// for a positive divisor.
pub open spec fn div_to_zero(a: int, d: int) -> int
    recommends
        d >= 1,
{
    if a >= 0 {
        a / d
    } else {
        -((-a) / d)
    }
}

/// Quotient of `a / d` rounded away from zero, for a positive divisor.
pub open spec fn div_away(a: int, d: int) -> int
    recommends
        d >= 1,
{
    if a >= 0 {
        (a + d - 1) / d
    } else {
        -((-a + d - 1) / d)
    }
}

/// The nonnegative quotient `a / d` lies within one divisor of `a`.
pub proof fn lemma_div_nonneg_bounds(a: int, d: int)
    requires
        a >= 0,
        d >= 1,
    ensures
        a / d >= 0,
        d * (a / d) <= a,
        d * (a / d) > a - d,
{
    lemma_fundamental_div_mod(a, d);
    lemma_mod_bound(a, d);
}

/// Rounding away from zero overshoots `a` by less than one divisor.
pub proof fn lemma_div_away_bounds(a: int, d: int)
    requires
        a >= 0,
        d >= 1,
    ensures
        div_away(a, d) >= 0,
        d * div_away(a, d) >= a,
        d * div_away(a, d) < a + d,
{
    lemma_fundamental_div_mod(a + d - 1, d);
    lemma_mod_bound(a + d - 1, d);
}

/// Rounding away from zero is odd: negating the dividend negates the result.
pub proof fn lemma_div_away_odd(a: int, d: int)
    requires
        d >= 1,
    ensures
        div_away(-a, d) == -div_away(a, d),
{
    if a == 0 {
        let q = (d - 1) / d;
        lemma_div_nonneg_bounds(d - 1, d);
        assert(q == 0) by (nonlinear_arith)
            requires d >= 1, q >= 0, d * q <= d - 1;
    }
}

/// The floor square root of `n`, and `0` for negative `n`.
pub open spec fn sqrt_floor(n: int) -> int
    decreases n,
{
    if n <= 0 {
        0
    } else {
        let r = sqrt_floor(n - 1);
        if (r + 1) * (r + 1) <= n {
            r + 1
        } else {
            r
        }
    }
}

/// `sqrt_floor(n)` squares to at most `n`, and is the largest such value.
pub proof fn lemma_sqrt_floor(n: int)
    requires
        n >= 0,
    ensures
        sqrt_floor(n) >= 0,
        sqrt_floor(n) * sqrt_floor(n) <= n,
        (sqrt_floor(n) + 1) * (sqrt_floor(n) + 1) > n,
    decreases n,
{
    if n > 0 {
        lemma_sqrt_floor(n - 1);
        let r = sqrt_floor(n - 1);
        if (r + 1) * (r + 1) <= n {
            assert((r + 2) * (r + 2) > (r + 1) * (r + 1)) by (nonlinear_arith)
                requires r >= 0;
        }
    }
}

/// A positive number has a positive floor square root.
pub proof fn lemma_sqrt_pos(n: int)
    requires
        n >= 1,
    ensures
        sqrt_floor(n) >= 1,
{
    lemma_sqrt_floor(n);
    let s = sqrt_floor(n);
    if s == 0 {
        assert((s + 1) * (s + 1) == 1) by (nonlinear_arith)
            requires s == 0;
    }
}

/// Only one nonnegative value squares to at most `n` with its successor
/// squaring above `n`.
pub proof fn lemma_sqrt_unique(n: int, r: int)
    requires
        n >= 0,
        r >= 0,
        r * r <= n,
        (r + 1) * (r + 1) > n,
    ensures
        r == sqrt_floor(n),
{
    lemma_sqrt_floor(n);
    let s = sqrt_floor(n);
    assert(r < s ==> (r + 1) * (r + 1) <= s * s) by (nonlinear_arith)
        requires r >= 0, s >= 0;
    assert(s < r ==> (s + 1) * (s + 1) <= r * r) by (nonlinear_arith)
        requires r >= 0, s >= 0;
}

/// A square below `n` has its root below `sqrt_floor(n)`.
pub proof fn lemma_sqrt_dominates(n: int, c: int)
    requires
        n >= 0,
        c * c <= n,
    ensures
        iabs(c) <= sqrt_floor(n),
{
    lemma_sqrt_floor(n);
    let s = sqrt_floor(n);
    assert(iabs(c) * iabs(c) == c * c) by (nonlinear_arith);
    assert(iabs(c) > s ==> (s + 1) * (s + 1) <= iabs(c) * iabs(c)) by (nonlinear_arith)
        requires s >= 0, iabs(c) >= 0;
}

/// Division of `a` by `SCALE`-like positive `d`, rounded toward zero.
pub fn div_to_zero_i64(a: i64, d: i64) -> (r: i64)
    requires
        1 <= d,
        -0x4000_0000_0000_0000 <= a <= 0x4000_0000_0000_0000,
    ensures
        r == div_to_zero(a as int, d as int),
{
    if a >= 0 {
        let q: u64 = (a as u64) / (d as u64);
        proof {
            lemma_div_nonneg_bounds(a as int, d as int);
            assert(q <= a as u64) by (nonlinear_arith)
                requires q == (a as u64) / (d as u64), d as u64 >= 1;
        }
        q as i64
    } else {
        let q: u64 = ((-a) as u64) / (d as u64);
        proof {
            lemma_div_nonneg_bounds(-a as int, d as int);
            assert(q <= (-a) as u64) by (nonlinear_arith)
                requires q == ((-a) as u64) / (d as u64), d as u64 >= 1;
        }
        -(q as i64)
    }
}

/// Division of `a` by positive `d`, rounded away from zero, on the wide
/// integers used by the collision arithmetic.
pub fn div_away_i128(a: i128, d: i128) -> (r: i128)
    requires
        1 <= d <= 0x1_0000_0000_0000_0000,
        -0x1_0000_0000_0000_0000_0000_0000 <= a <= 0x1_0000_0000_0000_0000_0000_0000,
    ensures
        r == div_away(a as int, d as int),
{
    if a >= 0 {
        let q: u128 = ((a + d - 1) as u128) / (d as u128);
        proof {
            lemma_div_nonneg_bounds(a + d - 1, d as int);
            assert(q <= (a + d - 1) as u128) by (nonlinear_arith)
                requires q == ((a + d - 1) as u128) / (d as u128), d as u128 >= 1;
        }
        q as i128
    } else {
        let q: u128 = ((-a + d - 1) as u128) / (d as u128);
        proof {
            lemma_div_nonneg_bounds(-a + d - 1, d as int);
            assert(q <= (-a + d - 1) as u128) by (nonlinear_arith)
                requires q == ((-a + d - 1) as u128) / (d as u128), d as u128 >= 1;
        }
        -(q as i128)
    }
}

/// Floor square root by binary search.
pub fn isqrt_u128(n: u128) -> (r: u64)
    requires
        n < 0x4000_0000_0000_0000_0000_0000_0000_0000,
    ensures
        r as int == sqrt_floor(n as int),
{
    let mut lo: u128 = 0;
    let mut hi: u128 = 0x8000_0000_0000_0000;
    proof {
        assert(hi * hi > n) by (nonlinear_arith)
            requires hi == 0x8000_0000_0000_0000u128,
                n < 0x4000_0000_0000_0000_0000_0000_0000_0000u128;
    }
    while lo + 1 < hi
        invariant
            0 <= lo < hi <= 0x8000_0000_0000_0000,
            lo * lo <= n,
            hi * hi > n,
        decreases hi - lo,
    {
        let mid: u128 = lo + (hi - lo) / 2;
        proof {
            lemma_div_nonneg_bounds((hi - lo) as int, 2);
            assert(lo < mid < hi);
            assert(mid * mid <= 0x4000_0000_0000_0000_0000_0000_0000_0000u128) by (nonlinear_arith)
                requires mid <= 0x8000_0000_0000_0000u128;
        }
        if mid * mid <= n {
            lo = mid;
        } else {
            hi = mid;
        }
    }
    proof {
        lemma_sqrt_unique(n as int, lo as int);
    }
    lo as u64
}

} // verus!
