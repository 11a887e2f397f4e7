//! Scalar helpers for fixed-point arithmetic: truncating division, the
//! integer square root, and fixed-point products and powers.
//!
//! Every rounded operation is pinned to a spec-level definition, so that the
//! geometry modules can state exactly which value each routine computes.

use vstd::arithmetic::div_mod::{
    lemma_div_pos_is_pos, lemma_fundamental_div_mod, lemma_fundamental_div_mod_converse,
    lemma_mod_division_less_than_divisor,
};
use vstd::prelude::*;

verus! {

/// Truncating division (rounding toward zero), the rounding used by all
/// fixed-point routines in this crate. Meaningful for `b > 0`.
pub open spec fn div_t(a: int, b: int) -> int
    recommends
        b > 0,
{
    if a >= 0 {
        a / b
    } else {
        -((-a) / b)
    }
}

/// The absolute value of a mathematical integer.
pub open spec fn abs_i(a: int) -> int {
    if a >= 0 {
        a
    } else {
        -a
    }
}

/// Truncating division misses the exact quotient by less than one:
/// `b * div_t(a, b)` lies within `b - 1` of `a`, on the zero-ward side.
pub proof fn lemma_div_t_bounds(a: int, b: int)
    requires
        b > 0,
    ensures
        a - (b - 1) <= b * div_t(a, b) <= a + (b - 1),
        a >= 0 ==> b * div_t(a, b) <= a,
        a <= 0 ==> a <= b * div_t(a, b),
        a >= 0 ==> div_t(a, b) >= 0,
        a <= 0 ==> div_t(a, b) <= 0,
{
    if a >= 0 {
        lemma_fundamental_div_mod(a, b);
        lemma_div_pos_is_pos(a, b);
        lemma_mod_division_less_than_divisor(a, b);
    } else {
        lemma_fundamental_div_mod(-a, b);
        lemma_div_pos_is_pos(-a, b);
        lemma_mod_division_less_than_divisor(-a, b);
        let q2 = (-a) / b;
        assert(b * (-q2) == -(b * q2)) by (nonlinear_arith);
    }
}

/// Truncating division of an `i64` by a positive divisor.
pub fn sdiv(a: i64, b: i64) -> (q: i64)
    requires
        b > 0,
        a > i64::MIN,
    ensures
        q == div_t(a as int, b as int),
{
    if a >= 0 {
        a / b
    } else {
        -((-a) / b)
    }
}

/// Truncating division of an `i128` by a positive divisor, for wide
/// intermediate products.
pub fn sdiv128(a: i128, b: i128) -> (q: i128)
    requires
        b > 0,
        a > i128::MIN,
    ensures
        q == div_t(a as int, b as int),
{
    if a >= 0 {
        a / b
    } else {
        -((-a) / b)
    }
}

/// Truncating division extended to negative divisors.
pub open spec fn div_ts(a: int, b: int) -> int
    recommends
        b != 0,
{
    if b > 0 {
        div_t(a, b)
    } else {
        -div_t(a, -b)
    }
}

/// `r` is the rounded-down square root of `n`.
pub open spec fn is_sqrt(n: int, r: int) -> bool {
    0 <= r && r * r <= n && n < (r + 1) * (r + 1)
}

/// The rounded-down square root as a spec-level function.
pub open spec fn sqrt_i(n: int) -> int {
    choose|r: int| is_sqrt(n, r)
}

/// Every nonnegative integer has a rounded-down square root.
pub proof fn lemma_sqrt_exists(n: int)
    requires
        n >= 0,
    ensures
        is_sqrt(n, sqrt_i(n)),
    decreases n,
{
    if n == 0 {
        assert(is_sqrt(0, 0));
    } else {
        lemma_sqrt_exists(n - 1);
        let r = sqrt_i(n - 1);
        if (r + 1) * (r + 1) <= n {
            assert(is_sqrt(n, r + 1)) by (nonlinear_arith)
                requires
                    is_sqrt(n - 1, r),
                    (r + 1) * (r + 1) <= n,
            ;
        } else {
            assert(is_sqrt(n, r));
        }
    }
    assert(exists|r: int| is_sqrt(n, r));
}

/// The rounded-down square root is unique.
pub proof fn lemma_sqrt_unique(n: int, r: int)
    requires
        is_sqrt(n, r),
    ensures
        r == sqrt_i(n),
{
    assert(n >= 0) by (nonlinear_arith)
        requires
            is_sqrt(n, r),
    ;
    lemma_sqrt_exists(n);
    let s = sqrt_i(n);
    assert(r == s) by (nonlinear_arith)
        requires
            is_sqrt(n, r),
            is_sqrt(n, s),
    ;
}

/// The integer square root: the greatest `r` with `r * r <= n`.
pub fn isqrt(n: u128) -> (r: u64)
    requires
        n < 0x4000_0000_0000_0000_0000_0000_0000_0000,
    ensures
        r * r <= n < (r + 1) * (r + 1),
{
    if n == 0 {
        return 0;
    }
    let mut lo: u64 = 0;
    let mut hi: u64 = 0x8000_0000_0000_0000;
    proof {
        assert(((hi + 1) as int) * (((hi + 1)) as int) > 0x4000_0000_0000_0000_0000_0000_0000_0000int)
            by (nonlinear_arith)
            requires
                hi == 0x8000_0000_0000_0000u64,
        ;
        assert((lo as u128) * (lo as u128) == 0) by (nonlinear_arith)
            requires
                lo == 0u64,
        ;
    }
    while lo < hi
        invariant
            lo <= hi <= 0x8000_0000_0000_0000,
            (lo as u128) * (lo as u128) <= n,
            n < ((hi + 1) as u128) * ((hi + 1) as u128),
        decreases hi - lo,
    {
        let mid: u64 = lo + (hi - lo + 1) / 2;
        proof {
            assert((mid as int) * (mid as int) <= 0x4000_0000_0000_0000_0000_0000_0000_0000int)
                by (nonlinear_arith)
                requires
                    0 <= mid <= 0x8000_0000_0000_0000u64,
            ;
        }
        if (mid as u128) * (mid as u128) <= n {
            lo = mid;
        } else {
            hi = mid - 1;
        }
    }
    lo
}

/// Fixed-point power: `base` (at most one, in fixed point) raised to `n`,
/// rounding toward zero at each step.
pub open spec fn spec_fixpow(base: int, n: nat) -> int
    decreases n,
{
    if n == 0 {
        crate::SCALE as int
    } else {
        div_t(base * spec_fixpow(base, (n - 1) as nat), crate::SCALE as int)
    }
}

/// A fixed-point factor in `[0, SCALE]` keeps a product in `[0, SCALE]`.
pub proof fn lemma_fixstep_range(base: int, p: int)
    requires
        0 <= base <= crate::SCALE as int,
        0 <= p <= crate::SCALE as int,
    ensures
        0 <= div_t(base * p, crate::SCALE as int) <= crate::SCALE as int,
{
    let s = crate::SCALE as int;
    assert(0 <= base * p <= s * s) by (nonlinear_arith)
        requires
            0 <= base <= s,
            0 <= p <= s,
    ;
    lemma_div_t_bounds(base * p, s);
    let q = div_t(base * p, s);
    assert(0 <= q <= s) by (nonlinear_arith)
        requires
            s * q <= base * p <= s * s,
            q >= 0,
            s == 65536,
    ;
}

/// Computes the fixed-point power `spec_fixpow(base, n)`.
pub fn fixpow(base: i64, n: u32) -> (r: i64)
    requires
        0 <= base <= crate::SCALE,
    ensures
        r == spec_fixpow(base as int, n as nat),
        0 <= r <= crate::SCALE,
{
    let mut r: i64 = crate::SCALE;
    let mut i: u32 = 0;
    while i < n
        invariant
            0 <= base <= crate::SCALE,
            i <= n,
            0 <= r <= crate::SCALE,
            r == spec_fixpow(base as int, i as nat),
        decreases n - i,
    {
        proof {
            lemma_fixstep_range(base as int, r as int);
            assert(spec_fixpow(base as int, (i + 1) as nat) == div_t(
                base * spec_fixpow(base as int, i as nat),
                crate::SCALE as int,
            ));
        }
        r = fixmul_unit(base, r);
        i = i + 1;
    }
    r
}

/// One fixed-point multiplication step of two values in `[0, SCALE]`.
pub fn fixmul_unit(base: i64, p: i64) -> (r: i64)
    requires
        0 <= base <= crate::SCALE,
        0 <= p <= crate::SCALE,
    ensures
        r == div_t(base * p, crate::SCALE as int),
        0 <= r <= crate::SCALE,
{
    proof {
        lemma_fixstep_range(base as int, p as int);
    }
    sdiv128((base as i128) * (p as i128), crate::SCALE as i128) as i64
}

/// Euclidean remainder of an `i64` by a positive modulus: always in `[0, m)`.
pub fn pos_mod(a: i64, m: i64) -> (r: i64)
    requires
        m > 0,
        a > i64::MIN,
    ensures
        r == (a as int) % (m as int),
{
    let r0: i64 = if a >= 0 {
        a % m
    } else {
        let s: i64 = (-a) % m;
        if s == 0 {
            0
        } else {
            proof {
                lemma_fundamental_div_mod(-(a as int), m as int);
                lemma_fundamental_div_mod(a as int, m as int);
            }
            m - s
        }
    };
    proof {
        if a >= 0 {
        } else {
            lemma_mod_of_negative(a as int, m as int);
        }
    }
    r0
}

/// Relates the remainders of `a` and `-a` for a positive modulus.
proof fn lemma_mod_of_negative(a: int, m: int)
    requires
        m > 0,
        a < 0,
    ensures
        (-a) % m == 0 ==> a % m == 0,
        (-a) % m != 0 ==> a % m == m - ((-a) % m),
{
    lemma_fundamental_div_mod(-a, m);
    vstd::arithmetic::div_mod::lemma_mod_division_less_than_divisor(-a, m);
    let q2 = (-a) / m;
    let r2 = (-a) % m;
    assert(a == (-q2) * m + (-r2)) by (nonlinear_arith)
        requires
            -a == m * q2 + r2,
    ;
    if r2 == 0 {
        lemma_fundamental_div_mod_converse(a, m, -q2, 0);
    } else {
        assert(a == (-q2 - 1) * m + (m - r2)) by (nonlinear_arith)
            requires
                a == (-q2) * m + (-r2),
    ;
        lemma_fundamental_div_mod_converse(a, m, -q2 - 1, m - r2);
    }
}

} // verus!
