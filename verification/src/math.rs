//! Scalar fixed-point arithmetic: truncating division and integer square
//! roots, with the lemmas the geometry layer is built on.

use vstd::arithmetic::div_mod::{lemma_fundamental_div_mod, lemma_mod_division_less_than_divisor};
use vstd::prelude::*;

verus! {

/// Absolute value over the mathematical integers.
pub open spec fn absi(x: int) -> int {
    if x < 0 {
        -x
    } else {
        x
    }
}

/// `r` is the floor of the square root of `n`.
pub open spec fn is_sqrt(n: int, r: int) -> bool {
    0 <= r && r * r <= n && n < (r + 1) * (r + 1)
}

/// The floor of the square root of `n`; meaningful for `n >= 0`
/// (`lemma_sqrt_floor` shows it then satisfies `is_sqrt`).
pub open spec fn sqrt_floor(n: int) -> int {
    choose|r: int| is_sqrt(n, r)
}

pub proof fn lemma_sqrt_floor(n: int)
    requires
        n >= 0,
    ensures
        is_sqrt(n, sqrt_floor(n)),
    decreases n,
{
    if n == 0 {
        assert(is_sqrt(0, 0));
    } else {
        lemma_sqrt_floor(n - 1);
        let r = sqrt_floor(n - 1);
        if n < (r + 1) * (r + 1) {
            assert(is_sqrt(n, r));
        } else {
            assert(is_sqrt(n, r + 1)) by (nonlinear_arith)
                requires
                    0 <= r,
                    r * r <= n - 1,
                    n - 1 < (r + 1) * (r + 1),
                    n >= (r + 1) * (r + 1),
            ;
        }
        assert(exists|q: int| is_sqrt(n, q));
    }
}

/// The square root in `is_sqrt` is unique.
pub proof fn lemma_sqrt_unique(n: int, a: int, b: int)
    by (nonlinear_arith)
    requires
        0 <= a && a * a <= n && n < (a + 1) * (a + 1),
        0 <= b && b * b <= n && n < (b + 1) * (b + 1),
    ensures
        a == b,
{
}

/// If `n <= s * s` then the root of `n` is at most `s`.
pub proof fn lemma_sqrt_le(n: int, s: int)
    requires
        0 <= n,
        0 <= s,
        n <= s * s,
    ensures
        sqrt_floor(n) <= s,
{
    lemma_sqrt_floor(n);
    let r = sqrt_floor(n);
    assert(r <= s) by (nonlinear_arith)
        requires
            0 <= r,
            0 <= s,
            r * r <= n,
            n <= s * s,
    ;
}

/// If `s * s <= n` then the root of `n` is at least `s`.
pub proof fn lemma_sqrt_ge(n: int, s: int)
    requires
        0 <= s,
        s * s <= n,
    ensures
        sqrt_floor(n) >= s,
{
    lemma_sqrt_floor(n);
    let r = sqrt_floor(n);
    assert(r >= s) by (nonlinear_arith)
        requires
            0 <= r,
            0 <= s,
            s * s <= n,
            n < (r + 1) * (r + 1),
    ;
}

/// Squaring is monotone on the non-negative integers.
pub proof fn lemma_sq_mono(a: int, b: int)
    by (nonlinear_arith)
    requires
        0 <= a <= b,
    ensures
        a * a <= b * b,
{
}

/// Division truncating towards zero, the rounding rule of every fixed-point
/// quotient in this crate.  Defined as zero for non-positive divisors so the
/// geometry can speak of degenerate cases without side conditions.
pub open spec fn div_t(a: int, b: int) -> int {
    if b <= 0 {
        0
    } else if a >= 0 {
        a / b
    } else {
        -((-a) / b)
    }
}

/// The fundamental facts about truncating division.
pub proof fn lemma_div_t(a: int, b: int)
    requires
        b >= 1,
    ensures
        absi(div_t(a, b)) * b <= absi(a),
        absi(a) < absi(div_t(a, b)) * b + b,
        a >= 0 ==> div_t(a, b) >= 0,
        a <= 0 ==> div_t(a, b) <= 0,
{
    if a >= 0 {
        lemma_fundamental_div_mod(a, b);
        lemma_mod_division_less_than_divisor(a, b);
        let q = a / b;
        assert(q >= 0) by (nonlinear_arith)
            requires
                b >= 1,
                a >= 0,
                a == b * q + a % b,
                0 <= a % b < b,
        ;
        assert(q * b == b * q) by (nonlinear_arith);
    } else {
        lemma_fundamental_div_mod(-a, b);
        lemma_mod_division_less_than_divisor(-a, b);
        let q = (-a) / b;
        assert(q >= 0) by (nonlinear_arith)
            requires
                b >= 1,
                -a >= 0,
                -a == b * q + (-a) % b,
                0 <= (-a) % b < b,
        ;
        assert(q * b == b * q) by (nonlinear_arith);
    }
}

/// The magnitude of a truncating quotient is bounded by any `c` with
/// `|a| <= b * c`.
pub proof fn lemma_div_t_le(a: int, b: int, c: int)
    requires
        b >= 1,
        c >= 0,
        absi(a) <= b * c,
    ensures
        absi(div_t(a, b)) <= c,
{
    lemma_div_t(a, b);
    assert(absi(div_t(a, b)) <= c) by (nonlinear_arith)
        requires
            b >= 1,
            c >= 0,
            absi(div_t(a, b)) * b <= absi(a),
            absi(a) <= b * c,
            absi(div_t(a, b)) >= 0,
    ;
}

/// Floor of the square root, computed by binary search on 64-bit candidates.
pub fn isqrt(n: u128) -> (r: u64)
    ensures
        is_sqrt(n as int, r as int),
{
    let mut lo: u64 = 0;
    let mut hi: u64 = u64::MAX;
    proof {
        assert((hi as int + 1) * (hi as int + 1) > n as int) by (nonlinear_arith)
            requires
                hi == u64::MAX,
                n <= u128::MAX,
        ;
    }
    while lo < hi
        invariant
            lo <= hi,
            (lo as int) * (lo as int) <= n as int,
            (n as int) < (hi as int + 1) * (hi as int + 1),
        decreases hi - lo,
    {
        let mid = lo + (hi - lo) / 2 + 1;
        proof {
            assert((mid as int) * (mid as int) <= (u64::MAX as int) * (u64::MAX as int))
                by (nonlinear_arith)
                requires
                    0 <= mid <= u64::MAX,
            ;
        }
        let sq = (mid as u128) * (mid as u128);
        if sq <= n {
            lo = mid;
        } else {
            hi = mid - 1;
        }
    }
    lo
}

/// `a * m / d`, truncating towards zero, with the product widened to 128
/// bits so it cannot overflow.
pub fn muldiv64(a: i64, m: i64, d: i64) -> (q: i64)
    requires
        d >= 1,
        (a as int) * (m as int) <= (d as int) * (i64::MAX as int),
        -((d as int) * (i64::MAX as int)) <= (a as int) * (m as int),
    ensures
        q as int == div_t((a as int) * (m as int), d as int),
{
    proof {
        assert((i64::MIN as int) * (i64::MIN as int) < i128::MAX as int) by (nonlinear_arith);
        assert((a as int) * (m as int) <= (i64::MIN as int) * (i64::MIN as int))
            by (nonlinear_arith)
            requires
                i64::MIN <= a <= i64::MAX,
                i64::MIN <= m <= i64::MAX,
        ;
        assert(-((i64::MIN as int) * (i64::MIN as int)) <= (a as int) * (m as int))
            by (nonlinear_arith)
            requires
                i64::MIN <= a <= i64::MAX,
                i64::MIN <= m <= i64::MAX,
        ;
    }
    let p: i128 = (a as i128) * (m as i128);
    let q: i128 = div_t128(p, d as i128);
    proof {
        lemma_div_t_le(p as int, d as int, i64::MAX as int);
    }
    q as i64
}

/// Truncating division on 128-bit integers, via unsigned division on the
/// magnitudes.
pub fn div_t128(a: i128, b: i128) -> (q: i128)
    requires
        b >= 1,
        a > i128::MIN,
    ensures
        q as int == div_t(a as int, b as int),
{
    if a >= 0 {
        let q = (a as u128) / (b as u128);
        q as i128
    } else {
        let m = (-a) as u128;
        let q = m / (b as u128);
        -(q as i128)
    }
}

} // verus!
