//! Fixed-point circular motion for the held ball's swing.
//!
//! Angles count milliradians.  The sine uses the classical rational
//! quarter-wave approximation, stated exactly; its value never exceeds
//! `SCALE` by more than a thousandth part.

use crate::math::{absi, div_t, lemma_div_t_le, muldiv64};
use crate::vec2::{norm2, Vec2, SCALE, V2};
use vstd::prelude::*;

verus! {

/// Speed of the held ball's circular swing, in thousandths of a unit per
/// second.
pub const SWING_SPEED: i64 = 25_000;

/// One full turn in milliradians.
pub const TAU_MRAD: i64 = 6283;

/// Half a turn in milliradians.
pub const PI_MRAD: i64 = 3141;

/// The rational quarter-wave sine on `[0, PI_MRAD]`, scaled by `SCALE`.
pub open spec fn sin_half_spec(x: int) -> int {
    div_t(16_000 * (x * (PI_MRAD as int - x)), 49_329_405 - 4 * (x * (PI_MRAD as int - x)))
}

/// The sine of an angle in milliradians, scaled by `SCALE`.
pub open spec fn sin_spec(a: int) -> int {
    let m = a % (TAU_MRAD as int);
    if m <= PI_MRAD as int {
        sin_half_spec(m)
    } else {
        -sin_half_spec(m - PI_MRAD as int)
    }
}

/// The cosine, as the sine shifted a quarter turn.
pub open spec fn cos_spec(a: int) -> int {
    sin_spec(a + 1571)
}

/// The held ball's velocity at elapsed time `t` (milliseconds): a vector of
/// `SWING_SPEED` magnitude rotated by fifteen radians per second.
pub open spec fn swing_vel_spec(t: int) -> V2 {
    V2 {
        x: div_t(SWING_SPEED as int * cos_spec(15 * t), SCALE as int),
        y: div_t(SWING_SPEED as int * sin_spec(15 * t), SCALE as int),
    }
}

/// The fixed-point sine.
pub fn sin_fp(a: i64) -> (r: i64)
    requires
        0 <= a <= 100_000_000_000_000,
    ensures
        r as int == sin_spec(a as int),
        -1001 <= r <= 1001,
{
    let m = ((a as u64) % 6283) as i64;
    let x = if m <= 3141 {
        m
    } else {
        m - 3141
    };
    proof {
        assert(0 <= x * (3141 - x) <= 2_466_470) by (nonlinear_arith)
            requires
                0 <= x <= 3141,
        ;
    }
    let q = x * (3141 - x);
    proof {
        assert(16_000 * (q as int) <= (49_329_405 - 4 * (q as int)) * 1001);
        assert(absi(16_000 * (q as int)) <= (49_329_405 - 4 * (q as int)) * 1001);
        lemma_div_t_le(16_000 * (q as int), 49_329_405 - 4 * (q as int), 1001);
    }
    let num = 16_000 * q;
    let den = 49_329_405 - 4 * q;
    let s = muldiv64(num, 1, den);
    if m <= 3141 {
        s
    } else {
        -s
    }
}

/// The fixed-point cosine.
pub fn cos_fp(a: i64) -> (r: i64)
    requires
        0 <= a <= 99_000_000_000_000,
    ensures
        r as int == cos_spec(a as int),
        -1001 <= r <= 1001,
{
    sin_fp(a + 1571)
}

/// The swing velocity of the held ball at elapsed time `time`.
pub fn swing_velocity(time: i64) -> (r: Vec2)
    requires
        0 <= time <= 2_000_000_000_000,
    ensures
        r@ == swing_vel_spec(time as int),
        norm2(r@) <= 2_000_000_000,
{
    let c = cos_fp(15 * time);
    let s = sin_fp(15 * time);
    proof {
        lemma_div_t_le(SWING_SPEED as int * (c as int), SCALE as int, 26_000);
        lemma_div_t_le(SWING_SPEED as int * (s as int), SCALE as int, 26_000);
    }
    let x = muldiv64(SWING_SPEED, c, SCALE);
    let y = muldiv64(SWING_SPEED, s, SCALE);
    proof {
        assert(norm2(V2 { x: x as int, y: y as int }) <= 2_000_000_000) by (nonlinear_arith)
            requires
                absi(x as int) <= 26_000,
                absi(y as int) <= 26_000,
                norm2(V2 { x: x as int, y: y as int }) == (x as int) * (x as int) + (y as int)
                    * (y as int),
        ;
    }
    Vec2 { x, y }
}

} // verus!
