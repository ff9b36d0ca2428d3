//! Two-dimensional fixed-point vectors.
//!
//! A coordinate counts thousandths of a world unit (`SCALE`).  The ghost
//! type `V2` carries the same data over the mathematical integers; every
//! executable operation returns exactly the value its spec-level mirror
//! describes.

use crate::math::{absi, div_t, is_sqrt, isqrt, lemma_div_t, lemma_div_t_le, lemma_sqrt_floor,
    lemma_sqrt_le, lemma_sqrt_unique, muldiv64, sqrt_floor};
use vstd::prelude::*;

verus! {

/// Number of fixed-point ticks in one world unit.
pub const SCALE: i64 = 1000;

/// Coordinate cap accepted by the vector operations; leaves ample headroom
/// below `i64::MAX` for sums and scaled products.
pub const COORD_CAP: i64 = 1_000_000_000_000_000;

/// A fixed-point vector.
#[derive(Clone, Copy, PartialEq, Eq, Structural, Debug)]
pub struct Vec2 {
    pub x: i64,
    pub y: i64,
}

/// The mathematical shadow of a `Vec2`.
pub ghost struct V2 {
    pub x: int,
    pub y: int,
}

impl View for Vec2 {
    type V = V2;

    open spec fn view(&self) -> V2 {
        V2 { x: self.x as int, y: self.y as int }
    }
}

pub open spec fn v_add(a: V2, b: V2) -> V2 {
    V2 { x: a.x + b.x, y: a.y + b.y }
}

pub open spec fn v_sub(a: V2, b: V2) -> V2 {
    V2 { x: a.x - b.x, y: a.y - b.y }
}

pub open spec fn v_neg(a: V2) -> V2 {
    V2 { x: -a.x, y: -a.y }
}

/// Rotation by a quarter turn counter-clockwise.
pub open spec fn rot90(a: V2) -> V2 {
    V2 { x: -a.y, y: a.x }
}

pub open spec fn dot2(a: V2, b: V2) -> int {
    a.x * b.x + a.y * b.y
}

/// Squared Euclidean length.
pub open spec fn norm2(a: V2) -> int {
    dot2(a, a)
}

/// Fixed-point Euclidean length: the floor of the square root of the
/// squared length.
pub open spec fn vlen(a: V2) -> int {
    sqrt_floor(norm2(a))
}

/// Both components scaled by `m / d` with truncation towards zero.
pub open spec fn v_mul_div(a: V2, m: int, d: int) -> V2 {
    V2 { x: div_t(a.x * m, d), y: div_t(a.y * m, d) }
}

/// The unit vector along `a`, scaled by `SCALE`; the zero vector stays
/// zero rather than producing an undefined direction.
pub open spec fn vunit(a: V2) -> V2 {
    if a.x == 0 && a.y == 0 {
        V2 { x: 0, y: 0 }
    } else {
        v_mul_div(a, SCALE as int, vlen(a))
    }
}

/// A squared length is never negative, and is zero exactly on the zero
/// vector.
pub proof fn lemma_norm2_pos(a: V2)
    ensures
        norm2(a) >= 0,
        norm2(a) == 0 <==> a.x == 0 && a.y == 0,
        !(a.x == 0 && a.y == 0) ==> norm2(a) >= 1,
{
    assert(norm2(a) >= 0 && (norm2(a) == 0 <==> a.x == 0 && a.y == 0) && (!(a.x == 0 && a.y
        == 0) ==> norm2(a) >= 1)) by (nonlinear_arith);
}

/// Each component is bounded in magnitude by the vector's length, and the
/// squared length sits between `vlen` squared and the next square.
pub proof fn lemma_vlen(a: V2)
    ensures
        vlen(a) >= 0,
        is_sqrt(norm2(a), vlen(a)),
        absi(a.x) <= vlen(a),
        absi(a.y) <= vlen(a),
{
    lemma_norm2_pos(a);
    lemma_sqrt_floor(norm2(a));
    let l = vlen(a);
    assert(absi(a.x) <= l && absi(a.y) <= l) by (nonlinear_arith)
        requires
            l >= 0,
            a.x * a.x + a.y * a.y < (l + 1) * (l + 1),
    ;
}

/// The components of a scaled unit vector are bounded by `SCALE`.
pub proof fn lemma_vunit_bounds(a: V2)
    ensures
        absi(vunit(a).x) <= SCALE as int,
        absi(vunit(a).y) <= SCALE as int,
{
    if a.x == 0 && a.y == 0 {
    } else {
        lemma_vlen(a);
        let l = vlen(a);
        assert(l >= 1) by (nonlinear_arith)
            requires
                l >= 0,
                l * l <= norm2(a),
                norm2(a) == a.x * a.x + a.y * a.y,
                !(a.x == 0 && a.y == 0),
                norm2(a) < (l + 1) * (l + 1),
        ;
        assert(absi(a.x * (SCALE as int)) <= l * (SCALE as int)) by (nonlinear_arith)
            requires
                absi(a.x) <= l,
        ;
        assert(absi(a.y * (SCALE as int)) <= l * (SCALE as int)) by (nonlinear_arith)
            requires
                absi(a.y) <= l,
        ;
        lemma_div_t_le(a.x * (SCALE as int), l, SCALE as int);
        lemma_div_t_le(a.y * (SCALE as int), l, SCALE as int);
    }
}

/// If the squared length of `v` is bounded by `s * s`, so is each component
/// bounded by `s`.
pub proof fn lemma_comps_le(v: V2, s: int)
    requires
        s >= 0,
        norm2(v) <= s * s,
    ensures
        absi(v.x) <= s,
        absi(v.y) <= s,
{
    assert(absi(v.x) <= s && absi(v.y) <= s) by (nonlinear_arith)
        requires
            s >= 0,
            v.x * v.x + v.y * v.y <= s * s,
    ;
}

/// The Brahmagupta–Fibonacci identity behind the Cauchy–Schwarz bound.
proof fn lemma_lagrange(a: int, b: int, c: int, d: int)
    ensures
        (a * d - b * c) * (a * d - b * c) + (a * c + b * d) * (a * c + b * d) == (a * a + b * b)
            * (c * c + d * d),
{
    let aa = a * a;
    let bb = b * b;
    let cc = c * c;
    let dd = d * d;
    assert((a * d) * (b * c) == (a * c) * (b * d)) by (nonlinear_arith);
    assert((aa + bb) * (cc + dd) == aa * cc + aa * dd + bb * cc + bb * dd) by (nonlinear_arith);
    assert(aa * cc == (a * c) * (a * c)) by (nonlinear_arith)
        requires
            aa == a * a,
            cc == c * c,
    ;
    assert(aa * dd == (a * d) * (a * d)) by (nonlinear_arith)
        requires
            aa == a * a,
            dd == d * d,
    ;
    assert(bb * cc == (b * c) * (b * c)) by (nonlinear_arith)
        requires
            bb == b * b,
            cc == c * c,
    ;
    assert(bb * dd == (b * d) * (b * d)) by (nonlinear_arith)
        requires
            bb == b * b,
            dd == d * d,
    ;
    assert((a * d - b * c) * (a * d - b * c) == (a * d) * (a * d) - 2 * ((a * d) * (b * c)) + (b
        * c) * (b * c)) by (nonlinear_arith);
    assert((a * c + b * d) * (a * c + b * d) == (a * c) * (a * c) + 2 * ((a * c) * (b * d)) + (b
        * d) * (b * d)) by (nonlinear_arith);
}

/// The rejection of `v` from `n`, scaled by `norm2(n)`, written through the
/// cross product.
proof fn lemma_w_decomp(a: int, b: int, c: int, d: int)
    by (nonlinear_arith)
    ensures
        c * (a * a + b * b) - a * (a * c + b * d) == -(b * (a * d - b * c)),
        d * (a * a + b * b) - b * (a * c + b * d) == a * (a * d - b * c),
{
}

/// Removing from `v` its component along `n` — each coordinate divided with
/// truncation by `norm2(n)` — grows the Euclidean length by at most two
/// ticks of rounding, and so bounds each resulting component.
pub proof fn lemma_project(n: V2, v: V2, s: int)
    requires
        norm2(n) >= 1,
        norm2(v) <= s * s,
        s >= 0,
    ensures
        norm2(v_sub(v, v_mul_div(n, dot2(n, v), norm2(n)))) <= (s + 2) * (s + 2),
        absi(v_sub(v, v_mul_div(n, dot2(n, v), norm2(n))).x) <= s + 2,
        absi(v_sub(v, v_mul_div(n, dot2(n, v), norm2(n))).y) <= s + 2,
{
    let nn = norm2(n);
    let rv = dot2(n, v);
    let vv = norm2(v);
    let c = n.x * v.y - n.y * v.x;
    lemma_lagrange(n.x, n.y, v.x, v.y);
    assert(c * c + rv * rv == nn * vv);
    let tx = div_t(n.x * rv, nn);
    let ty = div_t(n.y * rv, nn);
    let ux = v.x - tx;
    let uy = v.y - ty;
    lemma_div_t(n.x * rv, nn);
    lemma_div_t(n.y * rv, nn);
    let dx = n.x * rv - tx * nn;
    let dy = n.y * rv - ty * nn;
    assert(absi(dx) < nn) by (nonlinear_arith)
        requires
            nn >= 1,
            dx == n.x * rv - tx * nn,
            absi(tx) * nn <= absi(n.x * rv),
            absi(n.x * rv) < absi(tx) * nn + nn,
            n.x * rv >= 0 ==> tx >= 0,
            n.x * rv <= 0 ==> tx <= 0,
    ;
    assert(absi(dy) < nn) by (nonlinear_arith)
        requires
            nn >= 1,
            dy == n.y * rv - ty * nn,
            absi(ty) * nn <= absi(n.y * rv),
            absi(n.y * rv) < absi(ty) * nn + nn,
            n.y * rv >= 0 ==> ty >= 0,
            n.y * rv <= 0 ==> ty <= 0,
    ;
    let wx = v.x * nn - n.x * rv;
    let wy = v.y * nn - n.y * rv;
    lemma_w_decomp(n.x, n.y, v.x, v.y);
    assert(wx == -(n.y * c) && wy == n.x * c);
    assert(wx * wx + wy * wy == nn * (c * c)) by (nonlinear_arith)
        requires
            wx == -(n.y * c),
            wy == n.x * c,
            nn == n.x * n.x + n.y * n.y,
    ;
    assert(c * c <= nn * (s * s)) by (nonlinear_arith)
        requires
            c * c + rv * rv == nn * vv,
            vv <= s * s,
            nn >= 1,
    ;
    let m = nn * s;
    assert(wx * wx + wy * wy <= m * m && m >= 0) by (nonlinear_arith)
        requires
            wx * wx + wy * wy == nn * (c * c),
            c * c <= nn * (s * s),
            nn >= 1,
            s >= 0,
            m == nn * s,
    ;
    assert(absi(wx) <= m && absi(wy) <= m) by (nonlinear_arith)
        requires
            m >= 0,
            wx * wx + wy * wy <= m * m,
    ;
    assert(ux * nn == wx + dx && uy * nn == wy + dy) by (nonlinear_arith)
        requires
            ux == v.x - tx,
            uy == v.y - ty,
            wx == v.x * nn - n.x * rv,
            wy == v.y * nn - n.y * rv,
            dx == n.x * rv - tx * nn,
            dy == n.y * rv - ty * nn,
    ;
    assert((wx + dx) * (wx + dx) <= wx * wx + 2 * (m * nn) + nn * nn) by (nonlinear_arith)
        requires
            absi(wx) <= m,
            absi(dx) < nn,
            nn >= 1,
            m >= 0,
    ;
    assert((wy + dy) * (wy + dy) <= wy * wy + 2 * (m * nn) + nn * nn) by (nonlinear_arith)
        requires
            absi(wy) <= m,
            absi(dy) < nn,
            nn >= 1,
            m >= 0,
    ;
    assert(wx * wx + wy * wy + 4 * (m * nn) + 2 * (nn * nn) <= (nn * (s + 2)) * (nn * (s + 2)))
        by (nonlinear_arith)
        requires
            wx * wx + wy * wy <= m * m,
            m == nn * s,
            nn >= 1,
            s >= 0,
    ;
    assert((ux * nn) * (ux * nn) == (wx + dx) * (wx + dx) && (uy * nn) * (uy * nn) == (wy + dy)
        * (wy + dy)) by (nonlinear_arith)
        requires
            ux * nn == wx + dx,
            uy * nn == wy + dy,
    ;
    assert(ux * ux + uy * uy <= (s + 2) * (s + 2) && absi(ux) <= s + 2 && absi(uy) <= s + 2)
        by (nonlinear_arith)
        requires
            nn >= 1,
            s >= 0,
            (ux * nn) * (ux * nn) + (uy * nn) * (uy * nn) <= (nn * (s + 2)) * (nn * (s + 2)),
    ;
}

impl Vec2 {
    pub fn new(x: i64, y: i64) -> (r: Vec2)
        ensures
            r@ == (V2 { x: x as int, y: y as int }),
    {
        Vec2 { x, y }
    }

    pub fn add(self, o: Vec2) -> (r: Vec2)
        requires
            i64::MIN as int <= self@.x + o@.x <= i64::MAX as int,
            i64::MIN as int <= self@.y + o@.y <= i64::MAX as int,
        ensures
            r@ == v_add(self@, o@),
    {
        Vec2 { x: self.x + o.x, y: self.y + o.y }
    }

    pub fn sub(self, o: Vec2) -> (r: Vec2)
        requires
            i64::MIN as int <= self@.x - o@.x <= i64::MAX as int,
            i64::MIN as int <= self@.y - o@.y <= i64::MAX as int,
        ensures
            r@ == v_sub(self@, o@),
    {
        Vec2 { x: self.x - o.x, y: self.y - o.y }
    }

    pub fn rotate_90(self) -> (r: Vec2)
        requires
            self@.x > i64::MIN as int,
            self@.y > i64::MIN as int,
        ensures
            r@ == rot90(self@),
    {
        Vec2 { x: -self.y, y: self.x }
    }

    /// The dot product, widened to 128 bits so it is exact for every pair
    /// of vectors within the coordinate cap.
    pub fn dot(self, o: Vec2) -> (r: i128)
        requires
            absi(self@.x) <= 4 * COORD_CAP as int,
            absi(self@.y) <= 4 * COORD_CAP as int,
            absi(o@.x) <= 4 * COORD_CAP as int,
            absi(o@.y) <= 4 * COORD_CAP as int,
        ensures
            r as int == dot2(self@, o@),
    {
        proof {
            assert(absi(self@.x * o@.x) <= 16_000_000_000_000_000_000_000_000_000_000int
                && absi(self@.y * o@.y) <= 16_000_000_000_000_000_000_000_000_000_000int)
                by (nonlinear_arith)
                requires
                    absi(self@.x) <= 4 * COORD_CAP as int,
                    absi(self@.y) <= 4 * COORD_CAP as int,
                    absi(o@.x) <= 4 * COORD_CAP as int,
                    absi(o@.y) <= 4 * COORD_CAP as int,
                    COORD_CAP == 1_000_000_000_000_000i64,
            ;
        }
        (self.x as i128) * (o.x as i128) + (self.y as i128) * (o.y as i128)
    }

    /// The fixed-point length.
    pub fn len64(self) -> (r: i64)
        requires
            -COORD_CAP as int <= self@.x <= COORD_CAP as int,
            -COORD_CAP as int <= self@.y <= COORD_CAP as int,
        ensures
            r as int == vlen(self@),
            r >= 0,
    {
        let n2 = self.dot(self);
        proof {
            lemma_norm2_pos(self@);
            assert(norm2(self@) <= (2 * COORD_CAP as int) * (COORD_CAP as int))
                by (nonlinear_arith)
                requires
                    -COORD_CAP as int <= self@.x <= COORD_CAP as int,
                    -COORD_CAP as int <= self@.y <= COORD_CAP as int,
                    norm2(self@) == self@.x * self@.x + self@.y * self@.y,
            ;
        }
        let r = isqrt(n2 as u128);
        proof {
            lemma_sqrt_floor(norm2(self@));
            lemma_sqrt_unique(norm2(self@), r as int, sqrt_floor(norm2(self@)));
            lemma_sqrt_le(norm2(self@), 2 * COORD_CAP as int);
        }
        r as i64
    }

    /// Both components scaled by `m / d` with truncation towards zero.
    pub fn mul_div(self, m: i64, d: i64) -> (r: Vec2)
        requires
            d >= 1,
            self@.x * m <= d * (i64::MAX as int),
            -(d * (i64::MAX as int)) <= self@.x * m,
            self@.y * m <= d * (i64::MAX as int),
            -(d * (i64::MAX as int)) <= self@.y * m,
        ensures
            r@ == v_mul_div(self@, m as int, d as int),
    {
        Vec2 { x: muldiv64(self.x, m, d), y: muldiv64(self.y, m, d) }
    }

    /// The unit direction of `self`, scaled by `SCALE`; the zero vector is
    /// returned unchanged.
    pub fn normalize(self) -> (r: Vec2)
        requires
            -COORD_CAP as int <= self@.x <= COORD_CAP as int,
            -COORD_CAP as int <= self@.y <= COORD_CAP as int,
        ensures
            r@ == vunit(self@),
            absi(r@.x) <= SCALE as int,
            absi(r@.y) <= SCALE as int,
    {
        proof {
            lemma_vunit_bounds(self@);
        }
        if self.x == 0 && self.y == 0 {
            Vec2 { x: 0, y: 0 }
        } else {
            let l = self.len64();
            proof {
                lemma_vlen(self@);
                lemma_norm2_pos(self@);
                assert(l >= 1) by (nonlinear_arith)
                    requires
                        l >= 0,
                        l as int * l as int <= norm2(self@) < (l as int + 1) * (l as int + 1),
                        norm2(self@) >= 1,
                ;
                assert(absi(self@.x * (SCALE as int)) <= l as int * (SCALE as int)
                    && absi(self@.y * (SCALE as int)) <= l as int * (SCALE as int))
                    by (nonlinear_arith)
                    requires
                        absi(self@.x) <= l as int,
                        absi(self@.y) <= l as int,
                ;
                assert(l as int * (SCALE as int) <= l as int * (i64::MAX as int))
                    by (nonlinear_arith)
                    requires
                        l >= 1,
                ;
            }
            self.mul_div(SCALE, l)
        }
    }
}

} // verus!
