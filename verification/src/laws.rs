//! Laws of the physics core, proved once and for all inputs.

use crate::body::{apply_seg_spec, ball_grav_spec, ball_step_spec, resolve_from, BallG};
use crate::collision::{detect_spec, SegG, Segment};
use crate::math::{absi, div_t, is_sqrt, lemma_div_t, lemma_sqrt_floor, lemma_sqrt_ge,
    lemma_sqrt_le, lemma_sqrt_unique, sqrt_floor};
use crate::player::chain_pull_spec;
use crate::vec2::{dot2, lemma_norm2_pos, lemma_vlen, norm2, rot90, v_mul_div, v_sub, vlen,
    vunit, V2};
use vstd::arithmetic::div_mod::lemma_div_multiples_vanish;
use vstd::prelude::*;

verus! {

/// The chain only ever pulls the excess away: after the pull the two
/// bodies are at most one rounding tick beyond the chain length apart,
/// and a slack chain moves nothing.
pub proof fn law_chain_pull_within(char_pos: V2, ball_pos: V2, chain: int)
    requires
        chain >= 0,
    ensures
        vlen(v_sub(ball_pos, chain_pull_spec(char_pos, ball_pos, chain))) <= chain + 1,
        vlen(v_sub(ball_pos, char_pos)) <= chain ==> chain_pull_spec(char_pos, ball_pos, chain)
            == char_pos,
{
    let delta = v_sub(ball_pos, char_pos);
    let l = vlen(delta);
    lemma_norm2_pos(delta);
    lemma_vlen(delta);
    if l > chain {
        let t = v_mul_div(delta, chain, l);
        lemma_div_t(delta.x * chain, l);
        lemma_div_t(delta.y * chain, l);
        assert((t.x * l) * (t.x * l) <= (delta.x * chain) * (delta.x * chain)
            && (t.y * l) * (t.y * l) <= (delta.y * chain) * (delta.y * chain))
            by (nonlinear_arith)
            requires
                absi(t.x) * l <= absi(delta.x * chain),
                absi(t.y) * l <= absi(delta.y * chain),
                l >= 1,
        ;
        assert(norm2(t) * (l * l) == (t.x * l) * (t.x * l) + (t.y * l) * (t.y * l))
            by (nonlinear_arith)
            requires
                norm2(t) == t.x * t.x + t.y * t.y,
        ;
        assert((delta.x * chain) * (delta.x * chain) + (delta.y * chain) * (delta.y * chain)
            == (chain * chain) * norm2(delta)) by (nonlinear_arith)
            requires
                norm2(delta) == delta.x * delta.x + delta.y * delta.y,
        ;
        assert(norm2(t) * (l * l) <= (chain * chain) * norm2(delta));
        assert((chain * chain) * norm2(delta) <= (l * l) * ((chain + 1) * (chain + 1)))
            by (nonlinear_arith)
            requires
                0 <= chain,
                chain < l,
                norm2(delta) < (l + 1) * (l + 1),
                norm2(delta) >= 0,
        ;
        assert(norm2(t) <= (chain + 1) * (chain + 1)) by (nonlinear_arith)
            requires
                norm2(t) * (l * l) <= (l * l) * ((chain + 1) * (chain + 1)),
                l >= 1,
        ;
        lemma_norm2_pos(t);
        lemma_sqrt_le(norm2(t), chain + 1);
        assert(v_sub(ball_pos, chain_pull_spec(char_pos, ball_pos, chain)) == t);
    }
}

/// A circle clear of the whole capsule around a segment produces no
/// contact: both endpoints at least the radius away, and the detector's
/// measured fixed-point distance from the segment's line at least the
/// radius in magnitude.
pub proof fn law_detect_none_when_clear(pos: V2, size: int, s: SegG)
    requires
        size >= 0,
        norm2(v_sub(pos, s.p1)) >= size * size,
        norm2(v_sub(pos, s.p2)) >= size * size,
        ({
            let n = rot90(vunit(v_sub(s.p2, s.p1)));
            absi(div_t(dot2(n, v_sub(pos, s.p1)), vlen(n))) >= size
        }),
    ensures
        detect_spec(pos, size, s) is None,
{
    lemma_norm2_pos(v_sub(pos, s.p1));
    lemma_norm2_pos(v_sub(pos, s.p2));
    lemma_sqrt_ge(norm2(v_sub(pos, s.p1)), size);
    lemma_sqrt_ge(norm2(v_sub(pos, s.p2)), size);
}

/// Per-component building block: a scaled unit component, squared, loses
/// at most two rounding strips against the exact ratio.
proof fn lemma_unit_comp_sq(q: int, l: int, u: int)
    requires
        l >= 1,
        absi(u) * l <= absi(q),
        absi(q) < absi(u) * l + l,
    ensures
        (u * l) * (u * l) >= q * q - 2 * (absi(q) * l),
{
    assert((u * l) * (u * l) >= q * q - 2 * (absi(q) * l)) by (nonlinear_arith)
        requires
            l >= 1,
            absi(u) * l <= absi(q),
            absi(q) < absi(u) * l + l,
    ;
}

/// The scaled unit vector of a segment at least one unit long keeps a
/// squared length within four thousandths of the exact `SCALE` squared.
proof fn lemma_unit_norm_lower(v: V2)
    requires
        norm2(v) >= 1_000_000,
    ensures
        norm2(vunit(v)) >= 996_000,
{
    let l = vlen(v);
    lemma_norm2_pos(v);
    lemma_vlen(v);
    lemma_sqrt_ge(norm2(v), 1000);
    let qx = v.x * 1000;
    let qy = v.y * 1000;
    lemma_div_t(qx, l);
    lemma_div_t(qy, l);
    let u = vunit(v);
    lemma_unit_comp_sq(qx, l, u.x);
    lemma_unit_comp_sq(qy, l, u.y);
    assert(qx * qx + qy * qy == 1_000_000 * norm2(v)) by (nonlinear_arith)
        requires
            qx == v.x * 1000,
            qy == v.y * 1000,
            norm2(v) == v.x * v.x + v.y * v.y,
    ;
    assert(absi(qx) * l + absi(qy) * l <= 2000 * (l * l)) by (nonlinear_arith)
        requires
            qx == v.x * 1000,
            qy == v.y * 1000,
            absi(v.x) <= l,
            absi(v.y) <= l,
            l >= 1,
    ;
    assert(norm2(u) * (l * l) == (u.x * l) * (u.x * l) + (u.y * l) * (u.y * l))
        by (nonlinear_arith)
        requires
            norm2(u) == u.x * u.x + u.y * u.y,
    ;
    assert(norm2(u) * (l * l) >= 996_000 * (l * l)) by (nonlinear_arith)
        requires
            norm2(u) * (l * l) == (u.x * l) * (u.x * l) + (u.y * l) * (u.y * l),
            (u.x * l) * (u.x * l) >= qx * qx - 2 * (absi(qx) * l),
            (u.y * l) * (u.y * l) >= qy * qy - 2 * (absi(qy) * l),
            qx * qx + qy * qy == 1_000_000 * norm2(v),
            absi(qx) * l + absi(qy) * l <= 2000 * (l * l),
            norm2(v) >= l * l,
            l >= 1000,
    ;
    assert(norm2(u) >= 996_000) by (nonlinear_arith)
        requires
            norm2(u) * (l * l) >= 996_000 * (l * l),
            l >= 1,
    ;
}

/// Pushing the body out along the line-contact normal leaves it at most
/// three thousandths of a unit short of full separation: the corrected
/// centre sits at least `size - 3` (in the detector's fixed-point
/// distance) from the segment's line.
pub proof fn law_correction_clears_penetration(b: BallG, s: SegG)
    requires
        norm2(v_sub(s.p2, s.p1)) >= 1_000_000,
        dot2(v_sub(s.p2, s.p1), v_sub(b.pos, s.p1)) >= 0,
        dot2(
            V2 { x: -(s.p2.x - s.p1.x), y: -(s.p2.y - s.p1.y) },
            v_sub(b.pos, s.p2),
        ) >= 0,
        ({
            let n = rot90(vunit(v_sub(s.p2, s.p1)));
            let d = div_t(dot2(n, v_sub(b.pos, s.p1)), vlen(n));
            0 < d < b.size
        }),
    ensures
        ({
            let n = rot90(vunit(v_sub(s.p2, s.p1)));
            dot2(n, v_sub(apply_seg_spec(b, s).pos, s.p1)) >= (b.size - 3) * vlen(n)
        }),
{
    let v = v_sub(s.p2, s.p1);
    let u = vunit(v);
    let n = rot90(u);
    lemma_unit_norm_lower(v);
    crate::vec2::lemma_vunit_bounds(v);
    assert(norm2(n) == norm2(u) && absi(n.x) <= 1000 && absi(n.y) <= 1000) by (nonlinear_arith)
        requires
            n == rot90(u),
            norm2(n) == n.x * n.x + n.y * n.y,
            norm2(u) == u.x * u.x + u.y * u.y,
            absi(u.x) <= 1000,
            absi(u.y) <= 1000,
    ;
    let ln = vlen(n);
    lemma_norm2_pos(n);
    lemma_vlen(n);
    lemma_sqrt_ge(norm2(n), 997);
    assert(997 * 997 <= 996_000);
    let sub = v_sub(b.pos, s.p1);
    let draw = dot2(n, sub);
    let d = div_t(draw, ln);
    lemma_div_t(draw, ln);
    assert(draw >= d * ln) by (nonlinear_arith)
        requires
            d == div_t(draw, ln),
            ln >= 1,
            absi(d) * ln <= absi(draw),
            draw >= 0 ==> d >= 0,
            draw <= 0 ==> d <= 0,
            d > 0,
    ;
    let pen = b.size - d;
    let tp = v_mul_div(n, pen, ln);
    lemma_div_t(n.x * pen, ln);
    lemma_div_t(n.y * pen, ln);
    assert(n.x * tp.x * ln >= (n.x * n.x) * pen - absi(n.x) * ln) by (nonlinear_arith)
        requires
            ln >= 1,
            pen >= 0,
            tp.x == div_t(n.x * pen, ln),
            absi(tp.x) * ln <= absi(n.x * pen),
            absi(n.x * pen) < absi(tp.x) * ln + ln,
            n.x * pen >= 0 ==> tp.x >= 0,
            n.x * pen <= 0 ==> tp.x <= 0,
    ;
    assert(n.y * tp.y * ln >= (n.y * n.y) * pen - absi(n.y) * ln) by (nonlinear_arith)
        requires
            ln >= 1,
            pen >= 0,
            tp.y == div_t(n.y * pen, ln),
            absi(tp.y) * ln <= absi(n.y * pen),
            absi(n.y * pen) < absi(tp.y) * ln + ln,
            n.y * pen >= 0 ==> tp.y >= 0,
            n.y * pen <= 0 ==> tp.y <= 0,
    ;
    assert(dot2(n, tp) * ln == n.x * tp.x * ln + n.y * tp.y * ln) by (nonlinear_arith)
        requires
            dot2(n, tp) == n.x * tp.x + n.y * tp.y,
    ;
    assert((n.x * n.x) * pen + (n.y * n.y) * pen >= (ln * ln) * pen) by (nonlinear_arith)
        requires
            norm2(n) == n.x * n.x + n.y * n.y,
            norm2(n) >= ln * ln,
            pen >= 0,
    ;
    assert(dot2(n, tp) * ln >= (ln * ln) * pen - 2000 * ln) by (nonlinear_arith)
        requires
            dot2(n, tp) * ln == n.x * tp.x * ln + n.y * tp.y * ln,
            n.x * tp.x * ln >= (n.x * n.x) * pen - absi(n.x) * ln,
            n.y * tp.y * ln >= (n.y * n.y) * pen - absi(n.y) * ln,
            (n.x * n.x) * pen + (n.y * n.y) * pen >= (ln * ln) * pen,
            absi(n.x) <= 1000,
            absi(n.y) <= 1000,
            ln >= 1,
    ;
    assert(dot2(n, tp) >= ln * pen - 2000) by (nonlinear_arith)
        requires
            dot2(n, tp) * ln >= (ln * ln) * pen - 2000 * ln,
            ln >= 1,
    ;
    let b2 = apply_seg_spec(b, s);
    assert(b2.pos == crate::vec2::v_add(b.pos, tp));
    assert(dot2(n, v_sub(b2.pos, s.p1)) == draw + dot2(n, tp)) by (nonlinear_arith)
        requires
            b2.pos == (V2 { x: b.pos.x + tp.x, y: b.pos.y + tp.y }),
            draw == n.x * (b.pos.x - s.p1.x) + n.y * (b.pos.y - s.p1.y),
            dot2(n, tp) == n.x * tp.x + n.y * tp.y,
            dot2(n, v_sub(b2.pos, s.p1)) == n.x * (b2.pos.x - s.p1.x) + n.y * (b2.pos.y
                - s.p1.y),
    ;
    assert(draw + dot2(n, tp) >= (b.size - 3) * ln) by (nonlinear_arith)
        requires
            draw >= d * ln,
            dot2(n, tp) >= ln * pen - 2000,
            pen == b.size - d,
            ln >= 997,
            0 < d < b.size,
    ;
}

/// A falling body with straight-down motion that ends a step inside the
/// contact band of a flat floor comes to rest on it in that very step:
/// grounded, all velocity damped away, sitting exactly one radius above
/// the floor.
pub proof fn law_falling_body_lands_on_flat_floor(b: BallG, level: Seq<Segment>, dt: int)
    requires
        level.len() == 1,
        level[0]@.p1.y == level[0]@.p2.y,
        level[0]@.p1.x < level[0]@.p2.x,
        !b.stand,
        b.vel.x == 0,
        b.vel.y <= 0,
        b.size > 0,
        1 <= dt,
        level[0]@.p1.x <= b.pos.x <= level[0]@.p2.x,
        ({
            let y1 = b.pos.y + div_t((b.vel.y - 50 * dt) * dt, 1000);
            level[0]@.p1.y < y1 && y1 < level[0]@.p1.y + b.size
        }),
    ensures
        ball_step_spec(b, level, dt).stand,
        ball_step_spec(b, level, dt).vel == (V2 { x: 0, y: 0 }),
        ball_step_spec(b, level, dt).pos == (V2 { x: b.pos.x, y: level[0]@.p1.y + b.size }),
{
    let s = level[0]@;
    let h = s.p1.y;
    // The gravity half-step: exactly fifty ticks of velocity per tick of
    // time, and no horizontal drift.
    lemma_div_multiples_vanish(50 * dt, 1000);
    assert(50000 * dt == 1000 * (50 * dt)) by (nonlinear_arith);
    assert(div_t(50000 * dt, 1000) == 50 * dt);
    let vy1 = b.vel.y - 50 * dt;
    let b1 = ball_grav_spec(b, dt);
    assert(b1.vel.x * dt == 0) by (nonlinear_arith)
        requires
            b1.vel.x == 0,
    ;
    assert(b1.vel == (V2 { x: 0, y: vy1 }));
    let y1 = b.pos.y + div_t(vy1 * dt, 1000);
    assert(b1.pos == (V2 { x: b.pos.x, y: y1 }));
    // The detector measures the vertical gap exactly on a flat floor.
    let v = v_sub(s.p2, s.p1);
    let w = s.p2.x - s.p1.x;
    assert(dot2(v, v_sub(b1.pos, s.p1)) >= 0 && dot2(
        V2 { x: -v.x, y: -v.y },
        v_sub(b1.pos, s.p2),
    ) >= 0) by (nonlinear_arith)
        requires
            v == (V2 { x: w, y: 0 }),
            w >= 1,
            s.p1.x <= b1.pos.x <= s.p2.x,
            w == s.p2.x - s.p1.x,
    ;
    assert(is_sqrt(w * w, w)) by (nonlinear_arith)
        requires
            w >= 1,
    ;
    assert(norm2(v) == w * w) by (nonlinear_arith)
        requires
            v == (V2 { x: w, y: 0 }),
    ;
    lemma_sqrt_floor(norm2(v));
    lemma_sqrt_unique(norm2(v), w, sqrt_floor(norm2(v)));
    lemma_div_multiples_vanish(1000, w);
    assert(w * 1000 == 1000 * w && w * 1000 >= 0) by (nonlinear_arith)
        requires
            w >= 1,
    ;
    assert(vunit(v) == (V2 { x: 1000, y: 0 }));
    let n = rot90(vunit(v));
    assert(n == (V2 { x: 0, y: 1000 }));
    assert(is_sqrt(1000000, 1000));
    lemma_sqrt_floor(norm2(n));
    lemma_sqrt_unique(norm2(n), 1000, sqrt_floor(norm2(n)));
    assert(vlen(n) == 1000);
    let gap = y1 - h;
    assert(dot2(n, v_sub(b1.pos, s.p1)) == 1000 * gap) by (nonlinear_arith)
        requires
            n == (V2 { x: 0, y: 1000 }),
            dot2(n, v_sub(b1.pos, s.p1)) == n.x * (b1.pos.x - s.p1.x) + n.y * (b1.pos.y
                - s.p1.y),
            gap == b1.pos.y - s.p1.y,
    ;
    lemma_div_multiples_vanish(gap, 1000);
    let d = div_t(dot2(n, v_sub(b1.pos, s.p1)), vlen(n));
    assert(d == gap);
    let pen = b.size - gap;
    assert(detect_spec(b1.pos, b1.size, s) == Some(
        crate::collision::CollisionG { normal: n, penetration: pen },
    ));
    // Resolution: pushed straight up onto the floor, the fall fully
    // damped, and the floor is steep enough to ground the body.
    lemma_div_multiples_vanish(pen, 1000);
    assert(1000 * pen >= 0);
    assert(v_mul_div(n, pen, 1000) == (V2 { x: 0, y: pen }));
    assert(dot2(n, b1.vel) == 1000 * vy1);
    assert(1000 * vy1 < 0) by (nonlinear_arith)
        requires
            vy1 <= -50,
    ;
    lemma_div_multiples_vanish(vy1, 1000000);
    assert(1000 * (1000 * vy1) == 1000000 * vy1) by (nonlinear_arith);
    assert(div_t(1000 * (1000 * vy1), 1000000) == vy1) by {
        assert((-(1000000 * vy1)) == 1000000 * (-vy1)) by (nonlinear_arith);
        lemma_div_multiples_vanish(-vy1, 1000000);
    };
    assert(n.x * dot2(n, b1.vel) == 0 && n.y * dot2(n, b1.vel) == 1000 * (1000 * vy1))
        by (nonlinear_arith)
        requires
            n == (V2 { x: 0, y: 1000 }),
            dot2(n, b1.vel) == 1000 * vy1,
    ;
    assert(v_mul_div(n, dot2(n, b1.vel), norm2(n)) == (V2 { x: 0, y: vy1 }));
    let b2 = apply_seg_spec(b1, s);
    assert(b2.stand && b2.vel == (V2 { x: 0, y: 0 }) && b2.pos == (V2 {
        x: b.pos.x,
        y: h + b.size,
    }));
    assert(resolve_from(b1, level, 0) == resolve_from(b2, level, 1));
    assert(resolve_from(b2, level, 1) == b2);
}

/// A grounded body with zero velocity stays at zero velocity and grounded
/// through contact resolution, whatever contacts the level produces.
proof fn lemma_resting_resolve(b: BallG, level: Seq<Segment>, i: int)
    requires
        b.stand,
        b.vel == (V2 { x: 0, y: 0 }),
    ensures
        resolve_from(b, level, i).stand,
        resolve_from(b, level, i).vel == (V2 { x: 0, y: 0 }),
    decreases level.len() - i,
{
    if i < 0 || i >= level.len() {
    } else {
        let b1 = apply_seg_spec(b, level[i]@);
        assert(b1.stand && b1.vel == (V2 { x: 0, y: 0 })) by {
            match crate::collision::detect_spec(b.pos, b.size, level[i]@) {
                Some(c) => {
                    assert(dot2(c.normal, b.vel) == 0) by (nonlinear_arith)
                        requires
                            b.vel.x == 0,
                            b.vel.y == 0,
                            dot2(c.normal, b.vel) == c.normal.x * b.vel.x + c.normal.y
                                * b.vel.y,
                    ;
                },
                None => {},
            }
        };
        lemma_resting_resolve(b1, level, i + 1);
    }
}

/// A body that has come to rest on ground keeps zero velocity and stays
/// grounded for every later step: gravity is suppressed, its velocity is
/// zeroed, and no contact can push it back into motion.
pub proof fn law_grounded_body_stays_at_rest(b: BallG, level: Seq<Segment>, dt: int)
    requires
        b.stand,
    ensures
        ball_step_spec(b, level, dt).stand,
        ball_step_spec(b, level, dt).vel == (V2 { x: 0, y: 0 }),
{
    let b1 = ball_grav_spec(b, dt);
    assert(b1.stand && b1.vel == (V2 { x: 0, y: 0 }));
    lemma_resting_resolve(b1, level, 0);
}

} // verus!
