//! The body integrator: a circular body advanced one step under gravity and
//! resolved against every segment of the static level.

use crate::collision::{detect_spec, level_wf, seg_wf, Collision, CollisionG, Segment, MAX_RADIUS};
use crate::math::{absi, div_t, lemma_div_t, lemma_div_t_le, lemma_sqrt_floor, lemma_sqrt_le,
    muldiv64, sqrt_floor};
use crate::vec2::{dot2, lemma_comps_le, lemma_norm2_pos, lemma_project, lemma_vlen, norm2, rot90,
    v_add, v_mul_div, v_neg, v_sub, vlen, vunit, Vec2, COORD_CAP, SCALE, V2};
use vstd::prelude::*;

verus! {

/// Downward acceleration, in thousandths of a unit per second squared.
pub const GRAVITY: i64 = 50_000;

/// Largest time step one update accepts, in thousandths of a second.
pub const MAX_DT: i64 = 10_000;

/// Position cap accepted by `Ball::update`.
pub const BODY_POS_CAP: i64 = 100_000_000_000_000;

/// Euclidean velocity cap accepted by `Ball::update`.
pub const BODY_VEL_CAP: i64 = 10_000_000_000;

/// A circular body: centre, velocity, radius, and whether it rests on
/// near-horizontal ground.
#[derive(Clone, Copy, PartialEq, Eq, Structural, Debug)]
pub struct Ball {
    pub pos: Vec2,
    pub vel: Vec2,
    pub size: i64,
    pub stand: bool,
}

/// The mathematical shadow of a `Ball`.
pub ghost struct BallG {
    pub pos: V2,
    pub vel: V2,
    pub size: int,
    pub stand: bool,
}

impl View for Ball {
    type V = BallG;

    open spec fn view(&self) -> BallG {
        BallG { pos: self.pos@, vel: self.vel@, size: self.size as int, stand: self.stand }
    }
}

/// A body's radius is positive and capped.
pub open spec fn ball_wf(b: BallG) -> bool {
    0 < b.size <= MAX_RADIUS as int
}

/// The gravity half of a step: a standing body has its velocity zeroed, a
/// falling one accelerates downward and moves by `velocity * dt`
/// (semi-implicit Euler).
pub open spec fn ball_grav_spec(b: BallG, dt: int) -> BallG {
    if !b.stand {
        let vel1 = V2 { x: b.vel.x, y: b.vel.y - div_t(GRAVITY as int * dt, SCALE as int) };
        BallG {
            pos: v_add(b.pos, v_mul_div(vel1, dt, SCALE as int)),
            vel: vel1,
            size: b.size,
            stand: b.stand,
        }
    } else {
        BallG { pos: b.pos, vel: V2 { x: 0, y: 0 }, size: b.size, stand: b.stand }
    }
}

/// One contact resolved: the body is pushed out along the normal by the
/// penetration; if it moves into the surface, the velocity loses its normal
/// component and the body counts as grounded when the surface is steep
/// enough towards horizontal (`normal.y` above twice `|normal.x|`).
pub open spec fn resolve_spec(b: BallG, c: CollisionG) -> BallG {
    let pos1 = v_add(b.pos, v_mul_div(c.normal, c.penetration, vlen(c.normal)));
    let rv = dot2(c.normal, b.vel);
    if rv < 0 {
        let stand1 = if c.normal.y > 2 * absi(c.normal.x) {
            true
        } else {
            b.stand
        };
        let vel1 = v_sub(b.vel, v_mul_div(c.normal, rv, norm2(c.normal)));
        BallG { pos: pos1, vel: vel1, size: b.size, stand: stand1 }
    } else {
        BallG { pos: pos1, vel: b.vel, size: b.size, stand: b.stand }
    }
}

/// The effect of testing one segment: resolve its contact if there is one.
pub open spec fn apply_seg_spec(b: BallG, s: crate::collision::SegG) -> BallG {
    match detect_spec(b.pos, b.size, s) {
        Some(c) => resolve_spec(b, c),
        None => b,
    }
}

/// Sequential resolution against the level's segments from index `i` on.
pub open spec fn resolve_from(b: BallG, level: Seq<Segment>, i: int) -> BallG
    decreases level.len() - i,
{
    if i < 0 || i >= level.len() {
        b
    } else {
        resolve_from(apply_seg_spec(b, level[i]@), level, i + 1)
    }
}

/// One full integrator step: gravity, then every segment in order.
pub open spec fn ball_step_spec(b: BallG, level: Seq<Segment>, dt: int) -> BallG {
    resolve_from(ball_grav_spec(b, dt), level, 0)
}

impl Ball {
    /// A body at rest at `pos` with radius `size`.
    pub fn new(pos: Vec2, size: i64) -> (r: Ball)
        ensures
            r@ == (BallG { pos: pos@, vel: V2 { x: 0, y: 0 }, size: size as int, stand: false }),
    {
        Ball { pos, size, vel: Vec2 { x: 0, y: 0 }, stand: false }
    }

    /// Test this body against one segment; reports exactly what
    /// `detect_spec` describes.
    pub fn collide(&self, segment: &Segment) -> (r: Option<Collision>)
        requires
            ball_wf(self@),
            absi(self@.pos.x) <= 2 * BODY_POS_CAP as int,
            absi(self@.pos.y) <= 2 * BODY_POS_CAP as int,
            seg_wf(segment@),
        ensures
            match r {
                Some(c) => {
                    &&& detect_spec(self@.pos, self@.size, segment@) == Some(c@)
                    &&& absi(c@.normal.x) <= SCALE as int
                    &&& absi(c@.normal.y) <= SCALE as int
                    &&& 0 < c@.penetration <= self@.size
                },
                None => detect_spec(self@.pos, self@.size, segment@) is None,
            },
    {
        let v = segment.p2.sub(segment.p1);
        let to1 = self.pos.sub(segment.p1);
        let d1 = v.dot(to1);
        if d1 < 0 {
            let len = to1.len64();
            let pen = self.size - len;
            if pen > 0 {
                proof {
                    lemma_vlen(to1@);
                }
                Some(Collision { normal: to1.normalize(), penetration: pen })
            } else {
                None
            }
        } else {
            let nv = Vec2 { x: -v.x, y: -v.y };
            let to2 = self.pos.sub(segment.p2);
            let d2 = nv.dot(to2);
            if d2 < 0 {
                let len = to2.len64();
                let pen = self.size - len;
                if pen > 0 {
                    proof {
                        lemma_vlen(to2@);
                    }
                    Some(Collision { normal: to2.normalize(), penetration: pen })
                } else {
                    None
                }
            } else {
                let n = v.normalize().rotate_90();
                let nlen = n.len64();
                if nlen == 0 {
                    None
                } else {
                    let draw = n.dot(to1);
                    proof {
                        assert(absi(dot2(n@, to1@)) <= 1000 * 201_000_000_000_000int * 2)
                            by (nonlinear_arith)
                            requires
                                absi(n@.x) <= 1000,
                                absi(n@.y) <= 1000,
                                absi(to1@.x) <= 201_000_000_000_000int,
                                absi(to1@.y) <= 201_000_000_000_000int,
                                dot2(n@, to1@) == n@.x * to1@.x + n@.y * to1@.y,
                        ;
                        assert(absi(dot2(n@, to1@)) <= (nlen as int) * absi(dot2(n@, to1@)))
                            by (nonlinear_arith)
                            requires
                                nlen >= 1,
                        ;
                        lemma_div_t_le(dot2(n@, to1@), nlen as int, absi(dot2(n@, to1@)));
                    }
                    let d128 = crate::math::div_t128(draw, nlen as i128);
                    let d = d128 as i64;
                    if 0 < d && d < self.size {
                        Some(Collision { normal: n, penetration: self.size - d })
                    } else if -self.size < d && d < 0 {
                        let fnv = Vec2 { x: -n.x, y: -n.y };
                        Some(Collision { normal: fnv, penetration: self.size + d })
                    } else {
                        None
                    }
                }
            }
        }
    }

    /// One integrator step against the whole level; the result is exactly
    /// `ball_step_spec`, the velocity grows by at most the gravity increment
    /// plus two rounding ticks per contact, and the position moves by at
    /// most one velocity step plus one radius per contact.
    pub fn update(&mut self, level: &Vec<Segment>, delta_time: i64)
        requires
            ball_wf(old(self)@),
            absi(old(self)@.pos.x) <= BODY_POS_CAP as int,
            absi(old(self)@.pos.y) <= BODY_POS_CAP as int,
            norm2(old(self)@.vel) <= (BODY_VEL_CAP as int) * (BODY_VEL_CAP as int),
            0 <= delta_time <= MAX_DT as int,
            level_wf(level@),
        ensures
            final(self)@ == ball_step_spec(old(self)@, level@, delta_time as int),
            final(self).size == old(self).size,
            old(self)@.stand ==> final(self)@.stand,
            ({
                let s0 = sqrt_floor(norm2(old(self)@.vel));
                let sg = s0 + 50 * delta_time + 1;
                let s1 = sg + 1 + 3 * level@.len() as int;
                &&& norm2(final(self)@.vel) <= s1 * s1
                &&& absi(final(self)@.pos.x - old(self)@.pos.x) * (SCALE as int) <= sg
                    * delta_time + (SCALE as int) * (level@.len() * (old(self)@.size + 1))
                &&& absi(final(self)@.pos.y - old(self)@.pos.y) * (SCALE as int) <= sg
                    * delta_time + (SCALE as int) * (level@.len() * (old(self)@.size + 1))
            }),
    {
        let ghost b0 = self@;
        let ghost s0 = sqrt_floor(norm2(b0.vel));
        proof {
            lemma_norm2_pos(b0.vel);
            lemma_sqrt_floor(norm2(b0.vel));
            lemma_vlen(b0.vel);
            lemma_sqrt_le(norm2(b0.vel), BODY_VEL_CAP as int);
        }
        if !self.stand {
            let g = muldiv64(GRAVITY, delta_time, SCALE);
            proof {
                lemma_div_t(GRAVITY as int * delta_time, SCALE as int);
                lemma_div_t_le(GRAVITY as int * delta_time, SCALE as int, 50 * delta_time);
            }
            self.vel = Vec2 { x: self.vel.x, y: self.vel.y - g };
            proof {
                assert(norm2(self@.vel) <= (s0 + 50 * delta_time + 1) * (s0 + 50 * delta_time
                    + 1)) by (nonlinear_arith)
                    requires
                        self@.vel.x == b0.vel.x,
                        self@.vel.y == b0.vel.y - g,
                        0 <= g <= 50 * delta_time,
                        delta_time >= 0,
                        absi(b0.vel.x) <= s0,
                        absi(b0.vel.y) <= s0,
                        s0 >= 0,
                        norm2(b0.vel) < (s0 + 1) * (s0 + 1),
                        norm2(b0.vel) == b0.vel.x * b0.vel.x + b0.vel.y * b0.vel.y,
                        norm2(self@.vel) == self@.vel.x * self@.vel.x + self@.vel.y * self@.vel.y,
                ;
                lemma_comps_le(self@.vel, s0 + 50 * delta_time + 1);
                assert(absi(self@.vel.x * delta_time) <= (SCALE as int) * ((s0 + 50 * delta_time
                    + 1) * MAX_DT as int)) by (nonlinear_arith)
                    requires
                        absi(self@.vel.x) <= s0 + 50 * delta_time + 1,
                        0 <= delta_time <= MAX_DT as int,
                        s0 >= 0,
                        SCALE == 1000i64,
                ;
                assert(absi(self@.vel.y * delta_time) <= (SCALE as int) * ((s0 + 50 * delta_time
                    + 1) * MAX_DT as int)) by (nonlinear_arith)
                    requires
                        absi(self@.vel.y) <= s0 + 50 * delta_time + 1,
                        0 <= delta_time <= MAX_DT as int,
                        s0 >= 0,
                        SCALE == 1000i64,
                ;
                assert((s0 + 50 * delta_time + 1) * MAX_DT as int <= i64::MAX as int)
                    by (nonlinear_arith)
                    requires
                        0 <= s0 <= BODY_VEL_CAP as int,
                        0 <= delta_time <= MAX_DT as int,
                ;
                lemma_div_t(self@.vel.x * delta_time, SCALE as int);
                lemma_div_t(self@.vel.y * delta_time, SCALE as int);
            }
            let dp = self.vel.mul_div(delta_time, SCALE);
            self.pos = self.pos.add(dp);
        } else {
            self.vel = Vec2 { x: 0, y: 0 };
        }
        let ghost b1 = self@;
        let ghost s1 = sqrt_floor(norm2(b1.vel));
        let ghost sg = s0 + 50 * delta_time + 1;
        proof {
            assert(b1 == ball_grav_spec(b0, delta_time as int));
            lemma_norm2_pos(b1.vel);
            lemma_sqrt_floor(norm2(b1.vel));
            assert(sg * sg >= 0 && sg * delta_time >= 0) by (nonlinear_arith)
                requires
                    sg >= 0,
                    delta_time >= 0,
            ;
            if b0.stand {
                assert(norm2(b1.vel) == 0);
            } else {
                assert(absi(b1.vel.x * delta_time) <= sg * delta_time && absi(b1.vel.y
                    * delta_time) <= sg * delta_time) by (nonlinear_arith)
                    requires
                        absi(b1.vel.x) <= sg,
                        absi(b1.vel.y) <= sg,
                        delta_time >= 0,
                ;
            }
            lemma_sqrt_le(norm2(b1.vel), sg);
            assert(absi(b1.pos.x - b0.pos.x) * (SCALE as int) <= sg * delta_time);
            assert(absi(b1.pos.y - b0.pos.y) * (SCALE as int) <= sg * delta_time);
        }
        let mut j: usize = 0;
        while j < level.len()
            invariant
                ball_wf(self@),
                self@.size == b0.size,
                level_wf(level@),
                0 <= delta_time <= MAX_DT as int,
                j <= level.len(),
                resolve_from(self@, level@, j as int) == resolve_from(b1, level@, 0),
                norm2(self@.vel) <= (s1 + 1 + 3 * j as int) * (s1 + 1 + 3 * j as int),
                absi(self@.pos.x - b1.pos.x) <= j as int * (b0.size + 1),
                absi(self@.pos.y - b1.pos.y) <= j as int * (b0.size + 1),
                0 <= s1 <= sg,
                sg == s0 + 50 * delta_time + 1,
                0 <= s0 <= BODY_VEL_CAP as int,
                absi(b1.pos.x - b0.pos.x) * (SCALE as int) <= sg * delta_time,
                absi(b1.pos.y - b0.pos.y) * (SCALE as int) <= sg * delta_time,
                absi(b0.pos.x) <= BODY_POS_CAP as int,
                absi(b0.pos.y) <= BODY_POS_CAP as int,
                b1.stand ==> self@.stand,
                b1.stand == b0.stand,
            decreases level.len() - j,
        {
            let ghost bprev = self@;
            let ghost sj = s1 + 1 + 3 * j as int;
            proof {
                assert(sg * delta_time <= sg * MAX_DT as int) by (nonlinear_arith)
                    requires
                        0 <= delta_time <= MAX_DT as int,
                        sg >= 0,
                ;
                assert(seg_wf(level@[j as int]@));
                lemma_comps_le(self@.vel, sj);
                assert(j as int * (b0.size + 1) <= 1000 * (MAX_RADIUS as int + 1))
                    by (nonlinear_arith)
                    requires
                        0 <= j as int <= 1000,
                        0 < b0.size <= MAX_RADIUS as int,
                ;
                assert(absi(self@.pos.x) <= 2 * BODY_POS_CAP as int);
                assert(absi(self@.pos.y) <= 2 * BODY_POS_CAP as int);
            }
            let seg = level[j];
            let r = self.collide(&seg);
            if let Some(col) = r {
                let nlen = col.normal.len64();
                proof {
                    lemma_vlen(col@.normal);
                }
                if nlen >= 1 {
                    proof {
                        assert(absi(col@.normal.x * col@.penetration) <= (nlen as int)
                            * col@.penetration) by (nonlinear_arith)
                            requires
                                absi(col@.normal.x) <= nlen as int,
                                0 < col@.penetration,
                        ;
                        assert(absi(col@.normal.y * col@.penetration) <= (nlen as int)
                            * col@.penetration) by (nonlinear_arith)
                            requires
                                absi(col@.normal.y) <= nlen as int,
                                0 < col@.penetration,
                        ;
                        assert((nlen as int) * col@.penetration <= (nlen as int) * (i64::MAX
                            as int)) by (nonlinear_arith)
                            requires
                                nlen >= 1,
                                0 < col@.penetration <= MAX_RADIUS as int,
                        ;
                        lemma_div_t_le(col@.normal.x * col@.penetration, nlen as int,
                            col@.penetration);
                        lemma_div_t_le(col@.normal.y * col@.penetration, nlen as int,
                            col@.penetration);
                    }
                    let tp = col.normal.mul_div(col.penetration, nlen);
                    self.pos = self.pos.add(tp);
                } else {
                    proof {
                        assert(self@.pos == v_add(bprev.pos, v_mul_div(col@.normal,
                            col@.penetration, vlen(col@.normal))));
                    }
                }
                let rv128 = col.normal.dot(self.vel);
                if rv128 < 0 {
                    let ax = if col.normal.x < 0 {
                        -col.normal.x
                    } else {
                        col.normal.x
                    };
                    if col.normal.y > 2 * ax {
                        self.stand = true;
                    }
                    proof {
                        lemma_norm2_pos(col@.normal);
                        assert(norm2(col@.normal) >= 1) by (nonlinear_arith)
                            requires
                                dot2(col@.normal, self@.vel) < 0,
                                dot2(col@.normal, self@.vel) == col@.normal.x * self@.vel.x
                                    + col@.normal.y * self@.vel.y,
                                norm2(col@.normal) == col@.normal.x * col@.normal.x
                                    + col@.normal.y * col@.normal.y,
                        ;
                        assert(norm2(col@.normal) <= 2_000_000) by (nonlinear_arith)
                            requires
                                absi(col@.normal.x) <= 1000,
                                absi(col@.normal.y) <= 1000,
                                norm2(col@.normal) == col@.normal.x * col@.normal.x
                                    + col@.normal.y * col@.normal.y,
                        ;
                        assert(absi(dot2(col@.normal, self@.vel)) <= 2000 * sj)
                            by (nonlinear_arith)
                            requires
                                absi(col@.normal.x) <= 1000,
                                absi(col@.normal.y) <= 1000,
                                absi(self@.vel.x) <= sj,
                                absi(self@.vel.y) <= sj,
                                sj >= 0,
                                dot2(col@.normal, self@.vel) == col@.normal.x * self@.vel.x
                                    + col@.normal.y * self@.vel.y,
                        ;
                    }
                    let rv = rv128 as i64;
                    let nn128 = col.normal.dot(col.normal);
                    let nn = nn128 as i64;
                    proof {
                        assert(absi(col@.normal.x * rv as int) <= (nn as int) * (i64::MAX
                            as int) && absi(col@.normal.y * rv as int) <= (nn as int)
                            * (i64::MAX as int)) by (nonlinear_arith)
                            requires
                                absi(col@.normal.x) <= 1000,
                                absi(col@.normal.y) <= 1000,
                                absi(rv as int) <= 2000 * sj,
                                0 <= sj <= BODY_VEL_CAP as int + 50 * MAX_DT as int + 1 + 3000,
                                nn >= 1,
                        ;
                        lemma_project(col@.normal, self@.vel, sj);
                    }
                    let t = col.normal.mul_div(rv, nn);
                    self.vel = self.vel.sub(t);
                }
            }
            proof {
                assert(self@ == apply_seg_spec(bprev, level@[j as int]@));
                assert(resolve_from(bprev, level@, j as int) == resolve_from(self@, level@, j
                    as int + 1));
                assert(norm2(self@.vel) <= (s1 + 1 + 3 * (j as int + 1)) * (s1 + 1 + 3 * (j
                    as int + 1))) by (nonlinear_arith)
                    requires
                        norm2(self@.vel) <= (sj + 2) * (sj + 2) || norm2(self@.vel) <= sj * sj,
                        sj == s1 + 1 + 3 * j as int,
                        s1 >= 0,
                        j >= 0,
                ;
                assert(absi(self@.pos.x - bprev.pos.x) <= b0.size + 1);
                assert(absi(self@.pos.y - bprev.pos.y) <= b0.size + 1);
                assert(absi(self@.pos.x - b1.pos.x) <= (j as int + 1) * (b0.size + 1))
                    by (nonlinear_arith)
                    requires
                        absi(bprev.pos.x - b1.pos.x) <= j as int * (b0.size + 1),
                        absi(self@.pos.x - bprev.pos.x) <= b0.size + 1,
                        j as int >= 0,
                        b0.size >= 0,
                ;
                assert(absi(self@.pos.y - b1.pos.y) <= (j as int + 1) * (b0.size + 1))
                    by (nonlinear_arith)
                    requires
                        absi(bprev.pos.y - b1.pos.y) <= j as int * (b0.size + 1),
                        absi(self@.pos.y - bprev.pos.y) <= b0.size + 1,
                        j as int >= 0,
                        b0.size >= 0,
                ;
            }
            j += 1;
        }
        proof {
            assert(resolve_from(self@, level@, level@.len() as int) == self@);
            assert(norm2(self@.vel) <= (s1 + 1 + 3 * level@.len() as int) * (s1 + 1 + 3
                * level@.len() as int));
            assert((s1 + 1 + 3 * level@.len() as int) * (s1 + 1 + 3 * level@.len() as int)
                <= (sg + 1 + 3 * level@.len() as int) * (sg + 1 + 3 * level@.len() as int))
                by (nonlinear_arith)
                requires
                    0 <= s1 <= sg,
                    level@.len() >= 0,
            ;
            assert(absi(self@.pos.x - b0.pos.x) * (SCALE as int) <= sg * delta_time + (SCALE
                as int) * (level@.len() * (b0.size + 1))) by (nonlinear_arith)
                requires
                    absi(self@.pos.x - b1.pos.x) <= level@.len() * (b0.size + 1),
                    absi(b1.pos.x - b0.pos.x) * (SCALE as int) <= sg * delta_time,
                    SCALE == 1000i64,
            ;
            assert(absi(self@.pos.y - b0.pos.y) * (SCALE as int) <= sg * delta_time + (SCALE
                as int) * (level@.len() * (b0.size + 1))) by (nonlinear_arith)
                requires
                    absi(self@.pos.y - b1.pos.y) <= level@.len() * (b0.size + 1),
                    absi(b1.pos.y - b0.pos.y) * (SCALE as int) <= sg * delta_time,
                    SCALE == 1000i64,
            ;
        }
    }
}

} // verus!
