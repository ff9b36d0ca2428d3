//! The chain controller: a character and a swinging ball coupled by a
//! chain-length constraint, with a held / released mode.

use crate::body::{ball_step_spec, Ball, BallG, MAX_DT};
use crate::collision::{level_wf, Segment};
use crate::math::{absi, div_t, lemma_div_t_le, lemma_sqrt_floor, lemma_sqrt_le, lemma_sq_mono,
    muldiv64, sqrt_floor};
use crate::vec2::{lemma_comps_le, lemma_norm2_pos, lemma_vlen, norm2, v_add, v_mul_div, v_sub,
    vlen, Vec2, SCALE, V2};
use vstd::prelude::*;

verus! {

/// Distance at which the held ball orbits the character.
pub const BALL_SWING_DISTANCE: i64 = 800;

/// How fast the chain retracts while the released ball rests on ground,
/// in thousandths of a unit per second.
pub const CHAIN_RETRACT_RATE: i64 = 5_000;

/// The chain length at which the resting ball returns to hand.
pub const CHAIN_RETRACT_FLOOR: i64 = 100;

/// Cap on the chain length.
pub const MAX_CHAIN: i64 = 1_000_000_000;

/// Position cap accepted by `Player::update`.
pub const PLAYER_POS_CAP: i64 = 10_000_000_000_000;

/// Euclidean velocity cap accepted by `Player::update`.
pub const PLAYER_VEL_CAP: i64 = 1_000_000_000;

/// How far any coordinate can move in one controller step.
pub const PLAYER_POS_STEP: i64 = 30_000_000_000;

/// How much a velocity's Euclidean bound can grow in one controller step.
pub const PLAYER_VEL_STEP: i64 = 600_000;

/// The player: a character body and a ball body joined by the chain.
#[derive(Clone, Copy, PartialEq, Eq, Structural, Debug)]
pub struct Player {
    pub character: Ball,
    pub ball: Ball,
    pub ball_in_hands: bool,
    pub chain_len: i64,
}

/// The mathematical shadow of a `Player`.
pub ghost struct PlayerG {
    pub character: BallG,
    pub ball: BallG,
    pub ball_in_hands: bool,
    pub chain_len: int,
}

impl View for Player {
    type V = PlayerG;

    open spec fn view(&self) -> PlayerG {
        PlayerG {
            character: self.character@,
            ball: self.ball@,
            ball_in_hands: self.ball_in_hands,
            chain_len: self.chain_len as int,
        }
    }
}

/// The radii are the session constants and the chain length is sane.
pub open spec fn player_wf(p: PlayerG) -> bool {
    &&& p.character.size == 1000
    &&& p.ball.size == 500
    &&& 0 <= p.chain_len <= MAX_CHAIN as int
}

/// The freshly constructed player: both bodies at the origin, ball held,
/// chain of one unit.
pub open spec fn player_new_spec() -> PlayerG {
    PlayerG {
        character: BallG {
            pos: V2 { x: 0, y: 0 },
            vel: V2 { x: 0, y: 0 },
            size: 1000,
            stand: false,
        },
        ball: BallG { pos: V2 { x: 0, y: 0 }, vel: V2 { x: 0, y: 0 }, size: 500, stand: false },
        ball_in_hands: true,
        chain_len: 1000,
    }
}

/// Where the held ball sits: at `BALL_SWING_DISTANCE` from the character
/// along the ball's velocity direction (at the character itself if the
/// velocity is zero).
pub open spec fn held_ball_pos_spec(p: PlayerG) -> V2 {
    v_add(p.character.pos, v_mul_div(p.ball.vel, BALL_SWING_DISTANCE as int, vlen(p.ball.vel)))
}

/// The chain pull: when the ball is further than the chain allows, the
/// character is dragged onto the chain circle around the ball; a slack
/// chain never pushes.
pub open spec fn chain_pull_spec(char_pos: V2, ball_pos: V2, chain: int) -> V2 {
    let delta = v_sub(ball_pos, char_pos);
    if vlen(delta) > chain {
        v_sub(ball_pos, v_mul_div(delta, chain, vlen(delta)))
    } else {
        char_pos
    }
}

/// One controller step.  Held: the ball is slaved to the character.
/// Released: the ball is integrated; while it rests on ground the chain
/// retracts towards its floor, at which the ball returns to hand; then the
/// chain pulls the character.  Either way the character is integrated last.
pub open spec fn player_step_spec(p: PlayerG, level: Seq<Segment>, dt: int) -> PlayerG {
    let p1 = if p.ball_in_hands {
        PlayerG {
            character: p.character,
            ball: BallG {
                pos: held_ball_pos_spec(p),
                vel: p.ball.vel,
                size: p.ball.size,
                stand: p.ball.stand,
            },
            ball_in_hands: p.ball_in_hands,
            chain_len: p.chain_len,
        }
    } else {
        let ball1 = ball_step_spec(p.ball, level, dt);
        let c = if ball1.stand {
            p.chain_len - div_t(CHAIN_RETRACT_RATE as int * dt, SCALE as int)
        } else {
            p.chain_len
        };
        let retracted = ball1.stand && c < CHAIN_RETRACT_FLOOR as int;
        let chain1 = if retracted {
            CHAIN_RETRACT_FLOOR as int
        } else {
            c
        };
        let cp = chain_pull_spec(p.character.pos, ball1.pos, chain1);
        PlayerG {
            character: BallG {
                pos: cp,
                vel: p.character.vel,
                size: p.character.size,
                stand: p.character.stand,
            },
            ball: ball1,
            ball_in_hands: retracted,
            chain_len: chain1,
        }
    };
    PlayerG {
        character: ball_step_spec(p1.character, level, dt),
        ball: p1.ball,
        ball_in_hands: p1.ball_in_hands,
        chain_len: p1.chain_len,
    }
}

/// The larger coordinate magnitude among the two bodies' positions.
pub open spec fn pmax4(p: PlayerG) -> int {
    let a = if absi(p.character.pos.x) > absi(p.character.pos.y) {
        absi(p.character.pos.x)
    } else {
        absi(p.character.pos.y)
    };
    let b = if absi(p.ball.pos.x) > absi(p.ball.pos.y) {
        absi(p.ball.pos.x)
    } else {
        absi(p.ball.pos.y)
    };
    if a > b {
        a
    } else {
        b
    }
}

impl Player {
    /// The starting player state.
    pub fn new() -> (r: Player)
        ensures
            r@ == player_new_spec(),
    {
        Player {
            character: Ball::new(Vec2 { x: 0, y: 0 }, 1000),
            ball: Ball::new(Vec2 { x: 0, y: 0 }, 500),
            ball_in_hands: true,
            chain_len: 1000,
        }
    }

    /// One controller step; the result is exactly `player_step_spec`, with
    /// every coordinate moving at most `PLAYER_POS_STEP` and each velocity
    /// bound growing at most `PLAYER_VEL_STEP`.
    #[verifier::rlimit(50)]
    pub fn update(&mut self, level: &Vec<Segment>, delta_time: i64)
        requires
            player_wf(old(self)@),
            level_wf(level@),
            0 <= delta_time <= MAX_DT as int,
            pmax4(old(self)@) <= PLAYER_POS_CAP as int,
            norm2(old(self)@.character.vel) <= (PLAYER_VEL_CAP as int) * (PLAYER_VEL_CAP as int),
            norm2(old(self)@.ball.vel) <= (PLAYER_VEL_CAP as int) * (PLAYER_VEL_CAP as int),
        ensures
            final(self)@ == player_step_spec(old(self)@, level@, delta_time as int),
            player_wf(final(self)@),
            pmax4(final(self)@) <= pmax4(old(self)@) + PLAYER_POS_STEP as int,
            norm2(final(self)@.character.vel) <= (sqrt_floor(norm2(old(self)@.character.vel))
                + PLAYER_VEL_STEP as int) * (sqrt_floor(norm2(old(self)@.character.vel))
                + PLAYER_VEL_STEP as int),
            norm2(final(self)@.ball.vel) <= (sqrt_floor(norm2(old(self)@.ball.vel))
                + PLAYER_VEL_STEP as int) * (sqrt_floor(norm2(old(self)@.ball.vel))
                + PLAYER_VEL_STEP as int),
    {
        let ghost p0 = self@;
        let ghost sb0 = sqrt_floor(norm2(p0.ball.vel));
        let ghost sc0 = sqrt_floor(norm2(p0.character.vel));
        proof {
            lemma_norm2_pos(p0.ball.vel);
            lemma_norm2_pos(p0.character.vel);
            lemma_sqrt_floor(norm2(p0.ball.vel));
            lemma_sqrt_floor(norm2(p0.character.vel));
            lemma_sqrt_le(norm2(p0.ball.vel), PLAYER_VEL_CAP as int);
            lemma_sqrt_le(norm2(p0.character.vel), PLAYER_VEL_CAP as int);
            lemma_vlen(p0.ball.vel);
            lemma_vlen(p0.character.vel);
        }
        if self.ball_in_hands {
            let bl = self.ball.vel.len64();
            proof {
                if bl >= 1 {
                    assert(absi(p0.ball.vel.x * BALL_SWING_DISTANCE as int) <= (bl as int)
                        * 800 && absi(p0.ball.vel.y * BALL_SWING_DISTANCE as int) <= (bl
                        as int) * 800) by (nonlinear_arith)
                        requires
                            absi(p0.ball.vel.x) <= bl as int,
                            absi(p0.ball.vel.y) <= bl as int,
                            BALL_SWING_DISTANCE == 800i64,
                    ;
                    assert((bl as int) * 800 <= (bl as int) * (i64::MAX as int))
                        by (nonlinear_arith)
                        requires
                            bl >= 1,
                    ;
                    lemma_div_t_le(p0.ball.vel.x * 800, bl as int, 800);
                    lemma_div_t_le(p0.ball.vel.y * 800, bl as int, 800);
                }
            }
            let off = if bl >= 1 {
                self.ball.vel.mul_div(BALL_SWING_DISTANCE, bl)
            } else {
                Vec2 { x: 0, y: 0 }
            };
            proof {
                assert(off@ == v_mul_div(p0.ball.vel, BALL_SWING_DISTANCE as int, vlen(
                    p0.ball.vel)));
            }
            self.ball.pos = self.character.pos.add(off);
            proof {
                assert(self@.ball.pos == held_ball_pos_spec(p0));
            }
        } else {
            self.ball.update(level, delta_time);
            let ghost ball1 = self@.ball;
            proof {
                assert(sb0 * delta_time >= 0) by (nonlinear_arith)
                    requires
                        sb0 >= 0,
                        delta_time >= 0,
                ;
                assert((sb0 + 50 * delta_time + 1) * delta_time <= (sb0 + 50 * MAX_DT as int
                    + 1) * (MAX_DT as int)) by (nonlinear_arith)
                    requires
                        0 <= delta_time <= MAX_DT as int,
                        sb0 >= 0,
                ;
                assert(level@.len() * (p0.ball.size + 1) <= 501_000) by (nonlinear_arith)
                    requires
                        level@.len() <= 1000,
                        p0.ball.size == 500,
                ;
                assert(absi(ball1.pos.x - p0.ball.pos.x) <= 11_000_000_000int);
                assert(absi(ball1.pos.y - p0.ball.pos.y) <= 11_000_000_000int);
                assert(absi(ball1.pos.x) <= PLAYER_POS_CAP as int + 11_000_000_000int);
                assert(absi(ball1.pos.y) <= PLAYER_POS_CAP as int + 11_000_000_000int);
            }
            if self.ball.stand {
                let dec = muldiv64(CHAIN_RETRACT_RATE, delta_time, SCALE);
                proof {
                    lemma_div_t_le(CHAIN_RETRACT_RATE as int * delta_time, SCALE as int, 5
                        * delta_time);
                    crate::math::lemma_div_t(CHAIN_RETRACT_RATE as int * delta_time, SCALE
                        as int);
                }
                let c = self.chain_len - dec;
                if c < CHAIN_RETRACT_FLOOR {
                    self.chain_len = CHAIN_RETRACT_FLOOR;
                    self.ball_in_hands = true;
                } else {
                    self.chain_len = c;
                }
            }
            let delta = self.ball.pos.sub(self.character.pos);
            let dl = delta.len64();
            proof {
                lemma_vlen(delta@);
            }
            if dl > self.chain_len {
                proof {
                    assert(absi(delta@.x * self@.chain_len) <= (dl as int) * (i64::MAX as int)
                        && absi(delta@.y * self@.chain_len) <= (dl as int) * (i64::MAX
                        as int)) by (nonlinear_arith)
                        requires
                            absi(delta@.x) <= dl as int,
                            absi(delta@.y) <= dl as int,
                            0 <= self@.chain_len <= MAX_CHAIN as int,
                            dl >= 0,
                    ;
                    assert(absi(delta@.x * self@.chain_len) <= (dl as int) * self@.chain_len
                        && absi(delta@.y * self@.chain_len) <= (dl as int) * self@.chain_len)
                        by (nonlinear_arith)
                        requires
                            absi(delta@.x) <= dl as int,
                            absi(delta@.y) <= dl as int,
                            0 <= self@.chain_len,
                    ;
                    lemma_div_t_le(delta@.x * self@.chain_len, dl as int, self@.chain_len);
                    lemma_div_t_le(delta@.y * self@.chain_len, dl as int, self@.chain_len);
                }
                let t = delta.mul_div(self.chain_len, dl);
                self.character.pos = self.ball.pos.sub(t);
            }
            proof {
                assert(self@.character.pos == chain_pull_spec(p0.character.pos, ball1.pos,
                    self@.chain_len));
            }
        }
        let ghost pmid = self@;
        self.character.update(level, delta_time);
        proof {
            assert((sc0 + 50 * delta_time + 1) * delta_time <= (sc0 + 50 * MAX_DT as int + 1)
                * (MAX_DT as int)) by (nonlinear_arith)
                requires
                    0 <= delta_time <= MAX_DT as int,
                    sc0 >= 0,
            ;
            assert(self@ == player_step_spec(p0, level@, delta_time as int));
            assert(level@.len() * (pmid.character.size + 1) <= 1_001_000) by (nonlinear_arith)
                requires
                    level@.len() <= 1000,
                    pmid.character.size == 1000,
            ;
            assert(absi(self@.character.pos.x - pmid.character.pos.x) <= 11_000_000_000int);
            assert(absi(self@.character.pos.y - pmid.character.pos.y) <= 11_000_000_000int);
            if p0.ball_in_hands {
                assert(absi(pmid.ball.pos.x) <= pmax4(p0) + 801);
                assert(absi(pmid.ball.pos.y) <= pmax4(p0) + 801);
            } else {
                assert(absi(pmid.character.pos.x) <= pmax4(p0) + 13_000_000_000int);
                assert(absi(pmid.character.pos.y) <= pmax4(p0) + 13_000_000_000int);
            }
            assert(pmax4(self@) <= pmax4(p0) + PLAYER_POS_STEP as int);
            lemma_sq_mono(sqrt_floor(norm2(pmid.character.vel)) + 50 * delta_time + 2 + 3
                * level@.len() as int, sc0 + PLAYER_VEL_STEP as int);
            if !p0.ball_in_hands {
                lemma_sq_mono(sb0 + 50 * delta_time + 2 + 3 * level@.len() as int, sb0
                    + PLAYER_VEL_STEP as int);
            } else {
                lemma_sq_mono(sb0 + 1, sb0 + PLAYER_VEL_STEP as int);
            }
        }
    }
}

} // verus!
