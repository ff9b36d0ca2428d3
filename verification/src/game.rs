//! The simulation driver: fixed-timestep sub-stepping, control intents, and
//! the saved-state slot.

use crate::body::{BallG, MAX_DT};
use crate::collision::{level_wf, Segment};
use crate::math::{div_t, lemma_div_t, lemma_div_t_le, lemma_sq_mono, lemma_sqrt_floor,
    lemma_sqrt_le, muldiv64, sqrt_floor};
use crate::player::{player_new_spec, player_step_spec, player_wf, pmax4, Player, PlayerG,
    PLAYER_POS_STEP, PLAYER_VEL_STEP};
use crate::trig::{swing_vel_spec, swing_velocity};
use crate::vec2::{lemma_norm2_pos, norm2, rot90, Vec2, SCALE};
use vstd::prelude::*;

verus! {

/// Number of physics sub-steps per frame.
pub const SUB_STEPS: usize = 100;

/// Chain shortening rate while the shorten intent is held, in thousandths
/// of a unit per second.
pub const CHAIN_SHORTEN_RATE: i64 = 2_000;

/// The floor the shorten intent cannot pass.
pub const CHAIN_SHORTEN_FLOOR: i64 = 50;

/// The chain length set by a release.
pub const CHAIN_ON_RELEASE: i64 = 2_000;

/// Cap on the elapsed time the driver accepts, in milliseconds.
pub const MAX_TIME: i64 = 1_000_000_000_000;

/// Position cap of a well-bounded game state.
pub const GAME_POS_CAP: i64 = 1_000_000_000;

/// Euclidean velocity cap of a well-bounded game state.
pub const GAME_VEL_CAP: i64 = 20_000_000;

/// The whole simulation: the static level, the live player, the saved
/// snapshot, the elapsed time, and the swing-display flag.
pub struct Game {
    pub time: i64,
    pub player: Player,
    pub saved: Option<Player>,
    pub level: Vec<Segment>,
    pub spin: bool,
}

/// The mathematical shadow of a `Game`.
pub ghost struct GameG {
    pub time: int,
    pub player: PlayerG,
    pub saved: Option<PlayerG>,
    pub level: Seq<Segment>,
    pub spin: bool,
}

impl View for Game {
    type V = GameG;

    open spec fn view(&self) -> GameG {
        GameG {
            time: self.time as int,
            player: self.player@,
            saved: match self.saved {
                Some(p) => Some(p@),
                None => None,
            },
            level: self.level@,
            spin: self.spin,
        }
    }
}

/// A sane game state: well-formed player, snapshot and level, non-negative
/// clock.
pub open spec fn game_wf(g: GameG) -> bool {
    &&& player_wf(g.player)
    &&& level_wf(g.level)
    &&& 0 <= g.time
    &&& match g.saved {
        Some(p) => player_wf(p),
        None => true,
    }
}

/// Positions and velocities small enough for a frame update.
pub open spec fn game_bounded(g: GameG) -> bool {
    &&& pmax4(g.player) <= GAME_POS_CAP as int
    &&& norm2(g.player.character.vel) <= (GAME_VEL_CAP as int) * (GAME_VEL_CAP as int)
    &&& norm2(g.player.ball.vel) <= (GAME_VEL_CAP as int) * (GAME_VEL_CAP as int)
}

/// The shorten intent: the chain shrinks with time but not below its floor.
pub open spec fn shorten_spec(chain: int, dt: int) -> int {
    let c = chain - div_t(CHAIN_SHORTEN_RATE as int * dt, SCALE as int);
    if c < CHAIN_SHORTEN_FLOOR as int {
        CHAIN_SHORTEN_FLOOR as int
    } else {
        c
    }
}

/// `n` controller sub-steps of length `dt` each.
pub open spec fn substeps_spec(p: PlayerG, level: Seq<Segment>, dt: int, n: nat) -> PlayerG
    decreases n,
{
    if n == 0 {
        p
    } else {
        substeps_spec(player_step_spec(p, level, dt), level, dt, (n - 1) as nat)
    }
}

/// One frame: advance the clock, apply the shorten intent, run the fixed
/// number of sub-steps on a hundredth of the frame time each, and, while
/// the ball is held, drive its velocity around the swing circle.
pub open spec fn game_update_spec(g: GameG, dt: int, shorten: bool) -> GameG {
    let time1 = g.time + dt;
    let chain0 = if shorten {
        shorten_spec(g.player.chain_len, dt)
    } else {
        g.player.chain_len
    };
    let p0 = PlayerG {
        character: g.player.character,
        ball: g.player.ball,
        ball_in_hands: g.player.ball_in_hands,
        chain_len: chain0,
    };
    let p1 = substeps_spec(p0, g.level, div_t(dt, SUB_STEPS as int), SUB_STEPS as nat);
    let p2 = if p1.ball_in_hands {
        PlayerG {
            character: p1.character,
            ball: BallG {
                pos: p1.ball.pos,
                vel: swing_vel_spec(time1),
                size: p1.ball.size,
                stand: p1.ball.stand,
            },
            ball_in_hands: p1.ball_in_hands,
            chain_len: p1.chain_len,
        }
    } else {
        p1
    };
    GameG { time: time1, player: p2, saved: g.saved, level: g.level, spin: g.spin }
}

/// The release intent: the swing display stops; a held ball is let go with
/// its velocity turned a quarter turn, its grounded flag cleared, and the
/// chain is reset to its released length either way.
pub open spec fn release_spec(g: GameG) -> GameG {
    let p = if g.player.ball_in_hands {
        PlayerG {
            character: g.player.character,
            ball: BallG {
                pos: g.player.ball.pos,
                vel: rot90(g.player.ball.vel),
                size: g.player.ball.size,
                stand: false,
            },
            ball_in_hands: false,
            chain_len: CHAIN_ON_RELEASE as int,
        }
    } else {
        PlayerG {
            character: g.player.character,
            ball: g.player.ball,
            ball_in_hands: g.player.ball_in_hands,
            chain_len: CHAIN_ON_RELEASE as int,
        }
    };
    GameG { time: g.time, player: p, saved: g.saved, level: g.level, spin: false }
}

impl Game {
    /// A fresh simulation over the given level.
    pub fn new(level: Vec<Segment>) -> (r: Game)
        ensures
            r@.time == 0,
            r@.player == player_new_spec(),
            r@.saved is None,
            r@.level == level@,
            r@.spin == false,
    {
        Game { time: 0, player: Player::new(), saved: None, level, spin: false }
    }

    /// One rendered frame of `delta_time` milliseconds, with the shorten
    /// intent held or not.
    pub fn update(&mut self, delta_time: i64, shorten: bool)
        requires
            game_wf(old(self)@),
            game_bounded(old(self)@),
            old(self)@.time <= MAX_TIME as int,
            0 <= delta_time <= MAX_DT as int,
        ensures
            final(self)@ == game_update_spec(old(self)@, delta_time as int, shorten),
            game_wf(final(self)@),
    {
        let ghost g0 = self@;
        self.time = self.time + delta_time;
        if shorten {
            let dec = muldiv64(CHAIN_SHORTEN_RATE, delta_time, SCALE);
            proof {
                lemma_div_t(CHAIN_SHORTEN_RATE as int * delta_time, SCALE as int);
                lemma_div_t_le(CHAIN_SHORTEN_RATE as int * delta_time, SCALE as int, 2
                    * delta_time);
            }
            let c = self.player.chain_len - dec;
            if c < CHAIN_SHORTEN_FLOOR {
                self.player.chain_len = CHAIN_SHORTEN_FLOOR;
            } else {
                self.player.chain_len = c;
            }
        }
        let dts = muldiv64(delta_time, 1, 100);
        proof {
            lemma_div_t(delta_time as int, 100);
            lemma_div_t_le(delta_time as int, 100, 100);
        }
        let ghost pstart = self@.player;
        let ghost cb0 = sqrt_floor(norm2(pstart.character.vel));
        let ghost bb0 = sqrt_floor(norm2(pstart.ball.vel));
        let mut i: usize = 0;
        while i < SUB_STEPS
            invariant
                i <= SUB_STEPS,
                level_wf(self@.level),
                player_wf(self@.player),
                0 <= dts <= 100,
                dts as int == div_t(delta_time as int, SUB_STEPS as int),
                substeps_spec(self@.player, self@.level, dts as int, (SUB_STEPS - i) as nat)
                    == substeps_spec(pstart, self@.level, dts as int, SUB_STEPS as nat),
                pmax4(self@.player) <= GAME_POS_CAP as int + i as int * PLAYER_POS_STEP as int,
                norm2(self@.player.character.vel) <= (GAME_VEL_CAP as int + i as int
                    * PLAYER_VEL_STEP as int) * (GAME_VEL_CAP as int + i as int
                    * PLAYER_VEL_STEP as int),
                norm2(self@.player.ball.vel) <= (GAME_VEL_CAP as int + i as int
                    * PLAYER_VEL_STEP as int) * (GAME_VEL_CAP as int + i as int
                    * PLAYER_VEL_STEP as int),
                self@.time == g0.time + delta_time,
                self@.saved == g0.saved,
                self@.level == g0.level,
                self@.spin == g0.spin,
            decreases SUB_STEPS - i,
        {
            let ghost pb = self@.player;
            let ghost cap = GAME_VEL_CAP as int + i as int * PLAYER_VEL_STEP as int;
            proof {
                assert(cap <= GAME_VEL_CAP as int + 100 * PLAYER_VEL_STEP as int);
                lemma_sq_mono(cap, 1_000_000_000);
                assert(i as int * PLAYER_POS_STEP as int <= 100 * PLAYER_POS_STEP as int);
                lemma_norm2_pos(pb.character.vel);
                lemma_norm2_pos(pb.ball.vel);
                lemma_sqrt_floor(norm2(pb.character.vel));
                lemma_sqrt_floor(norm2(pb.ball.vel));
                lemma_sqrt_le(norm2(pb.character.vel), cap);
                lemma_sqrt_le(norm2(pb.ball.vel), cap);
            }
            self.player.update(&self.level, dts);
            proof {
                lemma_sq_mono(sqrt_floor(norm2(pb.character.vel)) + PLAYER_VEL_STEP as int, cap
                    + PLAYER_VEL_STEP as int);
                lemma_sq_mono(sqrt_floor(norm2(pb.ball.vel)) + PLAYER_VEL_STEP as int, cap
                    + PLAYER_VEL_STEP as int);
                assert(substeps_spec(pb, self@.level, dts as int, (SUB_STEPS - i) as nat)
                    == substeps_spec(self@.player, self@.level, dts as int, (SUB_STEPS - i
                    - 1) as nat));
            }
            i += 1;
        }
        proof {
            assert(substeps_spec(self@.player, self@.level, dts as int, 0nat) == self@.player);
        }
        if self.player.ball_in_hands {
            let v = swing_velocity(self.time);
            self.player.ball.vel = v;
        }
    }

    /// The begin-swing intent: only the display flag changes.
    pub fn begin_swing(&mut self)
        ensures
            final(self)@ == (GameG {
                time: old(self)@.time,
                player: old(self)@.player,
                saved: old(self)@.saved,
                level: old(self)@.level,
                spin: true,
            }),
    {
        self.spin = true;
    }

    /// The end-swing / release intent.
    pub fn end_swing(&mut self)
        requires
            game_bounded(old(self)@),
        ensures
            final(self)@ == release_spec(old(self)@),
    {
        self.spin = false;
        if self.player.ball_in_hands {
            proof {
                crate::vec2::lemma_comps_le(self@.player.ball.vel, GAME_VEL_CAP as int);
            }
            self.player.ball_in_hands = false;
            self.player.ball.vel = self.player.ball.vel.rotate_90();
            self.player.ball.stand = false;
            self.player.chain_len = 1000;
        }
        self.player.chain_len = CHAIN_ON_RELEASE;
    }

    /// The reset intent: a freshly constructed player replaces the current
    /// one.
    pub fn reset(&mut self)
        ensures
            final(self)@.player == player_new_spec(),
            final(self)@.time == old(self)@.time,
            final(self)@.saved == old(self)@.saved,
            final(self)@.level == old(self)@.level,
            final(self)@.spin == old(self)@.spin,
    {
        self.player = Player::new();
    }

    /// The save intent: the current player state is copied into the slot.
    pub fn save(&mut self)
        ensures
            final(self)@.saved == Some(old(self)@.player),
            final(self)@.player == old(self)@.player,
            final(self)@.time == old(self)@.time,
            final(self)@.level == old(self)@.level,
            final(self)@.spin == old(self)@.spin,
    {
        self.saved = Some(self.player);
    }

    /// The load intent: a saved state, if any, replaces the current player;
    /// with no snapshot this is a no-op.  The snapshot itself is kept.
    pub fn load(&mut self)
        ensures
            final(self)@.player == match old(self)@.saved {
                Some(p) => p,
                None => old(self)@.player,
            },
            final(self)@.saved == old(self)@.saved,
            final(self)@.time == old(self)@.time,
            final(self)@.level == old(self)@.level,
            final(self)@.spin == old(self)@.spin,
    {
        if let Some(p) = self.saved {
            self.player = p;
        }
    }
}

} // verus!
