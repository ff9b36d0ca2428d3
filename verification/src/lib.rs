//! A 2D ball-and-chain physics toy, in fixed-point arithmetic.
//!
//! Positions, velocities and lengths are integers counting thousandths of a
//! world unit, so every computation is exact and fully specified.  The crate
//! covers the physics core: circle-versus-segment collision detection and
//! resolution, a gravity integrator for circular bodies, the chain constraint
//! coupling the character and the swinging ball, and the fixed-timestep
//! simulation driver with its control intents (swing, release, reset,
//! save, load, shorten).

pub mod math;
pub mod vec2;
pub mod collision;
pub mod body;
pub mod player;
pub mod trig;
pub mod game;
pub mod laws;
