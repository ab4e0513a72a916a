//! Core of an arcade peg-drop simulation.
//!
//! Balls fall under gravity into a field of pegs and bricks; contacts
//! reported by a 2D rigid-body engine turn into gameplay effects: pegs
//! light up and queue rewards, powerup bricks wear down and grant effects,
//! plants grow recursively, storms of new pegs rain down.  This crate
//! holds the simulation substrate — the entity-component world, the
//! delayed-action scheduler, the temporary-entity lifecycle, the physics
//! bridge, the per-tick collision resolution pipeline and the shop effect
//! state machine — with machine-checked contracts.  Rendering, audio, UI
//! layout and window plumbing are outside collaborators and are not here.

use vstd::prelude::*;

pub mod components;
pub mod entropy;
pub mod fixmath;
pub mod laws;
pub mod level;
pub mod physics;
pub mod pipeline;
pub mod scheduler;
pub mod session;
pub mod temporary;
pub mod world;

verus! {

/// Number of fixed simulation ticks per second.
pub const TICKS_PER_SECOND: u64 = 60;

} // verus!
