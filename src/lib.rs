//! Simulation core of a side-scrolling arcade game: entity physics,
//! collision detection, obstacle spawning, combat resolution, scoring and
//! the top-level game-state machine, all on fixed-point integers.
use vstd::prelude::*;

pub mod collision;
pub mod combat;
pub mod components;
pub mod game;
pub mod particles;
pub mod physics;
pub mod random;
pub mod schedule;
pub mod score;
pub mod spawner;
pub mod state;
pub mod timer;
pub mod world;

verus! {

} // verus!
