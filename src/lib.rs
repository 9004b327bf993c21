//! A fixed-point flocking ("boids") simulation engine.
//!
//! Positions live in a corner-origin rectangle `[0, width] x [0, height]`.
//! Headings are fixed-point direction vectors whose length is `UNIT`, up to
//! the rounding that integer normalisation brings.
//!
//! One tick reads a snapshot of all agents. Each agent summarises the others
//! it perceives (`neighbors`), adds its weighted cohesion, alignment,
//! separation and goal directions to its current heading and renormalises
//! the sum (`steering`), then moves along the new heading and wraps around
//! the world's edges (`motion`). `world` holds the population; `laws` states
//! what holds of every tick.
use vstd::prelude::*;

pub mod vector;
pub mod params;
pub mod motion;
pub mod neighbors;
pub mod steering;
pub mod world;
mod random;
pub mod laws;

verus! {

} // verus!
