//! A two-dimensional gravitational toy: a population of circular bodies
//! ("planetoids") evolves under mutual Newtonian attraction, merges on
//! collision, and is grown or culled interactively from pointer input.
//!
//! All state lives on an integer grid: positions and velocities are `i64`
//! components, radii are `u64`, masses are `u128`.  Every update is defined
//! by a spec-level function over that grid, and each executable pass is
//! proved to return exactly what its spec function says, so a whole tick is
//! a mathematical function of the previous state and the pointer position.
//! Quantities saturate at the documented world limits instead of wrapping.
//!
//! The modules, in the order a tick runs them: `world` holds the registry,
//! the interactive creation state machine and the tick; `collisions`
//! merges overlapping bodies; `forces` accumulates gravity; `motion`
//! advances positions; `geometry` and `body` supply the vector and record
//! types and the integer root finders; `laws` states and proves the
//! conservation and exclusion properties of the whole.

pub mod body;
pub mod collisions;
pub mod forces;
pub mod geometry;
pub mod laws;
pub mod motion;
pub mod world;
