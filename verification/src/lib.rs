//! A tick-based simulation of simple artificial organisms on a fixed-size
//! 2D grid. Organisms occupy grid cells according to a body plan of relative
//! offsets; each tick they age, produce and consume food, and may reproduce.
//!
//! The crate exposes the grid/cell model, the organism update algorithm and
//! the per-tick orchestration. Rendering, windowing and frame pacing are
//! external collaborators: they feed placement commands in and read the grid
//! and the dirty-cell list back out.

pub mod cell;
pub mod grid;
pub mod organism;
mod rng;
pub mod sim;
pub mod util;
