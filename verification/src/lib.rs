//! Rules engine of a turn-based hex-grid tactics game.
//!
//! The library owns the board topology (an irregular hexagonal board of 61
//! cells), unit placement, movement reachability, and combat resolution.  It
//! is independent of any rendering surface: a presentation layer queries the
//! state and issues abstract commands (select, hover, commit) with cells
//! already resolved.

pub mod actions;
pub mod board;
pub mod idx;
pub mod life;
pub mod pathfinder;
pub mod previsualisation;
pub mod units;
