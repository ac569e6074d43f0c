//! Simulation core for a tile-based exploration game.
//!
//! Everything the game logic decides lives here: positions on an integer
//! grid, Sokoban-style push-chain movement, deterministic terrain
//! generation over a chunked coordinate space, a level lifecycle
//! polled against asset readiness, and a fixed-point camera follower.
//! Rendering, windowing and input polling are left to the caller; the
//! core consumes plain values (direction flags, asset load states) and
//! hands back plain values.

pub mod camera;
pub mod game;
pub mod grid;
pub mod lifecycle;
pub mod markers;
pub mod movement;
pub mod occupancy;
pub mod terrain;

pub use grid::GridLocation;
