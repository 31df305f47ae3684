//! A verified Reversi (Othello) engine.
//!
//! The board is a fixed 8x8 grid of cells indexed 0..64 in row-major order.
//! A `Position` carries the grid, the side to move, cached legal-move sets
//! for both sides, and the perimeter of empty cells adjacent to stones.
//! Two computer opponents are provided: a greedy max-flip chooser and a
//! flat Monte-Carlo chooser that scores each candidate move by random
//! rollouts, bounded by an iteration cap and a wall-clock budget.

pub mod board;
mod clock;
pub mod driver;
pub mod geometry;
mod iset;
mod rng;
pub mod rules;
pub mod strategy;
