//! Core engine of a two-player, turn-based 10 x 10 grid combat game.
//!
//! The library models ships, boards and strikes, validates placements,
//! resolves hits and sinkings, generates randomized boards, and chooses
//! targets for the scripted opponent. Terminal rendering and keyboard
//! input live outside the library and exchange plain values with it.

pub mod board;
pub mod game;
pub mod generate;
pub mod heuristic;
pub mod input;
mod rng;
pub mod ship;
