//! A sliding 15-puzzle board library: a 4x4 grid of tiles numbered 1..=15
//! plus one blank cell (value 0).
//!
//! The library models the board as a vector of 16 bytes indexed by
//! `x + 4 * y`, validates solvability through the inversion-count parity
//! law, applies legal single-step slides, and generates random solvable
//! starting arrangements.

pub mod board;
pub mod generate;
pub mod state;
