//! A two-player Reversi (Othello) rules engine: board state, capture
//! resolution, legal-move computation, turn management with forced skips,
//! and end-of-game judgement.
//!
//! Cell values are small integers: 0 is empty, 1 is a white disc, 2 is a
//! black disc. Black moves first. Rendering and input belong to the
//! surrounding application; the engine itself is pure computation over
//! in-memory state.

pub mod board;
pub mod capture;
pub mod moves;
pub mod judge;
pub mod game;
pub mod laws;
