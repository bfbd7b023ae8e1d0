//! A chess rule engine: board and piece model, move generation, legality
//! filtering, special moves, end-state evaluation and a game session with
//! snapshot history.

pub mod board;
pub mod piece;
pub mod game;
pub mod rules;
pub mod laws;
pub mod notation;
pub mod render;
