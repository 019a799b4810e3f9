//! Core of a UCI chess engine: a bitboard position with reversible moves,
//! legal move generation, alpha-beta search and an incrementally updated
//! evaluation network.

pub mod general;
pub mod chess;
pub mod precomputed;
pub mod engine;
pub mod uci;
