//! A chess engine core.

pub mod arith;
pub mod bits;
pub mod board;
pub mod engine;
pub mod error;
pub mod moves;
pub mod psqt;
pub mod text;
pub mod types;
pub mod zobrist;
