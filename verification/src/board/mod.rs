//! The position: who stands where, whose turn it is, and the rules of play.

pub mod attacklaws;
pub mod attacks;
pub mod diagram;
pub mod fen;
pub mod fen_laws;
pub mod hashlaws;
pub mod laws;
pub mod make;
pub mod model;
pub mod notation;
pub mod position;
pub mod queries;
pub mod readlaws;
pub mod rulelaws;
pub mod showlaws;

pub use fen::{Fen, Tokens, STARTPOS};
pub use make::{BLACK_OO, BLACK_OOO, WHITE_OO, WHITE_OOO};
pub use position::{Position, StateInfo};
