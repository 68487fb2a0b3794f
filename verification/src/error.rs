//! What can be wrong with a FEN string.

use vstd::prelude::*;

verus! {

#[derive(Clone, Debug, PartialEq, Eq)]
pub enum FenError {
    /// No field at all.
    Empty,
    /// The side to move is missing.
    MissingStm,
    /// The side to move is neither `w` nor `b`.
    InvalidStm { stm: String },
    /// A rank does not have eight files.
    InvalidRankWidth { rank: u8, width: u8 },
    /// More than eight ranks.
    TooManyRanks { rank: u8, count: u8 },
    /// A digit skips beyond the last file.
    FileOverflow { rank: u8, file: u8 },
    /// A letter that names no piece, or a pawn where no pawn can stand.
    InvalidPiece { ch: char, rank: u8, file: u8 },
    /// A piece beyond the last file.
    SquareOutOfBounds { square: i32 },
    /// The en passant field names no en passant square.
    InvalidEnPassant { square: String },
    /// A side does not have exactly one king.
    MissingKing { color: &'static str },
    /// The side that has just moved is in check.
    IllegalCheck,
    /// A castling right without a rook on its square.
    InvalidCastlingRights { sq: String },
}

/// The abstract value of an error.
pub enum FenErrorV {
    Empty,
    MissingStm,
    InvalidStm { stm: Seq<char> },
    InvalidRankWidth { rank: int, width: int },
    TooManyRanks { rank: int, count: int },
    FileOverflow { rank: int, file: int },
    InvalidPiece { ch: char, rank: int, file: int },
    SquareOutOfBounds { square: int },
    InvalidEnPassant { square: Seq<char> },
    MissingKing { color: Seq<char> },
    IllegalCheck,
    InvalidCastlingRights { sq: Seq<char> },
}

impl View for FenError {
    type V = FenErrorV;

    open spec fn view(&self) -> FenErrorV {
        match *self {
            FenError::Empty => FenErrorV::Empty,
            FenError::MissingStm => FenErrorV::MissingStm,
            FenError::InvalidStm { stm } => FenErrorV::InvalidStm { stm: stm@ },
            FenError::InvalidRankWidth { rank, width } => FenErrorV::InvalidRankWidth {
                rank: rank as int,
                width: width as int,
            },
            FenError::TooManyRanks { rank, count } => FenErrorV::TooManyRanks {
                rank: rank as int,
                count: count as int,
            },
            FenError::FileOverflow { rank, file } => FenErrorV::FileOverflow { rank: rank as int, file: file as int },
            FenError::InvalidPiece { ch, rank, file } => FenErrorV::InvalidPiece {
                ch,
                rank: rank as int,
                file: file as int,
            },
            FenError::SquareOutOfBounds { square } => FenErrorV::SquareOutOfBounds { square: square as int },
            FenError::InvalidEnPassant { square } => FenErrorV::InvalidEnPassant { square: square@ },
            FenError::MissingKing { color } => FenErrorV::MissingKing { color: color@ },
            FenError::IllegalCheck => FenErrorV::IllegalCheck,
            FenError::InvalidCastlingRights { sq } => FenErrorV::InvalidCastlingRights { sq: sq@ },
        }
    }
}

} // verus!
