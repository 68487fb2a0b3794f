//! The packed encoding of a chess move.

use vstd::prelude::*;
use crate::text;
use crate::types;
use crate::types::{PieceType, Square};

verus! {

/// Where king and rook land when the king on `king` castles with the rook on `rook`:
/// on the c- and d-file towards a rook on the queen's side, else on the g- and f-file.
pub open spec fn castle_landing(king: int, rook: int) -> (int, int) {
    let rank = types::rank_of(king);
    if types::file_of(rook) < types::file_of(king) {
        (rank * 8 + 2, rank * 8 + 3)
    } else {
        (rank * 8 + 6, rank * 8 + 5)
    }
}

/// Resolves the final landing squares for a castling move.
pub fn castling_targets(king_sq: Square, rook_sq: Square) -> (r: (Square, Square))
    requires
        king_sq.wf(),
        rook_sq.wf(),
    ensures
        r.0.wf(),
        r.1.wf(),
        (r.0.0 as int, r.1.0 as int) == castle_landing(king_sq.0 as int, rook_sq.0 as int),
{
    let queenside = rook_sq.file() < king_sq.file();
    let rank: u8 = king_sq.rank();
    if queenside {
        (Square::from_coords(2, rank), Square::from_coords(3, rank))
    } else {
        (Square::from_coords(6, rank), Square::from_coords(5, rank))
    }
}

/// Origin, destination and kind of a move in 16 bits.
///
/// A castling move holds the king's square as origin and the rook's square as destination.
#[derive(Clone, Copy, PartialEq, Eq, Debug, Structural)]
pub struct Move(pub u16);

impl Move {
    pub const QUIET: u16 = 0;

    pub const DOUBLE_PUSH: u16 = 1;

    pub const CASTLE: u16 = 2;

    pub const CAPTURE: u16 = 4;

    pub const EP_CAPTURE: u16 = 5;

    pub const PROM_N: u16 = 8;

    pub const PROM_B: u16 = 9;

    pub const PROM_R: u16 = 10;

    pub const PROM_Q: u16 = 11;

    pub const PROM_N_CAPTURE: u16 = 12;

    pub const PROM_B_CAPTURE: u16 = 13;

    pub const PROM_R_CAPTURE: u16 = 14;

    pub const PROM_Q_CAPTURE: u16 = 15;

    /// Index of the origin square.
    pub open spec fn src(self) -> int {
        self.0 as int % 64
    }

    /// Index of the destination square.
    pub open spec fn dst(self) -> int {
        (self.0 as int / 64) % 64
    }

    /// Kind of the move.
    pub open spec fn kind(self) -> int {
        self.0 as int / 4096
    }

    /// The piece that a promotion move places.
    pub open spec fn promoted(self) -> Option<PieceType> {
        if self.kind() < 8 {
            None
        } else if self.kind() % 4 == 0 {
            Some(PieceType::Knight)
        } else if self.kind() % 4 == 1 {
            Some(PieceType::Bishop)
        } else if self.kind() % 4 == 2 {
            Some(PieceType::Rook)
        } else {
            Some(PieceType::Queen)
        }
    }

    pub open spec fn castles(self) -> bool {
        self.kind() == 2
    }

    pub open spec fn captures(self) -> bool {
        self.kind() == 4 || self.kind() == 5 || self.kind() >= 12
    }

    /// Coordinate notation. Castling is written as the king's step, or, when `frc` is set, as the
    /// king's square followed by the rook's square.
    pub open spec fn uci(self, frc: bool) -> Seq<char> {
        let to = if self.castles() && !frc {
            castle_landing(self.src(), self.dst()).0
        } else {
            self.dst()
        };
        types::square_name(self.src()) + types::square_name(to) + match self.promoted() {
            Some(pt) => seq![types::letter(pt)],
            None => Seq::empty(),
        }
    }

    pub fn new(from: Square, to: Square, flag: u16) -> (mv: Move)
        requires
            from.wf(),
            to.wf(),
            flag < 16,
        ensures
            mv.src() == from.0,
            mv.dst() == to.0,
            mv.kind() == flag,
    {
        Move(from.0 as u16 + to.0 as u16 * 64 + flag * 4096)
    }

    /// The move that stands for "no move".
    pub fn null() -> (mv: Move)
        ensures
            mv.0 == 0,
    {
        Move(0)
    }

    pub fn is_null(self) -> (b: bool)
        ensures
            b == (self.0 == 0),
    {
        self.0 == 0
    }

    pub fn from(self) -> (s: Square)
        ensures
            s.wf(),
            s.0 == self.src(),
    {
        Square((self.0 % 64) as u8)
    }

    pub fn to(self) -> (s: Square)
        ensures
            s.wf(),
            s.0 == self.dst(),
    {
        Square(((self.0 / 64) % 64) as u8)
    }

    pub fn flag(self) -> (f: u16)
        ensures
            f == self.kind(),
            f < 16,
    {
        self.0 / 4096
    }

    pub fn is_castling(self) -> (b: bool)
        ensures
            b == self.castles(),
    {
        self.flag() == Move::CASTLE
    }

    pub fn is_en_passant(self) -> (b: bool)
        ensures
            b == (self.kind() == 5),
    {
        self.flag() == Move::EP_CAPTURE
    }

    pub fn is_double_push(self) -> (b: bool)
        ensures
            b == (self.kind() == 1),
    {
        self.flag() == Move::DOUBLE_PUSH
    }

    pub fn is_promotion(self) -> (b: bool)
        ensures
            b == (self.promoted() is Some),
    {
        self.flag() >= Move::PROM_N
    }

    pub fn is_capture(self) -> (b: bool)
        ensures
            b == self.captures(),
    {
        let f: u16 = self.flag();
        f == Move::CAPTURE || f == Move::EP_CAPTURE || f >= Move::PROM_N_CAPTURE
    }

    /// A capture or a promotion.
    pub fn is_tactical(self) -> (b: bool)
        ensures
            b == (self.captures() || self.promoted() is Some),
    {
        self.is_capture() || self.is_promotion()
    }

    /// Neither a capture nor a promotion.
    pub fn is_quiet(self) -> (b: bool)
        ensures
            b == !(self.captures() || self.promoted() is Some),
    {
        !self.is_tactical()
    }

    /// A quiet move that the history heuristic keeps score of: castling is left out.
    pub fn is_history_quiet(self) -> (b: bool)
        ensures
            b == (self.kind() <= 1),
    {
        self.flag() <= Move::DOUBLE_PUSH
    }

    pub fn promo(self) -> (pt: Option<PieceType>)
        ensures
            pt == self.promoted(),
    {
        let f: u16 = self.flag();
        if f < Move::PROM_N {
            None
        } else if f % 4 == 0 {
            Some(PieceType::Knight)
        } else if f % 4 == 1 {
            Some(PieceType::Bishop)
        } else if f % 4 == 2 {
            Some(PieceType::Rook)
        } else {
            Some(PieceType::Queen)
        }
    }

    pub fn to_uci(self, frc: bool) -> (s: String)
        ensures
            s@ == self.uci(frc),
    {
        let from = self.from();
        let to = if self.is_castling() && !frc {
            castling_targets(from, self.to()).0
        } else {
            self.to()
        };
        let mut out = String::new();
        text::push_square(&mut out, from);
        text::push_square(&mut out, to);
        match self.promo() {
            Some(pt) => {
                out.push(pt.to_char(types::Color::Black));
            },
            None => {},
        }
        proof {
            assert(out@ =~= self.uci(frc));
        }
        out
    }
}

} // verus!
