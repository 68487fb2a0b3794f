//! The board representation.
//!
//! Two views of the same board are kept side by side: bitboards per color and per piece type for
//! operations on many squares at once, and a mailbox that answers what stands on one square.

use vstd::prelude::*;
use crate::board::model;
use crate::board::model::{Board, InfoV, Piece, PositionV};
use crate::types::{Bitboard, Color, PieceType, Square};
use crate::zobrist;

verus! {

#[derive(Clone, Copy, Debug)]
pub struct Position {
    /// Per-color occupancy.
    pub side_bb: [Bitboard; 2],
    /// Per-type occupancy, regardless of color.
    pub role_bb: [Bitboard; 6],
    /// All occupied squares.
    pub occ: Bitboard,
    /// Zobrist hash, maintained move by move.
    pub hash: u64,
    /// Zobrist hash of the pawns alone.
    pub pawn_hash: u64,
    /// The piece type on each square.
    pub pieces: [PieceType; 64],
    /// Rook home squares for castling, indexed by the bit of the right.
    pub castling_rooks: [Square; 4],
    /// Castling rights, bits 0 to 3: white short, white long, black short, black long.
    pub castling_rights: u8,
    /// Side to move.
    pub stm: Color,
    /// Half-moves since the last pawn move or capture.
    pub halfmove_clock: u8,
    /// En passant target square.
    pub en_passant: Option<Square>,
    /// Castling is written with rook squares.
    pub is_frc: bool,
    /// Full-move counter.
    pub fullmove_number: u16,
}

/// The irreversible state needed to undo a move.
#[derive(Clone, Copy, Debug)]
pub struct StateInfo {
    pub hash: u64,
    pub pawn_hash: u64,
    pub en_passant: Option<Square>,
    pub castling_rights: u8,
    pub captured: PieceType,
    pub halfmove_clock: u8,
}

impl View for StateInfo {
    type V = InfoV;

    open spec fn view(&self) -> InfoV {
        InfoV {
            hash: self.hash,
            pawn_hash: self.pawn_hash,
            en_passant: self.en_passant,
            castling_rights: self.castling_rights,
            captured: self.captured,
            halfmove_clock: self.halfmove_clock,
        }
    }
}

impl Default for StateInfo {
    fn default() -> (info: Self)
        ensures
            info@ == (InfoV {
                hash: 0,
                pawn_hash: 0,
                en_passant: None,
                castling_rights: 0,
                captured: PieceType::Empty,
                halfmove_clock: 0,
            }),
    {
        StateInfo {
            hash: 0,
            pawn_hash: 0,
            en_passant: None,
            castling_rights: 0,
            captured: PieceType::Empty,
            halfmove_clock: 0,
        }
    }
}

/// What stands on square `i`, read off the mailbox and Black's occupancy.
pub open spec fn man_on(pieces: [PieceType; 64], black: Bitboard, i: int) -> Option<Piece> {
    if pieces[i] == PieceType::Empty {
        None
    } else {
        Some(
            Piece {
                pt: pieces[i],
                color: if black.on(i) {
                    Color::Black
                } else {
                    Color::White
                },
            },
        )
    }
}

/// The board that the mailbox and Black's occupancy describe.
pub open spec fn board_of(pieces: [PieceType; 64], black: Bitboard) -> Board {
    Seq::new(64, |i: int| man_on(pieces, black, i))
}

/// The bitboards and the mailbox say the same of square `i`.
pub open spec fn views_agree_on(
    side: [Bitboard; 2],
    role: [Bitboard; 6],
    occ: Bitboard,
    pieces: [PieceType; 64],
    i: int,
) -> bool {
    &&& occ.on(i) == (pieces[i] != PieceType::Empty)
    &&& side[0].on(i) == (occ.on(i) && !side[1].on(i))
    &&& side[1].on(i) ==> occ.on(i)
    &&& forall|r: int| 0 <= r < 6 ==> (#[trigger] role[r]).on(i) == (pieces[i].idx() == r)
}

/// The bitboards and the mailbox say the same of every square.
pub open spec fn views_agree(
    side: [Bitboard; 2],
    role: [Bitboard; 6],
    occ: Bitboard,
    pieces: [PieceType; 64],
) -> bool {
    forall|i: int| 0 <= i < 64 ==> #[trigger] views_agree_on(side, role, occ, pieces, i)
}

impl View for Position {
    type V = PositionV;

    open spec fn view(&self) -> PositionV {
        PositionV {
            board: self.board(),
            stm: self.stm,
            castling_rights: self.castling_rights,
            castling_rooks: self.castling_rooks@,
            en_passant: self.en_passant,
            halfmove_clock: self.halfmove_clock,
            fullmove_number: self.fullmove_number,
            is_frc: self.is_frc,
            hash: self.hash,
            pawn_hash: self.pawn_hash,
        }
    }
}

impl Position {
    pub open spec fn board(self) -> Board {
        board_of(self.pieces, self.side_bb[1])
    }

    /// All views of square `i` agree.
    pub open spec fn square_ok(self, i: int) -> bool {
        views_agree_on(self.side_bb, self.role_bb, self.occ, self.pieces, i)
    }

    /// The bitboards and the mailbox describe one board, and squares and rights are in range.
    pub open spec fn wf(self) -> bool {
        &&& views_agree(self.side_bb, self.role_bb, self.occ, self.pieces)
        &&& forall|k: int| 0 <= k < 4 ==> (#[trigger] self.castling_rooks[k]).wf()
        &&& self.castling_rights < 16
        &&& self.en_passant matches Some(sq) ==> sq.wf()
    }

    pub fn piece_at(&self, sq: Square) -> (pt: PieceType)
        requires
            sq.wf(),
        ensures
            pt == self.pieces[sq.0 as int],
            pt == model::type_at(self@.board, sq.0 as int),
    {
        self.pieces[sq.0 as usize]
    }

    /// The piece on an occupied square.
    pub fn expect_piece_at(&self, sq: Square) -> (pt: PieceType)
        requires
            sq.wf(),
            self.wf(),
            self@.board[sq.0 as int] is Some,
        ensures
            pt == model::type_at(self@.board, sq.0 as int),
            pt != PieceType::Empty,
    {
        self.piece_at(sq)
    }

    /// Which color owns the piece on `sq`; `White` for an empty square.
    pub fn color_at(&self, sq: Square) -> (c: Color)
        requires
            sq.wf(),
            self.wf(),
        ensures
            self@.board[sq.0 as int] matches Some(p) ==> c == p.color,
            self@.board[sq.0 as int] is None ==> c == Color::White,
    {
        proof {
            assert(self.square_ok(sq.0 as int));
        }
        if self.side_bb[1].check_bit(sq) {
            Color::Black
        } else {
            Color::White
        }
    }

    /// What stands on `sq`.
    pub fn man_at(&self, sq: Square) -> (m: Option<Piece>)
        requires
            sq.wf(),
        ensures
            m == self@.board[sq.0 as int],
    {
        let pt = self.pieces[sq.0 as usize];
        if pt == PieceType::Empty {
            None
        } else {
            let color = if self.side_bb[1].check_bit(sq) {
                Color::Black
            } else {
                Color::White
            };
            Some(Piece { pt, color })
        }
    }

    /// All pieces of type `pt` that belong to `color`.
    pub fn pieces(&self, pt: PieceType, color: Color) -> (b: Bitboard)
        requires
            self.wf(),
            pt != PieceType::Empty,
        ensures
            forall|i: int| 0 <= i < 64 ==> #[trigger] b.on(i) == (self@.board[i] == model::man(pt, color)),
    {
        let r = self.role_bb[pt.as_usize()].and(self.side_bb[color.as_usize()]);
        proof {
            assert forall|i: int| 0 <= i < 64 implies #[trigger] r.on(i) == (self@.board[i] == model::man(
                pt,
                color,
            )) by {
                assert(self.square_ok(i));
                assert(self.role_bb[pt.idx()].on(i) == (self.pieces[i].idx() == pt.idx()));
            }
        }
        r
    }

    /// All occupied squares.
    pub fn occupancy(&self) -> (b: Bitboard)
        requires
            self.wf(),
        ensures
            b == self.occ,
            forall|i: int| 0 <= i < 64 ==> #[trigger] b.on(i) == (self@.board[i] is Some),
    {
        proof {
            assert forall|i: int| 0 <= i < 64 implies #[trigger] self.occ.on(i) == (self@.board[i] is Some) by {
                assert(self.square_ok(i));
            }
        }
        self.occ
    }

    /// Puts a piece on the board, in the bitboards, in the mailbox and in the hash.
    pub fn add_piece(&mut self, sq: Square, pt: PieceType, color: Color)
        requires
            sq.wf(),
            pt != PieceType::Empty,
            old(self).wf(),
            old(self)@.board[sq.0 as int] is None,
        ensures
            final(self).wf(),
            final(self)@ == (PositionV {
                board: old(self)@.board.update(sq.0 as int, model::man(pt, color)),
                hash: old(self).hash ^ zobrist::piece_key(pt, color, sq.0 as int),
                ..old(self)@
            }),
    {
        update_piece::<true>(self, sq, pt, color);
        self.hash = self.hash ^ zobrist::key_piece(pt, color, sq);
    }

    /// Takes a piece off the board, in the bitboards, in the mailbox and in the hash.
    pub fn remove_piece(&mut self, sq: Square, pt: PieceType, color: Color)
        requires
            sq.wf(),
            pt != PieceType::Empty,
            old(self).wf(),
            old(self)@.board[sq.0 as int] == model::man(pt, color),
        ensures
            final(self).wf(),
            final(self)@ == (PositionV {
                board: old(self)@.board.update(sq.0 as int, None),
                hash: old(self).hash ^ zobrist::piece_key(pt, color, sq.0 as int),
                ..old(self)@
            }),
    {
        update_piece::<false>(self, sq, pt, color);
        self.hash = self.hash ^ zobrist::key_piece(pt, color, sq);
    }

    /// Writes the mailbox entry of `sq` alone.
    pub fn set_piece_type(&mut self, sq: Square, pt: PieceType)
        requires
            sq.wf(),
        ensures
            final(self).pieces@ == old(self).pieces@.update(sq.0 as int, pt),
            *final(self) == (Position { pieces: final(self).pieces, ..*old(self) }),
    {
        self.pieces[sq.0 as usize] = pt;
    }
}

/// Adds a piece to the board (`ADD`), or takes one off.
pub fn update_piece<const ADD: bool>(pos: &mut Position, sq: Square, pt: PieceType, color: Color)
    requires
        sq.wf(),
        pt != PieceType::Empty,
    ensures
        final(pos).pieces@ == old(pos).pieces@.update(
            sq.0 as int,
            if ADD {
                pt
            } else {
                PieceType::Empty
            },
        ),
        forall|i: int|
            #![trigger final(pos).occ.on(i)]
            final(pos).occ.on(i) == (if i == sq.0 {
                ADD
            } else {
                old(pos).occ.on(i)
            }),
        forall|c: int, i: int|
            #![trigger final(pos).side_bb[c].on(i)]
            0 <= c < 2 ==> final(pos).side_bb[c].on(i) == (if i == sq.0 && c == color.idx() {
                ADD
            } else {
                old(pos).side_bb[c].on(i)
            }),
        forall|r: int, i: int|
            #![trigger final(pos).role_bb[r].on(i)]
            0 <= r < 6 ==> final(pos).role_bb[r].on(i) == (if i == sq.0 && r == pt.idx() {
                ADD
            } else {
                old(pos).role_bb[r].on(i)
            }),
        *final(pos) == (Position {
            pieces: final(pos).pieces,
            occ: final(pos).occ,
            side_bb: final(pos).side_bb,
            role_bb: final(pos).role_bb,
            ..*old(pos)
        }),
        // On a board whose views agree, they go on agreeing.
        ADD && old(pos).wf() && old(pos)@.board[sq.0 as int] is None ==> {
            &&& final(pos).wf()
            &&& final(pos)@ == (PositionV {
                board: old(pos)@.board.update(sq.0 as int, model::man(pt, color)),
                ..old(pos)@
            })
        },
        !ADD && old(pos).wf() && old(pos)@.board[sq.0 as int] == model::man(pt, color) ==> {
            &&& final(pos).wf()
            &&& final(pos)@ == (PositionV { board: old(pos)@.board.update(sq.0 as int, None), ..old(pos)@ })
        },
{
    let r: usize = pt.as_usize();
    let c: usize = color.as_usize();
    if ADD {
        pos.role_bb[r].set_bit(sq);
        pos.side_bb[c].set_bit(sq);
        pos.occ.set_bit(sq);
        pos.set_piece_type(sq, pt);
    } else {
        pos.role_bb[r].clear_bit(sq);
        pos.side_bb[c].clear_bit(sq);
        pos.occ.clear_bit(sq);
        pos.set_piece_type(sq, PieceType::Empty);
    }
    proof {
        let ghost s = sq.0 as int;
        if old(pos).wf() && (if ADD {
            old(pos)@.board[s] is None
        } else {
            old(pos)@.board[s] == model::man(pt, color)
        }) {
            assert forall|i: int| 0 <= i < 64 implies #[trigger] views_agree_on(
                pos.side_bb,
                pos.role_bb,
                pos.occ,
                pos.pieces,
                i,
            ) by {
                assert(old(pos).square_ok(i));
                assert(old(pos).square_ok(s));
                assert(old(pos).side_bb[0].on(i) || !old(pos).side_bb[0].on(i));
                assert(pos.side_bb[0].on(i) || !pos.side_bb[0].on(i));
                assert(pos.side_bb[1].on(i) || !pos.side_bb[1].on(i));
                assert forall|q: int| 0 <= q < 6 implies (#[trigger] pos.role_bb[q]).on(i) == (pos.pieces[i].idx()
                    == q) by {
                    assert(old(pos).role_bb[q].on(i) == (old(pos).pieces[i].idx() == q));
                }
            }
            let want = old(pos)@.board.update(
                s,
                if ADD {
                    model::man(pt, color)
                } else {
                    None
                },
            );
            assert forall|i: int| 0 <= i < 64 implies #[trigger] pos@.board[i] == want[i] by {
                assert(pos.square_ok(i));
                assert(old(pos).square_ok(i));
            }
            assert(pos@.board =~= want);
        }
    }
}

} // verus!
