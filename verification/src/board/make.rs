//! Move application and its undoing.

use vstd::prelude::*;
use crate::board::attacks;
use crate::board::model;
use crate::board::model::PositionV;
use crate::board::position;
use crate::board::position::{Position, StateInfo};
use crate::moves;
use crate::moves::Move;
use crate::psqt;
use crate::psqt::Vi16x8;
use crate::types::{Color, PieceType, Square};
use crate::zobrist;

verus! {

pub const WHITE_OO: u8 = 1;

pub const WHITE_OOO: u8 = 2;

pub const BLACK_OO: u8 = 4;

pub const BLACK_OOO: u8 = 8;

pub const ROOK_W_KS: usize = 0;

pub const ROOK_W_QS: usize = 1;

pub const ROOK_B_KS: usize = 2;

pub const ROOK_B_QS: usize = 3;

/// Applies a move, maintaining the hashes and the accumulator. Returns the snapshot that undoing
/// the move needs.
pub fn make_move(pos: &mut Position, mv: Move, acc: &mut Vi16x8) -> (info: StateInfo)
    requires
        old(pos).wf(),
        model::playable(old(pos)@.board, old(pos).stm, mv),
        old(pos).stm == Color::Black ==> old(pos).fullmove_number < u16::MAX,
    ensures
        final(pos).wf(),
        final(pos)@ == model::made(old(pos)@, mv),
        final(acc)@ == model::acc_after(old(acc)@, old(pos)@.board, old(pos).stm, mv),
        info@ == model::snapshot(old(pos)@, model::taken(old(pos)@.board, mv)),
{
    let stm = pos.stm;
    let opp = stm.opposite();
    let from = mv.from();
    let to = mv.to();
    let pt = pos.expect_piece_at(from);
    let captured = if mv.is_castling() {
        PieceType::Empty
    } else {
        pos.piece_at(to)
    };
    let state = StateInfo {
        castling_rights: pos.castling_rights,
        hash: pos.hash,
        pawn_hash: pos.pawn_hash,
        captured,
        halfmove_clock: pos.halfmove_clock,
        en_passant: pos.en_passant,
    };
    let placed = match mv.promo() {
        Some(p) => p,
        None => pt,
    };
    update_accumulator(pos, acc, mv, pt, captured, placed);

    let ghost p0 = pos@;
    let ghost b0 = pos@.board;

    pos.halfmove_clock = if pt == PieceType::Pawn || captured != PieceType::Empty {
        0
    } else {
        pos.halfmove_clock.saturating_add(1)
    };

    take_victim(pos, mv, captured, opp, Ghost(p0));
    if mv.is_castling() {
        apply_castling(pos, from, to, stm);
        proof {
            zobrist::lemma_xor_zero(pos.pawn_hash);
        }
    } else {
        relocate(pos, from, to, pt, placed, stm);
    }
    proof {
        assert(pos@.board =~= model::board_after(b0, stm, mv));
        assert(pos.pawn_hash == model::pawn_hash_after(p0, mv));
    }

    pos.stm = opp;
    if stm == Color::Black {
        pos.fullmove_number = pos.fullmove_number + 1;
    }
    pos.hash = pos.hash ^ zobrist::key_side();

    refresh_castling_rights(pos, pt, stm, from, to, state.castling_rights, Ghost(p0), Ghost(mv));
    refresh_en_passant(pos, mv, from, to, state.en_passant);
    state
}

/// Takes the victim of `mv` off the board and out of the hashes.
fn take_victim(pos: &mut Position, mv: Move, captured: PieceType, opp: Color, Ghost(p0): Ghost<PositionV>)
    requires
        old(pos).wf(),
        old(pos)@.board == p0.board,
        p0.stm == opp.other(),
        captured == model::taken(p0.board, mv),
        model::playable(p0.board, p0.stm, mv),
    ensures
        final(pos).wf(),
        final(pos)@ == (PositionV {
            board: model::victim_off(p0.board, mv),
            hash: old(pos).hash ^ model::victim_key(p0, mv),
            pawn_hash: old(pos).pawn_hash ^ (if captured == PieceType::Pawn || model::takes_ep(p0.board, mv) {
                model::victim_key(p0, mv)
            } else {
                0
            }),
            ..old(pos)@
        }),
{
    proof {
        zobrist::lemma_xor_zero(pos.hash);
        zobrist::lemma_xor_zero(pos.pawn_hash);
    }
    let to = mv.to();
    if captured != PieceType::Empty {
        if captured == PieceType::Pawn {
            pos.pawn_hash = pos.pawn_hash ^ zobrist::key_piece(PieceType::Pawn, opp, to);
        }
        pos.remove_piece(to, captured, opp);
    } else if mv.is_en_passant() {
        let victim_sq = to.toggle_rank();
        pos.pawn_hash = pos.pawn_hash ^ zobrist::key_piece(PieceType::Pawn, opp, victim_sq);
        pos.remove_piece(victim_sq, PieceType::Pawn, opp);
    }
}

/// Moves a piece to an empty square, where it lands as a `placed`, on the board and in the hashes.
fn relocate(pos: &mut Position, from: Square, to: Square, pt: PieceType, placed: PieceType, stm: Color)
    requires
        old(pos).wf(),
        from.wf(),
        to.wf(),
        from != to,
        placed != PieceType::Empty,
        old(pos)@.board[from.0 as int] == model::man(pt, stm),
        old(pos)@.board[to.0 as int] is None,
    ensures
        final(pos).wf(),
        final(pos)@ == (PositionV {
            board: old(pos)@.board.update(from.0 as int, None).update(to.0 as int, model::man(placed, stm)),
            hash: old(pos).hash ^ (zobrist::piece_key(pt, stm, from.0 as int) ^ zobrist::piece_key(
                placed,
                stm,
                to.0 as int,
            )),
            pawn_hash: old(pos).pawn_hash ^ (if pt == PieceType::Pawn {
                zobrist::piece_key(PieceType::Pawn, stm, from.0 as int)
            } else {
                0
            }) ^ (if pt == PieceType::Pawn && placed == PieceType::Pawn {
                zobrist::piece_key(PieceType::Pawn, stm, to.0 as int)
            } else {
                0
            }),
            ..old(pos)@
        }),
{
    proof {
        assert(old(pos).square_ok(from.0 as int));
        zobrist::lemma_xor_assoc(
            pos.hash,
            zobrist::piece_key(pt, stm, from.0 as int),
            zobrist::piece_key(placed, stm, to.0 as int),
        );
        zobrist::lemma_xor_zero(pos.pawn_hash);
        zobrist::lemma_xor_zero(pos.pawn_hash ^ zobrist::piece_key(PieceType::Pawn, stm, from.0 as int));
    }
    pos.remove_piece(from, pt, stm);
    pos.add_piece(to, placed, stm);

    if pt == PieceType::Pawn {
        pos.pawn_hash = pos.pawn_hash ^ zobrist::key_piece(PieceType::Pawn, stm, from);
        if placed == PieceType::Pawn {
            pos.pawn_hash = pos.pawn_hash ^ zobrist::key_piece(PieceType::Pawn, stm, to);
        }
    }
}

/// Takes a move back. The accumulator is restored by the caller from its own copy.
pub fn unmake_move(pos: &mut Position, mv: Move, info: &StateInfo)
    requires
        old(pos).wf(),
        model::takeback_ok(old(pos)@.board, old(pos).stm.other(), mv, info.captured),
        old(pos).stm == Color::White ==> old(pos).fullmove_number > 0,
        info.castling_rights < 16,
        info.en_passant matches Some(sq) ==> sq.wf(),
    ensures
        final(pos).wf(),
        final(pos)@ == model::unmade(old(pos)@, mv, info@),
{
    let ghost b0 = pos@.board;
    pos.stm = pos.stm.opposite();
    let stm = pos.stm;
    if stm == Color::Black {
        pos.fullmove_number = pos.fullmove_number - 1;
    }
    let opp = stm.opposite();
    let from = mv.from();
    let to = mv.to();

    pos.castling_rights = info.castling_rights;
    pos.en_passant = info.en_passant;
    pos.halfmove_clock = info.halfmove_clock;
    pos.hash = info.hash;
    pos.pawn_hash = info.pawn_hash;
    proof {
        assert(pos@.board =~= b0);
    }

    if mv.is_castling() {
        revert_castling(pos, from, to);
        return;
    }
    let placed = pos.expect_piece_at(to);
    let lifted = if mv.is_promotion() {
        PieceType::Pawn
    } else {
        placed
    };

    pos.remove_piece(to, placed, stm);
    pos.add_piece(from, lifted, stm);

    if info.captured != PieceType::Empty {
        pos.add_piece(to, info.captured, opp);
    } else if mv.is_en_passant() {
        pos.add_piece(to.toggle_rank(), PieceType::Pawn, opp);
    }
    pos.hash = info.hash;
    proof {
        assert(pos@.board =~= model::board_before(b0, stm, mv, info.captured));
    }
}

/// Updates the accumulator for `mv`, before the move is applied to the board.
pub fn update_accumulator(
    pos: &Position,
    acc: &mut Vi16x8,
    mv: Move,
    pt: PieceType,
    captured: PieceType,
    placed: PieceType,
)
    ensures
        final(acc)@ == model::acc_step(old(acc)@, pos.stm, mv, pt, captured, placed),
{
    let stm = pos.stm;
    let from = mv.from();
    let to = mv.to();
    if mv.is_castling() {
        let (king_to, rook_to) = moves::castling_targets(from, to);
        acc.decrease(&psqt::get_vec(PieceType::King, from, stm));
        acc.increase(&psqt::get_vec(PieceType::King, king_to, stm));
        acc.decrease(&psqt::get_vec(PieceType::Rook, to, stm));
        acc.increase(&psqt::get_vec(PieceType::Rook, rook_to, stm));
        return;
    }
    let opp = stm.opposite();
    acc.decrease(&psqt::get_vec(pt, from, stm));
    acc.increase(&psqt::get_vec(placed, to, stm));
    if captured != PieceType::Empty {
        acc.decrease(&psqt::get_vec(captured, to, opp));
    } else if mv.is_en_passant() {
        acc.decrease(&psqt::get_vec(PieceType::Pawn, to.toggle_rank(), opp));
    }
}

/// Undoes a castling move on the board; the side to move is the side that castled.
pub fn revert_castling(pos: &mut Position, king_from: Square, rook_from: Square)
    requires
        old(pos).wf(),
        king_from.wf(),
        rook_from.wf(),
        king_from != rook_from,
        ({
            let (k, r) = moves::castle_landing(king_from.0 as int, rook_from.0 as int);
            let b = old(pos)@.board;
            &&& b[k] == model::man(PieceType::King, old(pos).stm)
            &&& b[r] == model::man(PieceType::Rook, old(pos).stm)
            &&& b[king_from.0 as int] is None || king_from.0 == k || king_from.0 == r
            &&& b[rook_from.0 as int] is None || rook_from.0 == k || rook_from.0 == r
        }),
    ensures
        final(pos).wf(),
        final(pos)@ == (PositionV {
            board: ({
                let (k, r) = moves::castle_landing(king_from.0 as int, rook_from.0 as int);
                old(pos)@.board.update(k, None).update(r, None).update(
                    king_from.0 as int,
                    model::man(PieceType::King, old(pos).stm),
                ).update(rook_from.0 as int, model::man(PieceType::Rook, old(pos).stm))
            }),
            ..old(pos)@
        }),
{
    let (king_to, rook_to) = moves::castling_targets(king_from, rook_from);
    let stm = pos.stm;
    position::update_piece::<false>(pos, king_to, PieceType::King, stm);
    position::update_piece::<false>(pos, rook_to, PieceType::Rook, stm);
    position::update_piece::<true>(pos, king_from, PieceType::King, stm);
    position::update_piece::<true>(pos, rook_from, PieceType::Rook, stm);
}

/// Castles on the board and patches the hash. Both pieces are lifted before either is put down:
/// a destination may be the other piece's origin.
fn apply_castling(pos: &mut Position, king_from: Square, rook_from: Square, stm: Color)
    requires
        old(pos).wf(),
        king_from.wf(),
        rook_from.wf(),
        king_from != rook_from,
        ({
            let (k, r) = moves::castle_landing(king_from.0 as int, rook_from.0 as int);
            let b = old(pos)@.board;
            &&& b[king_from.0 as int] == model::man(PieceType::King, stm)
            &&& b[rook_from.0 as int] == model::man(PieceType::Rook, stm)
            &&& b[k] is None || k == king_from.0 || k == rook_from.0
            &&& b[r] is None || r == king_from.0 || r == rook_from.0
        }),
    ensures
        final(pos).wf(),
        final(pos)@ == (PositionV {
            board: model::castled(old(pos)@.board, stm, king_from.0 as int, rook_from.0 as int),
            hash: ({
                let (k, r) = moves::castle_landing(king_from.0 as int, rook_from.0 as int);
                old(pos).hash ^ (zobrist::piece_key(PieceType::King, stm, king_from.0 as int) ^ zobrist::piece_key(
                    PieceType::Rook,
                    stm,
                    rook_from.0 as int,
                ) ^ zobrist::piece_key(PieceType::King, stm, k) ^ zobrist::piece_key(PieceType::Rook, stm, r))
            }),
            ..old(pos)@
        }),
{
    let (king_to, rook_to) = moves::castling_targets(king_from, rook_from);

    pos.remove_piece(king_from, PieceType::King, stm);
    pos.remove_piece(rook_from, PieceType::Rook, stm);
    pos.add_piece(king_to, PieceType::King, stm);
    pos.add_piece(rook_to, PieceType::Rook, stm);
    proof {
        let (a, b) = (
            zobrist::piece_key(PieceType::King, stm, king_from.0 as int),
            zobrist::piece_key(PieceType::Rook, stm, rook_from.0 as int),
        );
        let (c, d) = (
            zobrist::piece_key(PieceType::King, stm, king_to.0 as int),
            zobrist::piece_key(PieceType::Rook, stm, rook_to.0 as int),
        );
        zobrist::lemma_xor_assoc(old(pos).hash, a, b);
        zobrist::lemma_xor_assoc(old(pos).hash, a ^ b, c);
        zobrist::lemma_xor_assoc(old(pos).hash, a ^ b ^ c, d);
    }
}

/// Takes away the castling rights that a move's origin and destination touch, and patches the hash.
fn refresh_castling_rights(
    pos: &mut Position,
    pt: PieceType,
    stm: Color,
    from: Square,
    to: Square,
    prior: u8,
    Ghost(p0): Ghost<PositionV>,
    Ghost(mv): Ghost<Move>,
)
    requires
        old(pos).wf(),
        p0.castling_rights == prior,
        p0.castling_rights == old(pos).castling_rights,
        p0.castling_rooks == old(pos)@.castling_rooks,
        p0.stm == stm,
        mv.src() == from.0,
        mv.dst() == to.0,
        model::type_at(p0.board, mv.src()) == pt,
    ensures
        final(pos).wf(),
        final(pos)@ == (PositionV {
            castling_rights: model::rights_after(p0, mv),
            hash: old(pos).hash ^ (zobrist::castling_key(prior) ^ zobrist::castling_key(model::rights_after(p0, mv))),
            ..old(pos)@
        }),
{
    proof {
        zobrist::lemma_xor_zero(pos.hash);
        zobrist::lemma_xor_zero(zobrist::castling_key(prior));
        assert(forall|a: u8, m: u8| a < 16 ==> #[trigger] (a & m) < 16) by (bit_vector);
        assert(!(1u8 | 2u8) == !3u8 && !(4u8 | 8u8) == !12u8) by (bit_vector);
        assert(pos@.board =~= old(pos)@.board);
    }
    if prior == 0 {
        return;
    }
    let mut rights: u8 = prior;
    if pt == PieceType::King {
        rights = rights & if stm == Color::White {
            !(WHITE_OO | WHITE_OOO)
        } else {
            !(BLACK_OO | BLACK_OOO)
        };
    }
    if from == pos.castling_rooks[ROOK_W_KS] || to == pos.castling_rooks[ROOK_W_KS] {
        rights = rights & !WHITE_OO;
    }
    if from == pos.castling_rooks[ROOK_W_QS] || to == pos.castling_rooks[ROOK_W_QS] {
        rights = rights & !WHITE_OOO;
    }
    if from == pos.castling_rooks[ROOK_B_KS] || to == pos.castling_rooks[ROOK_B_KS] {
        rights = rights & !BLACK_OO;
    }
    if from == pos.castling_rooks[ROOK_B_QS] || to == pos.castling_rooks[ROOK_B_QS] {
        rights = rights & !BLACK_OOO;
    }
    proof {
        assert(rights == model::rights_after(p0, mv));
    }
    if rights != prior {
        pos.hash = pos.hash ^ (zobrist::key_castling(prior) ^ zobrist::key_castling(rights));
        pos.castling_rights = rights;
    }
    proof {
        assert(pos@.board =~= old(pos)@.board);
    }
}

/// Maintains the en passant square and the hash. The square is recorded only when an enemy pawn
/// can capture there, so that positions do not differ by a square no one can use.
fn refresh_en_passant(pos: &mut Position, mv: Move, from: Square, to: Square, prior: Option<Square>)
    requires
        old(pos).wf(),
        from.0 == mv.src(),
        to.0 == mv.dst(),
    ensures
        final(pos).wf(),
        ({
            let sq = (mv.src() + mv.dst()) / 2;
            let ep = if mv.kind() == 1 && model::ep_possible(old(pos)@.board, sq, old(pos).stm) {
                Some(Square(sq as u8))
            } else {
                None
            };
            final(pos)@ == (PositionV {
                en_passant: ep,
                hash: old(pos).hash ^ model::ep_term(prior) ^ model::ep_term(ep),
                ..old(pos)@
            })
        }),
{
    proof {
        zobrist::lemma_xor_zero(pos.hash);
        zobrist::lemma_xor_zero(pos.hash ^ model::ep_term(prior));
    }
    match prior {
        Some(sq) => {
            pos.hash = pos.hash ^ zobrist::key_ep(sq);
        },
        None => {},
    }
    pos.en_passant = None;
    proof {
        assert(pos@.board =~= old(pos)@.board);
    }
    if mv.is_double_push() {
        let ep_sq = Square((from.0 + to.0) / 2);
        if attacks::can_capture_ep(pos, ep_sq, pos.stm) {
            pos.en_passant = Some(ep_sq);
            pos.hash = pos.hash ^ zobrist::key_ep(ep_sq);
        }
    }
    proof {
        assert(pos@.board =~= old(pos)@.board);
    }
}

} // verus!
