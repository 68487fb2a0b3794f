//! What holds of every position and every move.

use vstd::prelude::*;
use crate::bits;
use crate::board::model;
use crate::board::model::{Board, Piece, PositionV};
use crate::board::position::Position;
use crate::moves;
use crate::moves::Move;
use crate::psqt;
use crate::types;
use crate::types::{Color, PieceType};
use crate::zobrist;

verus! {

/// A promotion moves a pawn.
pub open spec fn promotes_pawn(b: Board, mv: Move) -> bool {
    mv.promoted() is Some ==> model::type_at(b, mv.src()) == PieceType::Pawn
}

/// Taking a move back restores the position it was played in: every field, hashes and counters
/// included.
pub proof fn law_unmake_restores(p: PositionV, mv: Move)
    requires
        model::board_ok(p.board),
        model::playable(p.board, p.stm, mv),
        promotes_pawn(p.board, mv),
        p.stm == Color::Black ==> p.fullmove_number < u16::MAX,
    ensures
        model::takeback_ok(model::made(p, mv).board, p.stm, mv, model::taken(p.board, mv)),
        model::unmade(model::made(p, mv), mv, model::snapshot(p, model::taken(p.board, mv))) == p,
{
    let q = model::made(p, mv);
    let back = model::unmade(q, mv, model::snapshot(p, model::taken(p.board, mv)));
    assert(p.stm.other().other() == p.stm);
    assert(back.board =~= p.board);
}

/// Two well-formed positions with the same abstract value are the same, bit by bit.
pub proof fn law_view_faithful(a: Position, b: Position)
    requires
        a.wf(),
        b.wf(),
        a@ == b@,
    ensures
        a == b,
{
    assert forall|i: int| 0 <= i < 64 implies #[trigger] a.pieces[i] == b.pieces[i] by {
        assert(a@.board[i] == b@.board[i]);
    }
    assert(a.pieces =~= b.pieces);
    assert forall|i: int| 0 <= i < 64 implies bits::member(a.occ.0, i) == bits::member(b.occ.0, i) by {
        assert(a.square_ok(i));
        assert(b.square_ok(i));
        assert(a@.board[i] == b@.board[i]);
    }
    bits::lemma_member_ext(a.occ.0, b.occ.0);
    assert forall|i: int| 0 <= i < 64 implies bits::member(a.side_bb[0].0, i) == bits::member(b.side_bb[0].0, i) by {
        assert(a.square_ok(i));
        assert(b.square_ok(i));
        assert(a@.board[i] == b@.board[i]);
    }
    bits::lemma_member_ext(a.side_bb[0].0, b.side_bb[0].0);
    assert forall|i: int| 0 <= i < 64 implies bits::member(a.side_bb[1].0, i) == bits::member(b.side_bb[1].0, i) by {
        assert(a.square_ok(i));
        assert(b.square_ok(i));
        assert(a@.board[i] == b@.board[i]);
    }
    bits::lemma_member_ext(a.side_bb[1].0, b.side_bb[1].0);
    assert(a.side_bb =~= b.side_bb);
    assert forall|r: int| 0 <= r < 6 implies a.role_bb[r] == b.role_bb[r] by {
        assert forall|i: int| 0 <= i < 64 implies bits::member(a.role_bb[r].0, i) == bits::member(
            b.role_bb[r].0,
            i,
        ) by {
            assert(a.square_ok(i));
            assert(b.square_ok(i));
            assert(a.role_bb[r].on(i) == (a.pieces[i].idx() == r));
            assert(b.role_bb[r].on(i) == (b.pieces[i].idx() == r));
        }
        bits::lemma_member_ext(a.role_bb[r].0, b.role_bb[r].0);
    }
    assert(a.role_bb =~= b.role_bb);
    assert(a.castling_rooks =~= b.castling_rooks) by {
        assert(a.castling_rooks@ == b.castling_rooks@);
    }
}

/// The board of a well-formed position is a board.
pub proof fn law_board_ok(a: Position)
    ensures
        model::board_ok(a@.board),
{
}

// ──────── Rights ────────

/// A recorded en passant square is one on which the side to move can capture.
pub proof fn law_en_passant_usable(p: PositionV, mv: Move)
    ensures
        model::made(p, mv).en_passant matches Some(sq) ==> model::ep_possible(
            model::made(p, mv).board,
            sq.0 as int,
            model::made(p, mv).stm,
        ),
{
}

proof fn lemma_masked(r: u8, a: u8, m: u8)
    by (bit_vector)
    requires
        a & !r == 0,
    ensures
        (a & m) & !r == 0,
{
}

/// No move gives a castling right.
pub proof fn law_rights_shrink(p: PositionV, mv: Move)
    ensures
        model::made(p, mv).castling_rights & !p.castling_rights == 0,
{
    let r = p.castling_rights;
    assert(r & !r == 0 && 0u8 & !r == 0) by (bit_vector);
    assert forall|a: u8, m: u8| a & !r == 0 implies #[trigger] (a & m) & !r == 0 by {
        lemma_masked(r, a, m);
    }
}

// ──────── Hashes ────────

pub proof fn lemma_board_key_update(b: Board, s: int, x: Option<Piece>, n: nat)
    requires
        0 <= s < b.len(),
        n <= b.len(),
    ensures
        model::board_key(b.update(s, x), n) == if s < n {
            model::board_key(b, n) ^ model::square_key(b[s], s) ^ model::square_key(x, s)
        } else {
            model::board_key(b, n)
        },
    decreases n,
{
    if n > 0 {
        let m = (n - 1) as nat;
        lemma_board_key_update(b, s, x, m);
        let k = model::board_key(b, m);
        let o = model::square_key(b[s], s);
        let y = model::square_key(x, s);
        let t = model::square_key(b[n - 1], n - 1);
        if s == n - 1 {
            assert(((k ^ o) ^ o) ^ y == k ^ y) by (bit_vector);
        } else if s < n - 1 {
            assert(((k ^ o) ^ y) ^ t == ((k ^ t) ^ o) ^ y) by (bit_vector);
        }
    }
}

spec fn pawn_or_none(x: Option<Piece>) -> Option<Piece> {
    match x {
        Some(p) => if p.pt == PieceType::Pawn {
            x
        } else {
            None
        },
        None => None,
    }
}

proof fn lemma_pawn_key_update(b: Board, s: int, x: Option<Piece>)
    requires
        b.len() == 64,
        0 <= s < 64,
    ensures
        model::pawn_zobrist_of(b.update(s, x)) == model::pawn_zobrist_of(b) ^ model::square_key(
            pawn_or_none(b[s]),
            s,
        ) ^ model::square_key(pawn_or_none(x), s),
{
    assert(model::pawns_only(b.update(s, x)) =~= model::pawns_only(b).update(s, pawn_or_none(x)));
    lemma_board_key_update(model::pawns_only(b), s, pawn_or_none(x), 64);
}

/// What one square's change does to both hashes of a board.
proof fn lemma_keys_update(b: Board, s: int, x: Option<Piece>)
    requires
        b.len() == 64,
        0 <= s < 64,
    ensures
        model::board_key(b.update(s, x), 64) == model::board_key(b, 64) ^ model::square_key(b[s], s)
            ^ model::square_key(x, s),
        model::pawn_zobrist_of(b.update(s, x)) == model::pawn_zobrist_of(b) ^ model::square_key(
            pawn_or_none(b[s]),
            s,
        ) ^ model::square_key(pawn_or_none(x), s),
{
    lemma_board_key_update(b, s, x, 64);
    lemma_pawn_key_update(b, s, x);
}

/// The keys of a castling move are those of what it changes on the board.
proof fn lemma_castle_keys(p: PositionV, mv: Move)
    requires
        model::board_ok(p.board),
        model::playable(p.board, p.stm, mv),
        mv.castles(),
    ensures
        model::board_key(model::board_after(p.board, p.stm, mv), 64) == model::board_key(p.board, 64)
            ^ model::victim_key(p, mv) ^ model::travel_key(p, mv),
        model::pawn_zobrist_of(model::board_after(p.board, p.stm, mv)) == model::pawn_zobrist_of(p.board),
{
    let b = p.board;
    let (s, d) = (mv.src(), mv.dst());
    let (k, r) = moves::castle_landing(s, d);
    let king = model::man(PieceType::King, p.stm);
    let rook = model::man(PieceType::Rook, p.stm);
    let b1 = b.update(s, None);
    let b2 = b1.update(d, None);
    let b3 = b2.update(k, king);
    lemma_keys_update(b, s, None);
    lemma_keys_update(b1, d, None);
    lemma_keys_update(b2, k, king);
    lemma_keys_update(b3, r, rook);
    assert(b1[d] == rook);
    assert(b2[k] is None);
    assert(b3[r] is None);
    let h = model::board_key(b, 64);
    let ks = zobrist::piece_key(PieceType::King, p.stm, s);
    let rd = zobrist::piece_key(PieceType::Rook, p.stm, d);
    let kk = zobrist::piece_key(PieceType::King, p.stm, k);
    let rr = zobrist::piece_key(PieceType::Rook, p.stm, r);
    assert((((((((h ^ ks) ^ 0) ^ rd) ^ 0) ^ 0) ^ kk) ^ 0) ^ rr == (h ^ 0) ^ (((ks ^ rd) ^ kk) ^ rr)) by (bit_vector);
    let w = model::pawn_zobrist_of(b);
    assert((((((((w ^ 0) ^ 0) ^ 0) ^ 0) ^ 0) ^ 0) ^ 0) ^ 0 == w) by (bit_vector);
}

/// The keys of an ordinary move are those of what it changes on the board.
proof fn lemma_plain_keys(p: PositionV, mv: Move)
    requires
        model::board_ok(p.board),
        model::playable(p.board, p.stm, mv),
        !mv.castles(),
        p.pawn_hash == model::pawn_zobrist_of(p.board),
    ensures
        model::board_key(model::board_after(p.board, p.stm, mv), 64) == model::board_key(p.board, 64)
            ^ model::victim_key(p, mv) ^ model::travel_key(p, mv),
        model::pawn_zobrist_of(model::board_after(p.board, p.stm, mv)) == model::pawn_hash_after(p, mv),
{
    let b = p.board;
    let (s, d) = (mv.src(), mv.dst());
    let pt = model::type_at(b, s);
    let placed = model::put_down(b, mv);
    let v = model::victim_off(b, mv);
    let mate = types::rank_mate(d);
    let h = model::board_key(b, 64);
    let w = model::pawn_zobrist_of(b);
    let vk = model::victim_key(p, mv);
    let gone: u64 = if model::taken(b, mv) == PieceType::Pawn || model::takes_ep(b, mv) {
        vk
    } else {
        0
    };
    assert(h ^ 0 == h && w ^ 0 == w && (h ^ vk) ^ 0 == h ^ vk && (w ^ vk) ^ 0 == w ^ vk && (w ^ 0) ^ 0 == w)
        by (bit_vector);
    if model::taken(b, mv) != PieceType::Empty {
        lemma_keys_update(b, d, None);
        assert(b[d] == model::man(model::taken(b, mv), p.stm.other()));
    } else if mv.kind() == 5 {
        lemma_keys_update(b, mate, None);
    }
    assert(model::board_key(v, 64) == h ^ vk);
    assert(model::pawn_zobrist_of(v) == w ^ gone);
    let v1 = v.update(s, None);
    lemma_keys_update(v, s, None);
    lemma_keys_update(v1, d, model::man(placed, p.stm));
    assert(v[s] == model::man(pt, p.stm));
    assert(v1[d] is None);
    let ks = zobrist::piece_key(pt, p.stm, s);
    let kd = zobrist::piece_key(placed, p.stm, d);
    assert((((h ^ vk) ^ ks ^ 0) ^ 0) ^ kd == (h ^ vk) ^ (ks ^ kd)) by (bit_vector);
    let left: u64 = if pt == PieceType::Pawn {
        ks
    } else {
        0
    };
    let come: u64 = if placed == PieceType::Pawn {
        kd
    } else {
        0
    };
    assert((((w ^ gone) ^ left ^ 0) ^ 0) ^ come == ((w ^ gone) ^ left) ^ come) by (bit_vector);
}

/// Updating the hashes move by move gives the hashes computed from scratch.
pub proof fn law_hashes_incremental(p: PositionV, mv: Move)
    requires
        model::board_ok(p.board),
        model::playable(p.board, p.stm, mv),
        model::hashes_ok(p),
    ensures
        model::hashes_ok(model::made(p, mv)),
{
    let q = model::made(p, mv);
    if mv.castles() {
        lemma_castle_keys(p, mv);
        zobrist::lemma_xor_zero(p.pawn_hash);
    } else {
        lemma_plain_keys(p, mv);
    }
    let h = model::board_key(p.board, 64);
    let vk = model::victim_key(p, mv);
    let tk = model::travel_key(p, mv);
    let sk = zobrist::side_key();
    let s0 = model::side_term(p.stm);
    let s1 = model::side_term(q.stm);
    let c0 = zobrist::castling_key(p.castling_rights);
    let c1 = zobrist::castling_key(q.castling_rights);
    let e0 = model::ep_term(p.en_passant);
    let e1 = model::ep_term(q.en_passant);
    assert(s0 ^ sk == s1) by {
        zobrist::lemma_xor_zero(sk);
    }
    assert(((((((((h ^ s0) ^ c0) ^ e0) ^ vk) ^ tk) ^ sk) ^ (c0 ^ c1)) ^ e0) ^ e1 == ((((h ^ vk) ^ tk) ^ (s0 ^ sk))
        ^ c1) ^ e1) by (bit_vector);
}

/// Passing the turn keeps the hashes right.
pub proof fn law_null_move(p: PositionV)
    requires
        model::hashes_ok(p),
    ensures
        model::hashes_ok(model::passed(p)),
{
    let h = model::board_key(p.board, 64);
    let sk = zobrist::side_key();
    let s0 = model::side_term(p.stm);
    let s1 = model::side_term(p.stm.other());
    let c0 = zobrist::castling_key(p.castling_rights);
    let e0 = model::ep_term(p.en_passant);
    assert(s0 ^ sk == s1) by {
        zobrist::lemma_xor_zero(sk);
    }
    assert(((((h ^ s0) ^ c0) ^ e0) ^ e0) ^ sk == ((h ^ (s0 ^ sk)) ^ c0) ^ 0) by (bit_vector);
}

// ──────── Accumulator ────────

pub proof fn lemma_wrap(x: int)
    ensures
        -32768 <= psqt::wrap(x) < 32768,
        psqt::wrap(x) as i16 == psqt::wrap(x),
{
}

proof fn lemma_wrap_fold(x: int, y: int)
    ensures
        psqt::wrap(psqt::wrap(x) + y) == psqt::wrap(x + y),
        psqt::wrap(psqt::wrap(x) - y) == psqt::wrap(x - y),
{
}

proof fn lemma_lane_sum_update(b: Board, s: int, x: Option<Piece>, l: int, n: nat)
    requires
        0 <= s < b.len(),
        n <= b.len(),
    ensures
        model::lane_sum(b.update(s, x), l, n) == model::lane_sum(b, l, n) + if s < n {
            model::square_lane(x, s, l) - model::square_lane(b[s], s, l)
        } else {
            0
        },
    decreases n,
{
    if n > 0 {
        lemma_lane_sum_update(b, s, x, l, (n - 1) as nat);
    }
}

/// Taking a piece off the board subtracts its vector.
proof fn lemma_acc_lift(b: Board, s: int, p: Piece)
    requires
        b.len() == 64,
        0 <= s < 64,
        b[s] == Some(p),
    ensures
        model::acc_of(b.update(s, None)) == psqt::minus(model::acc_of(b), psqt::vec_of(p.pt, s, p.color)),
{
    reveal(psqt::plus);
    reveal(psqt::minus);
    reveal(psqt::vec_of);
    reveal(model::acc_of);
    let v = psqt::vec_of(p.pt, s, p.color);
    assert forall|l: int| 0 <= l < 8 implies #[trigger] model::acc_of(b.update(s, None))[l] == psqt::minus(
        model::acc_of(b),
        v,
    )[l] by {
        lemma_lane_sum_update(b, s, None, l, 64);
        lemma_wrap(model::lane_sum(b, l, 64));
        lemma_wrap_fold(model::lane_sum(b, l, 64), v[l] as int);
    }
    assert(model::acc_of(b.update(s, None)) =~= psqt::minus(model::acc_of(b), v));
}

/// Putting a piece on an empty square adds its vector.
proof fn lemma_acc_put(b: Board, s: int, p: Piece)
    requires
        b.len() == 64,
        0 <= s < 64,
        b[s] is None,
    ensures
        model::acc_of(b.update(s, Some(p))) == psqt::plus(model::acc_of(b), psqt::vec_of(p.pt, s, p.color)),
{
    reveal(psqt::plus);
    reveal(psqt::minus);
    reveal(psqt::vec_of);
    reveal(model::acc_of);
    let v = psqt::vec_of(p.pt, s, p.color);
    assert forall|l: int| 0 <= l < 8 implies #[trigger] model::acc_of(b.update(s, Some(p)))[l] == psqt::plus(
        model::acc_of(b),
        v,
    )[l] by {
        lemma_lane_sum_update(b, s, Some(p), l, 64);
        lemma_wrap(model::lane_sum(b, l, 64));
        lemma_wrap_fold(model::lane_sum(b, l, 64), v[l] as int);
    }
    assert(model::acc_of(b.update(s, Some(p))) =~= psqt::plus(model::acc_of(b), v));
}

/// The order of additions and subtractions does not matter.
proof fn lemma_acc_swap(a: Seq<i16>, v: Seq<i16>, w: Seq<i16>)
    requires
        a.len() == 8,
        v.len() == 8,
        w.len() == 8,
    ensures
        psqt::minus(psqt::plus(a, v), w) == psqt::plus(psqt::minus(a, w), v),
        psqt::minus(psqt::minus(a, v), w) == psqt::minus(psqt::minus(a, w), v),
{
    reveal(psqt::plus);
    reveal(psqt::minus);
    assert forall|l: int| 0 <= l < 8 implies psqt::minus(psqt::plus(a, v), w)[l] == psqt::plus(
        psqt::minus(a, w),
        v,
    )[l] && psqt::minus(psqt::minus(a, v), w)[l] == psqt::minus(psqt::minus(a, w), v)[l] by {
        lemma_wrap(a[l] + v[l]);
        lemma_wrap(a[l] - w[l]);
        lemma_wrap(a[l] - v[l]);
        lemma_wrap_fold(a[l] + v[l], w[l] as int);
        lemma_wrap_fold(a[l] - w[l], v[l] as int);
        lemma_wrap_fold(a[l] - v[l], w[l] as int);
    }
    assert(psqt::minus(psqt::plus(a, v), w) =~= psqt::plus(psqt::minus(a, w), v));
    assert(psqt::minus(psqt::minus(a, v), w) =~= psqt::minus(psqt::minus(a, w), v));
}

proof fn lemma_acc_len(b: Board, pt: PieceType, sq: int, color: Color, v: Seq<i16>, w: Seq<i16>)
    ensures
        model::acc_of(b).len() == 8,
        psqt::vec_of(pt, sq, color).len() == 8,
        psqt::minus(v, w).len() == 8,
{
    reveal(psqt::minus);
    reveal(psqt::vec_of);
    reveal(model::acc_of);
}

proof fn lemma_castle_acc(b: Board, stm: Color, mv: Move)
    requires
        model::board_ok(b),
        model::playable(b, stm, mv),
        mv.castles(),
    ensures
        model::acc_after(model::acc_of(b), b, stm, mv) == model::acc_of(model::board_after(b, stm, mv)),
{
    let (s, d) = (mv.src(), mv.dst());
    let a0 = model::acc_of(b);
    let (k, r) = moves::castle_landing(s, d);
    let king = Piece { pt: PieceType::King, color: stm };
    let rook = Piece { pt: PieceType::Rook, color: stm };
    let b1 = b.update(s, None);
    let b2 = b1.update(d, None);
    let b3 = b2.update(k, Some(king));
    assert(b1[d] == Some(rook));
    assert(b2[k] is None);
    assert(b3[r] is None);
    lemma_acc_lift(b, s, king);
    lemma_acc_lift(b1, d, rook);
    lemma_acc_put(b2, k, king);
    lemma_acc_put(b3, r, rook);
    let ks = psqt::vec_of(PieceType::King, s, stm);
    let kk = psqt::vec_of(PieceType::King, k, stm);
    let rd = psqt::vec_of(PieceType::Rook, d, stm);
    lemma_acc_len(b, PieceType::King, k, stm, a0, ks);
    lemma_acc_len(b, PieceType::Rook, d, stm, a0, ks);
    lemma_acc_swap(psqt::minus(a0, ks), kk, rd);
}

proof fn lemma_plain_acc(b: Board, stm: Color, mv: Move)
    requires
        model::board_ok(b),
        model::playable(b, stm, mv),
        !mv.castles(),
    ensures
        model::acc_after(model::acc_of(b), b, stm, mv) == model::acc_of(model::board_after(b, stm, mv)),
{
    let (s, d) = (mv.src(), mv.dst());
    let a0 = model::acc_of(b);
    let pt = model::type_at(b, s);
    let placed = model::put_down(b, mv);
    let v = model::victim_off(b, mv);
    let v1 = v.update(s, None);
    let vs = psqt::vec_of(pt, s, stm);
    let vd = psqt::vec_of(placed, d, stm);
    assert(v[s] == model::man(pt, stm));
    assert(v1[d] is None);
    lemma_acc_lift(v, s, Piece { pt, color: stm });
    lemma_acc_put(v1, d, Piece { pt: placed, color: stm });
    let (gone, at) = if model::taken(b, mv) != PieceType::Empty {
        (model::taken(b, mv), d)
    } else {
        (PieceType::Pawn, types::rank_mate(d))
    };
    if model::taken(b, mv) != PieceType::Empty || mv.kind() == 5 {
        let vv = psqt::vec_of(gone, at, stm.other());
        assert(b[at] == model::man(gone, stm.other()));
        lemma_acc_lift(b, at, Piece { pt: gone, color: stm.other() });
        lemma_acc_len(b, pt, s, stm, a0, vs);
        lemma_acc_len(b, placed, d, stm, a0, vs);
        lemma_acc_len(b, gone, at, stm.other(), a0, vs);
        lemma_acc_swap(psqt::minus(a0, vs), vd, vv);
        lemma_acc_swap(a0, vs, vv);
    }
}

/// Updating the accumulator move by move gives the accumulator summed from scratch.
pub proof fn law_accumulator_incremental(b: Board, stm: Color, mv: Move)
    requires
        model::board_ok(b),
        model::playable(b, stm, mv),
    ensures
        model::acc_after(model::acc_of(b), b, stm, mv) == model::acc_of(model::board_after(b, stm, mv)),
{
    if mv.castles() {
        lemma_castle_acc(b, stm, mv);
    } else {
        lemma_plain_acc(b, stm, mv);
    }
}

} // verus!
