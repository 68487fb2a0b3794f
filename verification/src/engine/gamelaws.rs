//! What legal play keeps.

use vstd::prelude::*;
use crate::bits;
use crate::board::attacks;
use crate::board::fen_laws;
use crate::board::laws;
use crate::board::model;
use crate::board::model::{Board, Piece, PositionV};
use crate::board::notation;
use crate::board::position::Position;
use crate::board::queries;
use crate::engine::movegen;
use crate::error::FenErrorV;
use crate::moves;
use crate::moves::Move;
use crate::types;
use crate::types::{Color, PieceType, Square};

verus! {

/// The right of a slot, if held, belongs to a rook of its own color.
pub open spec fn own_rook(p: PositionV, bit: u8, slot: int, color: Color) -> bool {
    p.castling_rights & bit != 0 ==> p.board[p.castling_rooks[slot].0 as int] == model::man(PieceType::Rook, color)
}

/// Every right belongs to a rook of its own color.
pub open spec fn own_rooks(p: PositionV) -> bool {
    &&& own_rook(p, 1, 0, Color::White)
    &&& own_rook(p, 2, 1, Color::White)
    &&& own_rook(p, 4, 2, Color::Black)
    &&& own_rook(p, 8, 3, Color::Black)
}

/// A position of a game: one king of each color, no pawn on the first or last rank, the side that has just
/// moved is not in check, every castling right has its rook square on its own side of the king with a rook on
/// it, and hashes and en passant square are right.
pub open spec fn sound(p: PositionV) -> bool {
    &&& model::board_ok(p.board)
    &&& notation::objection(p) is None
    &&& model::hashes_ok(p)
    &&& fen_laws::ep_legible(p)
    &&& p.castling_rights < 16
    &&& p.castling_rooks.len() == 4
    &&& fen_laws::rooks_beside_kings(p)
}

// ──────── Kings ────────

proof fn lemma_headcount_update(b: Board, m: Option<Piece>, i: int, x: Option<Piece>, n: nat)
    requires
        0 <= i < b.len(),
        n <= b.len(),
    ensures
        notation::headcount(b.update(i, x), m, n) == notation::headcount(b, m, n) - (if i < n && b[i] == m {
            1int
        } else {
            0
        }) + (if i < n && x == m {
            1int
        } else {
            0
        }),
    decreases n,
{
    if n > 0 {
        lemma_headcount_update(b, m, i, x, (n - 1) as nat);
    }
}

proof fn lemma_headcount_one(b: Board, m: Option<Piece>, i: int, n: nat)
    requires
        0 <= i < n <= b.len(),
        b[i] == m,
    ensures
        notation::headcount(b, m, n) >= 1,
    decreases n,
{
    if i < n - 1 {
        lemma_headcount_one(b, m, i, (n - 1) as nat);
    }
}

proof fn lemma_headcount_two(b: Board, m: Option<Piece>, i: int, j: int, n: nat)
    requires
        0 <= i < j < n <= b.len(),
        b[i] == m,
        b[j] == m,
    ensures
        notation::headcount(b, m, n) >= 2,
    decreases n,
{
    if j < n - 1 {
        lemma_headcount_two(b, m, i, j, (n - 1) as nat);
    } else {
        lemma_headcount_one(b, m, i, (n - 1) as nat);
    }
}

/// The only king of a color is the king of that color.
proof fn lemma_only_king(b: Board, c: Color, k: int)
    requires
        b.len() == 64,
        notation::headcount(b, model::man(PieceType::King, c), 64) == 1,
        0 <= k < 64,
        b[k] == model::man(PieceType::King, c),
    ensures
        model::king_at(b, c) == k,
{
    attacks::lemma_find_king(b, c, 0);
    let f = model::king_at(b, c);
    if f < k {
        lemma_headcount_two(b, model::man(PieceType::King, c), f, k, 64);
    }
}

/// There is a king where there is exactly one.
proof fn lemma_some_king(b: Board, c: Color, n: nat)
    requires
        n <= 64,
        b.len() == 64,
        notation::headcount(b, model::man(PieceType::King, c), n) >= 1,
    ensures
        model::king_at(b, c) < 64,
    decreases n,
{
    attacks::lemma_find_king(b, c, 0);
    if n > 0 && b[n - 1] != model::man(PieceType::King, c) {
        lemma_some_king(b, c, (n - 1) as nat);
    }
}

// ──────── The shape of a move ────────

/// What a pseudo-legal move has to do with the board.
pub open spec fn shaped(p: PositionV, mv: Move) -> bool {
    let (s, d) = (mv.src(), mv.dst());
    let pawn = model::type_at(p.board, s) == PieceType::Pawn;
    let up = types::rank_of(d) - types::rank_of(s);
    &&& !mv.castles() && p.board[d] is Some ==> model::reaches(p.board, 0, p.board[s].unwrap(), s, d)
    &&& mv.kind() == 5 ==> pawn && p.board[d] is None && p.en_passant == Some(Square(d as u8))
    &&& mv.kind() == 1 ==> pawn && types::rank_of(s) == movegen::pawn_rank(p.stm) && types::file_of(s)
        == types::file_of(d) && up == 2 * movegen::forward(p.stm)
    &&& pawn && !mv.castles() && mv.kind() != 1 ==> up == movegen::forward(p.stm)
    &&& pawn && mv.promoted() is None && mv.kind() != 5 ==> types::rank_of(d) != p.stm.other().home_rank()
    &&& mv.promoted() is Some ==> pawn
}

proof fn lemma_shaped(pos: Position, mv: Move)
    requires
        pos.wf(),
        movegen::pseudo_legal(pos@, mv),
    ensures
        model::playable(pos@.board, pos.stm, mv),
        shaped(pos@, mv),
{
    movegen::law_pseudo_legal_playable(pos, mv);
    let p = pos@;
    let (s, d) = (mv.src(), mv.dst());
    let i = choose|i: int|
        0 <= i < movegen::moves_between(p, s, d).len() && movegen::moves_between(p, s, d)[i] == mv;
    assert forall|k: int| 0 <= k < 16 implies #[trigger] movegen::encoded(s, d, k).kind() == k by {
        movegen::lemma_encoded(s, d, k);
    }
}

// ──────── One move ────────

/// A king cannot be taken: it would be in check while the other side moves.
proof fn lemma_no_king_taken(pos: Position, mv: Move)
    requires
        pos.wf(),
        sound(pos@),
        movegen::pseudo_legal(pos@, mv),
        !mv.castles(),
    ensures
        model::type_at(pos@.board, mv.dst()) != PieceType::King,
{
    lemma_shaped(pos, mv);
    let p = pos@;
    let (s, d) = (mv.src(), mv.dst());
    let them = p.stm.other();
    if model::type_at(p.board, d) == PieceType::King {
        lemma_only_king(p.board, them, d);
        assert(model::attacks_from(p.board, 0, s, d, p.stm));
    }
}

/// Every color still has exactly one king.
proof fn lemma_kings_stay(pos: Position, mv: Move, c: Color)
    requires
        pos.wf(),
        sound(pos@),
        movegen::pseudo_legal(pos@, mv),
    ensures
        notation::headcount(model::made(pos@, mv).board, model::man(PieceType::King, c), 64) == 1,
{
    lemma_shaped(pos, mv);
    let p = pos@;
    let b = p.board;
    let (s, d) = (mv.src(), mv.dst());
    let m = model::man(PieceType::King, c);
    if mv.castles() {
        let (k, r) = moves::castle_landing(s, d);
        let b1 = b.update(s, None);
        let b2 = b1.update(d, None);
        let b3 = b2.update(k, model::man(PieceType::King, p.stm));
        lemma_headcount_update(b, m, s, None, 64);
        lemma_headcount_update(b1, m, d, None, 64);
        lemma_headcount_update(b2, m, k, model::man(PieceType::King, p.stm), 64);
        lemma_headcount_update(b3, m, r, model::man(PieceType::Rook, p.stm), 64);
    } else {
        lemma_no_king_taken(pos, mv);
        let b1 = model::victim_off(b, mv);
        let b2 = b1.update(s, None);
        lemma_headcount_update(b, m, d, None, 64);
        lemma_headcount_update(b, m, types::rank_mate(d), None, 64);
        lemma_headcount_update(b1, m, s, None, 64);
        lemma_headcount_update(b2, m, d, model::man(model::put_down(b, mv), p.stm), 64);
    }
}

/// A king that does not move stays where it is.
proof fn lemma_king_stays(pos: Position, mv: Move, c: Color)
    requires
        pos.wf(),
        sound(pos@),
        movegen::pseudo_legal(pos@, mv),
        c != pos.stm || model::type_at(pos@.board, mv.src()) != PieceType::King,
    ensures
        model::king_at(model::made(pos@, mv).board, c) == model::king_at(pos@.board, c),
{
    lemma_shaped(pos, mv);
    let p = pos@;
    lemma_some_king(p.board, c, 64);
    attacks::lemma_find_king(p.board, c, 0);
    let k = model::king_at(p.board, c);
    lemma_kings_stay(pos, mv, c);
    if !mv.castles() {
        lemma_no_king_taken(pos, mv);
    }
    lemma_only_king(model::made(p, mv).board, c, k);
}

proof fn lemma_no_stray_left(b: Board, i: int)
    requires
        forall|j: int| i <= j < 64 ==> !#[trigger] notation::stray_pawn(b, j),
    ensures
        notation::first_stray_pawn(b, i) >= 64,
    decreases 64 - i,
{
    if i < 64 {
        lemma_no_stray_left(b, i + 1);
    }
}

/// No pawn gets to the first or last rank.
proof fn lemma_pawns_stay_off(pos: Position, mv: Move)
    requires
        pos.wf(),
        sound(pos@),
        movegen::pseudo_legal(pos@, mv),
    ensures
        notation::first_stray_pawn(model::made(pos@, mv).board, 0) >= 64,
{
    lemma_shaped(pos, mv);
    let p = pos@;
    let q = model::made(p, mv);
    let (s, d) = (mv.src(), mv.dst());
    fen_laws::lemma_no_stray(p.board, 0);
    assert(!notation::stray_pawn(p.board, s));
    assert forall|j: int| 0 <= j < 64 implies !#[trigger] notation::stray_pawn(q.board, j) by {
        assert(!notation::stray_pawn(p.board, j));
    }
    lemma_no_stray_left(q.board, 0);
}

proof fn lemma_and_bit(a: u8, m: u8, bit: u8)
    by (bit_vector)
    requires
        (a & m) & bit != 0,
    ensures
        a & bit != 0,
        m & bit != 0,
{
}

/// A right that is still held was held before, its rook did not move and was not taken, and its king did not
/// move.
proof fn lemma_right_kept(p: PositionV, mv: Move, bit: u8, slot: int, color: Color)
    requires
        bit == movegen::right_bit(slot),
        0 <= slot < 4,
        color == if slot < 2 {
            Color::White
        } else {
            Color::Black
        },
        model::rights_after(p, mv) & bit != 0,
    ensures
        p.castling_rights & bit != 0,
        p.castling_rooks[slot].0 != mv.src(),
        p.castling_rooks[slot].0 != mv.dst(),
        model::type_at(p.board, mv.src()) == PieceType::King ==> p.stm != color,
{
    assert forall|a: u8, m: u8| #[trigger] (a & m) & bit != 0 implies a & bit != 0 && m & bit != 0 by {
        lemma_and_bit(a, m, bit);
    }
    assert(!1u8 & 1u8 == 0 && !2u8 & 2u8 == 0 && !4u8 & 4u8 == 0 && !8u8 & 8u8 == 0 && !3u8 & 1u8 == 0 && !3u8 & 2u8
        == 0 && !12u8 & 4u8 == 0 && !12u8 & 8u8 == 0 && 0u8 & bit == 0) by (bit_vector);
}

/// A right that is still held is held rightly.
proof fn lemma_right_sound(pos: Position, mv: Move, bit: u8, slot: int, color: Color, short: bool)
    requires
        pos.wf(),
        sound(pos@),
        movegen::pseudo_legal(pos@, mv),
        bit == movegen::right_bit(slot),
        0 <= slot < 4,
        color == if slot < 2 {
            Color::White
        } else {
            Color::Black
        },
        !notation::rookless(pos@, bit, slot),
        fen_laws::on_its_side(pos@, bit, slot, color, short),
    ensures
        fen_laws::on_its_side(model::made(pos@, mv), bit, slot, color, short),
        !notation::rookless(model::made(pos@, mv), bit, slot),
{
    let p = pos@;
    let q = model::made(p, mv);
    if q.castling_rights & bit != 0 {
        lemma_shaped(pos, mv);
        lemma_right_kept(p, mv, bit, slot, color);
        lemma_king_stays(pos, mv, color);
    }
}

/// Legal play leads from positions of a game to positions of a game.
pub proof fn law_play_keeps_sound(pos: Position, mv: Move)
    requires
        pos.wf(),
        sound(pos@),
        movegen::legal(pos@, mv),
    ensures
        sound(model::made(pos@, mv)),
{
    let p = pos@;
    let q = model::made(p, mv);
    lemma_shaped(pos, mv);
    laws::law_board_ok(pos);
    laws::law_hashes_incremental(p, mv);
    lemma_kings_stay(pos, mv, Color::White);
    lemma_kings_stay(pos, mv, Color::Black);
    lemma_pawns_stay_off(pos, mv);
    lemma_right_sound(pos, mv, 1, 0, Color::White, true);
    lemma_right_sound(pos, mv, 2, 1, Color::White, false);
    lemma_right_sound(pos, mv, 4, 2, Color::Black, true);
    lemma_right_sound(pos, mv, 8, 3, Color::Black, false);
    lemma_some_king(q.board, p.stm, 64);
    assert(q.stm.other() == p.stm);
    assert(q.castling_rights < 16) by {
        let r = p.castling_rights;
        let n = q.castling_rights;
        laws::law_rights_shrink(p, mv);
        assert(r < 16 && n & !r == 0 ==> n < 16) by (bit_vector);
    }
}

/// Every position that was read is one of a game.
pub proof fn law_read_sound(cs: Seq<char>, p: PositionV)
    requires
        notation::read_fen(cs) == Ok::<PositionV, FenErrorV>(p),
    ensures
        sound(p),
{
    fen_laws::law_fen_accepts_playable(cs, p);
    fen_laws::lemma_read_fields(cs, p);
    fen_laws::lemma_read_sided(cs, p);
}

/// Every position of a game can be written as FEN and read back, when castling is written by files or the
/// rights that are held belong to rooks of their own color in the corners.
pub proof fn law_sound_round_trip(p: PositionV)
    requires
        sound(p),
        notation::by_file(p) || (notation::corner_rooks(p) && own_rooks(p)),
    ensures
        notation::read_fen(notation::fen_text(p)) == Ok::<PositionV, FenErrorV>(fen_laws::kept_by_fen(p)),
{
    fen_laws::law_fen_round_trip(p);
}

/// The positions of a game: each comes from the one before it by a legal move.
pub open spec fn is_game(game: Seq<Position>, ms: Seq<Move>) -> bool {
    &&& game.len() == ms.len() + 1
    &&& forall|i: int| 0 <= i < game.len() ==> (#[trigger] game[i]).wf()
    &&& forall|i: int|
        0 <= i < ms.len() ==> movegen::legal(game[i]@, #[trigger] ms[i]) && game[i + 1]@ == model::made(
            game[i]@,
            ms[i],
        )
}

/// Whatever legal moves are played from a position that was read, every position on the way is one of a game,
/// and its FEN reads back as that position, when castling is written by files or the rights that are still
/// held belong to rooks of their own color in the corners.
pub proof fn law_game_round_trip(cs: Seq<char>, game: Seq<Position>, ms: Seq<Move>, n: int)
    requires
        is_game(game, ms),
        notation::read_fen(cs) == Ok::<PositionV, FenErrorV>(game[0]@),
        0 <= n < game.len(),
    ensures
        sound(game[n]@),
        notation::by_file(game[n]@) || (notation::corner_rooks(game[n]@) && own_rooks(game[n]@))
            ==> notation::read_fen(notation::fen_text(game[n]@)) == Ok::<PositionV, FenErrorV>(
            fen_laws::kept_by_fen(game[n]@),
        ),
    decreases n,
{
    if n == 0 {
        law_read_sound(cs, game[0]@);
    } else {
        law_game_round_trip(cs, game, ms, n - 1);
        assert(game[n - 1].wf());
        assert(movegen::legal(game[n - 1]@, ms[n - 1]));
        law_play_keeps_sound(game[n - 1], ms[n - 1]);
    }
    let p = game[n]@;
    if notation::by_file(p) || (notation::corner_rooks(p) && own_rooks(p)) {
        law_sound_round_trip(p);
    }
}

// ──────── Castling ────────

/// Square `i` is one of the `n` squares that start at file `f` and rank `r` and go on in direction (`df`, `dr`).
spec fn passes(f: int, r: int, df: int, dr: int, n: nat, i: int) -> bool
    decreases n,
{
    n > 0 && (i == r * 8 + f || passes(f + df, r + dr, df, dr, (n - 1) as nat, i))
}

/// Where `n` steps from `a` in direction `d` end.
spec fn ends(a: int, d: int, n: int) -> int {
    if d > 0 {
        a + n
    } else if d < 0 {
        a - n
    } else {
        a
    }
}

/// `x` lies between `a` and `z`.
spec fn between(a: int, x: int, z: int) -> bool {
    a <= x <= z || z <= x <= a
}

proof fn lemma_passes(f: int, r: int, df: int, dr: int, n: nat, i: int)
    requires
        -1 <= df <= 1,
        -1 <= dr <= 1,
        n > 0,
        0 <= f < 8,
        0 <= r < 8,
        0 <= ends(f, df, n - 1) < 8,
        0 <= ends(r, dr, n - 1) < 8,
        passes(f, r, df, dr, n, i),
    ensures
        0 <= i < 64,
        between(f, types::file_of(i), ends(f, df, n - 1)),
        between(r, types::rank_of(i), ends(r, dr, n - 1)),
    decreases n,
{
    reveal_with_fuel(passes, 2);
    if i == r * 8 + f {
        assert(types::file_of(i) == f && types::rank_of(i) == r);
    } else {
        lemma_passes(f + df, r + dr, df, dr, (n - 1) as nat, i);
    }
}

/// A run that is free stays free where nothing new blocks it.
proof fn lemma_run_free(b: Board, off: u64, c: Board, mask: u64, f: int, r: int, df: int, dr: int, n: nat)
    requires
        model::free_run(b, off, f, r, df, dr, n),
        forall|i: int|
            #[trigger] passes(f, r, df, dr, n, i) && !model::blocks(b, off, i) ==> !model::blocks(c, mask, i),
    ensures
        model::free_run(c, mask, f, r, df, dr, n),
    decreases n,
{
    if n > 0 {
        assert(passes(f, r, df, dr, n, r * 8 + f));
        assert forall|i: int|
            #[trigger] passes(f + df, r + dr, df, dr, (n - 1) as nat, i) && !model::blocks(b, off, i) implies
            !model::blocks(c, mask, i) by {
            assert(passes(f, r, df, dr, n, i));
        }
        lemma_run_free(b, off, c, mask, f + df, r + dr, df, dr, (n - 1) as nat);
    }
}

proof fn lemma_run_shorter(b: Board, off: u64, f: int, r: int, df: int, dr: int, n: nat, m: nat)
    requires
        model::free_run(b, off, f, r, df, dr, n),
        m <= n,
    ensures
        model::free_run(b, off, f, r, df, dr, m),
    decreases n,
{
    if m > 0 {
        lemma_run_shorter(b, off, f + df, r + dr, df, dr, (n - 1) as nat, (m - 1) as nat);
    }
}

/// The squares between two squares on a line or diagonal lie between their files and ranks, and are neither.
proof fn lemma_way(e: int, k: int, i: int)
    requires
        0 <= e < 64,
        0 <= k < 64,
        model::on_line(e, k) || model::on_diagonal(e, k),
        passes(
            types::file_of(e) + model::toward(types::file_of(e), types::file_of(k)),
            types::rank_of(e) + model::toward(types::rank_of(e), types::rank_of(k)),
            model::toward(types::file_of(e), types::file_of(k)),
            model::toward(types::rank_of(e), types::rank_of(k)),
            (model::king_steps(e, k) - 1) as nat,
            i,
        ),
    ensures
        0 <= i < 64,
        i != e,
        i != k,
        between(types::file_of(e), types::file_of(i), types::file_of(k)),
        between(types::rank_of(e), types::rank_of(i), types::rank_of(k)),
        types::rank_of(e) != types::rank_of(k) ==> types::rank_of(i) != types::rank_of(k),
        types::rank_of(e) == types::rank_of(k) ==> types::file_of(i) != types::file_of(k),
{
    let df = model::toward(types::file_of(e), types::file_of(k));
    let dr = model::toward(types::rank_of(e), types::rank_of(k));
    lemma_passes(
        types::file_of(e) + df,
        types::rank_of(e) + dr,
        df,
        dr,
        (model::king_steps(e, k) - 1) as nat,
        i,
    );
}

/// A slider's way is open on `c` when it is open on `b` and nothing on it blocks `c` that did not block `b`.
proof fn lemma_path_open(b: Board, off: u64, c: Board, mask: u64, e: int, k: int)
    requires
        0 <= e < 64,
        0 <= k < 64,
        model::on_line(e, k) || model::on_diagonal(e, k),
        model::open_path(b, off, e, k),
        forall|i: int|
            0 <= i < 64 && i != e && i != k && between(types::file_of(e), types::file_of(i), types::file_of(k))
                && between(types::rank_of(e), types::rank_of(i), types::rank_of(k)) && (types::rank_of(e)
                != types::rank_of(k) ==> types::rank_of(i) != types::rank_of(k)) && !model::blocks(b, off, i)
                ==> !#[trigger] model::blocks(c, mask, i),
    ensures
        model::open_path(c, mask, e, k),
{
    let df = model::toward(types::file_of(e), types::file_of(k));
    let dr = model::toward(types::rank_of(e), types::rank_of(k));
    let n = (model::king_steps(e, k) - 1) as nat;
    let (f, r) = (types::file_of(e) + df, types::rank_of(e) + dr);
    assert forall|i: int| #[trigger] passes(f, r, df, dr, n, i) && !model::blocks(b, off, i) implies !model::blocks(
        c,
        mask,
        i,
    ) by {
        lemma_way(e, k, i);
    }
    lemma_run_free(b, off, c, mask, f, r, df, dr, n);
}

proof fn lemma_both_off(k: int, r: int)
    requires
        0 <= k < 64,
        0 <= r < 64,
    ensures
        bits::member(1u64 << (k as u64) | 1u64 << (r as u64), k),
        bits::member(1u64 << (k as u64) | 1u64 << (r as u64), r),
{
    reveal(bits::member);
    let (x, y) = (k as u64, r as u64);
    assert(x < 64 && y < 64 ==> ((1u64 << x | 1u64 << y) >> x) & 1 == 1 && ((1u64 << x | 1u64 << y) >> y) & 1 == 1)
        by (bit_vector);
}

proof fn lemma_only_both_off(k: int, r: int)
    requires
        0 <= k < 64,
        0 <= r < 64,
    ensures
        forall|i: int|
            0 <= i < 64 && i != k && i != r ==> !#[trigger] bits::member(
                1u64 << (k as u64) | 1u64 << (r as u64),
                i,
            ),
{
    reveal(bits::member);
    let (x, y) = (k as u64, r as u64);
    assert forall|i: int| 0 <= i < 64 && i != k && i != r implies !#[trigger] bits::member(
        1u64 << (k as u64) | 1u64 << (r as u64),
        i,
    ) by {
        let z = i as u64;
        assert(x < 64 && y < 64 && z < 64 && z != x && z != y ==> ((1u64 << x | 1u64 << y) >> z) & 1 != 1)
            by (bit_vector);
    }
}

/// An enemy piece that attacks the castled king was there before, and attacked the king's destination with king
/// and rook counted as gone.
proof fn lemma_castled_attack(p: PositionV, s: int, d: int, e: int)
    requires
        model::board_ok(p.board),
        0 <= s < 64,
        0 <= d < 64,
        movegen::may_castle(p, s, d),
        model::playable(p.board, p.stm, movegen::encoded(s, d, 2)),
        model::attacks_from(
            model::castled(p.board, p.stm, s, d),
            0,
            e,
            moves::castle_landing(s, d).0,
            p.stm.other(),
        ),
    ensures
        p.board[e] == model::castled(p.board, p.stm, s, d)[e],
        model::attacks_from(
            p.board,
            1u64 << (s as u64) | 1u64 << (d as u64),
            e,
            moves::castle_landing(s, d).0,
            p.stm.other(),
        ),
{
    let b = p.board;
    let c = model::castled(b, p.stm, s, d);
    let (k, r) = moves::castle_landing(s, d);
    let mask = 1u64 << (s as u64) | 1u64 << (d as u64);
    movegen::lemma_encoded(s, d, 2);
    lemma_both_off(s, d);
    assert(e != k && e != r && e != s && e != d);
    let m = b[e].unwrap();
    if m.pt == PieceType::Bishop || m.pt == PieceType::Rook || m.pt == PieceType::Queen {
        bits::lemma_member_ops();
        assert forall|i: int| 0 <= i < 64 && i != e && i != k && !model::blocks(c, 0, i) implies !#[trigger] model::blocks(
            b,
            mask,
            i,
        ) by {
            if i != s && i != d && i != r {
                assert(c[i] == b[i]);
            }
        }
        lemma_path_open(c, 0, b, mask, e, k);
    }
}

/// On the usual squares, an attack on the king's destination with king and rook gone is an attack on the
/// destination, or on the king.
proof fn lemma_canonical_attack(p: PositionV, s: int, d: int, e: int)
    requires
        model::board_ok(p.board),
        (s == 4 && (d == 0 || d == 7)) || (s == 60 && (d == 56 || d == 63)),
        p.board[s] == model::man(PieceType::King, p.stm),
        model::attacks_from(
            p.board,
            1u64 << (s as u64) | 1u64 << (d as u64),
            e,
            moves::castle_landing(s, d).0,
            p.stm.other(),
        ),
        e != d,
    ensures
        model::attacked(p.board, 0, moves::castle_landing(s, d).0, p.stm.other()) || model::attacked(
            p.board,
            0,
            s,
            p.stm.other(),
        ),
{
    let b = p.board;
    let (k, r) = moves::castle_landing(s, d);
    let mask = 1u64 << (s as u64) | 1u64 << (d as u64);
    let m = b[e].unwrap();
    bits::lemma_member_ops();
    lemma_only_both_off(s, d);
    if m.pt == PieceType::Bishop || m.pt == PieceType::Rook || m.pt == PieceType::Queen {
        if types::rank_of(e) == types::rank_of(k) && between(e, s, k) {
            // The king was in the way.
            let df = model::toward(types::file_of(e), types::file_of(k));
            let n = (model::king_steps(e, k) - 1) as nat;
            let short = (model::king_steps(e, s) - 1) as nat;
            lemma_run_shorter(b, mask, types::file_of(e) + df, types::rank_of(e), df, 0, n, short);
            assert(model::open_path(b, mask, e, s));
            assert forall|i: int|
                0 <= i < 64 && i != e && i != s && between(types::file_of(e), types::file_of(i), types::file_of(s))
                    && between(types::rank_of(e), types::rank_of(i), types::rank_of(s)) && !model::blocks(b, mask, i)
                implies !#[trigger] model::blocks(b, 0, i) by {
                assert(i != d);
            }
            lemma_path_open(b, mask, b, 0, e, s);
            assert(model::attacks_from(b, 0, e, s, p.stm.other()));
        } else {
            assert forall|i: int|
                0 <= i < 64 && i != e && i != k && between(types::file_of(e), types::file_of(i), types::file_of(k))
                    && between(types::rank_of(e), types::rank_of(i), types::rank_of(k)) && (types::rank_of(e)
                    != types::rank_of(k) ==> types::rank_of(i) != types::rank_of(k)) && !model::blocks(b, mask, i)
                implies !#[trigger] model::blocks(b, 0, i) by {
                assert(i != d && i != s);
            }
            lemma_path_open(b, mask, b, 0, e, k);
            assert(model::attacks_from(b, 0, e, k, p.stm.other()));
        }
    } else {
        assert(model::attacks_from(b, 0, e, k, p.stm.other()));
    }
}

/// Castling is strictly legal: whoever may castle is not in check afterwards.
pub proof fn law_castling_legal(pos: Position, mv: Move)
    requires
        pos.wf(),
        sound(pos@),
        movegen::pseudo_legal(pos@, mv),
        mv.castles(),
    ensures
        movegen::legal(pos@, mv),
{
    lemma_shaped(pos, mv);
    laws::law_board_ok(pos);
    let p = pos@;
    let b = p.board;
    let (s, d) = (mv.src(), mv.dst());
    let (k, r) = moves::castle_landing(s, d);
    let c = model::castled(b, p.stm, s, d);
    let slot = movegen::castle_slot(p.stm, s, d);
    let data = movegen::CASTLE_DATA[slot]@;
    let path = movegen::CASTLE_PATH[slot]@;
    lemma_kings_stay(pos, mv, p.stm);
    lemma_only_king(c, p.stm, k);
    assert(movegen::may_castle(p, s, d));
    movegen::lemma_encoded(s, d, 2);
    assert(mv == movegen::encoded(s, d, 2));
    assert(k == data[2] && r == data[3]);
    if model::attacked(c, 0, k, p.stm.other()) {
        let e = choose|e: int| #[trigger] model::attacks_from(c, 0, e, k, p.stm.other());
        lemma_castled_attack(p, s, d, e);
        let occ = movegen::occupancy_of(b);
        if queries::canonical_castle(occ, s, d, data, movegen::CASTLE_GAP[slot]) {
            lemma_canonical_attack(p, s, d, e);
            assert(path[0] == s && path[2] == k);
            assert(!model::attacked(b, 0, path[0] as int, p.stm.other()));
            assert(!model::attacked(b, 0, path[2] as int, p.stm.other()));
        } else {
            assert(model::attacked(b, 1u64 << (s as u64) | 1u64 << (d as u64), k, p.stm.other()));
        }
    }
}

} // verus!
