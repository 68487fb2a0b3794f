//! Which positions a FEN string may describe, and what its fields and the text of a move mean.

use vstd::prelude::*;
use crate::board::attacks;
use crate::board::model;
use crate::board::model::{Board, Piece, PositionV};
use crate::board::notation;
use crate::board::notation::RightsV;
use crate::error::FenErrorV;
use crate::moves::Move;
use crate::text;
use crate::types;
use crate::types::{Color, PieceType, Square};

verus! {

/// Exactly one square below `n` holds `m`.
pub open spec fn single(b: Board, m: Option<Piece>, n: int) -> bool {
    exists|i: int| #[trigger] sole(b, m, n, i)
}

/// Square `i`, and no other below `n`, holds `m`.
pub open spec fn sole(b: Board, m: Option<Piece>, n: int, i: int) -> bool {
    &&& 0 <= i < n
    &&& b[i] == m
    &&& forall|j: int| 0 <= j < n && #[trigger] b[j] == m ==> j == i
}

proof fn lemma_headcount(b: Board, m: Option<Piece>, n: nat)
    requires
        n <= b.len(),
    ensures
        notation::headcount(b, m, n) == 0 <==> forall|i: int| 0 <= i < n ==> #[trigger] b[i] != m,
        notation::headcount(b, m, n) == 1 <==> single(b, m, n as int),
    decreases n,
{
    if n > 0 {
        let k = (n - 1) as nat;
        lemma_headcount(b, m, k);
        let c = notation::headcount(b, m, k);
        if b[n - 1] == m {
            if c == 0 {
                assert(sole(b, m, n as int, n - 1));
            } else if single(b, m, n as int) {
                let i = choose|i: int| #[trigger] sole(b, m, n as int, i);
                assert(i == n - 1);
                assert forall|j: int| 0 <= j < k implies #[trigger] b[j] != m by {}
            }
        } else {
            if single(b, m, k as int) {
                let i = choose|i: int| #[trigger] sole(b, m, k as int, i);
                assert(sole(b, m, n as int, i));
            }
            if single(b, m, n as int) {
                let i = choose|i: int| #[trigger] sole(b, m, n as int, i);
                assert(sole(b, m, k as int, i));
            }
            if forall|i: int| 0 <= i < k ==> #[trigger] b[i] != m {
                assert forall|i: int| 0 <= i < n implies #[trigger] b[i] != m by {}
            }
        }
    } else {
        assert(!single(b, m, 0)) by {
            if single(b, m, 0) {
                let i = choose|i: int| #[trigger] sole(b, m, 0, i);
            }
        }
    }
}

proof fn lemma_stray(b: Board, k: int)
    requires
        0 <= k <= 64,
    ensures
        k <= notation::first_stray_pawn(b, k) <= 64,
        notation::first_stray_pawn(b, k) < 64 ==> notation::stray_pawn(b, notation::first_stray_pawn(b, k)),
        notation::first_stray_pawn(b, k) == 64 ==> forall|i: int| k <= i < 64 ==> !#[trigger] notation::stray_pawn(b, i),
    decreases 64 - k,
{
    if k < 64 {
        lemma_stray(b, k + 1);
    }
}

/// A position may be described exactly if each side has one king, no pawn stands on the first or last rank, the
/// side to move does not attack the other king, and each castling right has a rook where it says. It is then taken
/// as described, with hashes that fit.
pub proof fn law_accept_exact(p: PositionV)
    requires
        p.board.len() == 64,
    ensures
        notation::accept(p) is Ok <==> {
            &&& single(p.board, Some(Piece { pt: PieceType::King, color: Color::White }), 64)
            &&& single(p.board, Some(Piece { pt: PieceType::King, color: Color::Black }), 64)
            &&& forall|i: int|
                0 <= i < 8 || 56 <= i < 64 ==> (#[trigger] p.board[i] matches Some(x) ==> x.pt != PieceType::Pawn)
            &&& forall|k: int|
                0 <= k < 64 && #[trigger] p.board[k] == Some(
                    Piece { pt: PieceType::King, color: p.stm.other() },
                ) ==> !model::attacked(p.board, 0, k, p.stm)
            &&& p.castling_rights & 1 != 0 ==> model::type_at(p.board, p.castling_rooks[0].0 as int)
                == PieceType::Rook
            &&& p.castling_rights & 2 != 0 ==> model::type_at(p.board, p.castling_rooks[1].0 as int)
                == PieceType::Rook
            &&& p.castling_rights & 4 != 0 ==> model::type_at(p.board, p.castling_rooks[2].0 as int)
                == PieceType::Rook
            &&& p.castling_rights & 8 != 0 ==> model::type_at(p.board, p.castling_rooks[3].0 as int)
                == PieceType::Rook
        },
        notation::accept(p) matches Ok(q) ==> model::hashes_ok(q) && p == (PositionV {
            hash: p.hash,
            pawn_hash: p.pawn_hash,
            ..q
        }),
{
    let b = p.board;
    let (w, k) = (model::man(PieceType::King, Color::White), model::man(PieceType::King, Color::Black));
    lemma_headcount(b, w, 64);
    lemma_headcount(b, k, 64);
    lemma_stray(b, 0);
    let them = p.stm.other();
    let e = model::man(PieceType::King, them);
    attacks::lemma_find_king(b, them, 0);
    if single(b, e, 64) {
        let i = choose|i: int| #[trigger] sole(b, e, 64, i);
        assert(b[i] == e);
        assert(b[model::king_at(b, them)] == e);
        assert(model::king_at(b, them) == i);
    }
    let clean = forall|i: int|
        0 <= i < 8 || 56 <= i < 64 ==> (#[trigger] b[i] matches Some(x) ==> x.pt != PieceType::Pawn);
    let stray = notation::first_stray_pawn(b, 0);
    if stray < 64 {
        assert(b[stray] is Some);
        assert(!clean);
    } else {
        assert forall|i: int| 0 <= i < 8 || 56 <= i < 64 implies (#[trigger] b[i] matches Some(x) ==> x.pt
            != PieceType::Pawn) by {
            assert(!notation::stray_pawn(b, i));
        }
        assert(clean);
    }
}

/// Why a position is refused: first for its white king, if there is not exactly one; next for its black king; next for
/// the first pawn on the first or last rank, by its letter and place; next for a king that could be taken; and last for
/// a castling right without a rook, by the rook's square.
pub proof fn law_refusals(p: PositionV)
    requires
        p.board.len() == 64,
    ensures
        ({
            let white = single(p.board, Some(Piece { pt: PieceType::King, color: Color::White }), 64);
            let black = single(p.board, Some(Piece { pt: PieceType::King, color: Color::Black }), 64);
            let clean = forall|i: int|
                0 <= i < 8 || 56 <= i < 64 ==> (#[trigger] p.board[i] matches Some(x) ==> x.pt != PieceType::Pawn);
            match notation::accept(p) {
                Ok(_) => white && black && clean,
                Err(FenErrorV::MissingKing { color }) => (color == "white"@ && !white) || (color == "black"@ && white
                    && !black),
                Err(FenErrorV::InvalidPiece { ch, rank, file }) => {
                    &&& white && black && !clean
                    &&& rank == 0 || rank == 7
                    &&& 0 <= file < 8
                    &&& ch == 'P' || ch == 'p'
                    &&& p.board[rank * 8 + file] == Some(
                        Piece {
                            pt: PieceType::Pawn,
                            color: if ch == 'P' {
                                Color::White
                            } else {
                                Color::Black
                            },
                        },
                    )
                },
                Err(FenErrorV::IllegalCheck) => {
                    &&& white && black && clean
                    &&& exists|k: int|
                        0 <= k < 64 && #[trigger] p.board[k] == Some(
                            Piece { pt: PieceType::King, color: p.stm.other() },
                        ) && model::attacked(p.board, 0, k, p.stm)
                },
                Err(FenErrorV::InvalidCastlingRights { sq }) => {
                    &&& white && black && clean
                    &&& exists|i: int|
                        0 <= i < 4 && sq == types::square_name((#[trigger] p.castling_rooks[i]).0 as int)
                            && model::type_at(p.board, p.castling_rooks[i].0 as int) != PieceType::Rook
                },
                Err(_) => false,
            }
        }),
{
    let b = p.board;
    law_accept_exact(p);
    lemma_headcount(b, model::man(PieceType::King, Color::White), 64);
    lemma_headcount(b, model::man(PieceType::King, Color::Black), 64);
    lemma_stray(b, 0);
    let stray = notation::first_stray_pawn(b, 0);
    if stray < 64 {
        assert(b[stray] is Some);
        assert(types::rank_of(stray) * 8 + types::file_of(stray) == stray);
    } else {
        assert forall|i: int| 0 <= i < 8 || 56 <= i < 64 implies (#[trigger] b[i] matches Some(x) ==> x.pt
            != PieceType::Pawn) by {
            assert(!notation::stray_pawn(b, i));
        }
    }
    let them = p.stm.other();
    attacks::lemma_find_king(b, them, 0);
    let e = model::man(PieceType::King, them);
    if single(b, e, 64) {
        let i = choose|i: int| #[trigger] sole(b, e, 64, i);
        assert(b[i] == e);
        assert(b[model::king_at(b, them)] == e);
    }
    assert(p.castling_rooks[0] == p.castling_rooks[0] && p.castling_rooks[1] == p.castling_rooks[1]);
    assert(p.castling_rooks[2] == p.castling_rooks[2] && p.castling_rooks[3] == p.castling_rooks[3]);
}

// ──────── Castling ────────

/// The outermost rook of `c` on its home rank, on the king's side of its king or on the king's file: it stands on
/// file `f`.
pub open spec fn outer_king_side(b: Board, c: Color, f: int) -> bool {
    &&& notation::king_file_of(b, c) <= f < 8
    &&& b[home(c) + f] == Some(Piece { pt: PieceType::Rook, color: c })
    &&& forall|g: int| f < g < 8 ==> #[trigger] b[home(c) + g] != Some(Piece { pt: PieceType::Rook, color: c })
}

/// The same on the queen's side.
pub open spec fn outer_queen_side(b: Board, c: Color, f: int) -> bool {
    &&& 0 <= f < 8
    &&& f < notation::king_file_of(b, c)
    &&& b[home(c) + f] == Some(Piece { pt: PieceType::Rook, color: c })
    &&& forall|g: int| 0 <= g < f ==> #[trigger] b[home(c) + g] != Some(Piece { pt: PieceType::Rook, color: c })
}

/// The square on the a-file of the home rank.
pub open spec fn home(c: Color) -> int {
    match c {
        Color::White => 0,
        Color::Black => 56,
    }
}

proof fn lemma_rook_king_side(b: Board, c: Color, f: int)
    requires
        -1 <= f < 8,
        forall|g: int| f < g < 8 ==> #[trigger] b[home(c) + g] != model::man(PieceType::Rook, c),
    ensures
        match notation::rook_from(b, c, f, -1) {
            Some(s) => outer_king_side(b, c, s - home(c)),
            None => forall|g: int| !#[trigger] outer_king_side(b, c, g),
        },
    decreases f + 1,
{
    if f >= 0 && notation::on_side(b, c, f, -1) && b[home(c) + f] != model::man(PieceType::Rook, c) {
        lemma_rook_king_side(b, c, f - 1);
    }
}

proof fn lemma_rook_queen_side(b: Board, c: Color, f: int)
    requires
        0 <= f <= 8,
        forall|g: int| 0 <= g < f ==> #[trigger] b[home(c) + g] != model::man(PieceType::Rook, c),
    ensures
        match notation::rook_from(b, c, f, 1) {
            Some(s) => outer_queen_side(b, c, s - home(c)),
            None => forall|g: int| !#[trigger] outer_queen_side(b, c, g),
        },
    decreases 8 - f,
{
    if f < 8 && notation::on_side(b, c, f, 1) && b[home(c) + f] != model::man(PieceType::Rook, c) {
        lemma_rook_queen_side(b, c, f + 1);
    }
}

/// Slot `slot` was given to the rook on `sq`, and the others were left as they are.
pub open spec fn granted(before: RightsV, after: RightsV, bit: u8, slot: int, sq: int) -> bool {
    &&& after.rights == before.rights | bit
    &&& after.rooks.len() == before.rooks.len()
    &&& after.rooks[slot].0 == sq
    &&& forall|i: int| 0 <= i < 4 && i != slot ==> #[trigger] after.rooks[i] == before.rooks[i]
}

/// The letters of the castling field: each of `KQkq` means the outermost rook on that side of the king, and
/// nothing where there is none; a file letter means the rook on that file of the home rank, upper case for White and
/// lower case for Black, on the queen's side if it lies left of the king.
pub proof fn law_castling_letters(b: Board, rv: RightsV, c: Color, f: int)
    requires
        rv.rooks.len() == 4,
        0 <= f < 8,
    ensures
        ({
            let king = match c {
                Color::White => 'K',
                Color::Black => 'k',
            };
            let queen = match c {
                Color::White => 'Q',
                Color::Black => 'q',
            };
            let file = match c {
                Color::White => ('A' as u8 + f) as char,
                Color::Black => ('a' as u8 + f) as char,
            };
            let (kb, qb) = match c {
                Color::White => (1u8, 2u8),
                Color::Black => (4u8, 8u8),
            };
            let (ks, qs) = match c {
                Color::White => (0int, 1int),
                Color::Black => (2int, 3int),
            };
            &&& outer_king_side(b, c, f) ==> granted(rv, notation::castling_step(b, rv, king), kb, ks, home(c) + f)
            &&& outer_queen_side(b, c, f) ==> granted(rv, notation::castling_step(b, rv, queen), qb, qs, home(c) + f)
            &&& (forall|g: int| !#[trigger] outer_king_side(b, c, g)) ==> notation::castling_step(b, rv, king) == rv
            &&& (forall|g: int| !#[trigger] outer_queen_side(b, c, g)) ==> notation::castling_step(b, rv, queen) == rv
            &&& f < notation::king_file_of(b, c) ==> granted(
                rv,
                notation::castling_step(b, rv, file),
                qb,
                qs,
                home(c) + f,
            )
            &&& f >= notation::king_file_of(b, c) ==> granted(
                rv,
                notation::castling_step(b, rv, file),
                kb,
                ks,
                home(c) + f,
            )
        }),
{
    lemma_rook_king_side(b, c, 7);
    lemma_rook_queen_side(b, c, 0);
    let rook = Some(Piece { pt: PieceType::Rook, color: c });
    match notation::rook_from(b, c, 7, -1) {
        Some(s) => {
            let g = s - home(c);
            if outer_king_side(b, c, f) && g != f {
                assert(b[home(c) + g] == rook && b[home(c) + f] == rook);
            }
        },
        None => {},
    }
    match notation::rook_from(b, c, 0, 1) {
        Some(s) => {
            let g = s - home(c);
            if outer_queen_side(b, c, f) && g != f {
                assert(b[home(c) + g] == rook && b[home(c) + f] == rook);
            }
        },
        None => {},
    }
}

// ──────── En passant ────────

/// The en passant field counts if it is the name of a square on the third or sixth rank on which the side to move
/// can capture en passant, and says nothing else.
pub proof fn law_en_passant_field(p: PositionV, cs: Seq<char>, s: int)
    requires
        0 <= s < 64,
    ensures
        notation::read_ep(p, Some(cs)) == Some(Square(s as u8)) <==> {
            &&& cs == types::square_name(s)
            &&& types::rank_of(s) == 2 || types::rank_of(s) == 5
            &&& model::ep_possible(p.board, s, p.stm)
        },
{
    if cs.len() == 2 && 'a' <= cs[0] <= 'h' && (cs[1] == '3' || cs[1] == '6') {
        let t = (cs[1] as int - '1' as int) * 8 + (cs[0] as int - 'a' as int);
        assert(types::square_name(t) =~= cs);
        if cs == types::square_name(s) {
            assert(types::square_name(s)[0] == cs[0] && types::square_name(s)[1] == cs[1]);
            assert(s == t);
        }
        assert(0 <= t < 64);
        assert(s as u8 == t as u8 ==> s == t);
    } else if cs == types::square_name(s) {
        assert(cs[0] == types::square_name(s)[0] && cs[1] == types::square_name(s)[1]);
    }
}

// ──────── Counters ────────

/// The two counters. A number in range is taken as it is; anything else, and a field that is not there, counts as 0
/// for the fifty-move counter and as 1 for the full-move number; and where the word `moves` stands neither is there.
pub proof fn law_counter_fields(ws: Seq<Seq<char>>, i: int, max: int, n: int, default: int)
    requires
        0 <= i,
        0 <= n <= max,
    ensures
        i >= ws.len() ==> notation::clock_word(ws, i) is None,
        i < ws.len() && ws[i] == seq!['m', 'o', 'v', 'e', 's'] ==> notation::clock_word(ws, i) is None,
        i < ws.len() && ws[i] == text::decimal(n) ==> notation::clock_value(notation::clock_word(ws, i), max, default)
            == n,
        i < ws.len() && ws[i] != seq!['m', 'o', 'v', 'e', 's'] ==> notation::clock_word(ws, i) == Some(ws[i]),
        notation::clock_value(None, max, default) == default,
        forall|w: Seq<char>|
            w.len() > 0 && !('0' <= w.last() <= '9') ==> #[trigger] notation::clock_value(Some(w), max, default)
                == default,
        forall|w: Seq<char>| 0 <= default <= max ==> 0 <= #[trigger] notation::clock_value(Some(w), max, default) <= max,
        notation::read_fields(ws, i) matches Ok(p) ==> p.halfmove_clock == notation::clock_value(
            notation::clock_word(ws, i + 4),
            255,
            0,
        ) && (notation::clock_word(ws, i + 4) is None ==> p.fullmove_number == 1) && (notation::clock_word(ws, i + 4)
            is Some ==> p.fullmove_number == notation::clock_value(notation::clock_word(ws, i + 5), 65535, 1)),
{
    text::lemma_number_of_decimal(n, max);
    text::lemma_decimal_round_trip(n);
    let m = notation::moves_word();
    if text::decimal(n) == m {
        assert(text::is_digit(text::decimal(n)[0]));
        assert(m[0] == 'm');
    }
    assert forall|w: Seq<char>|
        w.len() > 0 && !('0' <= w.last() <= '9') implies #[trigger] notation::clock_value(Some(w), max, default)
        == default by {
        let ds = text::unsigned_part(w);
        if ds.len() > 0 && text::all_digits(ds) {
            assert(text::is_digit(ds[ds.len() - 1]));
            assert(ds.last() == w.last());
        }
    }
    assert forall|w: Seq<char>| 0 <= default <= max implies 0 <= #[trigger] notation::clock_value(
        Some(w),
        max,
        default,
    ) <= max by {
        lemma_value_sign(text::unsigned_part(w));
    }
    lemma_clock_range(notation::clock_word(ws, i + 4), 255, 0);
    lemma_clock_range(notation::clock_word(ws, i + 5), 65535, 1);
}

proof fn lemma_clock_range(w: Option<Seq<char>>, max: int, default: int)
    requires
        0 <= default <= max,
    ensures
        0 <= notation::clock_value(w, max, default) <= max,
{
    if let Some(cs) = w {
        lemma_value_sign(text::unsigned_part(cs));
    }
}

proof fn lemma_value_sign(cs: Seq<char>)
    ensures
        text::all_digits(cs) ==> text::decimal_value(cs) >= 0,
    decreases cs.len(),
{
    if cs.len() > 0 && text::all_digits(cs) {
        assert(text::is_digit(cs[cs.len() - 1]));
        assert(text::all_digits(cs.drop_last())) by {
            assert forall|i: int| 0 <= i < cs.len() - 1 implies text::is_digit(#[trigger] cs.drop_last()[i]) by {
                assert(text::is_digit(cs[i]));
            }
        }
        lemma_value_sign(cs.drop_last());
    }
}

// ──────── Words ────────

/// The words one after the other, without anything between them.
pub open spec fn run_together(ws: Seq<Seq<char>>) -> Seq<char>
    decreases ws.len(),
{
    if ws.len() == 0 {
        Seq::empty()
    } else {
        ws[0] + run_together(ws.drop_first())
    }
}

/// The text from place `i` on, without its white space.
pub open spec fn packed(cs: Seq<char>, i: int) -> Seq<char>
    decreases cs.len() - i,
{
    if i >= cs.len() {
        Seq::empty()
    } else if text::is_space(cs[i]) {
        packed(cs, i + 1)
    } else {
        seq![cs[i]] + packed(cs, i + 1)
    }
}

/// How many places from `i` on hold something other than white space behind white space or at the start.
pub open spec fn word_starts(cs: Seq<char>, i: int) -> nat
    decreases cs.len() - i,
{
    if i >= cs.len() {
        0
    } else {
        word_starts(cs, i + 1) + if !text::is_space(cs[i]) && (i <= 0 || text::is_space(cs[i - 1])) {
            1nat
        } else {
            0nat
        }
    }
}

proof fn lemma_words(cs: Seq<char>, i: int, cur: Seq<char>)
    requires
        0 <= i <= cs.len(),
        cur.len() > 0 <==> i > 0 && !text::is_space(cs[i - 1]),
        forall|j: int| 0 <= j < cur.len() ==> !text::is_space(#[trigger] cur[j]),
    ensures
        ({
            let ws = text::words_from(cs, i, cur);
            &&& run_together(ws) == cur + packed(cs, i)
            &&& ws.len() == word_starts(cs, i) + if cur.len() > 0 {
                1nat
            } else {
                0nat
            }
            &&& forall|k: int| 0 <= k < ws.len() ==> (#[trigger] ws[k]).len() > 0
            &&& forall|k: int, j: int|
                0 <= k < ws.len() && 0 <= j < ws[k].len() ==> !text::is_space(#[trigger] ws[k][j])
        }),
    decreases cs.len() - i,
{
    let ws = text::words_from(cs, i, cur);
    let one = text::one_word(cur);
    let none = Seq::<Seq<char>>::empty();
    assert(run_together(none) =~= Seq::<char>::empty());
    if cur.len() > 0 {
        assert(one[0] == cur);
        assert(one.drop_first() =~= none);
    }
    assert(run_together(one) =~= cur);
    if i < cs.len() {
        if text::is_space(cs[i]) {
            lemma_words(cs, i + 1, Seq::empty());
            let rest = text::words_from(cs, i + 1, Seq::empty());
            if cur.len() > 0 {
                assert((one + rest).drop_first() =~= rest);
                assert((one + rest)[0] == cur);
            } else {
                assert(one + rest =~= rest);
            }
            assert(run_together(rest) =~= packed(cs, i + 1));
            assert(run_together(ws) =~= cur + packed(cs, i));
        } else {
            lemma_words(cs, i + 1, cur.push(cs[i]));
            assert(cur.push(cs[i]) + packed(cs, i + 1) =~= cur + packed(cs, i));
        }
    } else {
        assert(cur + packed(cs, i) =~= cur);
    }
}

/// Among the characters of ASCII, the blank and the five controls from the tab to the carriage return are white space,
/// and no other.
pub proof fn law_ascii_space(c: char)
    requires
        c as u32 <= 0x7e,
    ensures
        text::is_space(c) <==> c == ' ' || 9 <= c as u32 <= 13,
{
}

/// The words of a text: none is empty and none holds white space, together they are the text without its white space,
/// and there are as many as there are places where one begins.
pub proof fn law_words(cs: Seq<char>)
    ensures
        ({
            let ws = text::words_of(cs);
            &&& run_together(ws) == packed(cs, 0)
            &&& ws.len() == word_starts(cs, 0)
            &&& forall|k: int| 0 <= k < ws.len() ==> (#[trigger] ws[k]).len() > 0
            &&& forall|k: int, j: int|
                0 <= k < ws.len() && 0 <= j < ws[k].len() ==> !text::is_space(#[trigger] ws[k][j])
        }),
{
    lemma_words(cs, 0, Seq::empty());
    assert(Seq::<char>::empty() + packed(cs, 0) =~= packed(cs, 0));
}

// ──────── Moves ────────

/// The text of a move is the name of its origin, the name of its destination and, for a promotion, the letter of
/// the new piece. A castling move names the square the king lands on, or the rook's square when `frc` is set. Two
/// moves that do not castle have the same text only if they agree in all three.
pub proof fn law_move_text(m: Move, n: Move, frc: bool)
    ensures
        m.uci(frc).len() == if m.kind() >= 8 {
            5int
        } else {
            4
        },
        m.uci(frc).subrange(0, 2) == types::square_name(m.src()),
        m.kind() != 2 || frc ==> m.uci(frc).subrange(2, 4) == types::square_name(m.dst()),
        m.kind() == 2 && !frc && types::file_of(m.dst()) < types::file_of(m.src()) ==> m.uci(frc).subrange(2, 4)
            == types::square_name(types::rank_of(m.src()) * 8 + 2),
        m.kind() == 2 && !frc && types::file_of(m.dst()) >= types::file_of(m.src()) ==> m.uci(frc).subrange(2, 4)
            == types::square_name(types::rank_of(m.src()) * 8 + 6),
        m.kind() >= 8 ==> m.uci(frc)[4] == seq!['n', 'b', 'r', 'q'][m.kind() % 4],
        m.uci(frc) == n.uci(frc) && (frc || (m.kind() != 2 && n.kind() != 2)) ==> m.src() == n.src() && m.dst()
            == n.dst() && m.promoted() == n.promoted(),
{
    assert(m.uci(frc).subrange(0, 2) =~= types::square_name(m.src()));
    let to = types::rank_of(m.src()) * 8;
    if m.kind() != 2 || frc {
        assert(m.uci(frc).subrange(2, 4) =~= types::square_name(m.dst()));
    } else if types::file_of(m.dst()) < types::file_of(m.src()) {
        assert(m.uci(frc).subrange(2, 4) =~= types::square_name(to + 2));
    } else {
        assert(m.uci(frc).subrange(2, 4) =~= types::square_name(to + 6));
    }
    if m.uci(frc) == n.uci(frc) && (frc || (m.kind() != 2 && n.kind() != 2)) {
        let (a, b) = (m.uci(frc), n.uci(frc));
        assert(b.subrange(0, 2) =~= types::square_name(n.src()));
        assert(b.subrange(2, 4) =~= types::square_name(n.dst()));
        lemma_square_names(m.src(), n.src());
        lemma_square_names(m.dst(), n.dst());
        assert(a.len() == b.len());
        if m.kind() >= 8 {
            assert(a[4] == b[4]);
        }
    }
}

proof fn lemma_square_names(s: int, t: int)
    requires
        0 <= s < 64,
        0 <= t < 64,
        types::square_name(s) == types::square_name(t),
    ensures
        s == t,
{
    let (a, b) = (types::square_name(s), types::square_name(t));
    assert(a[0] == b[0] && a[1] == b[1]);
}

} // verus!
