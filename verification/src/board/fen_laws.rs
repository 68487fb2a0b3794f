//! Writing a position and reading it back.

use vstd::prelude::*;
use crate::board::model;
use crate::board::model::{Board, PositionV};
use crate::board::notation;
use crate::board::notation::{PlaceV, RightsV};
use crate::error::FenErrorV;
use crate::text;
use crate::types;
use crate::types::{Color, PieceType, Square};

verus! {

/// The right of a slot, if held, belongs to the rook that its plain letter finds.
pub open spec fn found_again(p: PositionV, bit: u8, slot: int, color: Color, f: int, step: int) -> bool {
    p.castling_rights & bit != 0 ==> notation::rook_from(p.board, color, f, step) == Some(
        p.castling_rooks[slot].0 as int,
    )
}

/// Every right in `p` belongs to the outermost rook on its side of the home rank.
pub open spec fn outermost_rooks(p: PositionV) -> bool {
    &&& found_again(p, 1, 0, Color::White, 7, -1)
    &&& found_again(p, 2, 1, Color::White, 0, 1)
    &&& found_again(p, 4, 2, Color::Black, 7, -1)
    &&& found_again(p, 8, 3, Color::Black, 0, 1)
}

/// The right of a slot, if held, belongs to a square of the home rank on the right side of the king.
pub open spec fn on_its_side(p: PositionV, bit: u8, slot: int, color: Color, short: bool) -> bool {
    p.castling_rights & bit != 0 ==> {
        &&& p.castling_rooks[slot].wf()
        &&& types::rank_of(p.castling_rooks[slot].0 as int) == color.home_rank()
        &&& short == (types::file_of(p.castling_rooks[slot].0 as int) >= notation::king_file_of(p.board, color))
    }
}

/// Every right in `p` belongs to a rook square on its own side of the king.
pub open spec fn rooks_beside_kings(p: PositionV) -> bool {
    &&& on_its_side(p, 1, 0, Color::White, true)
    &&& on_its_side(p, 2, 1, Color::White, false)
    &&& on_its_side(p, 4, 2, Color::Black, true)
    &&& on_its_side(p, 8, 3, Color::Black, false)
}

/// A slot whose right is not held has the default rook square.
pub open spec fn unused_slots_clear(p: PositionV) -> bool {
    &&& p.castling_rooks.len() == 4
    &&& p.castling_rights & 1 == 0 ==> p.castling_rooks[0] == Square(0)
    &&& p.castling_rights & 2 == 0 ==> p.castling_rooks[1] == Square(0)
    &&& p.castling_rights & 4 == 0 ==> p.castling_rooks[2] == Square(0)
    &&& p.castling_rights & 8 == 0 ==> p.castling_rooks[3] == Square(0)
}

/// The castling field of `p` says what its rights are.
pub open spec fn rights_legible(p: PositionV) -> bool {
    &&& p.castling_rights < 16
    &&& p.castling_rooks.len() == 4
    &&& if notation::by_file(p) {
        rooks_beside_kings(p)
    } else {
        outermost_rooks(p)
    }
}

/// The en passant square of `p`, if there is one, is one that a pawn can capture on.
pub open spec fn ep_legible(p: PositionV) -> bool {
    p.en_passant matches Some(sq) ==> {
        &&& sq.wf()
        &&& types::rank_of(sq.0 as int) == 2 || types::rank_of(sq.0 as int) == 5
        &&& model::ep_possible(p.board, sq.0 as int, p.stm)
    }
}

/// The rook square of a slot, or the default when its right is not held.
pub open spec fn slot_read(p: PositionV, bit: u8, slot: int) -> Square {
    if p.castling_rights & bit != 0 {
        p.castling_rooks[slot]
    } else {
        Square(0)
    }
}

/// What a FEN keeps of a position: all but the rook squares of rights that are not held, and the way in
/// which castling is written.
pub open spec fn kept_by_fen(p: PositionV) -> PositionV {
    PositionV {
        castling_rooks: seq![slot_read(p, 1, 0), slot_read(p, 2, 1), slot_read(p, 4, 2), slot_read(p, 8, 3)],
        is_frc: false,
        ..p
    }
}

/// Writing a position as FEN and reading it back gives the same position, as far as a FEN can hold it: any
/// position that the reader accepts, whose hashes are right and whose rights and en passant square can be
/// put into the fields. With castling written by files this includes rooks on any file.
pub proof fn law_fen_round_trip(p: PositionV)
    requires
        model::board_ok(p.board),
        notation::objection(p) is None,
        model::hashes_ok(p),
        rights_legible(p),
        ep_legible(p),
    ensures
        notation::read_fen(notation::fen_text(p)) == Ok::<PositionV, FenErrorV>(kept_by_fen(p)),
{
    let q = PositionV { is_frc: p.is_frc, ..kept_by_fen(p) };
    assert(notation::castling_text(q) == notation::castling_text(p)) by {
        assert(notation::by_file(q) == notation::by_file(p));
    }
    lemma_round_trip(q);
}

proof fn lemma_round_trip(p: PositionV)
    requires
        model::board_ok(p.board),
        notation::objection(p) is None,
        model::hashes_ok(p),
        rights_legible(p),
        unused_slots_clear(p),
        ep_legible(p),
    ensures
        notation::read_fen(notation::fen_text(p)) == Ok::<PositionV, FenErrorV>(PositionV { is_frc: false, ..p }),
{
    let w = seq![
        notation::board_text(p.board),
        notation::stm_text(p.stm),
        notation::castling_text(p),
        notation::ep_text(p.en_passant),
        text::decimal(p.halfmove_clock as int),
        text::decimal(p.fullmove_number as int),
    ];
    lemma_six_words(p);
    lemma_placement_read(p.board);
    lemma_castling_read(p);
    text::lemma_number_of_decimal(p.halfmove_clock as int, 255);
    text::lemma_number_of_decimal(p.fullmove_number as int, 65535);
    lemma_not_moves(p.halfmove_clock as int);
    lemma_not_moves(p.fullmove_number as int);
    lemma_ep_read(p.en_passant);
    assert(seq!['w'] != seq!['b']) by {
        assert(seq!['w'][0] != seq!['b'][0]);
    }
    let front = PositionV {
        en_passant: None,
        halfmove_clock: 0,
        fullmove_number: 1,
        is_frc: false,
        hash: 0,
        pawn_hash: 0,
        ..p
    };
    assert(notation::read_front(w, 0) == Ok::<PositionV, FenErrorV>(front));
    assert(notation::read_ep(front, notation::word(w, 3)) == p.en_passant);
    let whole = PositionV {
        en_passant: p.en_passant,
        halfmove_clock: p.halfmove_clock,
        fullmove_number: p.fullmove_number,
        ..front
    };
    assert(notation::read_fields(w, 0) == notation::accept(whole));
    assert(notation::hashed(whole) == PositionV { is_frc: false, ..p });
}

/// A right, if held, belongs to a square of the home rank on the right side of the king.
pub open spec fn sided(b: Board, rv: RightsV, bit: u8, slot: int, color: Color, short: bool) -> bool {
    rv.rights & bit != 0 ==> {
        &&& rv.rooks[slot].wf()
        &&& types::rank_of(rv.rooks[slot].0 as int) == color.home_rank()
        &&& short == (types::file_of(rv.rooks[slot].0 as int) >= notation::king_file_of(b, color))
    }
}

/// Every right that is held belongs to a square on its own side of the king.
pub open spec fn all_sided(b: Board, rv: RightsV) -> bool {
    &&& rv.rooks.len() == 4
    &&& sided(b, rv, 1, 0, Color::White, true)
    &&& sided(b, rv, 2, 1, Color::White, false)
    &&& sided(b, rv, 4, 2, Color::Black, true)
    &&& sided(b, rv, 8, 3, Color::Black, false)
}

proof fn lemma_rook_sided(b: Board, color: Color, f: int, step: int)
    requires
        step == 1 || step == -1,
        -1 <= f <= 8,
    ensures
        notation::rook_from(b, color, f, step) matches Some(s) ==> 0 <= s < 64 && types::rank_of(s)
            == color.home_rank() && notation::on_side(b, color, types::file_of(s), step),
    decreases
            if step > 0 {
                8 - f
            } else {
                f + 1
            },
{
    if 0 <= f < 8 {
        lemma_rook_sided(b, color, f + step, step);
    }
}

proof fn lemma_sided_step(b: Board, rv: RightsV, ch: char)
    requires
        all_sided(b, rv),
    ensures
        all_sided(b, notation::castling_step(b, rv, ch)),
{
    let x = rv.rights;
    assert((x | 1u8) & 2u8 == x & 2u8 && (x | 1u8) & 4u8 == x & 4u8 && (x | 1u8) & 8u8 == x & 8u8 && (x | 2u8) & 1u8
        == x & 1u8 && (x | 2u8) & 4u8 == x & 4u8 && (x | 2u8) & 8u8 == x & 8u8 && (x | 4u8) & 1u8 == x & 1u8 && (x
        | 4u8) & 2u8 == x & 2u8 && (x | 4u8) & 8u8 == x & 8u8 && (x | 8u8) & 1u8 == x & 1u8 && (x | 8u8) & 2u8 == x
        & 2u8 && (x | 8u8) & 4u8 == x & 4u8) by (bit_vector);
    lemma_rook_sided(b, Color::White, 7, -1);
    lemma_rook_sided(b, Color::White, 0, 1);
    lemma_rook_sided(b, Color::Black, 7, -1);
    lemma_rook_sided(b, Color::Black, 0, 1);
}

proof fn lemma_castling_sided(b: Board, rv: RightsV, cs: Seq<char>, i: int)
    requires
        all_sided(b, rv),
    ensures
        all_sided(b, notation::castling_from(b, rv, cs, i)),
    decreases cs.len() - i,
{
    if i < cs.len() {
        lemma_sided_step(b, rv, cs[i]);
        lemma_castling_sided(b, notation::castling_step(b, rv, cs[i]), cs, i + 1);
    }
}

/// Every castling right of a position that was read belongs to a square on its own side of the king.
pub proof fn lemma_read_sided(cs: Seq<char>, p: PositionV)
    requires
        notation::read_fen(cs) == Ok::<PositionV, FenErrorV>(p),
    ensures
        rooks_beside_kings(p),
{
    let ws = text::words_of(cs);
    assert(all_sided(p.board, notation::no_rights())) by {
        assert(0u8 & 1u8 == 0 && 0u8 & 2u8 == 0 && 0u8 & 4u8 == 0 && 0u8 & 8u8 == 0) by (bit_vector);
    }
    if ws.len() > 2 && ws[2] != notation::dash() {
        lemma_castling_sided(p.board, notation::no_rights(), ws[2], 0);
    }
}

/// A position that was read has the rights and the en passant square that its fields say.
pub proof fn lemma_read_fields(cs: Seq<char>, p: PositionV)
    requires
        notation::read_fen(cs) == Ok::<PositionV, FenErrorV>(p),
    ensures
        model::board_ok(p.board),
        p.castling_rights < 16,
        unused_slots_clear(p),
        ep_legible(p),
{
    let ws = text::words_of(cs);
    let rv = match notation::word(ws, 2) {
        Some(w) => if w == notation::dash() {
            notation::no_rights()
        } else {
            notation::castling_from(p.board, notation::no_rights(), w, 0)
        },
        None => notation::no_rights(),
    };
    lemma_placement_ok(ws[0]);
    assert(rights_ok(rv)) by {
        lemma_no_rights_ok();
        if ws.len() > 2 && ws[2] != notation::dash() {
            lemma_castling_ok(p.board, notation::no_rights(), ws[2], 0);
        }
    }
    if ws.len() > 3 {
        lemma_ep_square_rank(ws[3]);
    }
}

/// Reading the FEN of a position that was itself read gives that position again, as long as no file
/// letter granted a right to a rook that stands inside another one.
pub proof fn law_fen_stable(cs: Seq<char>, p: PositionV)
    requires
        notation::read_fen(cs) == Ok::<PositionV, FenErrorV>(p),
        outermost_rooks(p),
    ensures
        notation::read_fen(notation::fen_text(p)) == Ok::<PositionV, FenErrorV>(p),
{
    lemma_read_fields(cs, p);
    lemma_round_trip(p);
}

/// A position that was read has a king of each color, no pawn on the first or last rank, right hashes, and
/// the side that is not to move is not in check.
pub proof fn law_fen_accepts_playable(cs: Seq<char>, p: PositionV)
    requires
        notation::read_fen(cs) == Ok::<PositionV, FenErrorV>(p),
    ensures
        model::board_ok(p.board),
        model::hashes_ok(p),
        notation::objection(p) is None,
        notation::headcount(p.board, model::man(PieceType::King, Color::White), 64) == 1,
        notation::headcount(p.board, model::man(PieceType::King, Color::Black), 64) == 1,
        forall|i: int| 0 <= i < 64 ==> !#[trigger] notation::stray_pawn(p.board, i),
        !model::in_check(p.board, p.stm.other()),
        !p.is_frc,
{
    let ws = text::words_of(cs);
    lemma_placement_ok(ws[0]);
    lemma_no_stray(p.board, 0);
    assert(p.stm.other().other() == p.stm);
}

pub proof fn lemma_no_stray(b: Board, k: int)
    requires
        0 <= k <= 64,
        notation::first_stray_pawn(b, k) >= 64,
    ensures
        forall|i: int| k <= i < 64 ==> !#[trigger] notation::stray_pawn(b, i),
    decreases 64 - k,
{
    if k < 64 {
        lemma_no_stray(b, k + 1);
    }
}

// ──────── Words ────────

spec fn no_space(w: Seq<char>) -> bool {
    forall|i: int| 0 <= i < w.len() ==> !text::is_space(#[trigger] w[i])
}

proof fn lemma_words_shift(pre: Seq<char>, cs: Seq<char>, i: int, cur: Seq<char>)
    requires
        0 <= i <= cs.len(),
    ensures
        text::words_from(pre + cs, pre.len() + i, cur) == text::words_from(cs, i, cur),
    decreases cs.len() - i,
{
    if i < cs.len() {
        assert((pre + cs)[pre.len() + i] == cs[i]);
        lemma_words_shift(pre, cs, i + 1, Seq::empty());
        lemma_words_shift(pre, cs, i + 1, cur.push(cs[i]));
    }
}

proof fn lemma_words_run(cs: Seq<char>, i: int, j: int, cur: Seq<char>)
    requires
        0 <= i <= j <= cs.len(),
        forall|k: int| i <= k < j ==> !text::is_space(#[trigger] cs[k]),
    ensures
        text::words_from(cs, i, cur) == text::words_from(cs, j, cur + cs.subrange(i, j)),
    decreases j - i,
{
    if i < j {
        assert(!text::is_space(cs[i]));
        lemma_words_run(cs, i + 1, j, cur.push(cs[i]));
        assert(cur.push(cs[i]) + cs.subrange(i + 1, j) =~= cur + cs.subrange(i, j));
    } else {
        assert(cur + cs.subrange(i, j) =~= cur);
    }
}

proof fn lemma_first_word(w: Seq<char>, rest: Seq<char>)
    requires
        w.len() > 0,
        no_space(w),
    ensures
        text::words_of(w + (seq![' '] + rest)) == seq![w] + text::words_of(rest),
{
    let cs = w + (seq![' '] + rest);
    let n = w.len() as int;
    assert forall|k: int| 0 <= k < n implies !text::is_space(#[trigger] cs[k]) by {
        assert(cs[k] == w[k]);
    }
    lemma_words_run(cs, 0, n, Seq::empty());
    assert(Seq::<char>::empty() + cs.subrange(0, n) =~= w);
    assert(cs[n] == ' ');
    assert(cs =~= w.push(' ') + rest);
    lemma_words_shift(w.push(' '), rest, 0, Seq::empty());
}

proof fn lemma_last_word(w: Seq<char>)
    requires
        w.len() > 0,
        no_space(w),
    ensures
        text::words_of(w) == seq![w],
{
    lemma_words_run(w, 0, w.len() as int, Seq::empty());
    assert(Seq::<char>::empty() + w.subrange(0, w.len() as int) =~= w);
}

proof fn lemma_digits_no_space(n: int)
    requires
        n >= 0,
    ensures
        no_space(text::decimal(n)),
        text::decimal(n).len() > 0,
{
    text::lemma_decimal_round_trip(n);
    assert forall|i: int| 0 <= i < text::decimal(n).len() implies !text::is_space(#[trigger] text::decimal(n)[i]) by {
        assert(text::is_digit(text::decimal(n)[i]));
    }
}

proof fn lemma_not_moves(n: int)
    requires
        n >= 0,
    ensures
        text::decimal(n) != notation::moves_word(),
{
    text::lemma_decimal_round_trip(n);
    assert(text::is_digit(text::decimal(n)[0]));
    assert(notation::moves_word()[0] == 'm');
}

proof fn lemma_six_words(p: PositionV)
    requires
        model::board_ok(p.board),
        rights_legible(p),
        ep_legible(p),
    ensures
        text::words_of(notation::fen_text(p)) == seq![
            notation::board_text(p.board),
            notation::stm_text(p.stm),
            notation::castling_text(p),
            notation::ep_text(p.en_passant),
            text::decimal(p.halfmove_clock as int),
            text::decimal(p.fullmove_number as int),
        ],
{
    let w0 = notation::board_text(p.board);
    let w1 = notation::stm_text(p.stm);
    let w2 = notation::castling_text(p);
    let w3 = notation::ep_text(p.en_passant);
    let w4 = text::decimal(p.halfmove_clock as int);
    let w5 = text::decimal(p.fullmove_number as int);
    let gap = seq![' '];
    let r4 = w4 + (gap + w5);
    let r3 = w3 + (gap + r4);
    let r2 = w2 + (gap + r3);
    let r1 = w1 + (gap + r2);
    let r0 = w0 + (gap + r1);
    lemma_ranks_no_space(p.board, 7);
    lemma_castling_letters(p);
    lemma_digits_no_space(p.halfmove_clock as int);
    lemma_digits_no_space(p.fullmove_number as int);
    lemma_last_word(w5);
    lemma_first_word(w4, w5);
    lemma_first_word(w3, r4);
    lemma_first_word(w2, r3);
    lemma_first_word(w1, r2);
    lemma_first_word(w0, r1);
    assert(notation::fen_text(p) =~= r0);
    assert(seq![w0] + (seq![w1] + (seq![w2] + (seq![w3] + (seq![w4] + seq![w5])))) =~= seq![w0, w1, w2, w3, w4, w5]);
}

// ──────── Piece placement ────────

proof fn lemma_rank_no_space(b: Board, r: int, f: int, empty: int)
    requires
        model::board_ok(b),
        0 <= r < 8,
        0 <= empty <= f <= 8,
    ensures
        no_space(notation::rank_text(b, r, f, empty)),
        empty > 0 || f < 8 ==> notation::rank_text(b, r, f, empty).len() > 0,
    decreases 8 - f,
{
    if f < 8 {
        match b[r * 8 + f] {
            None => {
                lemma_rank_no_space(b, r, f + 1, empty + 1);
            },
            Some(_) => {
                lemma_rank_no_space(b, r, f + 1, 0);
            },
        }
    }
}

proof fn lemma_ranks_no_space(b: Board, r: int)
    requires
        model::board_ok(b),
        0 <= r < 8,
    ensures
        no_space(notation::ranks_text(b, r)),
        notation::ranks_text(b, r).len() > 0,
    decreases r,
{
    lemma_rank_no_space(b, r, 0, 0);
    if r > 0 {
        lemma_ranks_no_space(b, r - 1);
    }
}

proof fn lemma_place_concat(st: PlaceV, a: Seq<char>, c: Seq<char>, i: int)
    requires
        0 <= i <= a.len(),
    ensures
        notation::place_from(st, a + c, i) == match notation::place_from(st, a, i) {
            Ok(next) => notation::place_from(next, c, 0),
            Err(e) => Err(e),
        },
    decreases a.len() - i,
{
    if i < a.len() {
        assert((a + c)[i] == a[i]);
        match notation::place_step(st, a[i]) {
            Ok(next) => {
                lemma_place_concat(next, a, c, i + 1);
            },
            Err(_) => {},
        }
    } else {
        lemma_place_shift(st, a, c, 0);
    }
}

proof fn lemma_place_shift(st: PlaceV, a: Seq<char>, c: Seq<char>, i: int)
    requires
        0 <= i <= c.len(),
    ensures
        notation::place_from(st, a + c, a.len() + i) == notation::place_from(st, c, i),
    decreases c.len() - i,
{
    if i < c.len() {
        assert((a + c)[a.len() + i] == c[i]);
        match notation::place_step(st, c[i]) {
            Ok(next) => {
                lemma_place_shift(next, a, c, i + 1);
            },
            Err(_) => {},
        }
    }
}

/// The part of a board that has been read when rank `r` is read up to file `f`.
spec fn read_so_far(b: Board, r: int, f: int) -> Board {
    Seq::new(
        64,
        |i: int|
            if i / 8 > r || (i / 8 == r && i % 8 < f) {
                b[i]
            } else {
                None
            },
    )
}

proof fn lemma_skip_read(b: Board, r: int, f: int, empty: int)
    requires
        0 <= empty <= f <= 8,
        0 <= r < 8,
    ensures
        notation::place_from(
            PlaceV { board: b, rank: r, file: f - empty },
            notation::skip_text(empty),
            0,
        ) == Ok::<PlaceV, FenErrorV>(PlaceV { board: b, rank: r, file: f }),
{
    reveal_with_fuel(notation::place_from, 2);
    if empty > 0 {
        assert(text::digit_value(text::digit_char(empty)) == empty);
    }
}

proof fn lemma_rank_read(b: Board, r: int, f: int, empty: int)
    requires
        model::board_ok(b),
        0 <= r < 8,
        0 <= empty <= f <= 8,
    ensures
        notation::place_from(
            PlaceV { board: read_so_far(b, r, f), rank: r, file: f - empty },
            notation::rank_text(b, r, f, empty),
            0,
        ) == Ok::<PlaceV, FenErrorV>(PlaceV { board: read_so_far(b, r, 8), rank: r, file: 8 }),
    decreases 8 - f,
{
    let st = PlaceV { board: read_so_far(b, r, f), rank: r, file: f - empty };
    if f >= 8 {
        lemma_skip_read(st.board, r, f, empty);
    } else {
        let s = r * 8 + f;
        match b[s] {
            None => {
                assert(read_so_far(b, r, f) =~= read_so_far(b, r, f + 1));
                lemma_rank_read(b, r, f + 1, empty + 1);
            },
            Some(m) => {
                let skip = notation::skip_text(empty);
                let ch = types::piece_letter(m.pt, m.color);
                let rest = notation::rank_text(b, r, f + 1, 0);
                assert(b[s] != model::man(PieceType::Empty, m.color));
                lemma_skip_read(st.board, r, f, empty);
                let mid = PlaceV { board: st.board, rank: r, file: f };
                let next = PlaceV { board: read_so_far(b, r, f + 1), rank: r, file: f + 1 };
                assert(read_so_far(b, r, f + 1) =~= read_so_far(b, r, f).update(s, b[s])) by {
                    assert forall|i: int| 0 <= i < 64 implies #[trigger] read_so_far(b, r, f + 1)[i]
                        == read_so_far(b, r, f).update(s, b[s])[i] by {
                        if i / 8 == r && i % 8 == f {
                            assert(i == s);
                        }
                    }
                }
                assert(notation::place_step(mid, ch) == Ok::<PlaceV, FenErrorV>(next));
                lemma_place_concat(st, skip, seq![ch] + rest, 0);
                lemma_place_concat(mid, seq![ch], rest, 0);
                reveal_with_fuel(notation::place_from, 2);
                assert(notation::place_from(mid, seq![ch], 0) == Ok::<PlaceV, FenErrorV>(next));
                assert(skip.push(ch) + rest =~= skip + (seq![ch] + rest));
                lemma_rank_read(b, r, f + 1, 0);
            },
        }
    }
}

proof fn lemma_ranks_read(b: Board, r: int)
    requires
        model::board_ok(b),
        0 <= r < 8,
    ensures
        notation::place_from(
            PlaceV { board: read_so_far(b, r, 0), rank: r, file: 0 },
            notation::ranks_text(b, r),
            0,
        ) == Ok::<PlaceV, FenErrorV>(PlaceV { board: b, rank: 0, file: 8 }),
    decreases r,
{
    let st = PlaceV { board: read_so_far(b, r, 0), rank: r, file: 0 };
    lemma_rank_read(b, r, 0, 0);
    if r == 0 {
        assert(read_so_far(b, 0, 8) =~= b);
    } else {
        let line = notation::rank_text(b, r, 0, 0);
        let rest = notation::ranks_text(b, r - 1);
        let full = PlaceV { board: read_so_far(b, r, 8), rank: r, file: 8 };
        let next = PlaceV { board: read_so_far(b, r - 1, 0), rank: r - 1, file: 0 };
        assert(read_so_far(b, r - 1, 0) =~= read_so_far(b, r, 8));
        lemma_place_concat(st, line, seq!['/'] + rest, 0);
        lemma_place_concat(full, seq!['/'], rest, 0);
        reveal_with_fuel(notation::place_from, 2);
        assert(notation::place_from(full, seq!['/'], 0) == Ok::<PlaceV, FenErrorV>(next));
        assert(line.push('/') + rest =~= line + (seq!['/'] + rest));
        lemma_ranks_read(b, r - 1);
    }
}

proof fn lemma_placement_read(b: Board)
    requires
        model::board_ok(b),
    ensures
        notation::read_placement(notation::board_text(b)) == Ok::<Board, FenErrorV>(b),
{
    assert(read_so_far(b, 7, 0) =~= notation::empty_board());
    lemma_ranks_read(b, 7);
}

proof fn lemma_place_ok(st: PlaceV, cs: Seq<char>, i: int)
    requires
        model::board_ok(st.board),
        0 <= st.rank < 8,
        0 <= st.file <= 8,
        0 <= i,
    ensures
        notation::place_from(st, cs, i) matches Ok(end) ==> model::board_ok(end.board),
    decreases cs.len() - i,
{
    if i < cs.len() {
        match notation::place_step(st, cs[i]) {
            Ok(next) => {
                lemma_place_ok(next, cs, i + 1);
            },
            Err(_) => {},
        }
    }
}

proof fn lemma_placement_ok(cs: Seq<char>)
    ensures
        notation::read_placement(cs) matches Ok(b) ==> model::board_ok(b),
{
    lemma_place_ok(PlaceV { board: notation::empty_board(), rank: 7, file: 0 }, cs, 0);
}

// ──────── Castling ────────

proof fn lemma_castling_letters(p: PositionV)
    requires
        rights_legible(p),
    ensures
        no_space(notation::castling_text(p)),
        notation::castling_text(p).len() > 0,
        p.castling_rights != 0 ==> notation::castling_text(p) != notation::dash(),
{
    let r = p.castling_rights;
    assert(r < 16 && r != 0 ==> r & 1 != 0 || r & 2 != 0 || r & 4 != 0 || r & 8 != 0) by (bit_vector);
    assert forall|i: int| 0 <= i < notation::castling_text(p).len() implies !text::is_space(
        #[trigger] notation::castling_text(p)[i],
    ) && (r != 0 ==> notation::castling_text(p)[i] != '-') by {}
    if r != 0 {
        assert(notation::castling_text(p)[0] != '-');
        assert(notation::dash()[0] == '-');
    }
}

proof fn lemma_castling_concat(b: Board, rv: RightsV, a: Seq<char>, c: Seq<char>, i: int)
    requires
        0 <= i <= a.len(),
    ensures
        notation::castling_from(b, rv, a + c, i) == notation::castling_from(
            b,
            notation::castling_from(b, rv, a, i),
            c,
            0,
        ),
    decreases a.len() - i,
{
    if i < a.len() {
        assert((a + c)[i] == a[i]);
        lemma_castling_concat(b, notation::castling_step(b, rv, a[i]), a, c, i + 1);
    } else {
        lemma_castling_shift(b, rv, a, c, 0);
    }
}

proof fn lemma_castling_shift(b: Board, rv: RightsV, a: Seq<char>, c: Seq<char>, i: int)
    requires
        0 <= i <= c.len(),
    ensures
        notation::castling_from(b, rv, a + c, a.len() + i) == notation::castling_from(b, rv, c, i),
    decreases c.len() - i,
{
    if i < c.len() {
        assert((a + c)[a.len() + i] == c[i]);
        lemma_castling_shift(b, notation::castling_step(b, rv, c[i]), a, c, i + 1);
    }
}

/// The rights with that of one slot of `p` added, if `p` holds it.
spec fn with_slot(p: PositionV, rv: RightsV, bit: u8, slot: int) -> RightsV {
    if p.castling_rights & bit == 0 {
        rv
    } else {
        notation::grant(rv, bit, slot, p.castling_rooks[slot].0 as int)
    }
}

proof fn lemma_right_read(
    p: PositionV,
    rv: RightsV,
    bit: u8,
    slot: int,
    plain: char,
    base: char,
)
    requires
        rights_legible(p),
        (bit == 1 && slot == 0 && plain == 'K' && base == 'A') || (bit == 2 && slot == 1 && plain == 'Q' && base
            == 'A') || (bit == 4 && slot == 2 && plain == 'k' && base == 'a') || (bit == 8 && slot == 3 && plain
            == 'q' && base == 'a'),
    ensures
        notation::castling_from(p.board, rv, notation::right_text(p, bit, slot, plain, base), 0) == with_slot(
            p,
            rv,
            bit,
            slot,
        ),
{
    reveal_with_fuel(notation::castling_from, 2);
    if p.castling_rights & bit != 0 && notation::by_file(p) {
        let f = types::file_of(p.castling_rooks[slot].0 as int);
        assert(0 <= f < 8);
    }
}

proof fn lemma_castling_read(p: PositionV)
    requires
        rights_legible(p),
        unused_slots_clear(p),
    ensures
        p.castling_rights == 0 ==> notation::castling_text(p) == notation::dash() && notation::no_rights()
            == (RightsV { rights: p.castling_rights, rooks: p.castling_rooks }),
        p.castling_rights != 0 ==> notation::castling_text(p) != notation::dash() && notation::castling_from(
            p.board,
            notation::no_rights(),
            notation::castling_text(p),
            0,
        ) == (RightsV { rights: p.castling_rights, rooks: p.castling_rooks }),
{
    let r = p.castling_rights;
    lemma_castling_letters(p);
    if r == 0 {
        assert(0u8 & 1 == 0 && 0u8 & 2 == 0 && 0u8 & 4 == 0 && 0u8 & 8 == 0) by (bit_vector);
        assert(notation::no_rights().rooks =~= p.castling_rooks);
    } else {
        let t0 = notation::right_text(p, 1, 0, 'K', 'A');
        let t1 = notation::right_text(p, 2, 1, 'Q', 'A');
        let t2 = notation::right_text(p, 4, 2, 'k', 'a');
        let t3 = notation::right_text(p, 8, 3, 'q', 'a');
        let rv0 = notation::no_rights();
        let rv1 = with_slot(p, rv0, 1, 0);
        let rv2 = with_slot(p, rv1, 2, 1);
        let rv3 = with_slot(p, rv2, 4, 2);
        let rv4 = with_slot(p, rv3, 8, 3);
        lemma_right_read(p, rv0, 1, 0, 'K', 'A');
        lemma_right_read(p, rv1, 2, 1, 'Q', 'A');
        lemma_right_read(p, rv2, 4, 2, 'k', 'a');
        lemma_right_read(p, rv3, 8, 3, 'q', 'a');
        lemma_castling_concat(p.board, rv0, t0 + t1 + t2, t3, 0);
        lemma_castling_concat(p.board, rv0, t0 + t1, t2, 0);
        lemma_castling_concat(p.board, rv0, t0, t1, 0);
        let a = rv1.rights;
        let b = rv2.rights;
        let c = rv3.rights;
        let d = rv4.rights;
        assert(d == r) by (bit_vector)
            requires
                r < 16,
                a == if r & 1 == 0 {
                    0u8
                } else {
                    0u8 | 1
                },
                b == if r & 2 == 0 {
                    a
                } else {
                    a | 2
                },
                c == if r & 4 == 0 {
                    b
                } else {
                    b | 4
                },
                d == if r & 8 == 0 {
                    c
                } else {
                    c | 8
                },
        ;
        assert(rv4.rooks =~= p.castling_rooks);
    }
}

/// What reading a castling field keeps true of the rights.
spec fn rights_ok(rv: RightsV) -> bool {
    &&& rv.rights < 16
    &&& rv.rooks.len() == 4
    &&& rv.rights & 1 == 0 ==> rv.rooks[0] == Square(0)
    &&& rv.rights & 2 == 0 ==> rv.rooks[1] == Square(0)
    &&& rv.rights & 4 == 0 ==> rv.rooks[2] == Square(0)
    &&& rv.rights & 8 == 0 ==> rv.rooks[3] == Square(0)
}

proof fn lemma_no_rights_ok()
    ensures
        rights_ok(notation::no_rights()),
{
}

proof fn lemma_grant_ok(rv: RightsV, bit: u8, slot: int, sq: int)
    requires
        rights_ok(rv),
        (bit == 1 && slot == 0) || (bit == 2 && slot == 1) || (bit == 4 && slot == 2) || (bit == 8 && slot == 3),
    ensures
        rights_ok(notation::grant(rv, bit, slot, sq)),
{
    let r = rv.rights;
    assert({
        &&& r < 16 && bit <= 8 ==> (r | bit) < 16
        &&& (r | 1) & 1 != 0 && (r | 2) & 2 != 0 && (r | 4) & 4 != 0 && (r | 8) & 8 != 0
        &&& (r | bit) & 1 == 0 ==> r & 1 == 0
        &&& (r | bit) & 2 == 0 ==> r & 2 == 0
        &&& (r | bit) & 4 == 0 ==> r & 4 == 0
        &&& (r | bit) & 8 == 0 ==> r & 8 == 0
    }) by (bit_vector);
}

proof fn lemma_castling_ok(b: Board, rv: RightsV, cs: Seq<char>, i: int)
    requires
        rights_ok(rv),
        0 <= i,
    ensures
        rights_ok(notation::castling_from(b, rv, cs, i)),
    decreases cs.len() - i,
{
    if i < cs.len() {
        let next = notation::castling_step(b, rv, cs[i]);
        assert(rights_ok(next)) by {
            assert forall|sq: int| rights_ok(#[trigger] notation::grant(rv, 1, 0, sq)) by {
                lemma_grant_ok(rv, 1, 0, sq);
            }
            assert forall|sq: int| rights_ok(#[trigger] notation::grant(rv, 2, 1, sq)) by {
                lemma_grant_ok(rv, 2, 1, sq);
            }
            assert forall|sq: int| rights_ok(#[trigger] notation::grant(rv, 4, 2, sq)) by {
                lemma_grant_ok(rv, 4, 2, sq);
            }
            assert forall|sq: int| rights_ok(#[trigger] notation::grant(rv, 8, 3, sq)) by {
                lemma_grant_ok(rv, 8, 3, sq);
            }
        }
        lemma_castling_ok(b, next, cs, i + 1);
    }
}

// ──────── En passant ────────

proof fn lemma_ep_read(ep: Option<Square>)
    requires
        ep matches Some(sq) ==> sq.wf() && (types::rank_of(sq.0 as int) == 2 || types::rank_of(sq.0 as int) == 5),
    ensures
        ep matches Some(sq) ==> notation::ep_text(ep) != notation::dash() && notation::ep_square(
            notation::ep_text(ep),
        ) == Some(sq.0 as int),
{
    if ep is Some {
        assert(notation::ep_text(ep).len() == 2);
        assert(notation::dash().len() == 1);
    }
}

proof fn lemma_ep_square_rank(cs: Seq<char>)
    ensures
        notation::ep_square(cs) matches Some(s) ==> 0 <= s < 64 && (types::rank_of(s) == 2 || types::rank_of(s) == 5),
{
}

} // verus!
