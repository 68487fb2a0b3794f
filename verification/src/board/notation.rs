//! What a FEN string says, and how a position is written.

use vstd::prelude::*;
use crate::board::model;
use crate::board::model::{Board, Piece, PositionV};
use crate::error::FenErrorV;
use crate::text;
use crate::types;
use crate::types::{Color, PieceType, Square};

verus! {

// ──────── Piece placement ────────

/// How far the piece placement has been read: the board so far and the square that comes next.
pub struct PlaceV {
    pub board: Board,
    pub rank: int,
    pub file: int,
}

/// Reads one character of the piece placement. Digits skip squares, letters place pieces, a slash
/// ends a full rank.
pub open spec fn place_step(st: PlaceV, ch: char) -> Result<PlaceV, FenErrorV> {
    if ch == '/' {
        if st.file != 8 {
            Err(FenErrorV::InvalidRankWidth { rank: st.rank, width: st.file })
        } else if st.rank == 0 {
            Err(FenErrorV::TooManyRanks { rank: 0, count: 9 })
        } else {
            Ok(PlaceV { rank: st.rank - 1, file: 0, ..st })
        }
    } else if '1' <= ch <= '8' {
        let file = st.file + text::digit_value(ch);
        if file > 8 {
            Err(FenErrorV::FileOverflow { rank: st.rank, file })
        } else {
            Ok(PlaceV { file, ..st })
        }
    } else if types::letter_type(ch) == PieceType::Empty {
        Err(FenErrorV::InvalidPiece { ch, rank: st.rank, file: st.file })
    } else if st.file >= 8 {
        Err(FenErrorV::SquareOutOfBounds { square: st.rank * 8 + st.file })
    } else {
        let color = if 'A' <= ch <= 'Z' {
            Color::White
        } else {
            Color::Black
        };
        Ok(
            PlaceV {
                board: st.board.update(st.rank * 8 + st.file, model::man(types::letter_type(ch), color)),
                file: st.file + 1,
                ..st
            },
        )
    }
}

/// Reads the piece placement from place `i` on.
pub open spec fn place_from(st: PlaceV, cs: Seq<char>, i: int) -> Result<PlaceV, FenErrorV>
    decreases cs.len() - i,
{
    if i >= cs.len() {
        Ok(st)
    } else {
        match place_step(st, cs[i]) {
            Ok(next) => place_from(next, cs, i + 1),
            Err(e) => Err(e),
        }
    }
}

pub open spec fn empty_board() -> Board {
    Seq::new(64, |i: int| None)
}

/// Reads the piece placement, ranks 8 to 1.
pub open spec fn read_placement(cs: Seq<char>) -> Result<Board, FenErrorV> {
    match place_from(PlaceV { board: empty_board(), rank: 7, file: 0 }, cs, 0) {
        Ok(st) => if st.rank != 0 || st.file != 8 {
            Err(FenErrorV::InvalidRankWidth { rank: st.rank, width: st.file })
        } else {
            Ok(st.board)
        },
        Err(e) => Err(e),
    }
}

/// The digit for `empty` skipped squares, nothing for none.
pub open spec fn skip_text(empty: int) -> Seq<char> {
    if empty > 0 {
        seq![text::digit_char(empty)]
    } else {
        Seq::empty()
    }
}

/// Writes rank `r` from file `f` on, after `empty` empty squares.
pub open spec fn rank_text(b: Board, r: int, f: int, empty: int) -> Seq<char>
    decreases 8 - f,
{
    if f >= 8 {
        skip_text(empty)
    } else {
        match b[r * 8 + f] {
            None => rank_text(b, r, f + 1, empty + 1),
            Some(p) => skip_text(empty).push(types::piece_letter(p.pt, p.color)) + rank_text(b, r, f + 1, 0),
        }
    }
}

/// Writes ranks `r` down to 1.
pub open spec fn ranks_text(b: Board, r: int) -> Seq<char>
    decreases r,
{
    if r <= 0 {
        rank_text(b, 0, 0, 0)
    } else {
        rank_text(b, r, 0, 0).push('/') + ranks_text(b, r - 1)
    }
}

/// Writes the piece placement, ranks 8 to 1.
pub open spec fn board_text(b: Board) -> Seq<char> {
    ranks_text(b, 7)
}

// ──────── Castling ────────

/// The file of the king, the e-file when there is none.
pub open spec fn king_file_of(b: Board, c: Color) -> int {
    if model::king_at(b, c) < 64 {
        types::file_of(model::king_at(b, c))
    } else {
        4
    }
}

/// File `f` is on the side of the king that a scan in steps of `step` is about: a scan toward the a-file looks
/// for the king-side rook, one toward the h-file for the queen-side rook. The king's own file counts as
/// king-side.
pub open spec fn on_side(b: Board, color: Color, f: int, step: int) -> bool {
    if step < 0 {
        f >= king_file_of(b, color)
    } else {
        f < king_file_of(b, color)
    }
}

/// The first rook of `color` on its home rank, from file `f` on in steps of `step`, on that side of its king.
pub open spec fn rook_from(b: Board, color: Color, f: int, step: int) -> Option<int>
    decreases
            if step > 0 {
                8 - f
            } else {
                f + 1
            },
    when step == 1 || step == -1
{
    if f < 0 || f >= 8 || !on_side(b, color, f, step) {
        None
    } else if b[color.home_rank() * 8 + f] == model::man(PieceType::Rook, color) {
        Some(color.home_rank() * 8 + f)
    } else {
        rook_from(b, color, f + step, step)
    }
}

/// Castling rights and the rook squares that go with them.
pub struct RightsV {
    pub rights: u8,
    pub rooks: Seq<Square>,
}

/// Grants the right of a slot to the rook on `sq`.
pub open spec fn grant(rv: RightsV, bit: u8, slot: int, sq: int) -> RightsV {
    RightsV { rights: rv.rights | bit, rooks: rv.rooks.update(slot, Square(sq as u8)) }
}

/// Grants the right of a slot to the rook, if one was found.
pub open spec fn grant_found(rv: RightsV, bit: u8, slot: int, sq: Option<int>) -> RightsV {
    match sq {
        Some(s) => grant(rv, bit, slot, s),
        None => rv,
    }
}

/// Reads one character of the castling field. `KQkq` looks for the outermost rook on that side of the king;
/// a file letter names the rook's file, and its side follows from the king's file. Anything else says nothing.
pub open spec fn castling_step(b: Board, rv: RightsV, ch: char) -> RightsV {
    if ch == 'K' {
        grant_found(rv, 1, 0, rook_from(b, Color::White, 7, -1))
    } else if ch == 'Q' {
        grant_found(rv, 2, 1, rook_from(b, Color::White, 0, 1))
    } else if ch == 'k' {
        grant_found(rv, 4, 2, rook_from(b, Color::Black, 7, -1))
    } else if ch == 'q' {
        grant_found(rv, 8, 3, rook_from(b, Color::Black, 0, 1))
    } else if 'A' <= ch <= 'H' {
        let file = ch as int - 'A' as int;
        if file < king_file_of(b, Color::White) {
            grant(rv, 2, 1, file)
        } else {
            grant(rv, 1, 0, file)
        }
    } else if 'a' <= ch <= 'h' {
        let file = ch as int - 'a' as int;
        if file < king_file_of(b, Color::Black) {
            grant(rv, 8, 3, 56 + file)
        } else {
            grant(rv, 4, 2, 56 + file)
        }
    } else {
        rv
    }
}

/// Reads the castling field from place `i` on.
pub open spec fn castling_from(b: Board, rv: RightsV, cs: Seq<char>, i: int) -> RightsV
    decreases cs.len() - i,
{
    if i >= cs.len() {
        rv
    } else {
        castling_from(b, castling_step(b, rv, cs[i]), cs, i + 1)
    }
}

/// No rights at all.
pub open spec fn no_rights() -> RightsV {
    RightsV { rights: 0, rooks: Seq::new(4, |i: int| Square(0)) }
}

/// Every right in `p` belongs to the rook that stands on the usual corner.
pub open spec fn corner_rooks(p: PositionV) -> bool {
    &&& p.castling_rights & 1 == 0 || p.castling_rooks[0] == Square(7)
    &&& p.castling_rights & 2 == 0 || p.castling_rooks[1] == Square(0)
    &&& p.castling_rights & 4 == 0 || p.castling_rooks[2] == Square(63)
    &&& p.castling_rights & 8 == 0 || p.castling_rooks[3] == Square(56)
}

/// The castling field names rook files.
pub open spec fn by_file(p: PositionV) -> bool {
    p.is_frc && !corner_rooks(p)
}

/// One right's letter: that of the right, or that of its rook's file.
pub open spec fn right_text(p: PositionV, bit: u8, slot: int, plain: char, base: char) -> Seq<char> {
    if p.castling_rights & bit == 0 {
        Seq::empty()
    } else if by_file(p) {
        seq![(base as int + types::file_of(p.castling_rooks[slot].0 as int)) as char]
    } else {
        seq![plain]
    }
}

/// Writes the castling field.
pub open spec fn castling_text(p: PositionV) -> Seq<char> {
    if p.castling_rights == 0 {
        seq!['-']
    } else {
        right_text(p, 1, 0, 'K', 'A') + right_text(p, 2, 1, 'Q', 'A') + right_text(p, 4, 2, 'k', 'a') + right_text(
            p,
            8,
            3,
            'q',
            'a',
        )
    }
}

// ──────── The other fields ────────

/// The square that an en passant field names.
pub open spec fn ep_square(cs: Seq<char>) -> Option<int> {
    if cs.len() == 2 && 'a' <= cs[0] <= 'h' && (cs[1] == '3' || cs[1] == '6') {
        Some((cs[1] as int - '1' as int) * 8 + (cs[0] as int - 'a' as int))
    } else {
        None
    }
}

pub open spec fn dash() -> Seq<char> {
    seq!['-']
}

pub open spec fn moves_word() -> Seq<char> {
    seq!['m', 'o', 'v', 'e', 's']
}

pub open spec fn stm_text(c: Color) -> Seq<char> {
    match c {
        Color::White => seq!['w'],
        Color::Black => seq!['b'],
    }
}

pub open spec fn ep_text(ep: Option<Square>) -> Seq<char> {
    match ep {
        Some(sq) => types::square_name(sq.0 as int),
        None => dash(),
    }
}

/// Writes a position: six fields with one space between them.
pub open spec fn fen_text(p: PositionV) -> Seq<char> {
    board_text(p.board) + seq![' '] + stm_text(p.stm) + seq![' '] + castling_text(p) + seq![' '] + ep_text(
        p.en_passant,
    ) + seq![' '] + text::decimal(p.halfmove_clock as int) + seq![' '] + text::decimal(p.fullmove_number as int)
}

// ──────── A whole position ────────

/// How many of the squares below `n` hold exactly this piece.
pub open spec fn headcount(b: Board, m: Option<Piece>, n: nat) -> nat
    decreases n,
{
    if n == 0 {
        0
    } else {
        headcount(b, m, (n - 1) as nat) + if b[n - 1] == m {
            1nat
        } else {
            0nat
        }
    }
}

/// A pawn stands on the first or last rank.
pub open spec fn stray_pawn(b: Board, i: int) -> bool {
    model::type_at(b, i) == PieceType::Pawn && (types::rank_of(i) == 0 || types::rank_of(i) == 7)
}

/// The first square at or after `i` with a pawn on the first or last rank; 64 when there is none.
pub open spec fn first_stray_pawn(b: Board, i: int) -> int
    decreases 64 - i,
{
    if i >= 64 {
        64
    } else if stray_pawn(b, i) {
        i
    } else {
        first_stray_pawn(b, i + 1)
    }
}

/// A right of slot `slot` is held without a rook on its square.
pub open spec fn rookless(p: PositionV, bit: u8, slot: int) -> bool {
    p.castling_rights & bit != 0 && model::type_at(p.board, p.castling_rooks[slot].0 as int) != PieceType::Rook
}

pub open spec fn rook_error(p: PositionV, slot: int) -> FenErrorV {
    FenErrorV::InvalidCastlingRights { sq: types::square_name(p.castling_rooks[slot].0 as int) }
}

/// What keeps a position that was read from being accepted, if anything.
pub open spec fn objection(p: PositionV) -> Option<FenErrorV> {
    let stray = first_stray_pawn(p.board, 0);
    let them = p.stm.other();
    if headcount(p.board, model::man(PieceType::King, Color::White), 64) != 1 {
        Some(FenErrorV::MissingKing { color: "white"@ })
    } else if headcount(p.board, model::man(PieceType::King, Color::Black), 64) != 1 {
        Some(FenErrorV::MissingKing { color: "black"@ })
    } else if stray < 64 {
        Some(
            FenErrorV::InvalidPiece {
                ch: types::piece_letter(PieceType::Pawn, p.board[stray].unwrap().color),
                rank: types::rank_of(stray),
                file: types::file_of(stray),
            },
        )
    } else if model::attacked(p.board, 0, model::king_at(p.board, them), p.stm) {
        Some(FenErrorV::IllegalCheck)
    } else if rookless(p, 1, 0) {
        Some(rook_error(p, 0))
    } else if rookless(p, 2, 1) {
        Some(rook_error(p, 1))
    } else if rookless(p, 4, 2) {
        Some(rook_error(p, 2))
    } else if rookless(p, 8, 3) {
        Some(rook_error(p, 3))
    } else {
        None
    }
}

/// The position with its hashes computed.
pub open spec fn hashed(p: PositionV) -> PositionV {
    PositionV { hash: model::zobrist_of(p), pawn_hash: model::pawn_zobrist_of(p.board), ..p }
}

/// Accepts a position, with its hashes computed, or says what is wrong with it.
pub open spec fn accept(p: PositionV) -> Result<PositionV, FenErrorV> {
    match objection(p) {
        Some(e) => Err(e),
        None => Ok(hashed(p)),
    }
}

/// Word `i`, unless the words end before it.
pub open spec fn word(ws: Seq<Seq<char>>, i: int) -> Option<Seq<char>> {
    if 0 <= i < ws.len() {
        Some(ws[i])
    } else {
        None
    }
}

/// What the placement, the side to move and the castling field of `ws` from word `a` on say.
pub open spec fn read_front(ws: Seq<Seq<char>>, a: int) -> Result<PositionV, FenErrorV> {
    if word(ws, a) is None {
        Err(FenErrorV::Empty)
    } else {
        match read_placement(ws[a]) {
            Err(e) => Err(e),
            Ok(b) => if word(ws, a + 1) is None {
                Err(FenErrorV::MissingStm)
            } else if ws[a + 1] != stm_text(Color::White) && ws[a + 1] != stm_text(Color::Black) {
                Err(FenErrorV::InvalidStm { stm: ws[a + 1] })
            } else {
                let rv = match word(ws, a + 2) {
                    Some(w) => if w == dash() {
                        no_rights()
                    } else {
                        castling_from(b, no_rights(), w, 0)
                    },
                    None => no_rights(),
                };
                Ok(
                    PositionV {
                        board: b,
                        stm: if ws[a + 1] == stm_text(Color::White) {
                            Color::White
                        } else {
                            Color::Black
                        },
                        castling_rights: rv.rights,
                        castling_rooks: rv.rooks,
                        en_passant: None,
                        halfmove_clock: 0,
                        fullmove_number: 1,
                        is_frc: false,
                        hash: 0,
                        pawn_hash: 0,
                    },
                )
            },
        }
    }
}

/// What the en passant field says of `p`: the square it names, if it names one and a pawn can capture there.
pub open spec fn read_ep(p: PositionV, w: Option<Seq<char>>) -> Option<Square> {
    match w {
        None => None,
        Some(cs) => match ep_square(cs) {
            None => None,
            Some(s) => if model::ep_possible(p.board, s, p.stm) {
                Some(Square(s as u8))
            } else {
                None
            },
        },
    }
}

/// A clock field: absent before the word `moves` and at the end.
pub open spec fn clock_word(ws: Seq<Seq<char>>, i: int) -> Option<Seq<char>> {
    match word(ws, i) {
        Some(w) => if w == moves_word() {
            None
        } else {
            Some(w)
        },
        None => None,
    }
}

/// The number in a clock field, `default` when there is none.
pub open spec fn clock_value(w: Option<Seq<char>>, max: int, default: int) -> int {
    match w {
        Some(cs) => match text::number(cs, max) {
            Some(n) => n,
            None => default,
        },
        None => default,
    }
}

/// What the fields of `ws` from word `a` on say.
pub open spec fn read_fields(ws: Seq<Seq<char>>, a: int) -> Result<PositionV, FenErrorV> {
    match read_front(ws, a) {
        Err(e) => Err(e),
        Ok(p) => {
            let half = clock_word(ws, a + 4);
            let full = if half is Some {
                clock_word(ws, a + 5)
            } else {
                None
            };
            accept(
                PositionV {
                    en_passant: read_ep(p, word(ws, a + 3)),
                    halfmove_clock: clock_value(half, 255, 0) as u8,
                    fullmove_number: clock_value(full, 65535, 1) as u16,
                    ..p
                },
            )
        },
    }
}

/// How many of the words of `ws` from `a` on a FEN takes: at most six, and none from the word `moves` on
/// where a clock may stand. An error ends the reading behind the field that it is about.
pub open spec fn fields_read(ws: Seq<Seq<char>>, a: int) -> int {
    let left = ws.len() - a;
    let upto = |n: int|
        if left < n {
            left
        } else {
            n
        };
    if left >= 1 && read_placement(ws[a]) is Err {
        1
    } else if read_front(ws, a) is Err {
        upto(2)
    } else if clock_word(ws, a + 4) is None {
        upto(4)
    } else if clock_word(ws, a + 5) is None {
        5
    } else {
        6
    }
}

/// What a FEN string says.
pub open spec fn read_fen(cs: Seq<char>) -> Result<PositionV, FenErrorV> {
    read_fields(text::words_of(cs), 0)
}

} // verus!
