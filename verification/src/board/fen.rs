//! FEN (Forsyth-Edwards Notation) parsing and serialization.

use vstd::prelude::*;
use crate::arith;
use crate::bits;
use crate::board::attacks;
use crate::board::make::{BLACK_OO, BLACK_OOO, WHITE_OO, WHITE_OOO};
use crate::board::laws;
use crate::board::model;
use crate::board::model::{Board, Piece, PositionV};
use crate::board::notation;
use crate::board::notation::{PlaceV, RightsV};
use crate::board::position::Position;
use crate::board::queries;
use crate::error::{FenError, FenErrorV};
use crate::text;
use crate::types;
use crate::types::{Bitboard, Color, PieceType, Square};
use crate::zobrist;

verus! {

/// The usual starting position.
pub const STARTPOS: &'static str = "rnbqkbnr/pppppppp/8/8/8/8/PPPPPPPP/RNBQKBNR w KQkq - 0 1";

/// King's home file in the standard starting position.
pub const DEFAULT_KING_FILE: u8 = 4;

/// h-file.
pub const KINGSIDE_FILE: u8 = 7;

/// a-file.
pub const QUEENSIDE_FILE: u8 = 0;

/// Toward the a-file.
pub const SEARCH_LEFT: i8 = -1;

/// Toward the h-file.
pub const SEARCH_RIGHT: i8 = 1;

/// A text split into words, and how many of them have been taken.
pub struct Tokens {
    words: Vec<Vec<char>>,
    at: usize,
}

impl Tokens {
    /// The words of the text.
    pub closed spec fn list(self) -> Seq<Seq<char>> {
        text::listed(self.words@)
    }

    /// How many words have been taken.
    pub closed spec fn taken(self) -> int {
        self.at as int
    }

    pub closed spec fn wf(self) -> bool {
        self.at <= self.words.len()
    }

    /// Splits a text at white space.
    pub fn split(s: &str) -> (t: Tokens)
        ensures
            t.wf(),
            t.list() == text::words_of(s@),
            t.taken() == 0,
    {
        let cs = text::chars_of(s);
        Tokens { words: text::split_words(&cs), at: 0 }
    }

    /// Takes the next word and returns its place.
    fn advance(&mut self) -> (r: Option<usize>)
        requires
            old(self).wf(),
        ensures
            final(self).wf(),
            final(self).words == old(self).words,
            r is None <==> old(self).at >= old(self).words.len(),
            r matches Some(i) ==> i == old(self).at && final(self).at == i + 1 && i < final(self).words.len(),
            r is None ==> final(self).at == old(self).at,
    {
        if self.at < self.words.len() {
            self.at = self.at + 1;
            Some(self.at - 1)
        } else {
            None
        }
    }

    /// Takes the next word.
    pub fn next_word(&mut self) -> (r: Option<String>)
        requires
            old(self).wf(),
        ensures
            final(self).wf(),
            final(self).list() == old(self).list(),
            r is None <==> old(self).taken() >= old(self).list().len(),
            r matches Some(s) ==> s@ == old(self).list()[old(self).taken()] && final(self).taken() == old(
                self,
            ).taken() + 1,
            r is None ==> final(self).taken() == old(self).taken(),
    {
        match self.advance() {
            Some(i) => Some(text::string_of(&self.words[i])),
            None => None,
        }
    }
}

fn is_word(cs: &Vec<char>, c: char) -> (r: bool)
    ensures
        r == (cs@ == seq![c]),
{
    let r = cs.len() == 1 && cs[0] == c;
    proof {
        if r {
            assert(cs@ =~= seq![c]);
        }
    }
    r
}

fn is_moves_word(cs: &Vec<char>) -> (r: bool)
    ensures
        r == (cs@ == notation::moves_word()),
{
    let r = cs.len() == 5 && cs[0] == 'm' && cs[1] == 'o' && cs[2] == 'v' && cs[3] == 'e' && cs[4] == 's';
    proof {
        if r {
            assert(cs@ =~= notation::moves_word());
        }
    }
    r
}

/// Agreement of a parse result with what the text says.
pub open spec fn agrees(r: Result<Position, FenError>, want: Result<PositionV, FenErrorV>) -> bool {
    match r {
        Ok(pos) => pos.wf() && want == Ok::<PositionV, FenErrorV>(pos@),
        Err(e) => want == Err::<PositionV, FenErrorV>(e@),
    }
}

/// Reads the first three fields: piece placement, side to move, castling. The last may be missing.
fn read_front(tokens: &mut Tokens) -> (r: Result<Position, FenError>)
    requires
        old(tokens).wf(),
    ensures
        final(tokens).wf(),
        final(tokens).list() == old(tokens).list(),
        match r {
            Ok(pos) => {
                &&& pos.wf()
                &&& pos@.en_passant is None
                &&& pos@.halfmove_clock == 0
                &&& pos@.fullmove_number == 1
                &&& notation::read_front(old(tokens).list(), old(tokens).taken()) == Ok::<PositionV, FenErrorV>(
                    (PositionV { hash: 0, ..pos@ }),
                )
                &&& final(tokens).taken() == arith::smaller(
                    old(tokens).taken() + 3,
                    old(tokens).list().len() as int,
                )
            },
            Err(e) => {
                &&& notation::read_front(old(tokens).list(), old(tokens).taken()) == Err::<PositionV, FenErrorV>(e@)
                &&& final(tokens).taken() == old(tokens).taken() + notation::fields_read(
                    old(tokens).list(),
                    old(tokens).taken(),
                )
            },
        },
{
    let mut pos = Position::new();
    proof {
        assert(pos@.board =~= notation::empty_board());
        assert(pos@.castling_rooks =~= notation::no_rights().rooks);
    }
    match tokens.advance() {
        Some(i) => {
            match parse_placement(&mut pos, &tokens.words[i]) {
                Ok(_) => {},
                Err(e) => {
                    return Err(e);
                },
            }
        },
        None => {
            return Err(FenError::Empty);
        },
    }

    // Side to move
    match tokens.advance() {
        Some(i) => {
            let w = &tokens.words[i];
            if is_word(w, 'w') {
                pos.stm = Color::White;
            } else if is_word(w, 'b') {
                pos.stm = Color::Black;
            } else {
                return Err(FenError::InvalidStm { stm: text::string_of(w) });
            }
        },
        None => {
            return Err(FenError::MissingStm);
        },
    }

    // Castling availability
    match tokens.advance() {
        Some(i) => {
            let w = &tokens.words[i];
            if !is_word(w, '-') {
                parse_castling_rights(&mut pos, w);
            }
        },
        None => {},
    }
    proof {
        assert(seq!['w'] != seq!['b']) by {
            assert(seq!['w'][0] != seq!['b'][0]);
        }
    }
    Ok(pos)
}

/// Reads the clocks, as far as there are any before the word `moves`. Malformed values silently default.
fn read_clocks(tokens: &mut Tokens, pos: &mut Position)
    requires
        old(tokens).wf(),
        old(pos).wf(),
        old(pos)@.halfmove_clock == 0,
        old(pos)@.fullmove_number == 1,
    ensures
        final(tokens).wf(),
        final(tokens).list() == old(tokens).list(),
        final(pos).wf(),
        ({
            let half = notation::clock_word(old(tokens).list(), old(tokens).taken());
            let full = if half is Some {
                notation::clock_word(old(tokens).list(), old(tokens).taken() + 1)
            } else {
                None
            };
            &&& final(pos)@ == (PositionV {
                halfmove_clock: notation::clock_value(half, 255, 0) as u8,
                fullmove_number: notation::clock_value(full, 65535, 1) as u16,
                ..old(pos)@
            })
            &&& final(tokens).taken() == old(tokens).taken() + (if half is None {
                0int
            } else if full is None {
                1
            } else {
                2
            })
        }),
{
    if tokens.at >= tokens.words.len() || is_moves_word(&tokens.words[tokens.at]) {
        return;
    }
    pos.halfmove_clock = match text::parse_number(&tokens.words[tokens.at], 255) {
        Some(n) => n as u8,
        None => 0,
    };
    tokens.at = tokens.at + 1;
    if tokens.at >= tokens.words.len() || is_moves_word(&tokens.words[tokens.at]) {
        return;
    }
    pos.fullmove_number = match text::parse_number(&tokens.words[tokens.at], 65535) {
        Some(n) => n as u16,
        None => 1,
    };
    tokens.at = tokens.at + 1;
}

/// Constructs a position from the next words of `tokens`.
///
/// Expects up to six fields: piece placement, side to move, castling, en passant, half-move clock,
/// full-move number. The last four may be missing; the last three get their default when absent or malformed.
pub fn try_from_tokens(tokens: &mut Tokens) -> (r: Result<Position, FenError>)
    requires
        old(tokens).wf(),
    ensures
        final(tokens).wf(),
        final(tokens).list() == old(tokens).list(),
        final(tokens).taken() == old(tokens).taken() + notation::fields_read(
            old(tokens).list(),
            old(tokens).taken(),
        ),
        agrees(r, notation::read_fields(old(tokens).list(), old(tokens).taken())),
{
    let ghost ws = tokens.list();
    let ghost a = tokens.taken();
    let mut pos = match read_front(tokens) {
        Ok(pos) => pos,
        Err(e) => {
            return Err(e);
        },
    };
    let ghost front = pos@;

    // En passant target
    match tokens.advance() {
        Some(i) => {
            let w = &tokens.words[i];
            if !is_word(w, '-') {
                match parse_en_passant(&mut pos, w) {
                    Ok(_) => {},
                    Err(_) => {},
                }
            }
        },
        None => {},
    }
    proof {
        assert(notation::read_ep(front, notation::word(ws, a + 3)) == pos@.en_passant);
    }
    read_clocks(tokens, &mut pos);
    finish_position(pos)
}

/// How many pieces a bitboard holds that marks exactly the squares of one kind of piece.
proof fn lemma_headcount(b: Board, m: Option<Piece>, bb: u64, n: nat)
    requires
        n <= 64,
        forall|i: int| 0 <= i < 64 ==> bits::member(bb, i) == (b[i] == m),
    ensures
        bits::count(bb, n) == notation::headcount(b, m, n),
    decreases n,
{
    if n > 0 {
        lemma_headcount(b, m, bb, (n - 1) as nat);
    }
}

proof fn lemma_king_found(b: Board, c: Color, n: nat)
    requires
        n <= 64,
        notation::headcount(b, model::man(PieceType::King, c), n) > 0,
    ensures
        0 <= model::king_at(b, c) < n,
    decreases n,
{
    if n > 0 {
        attacks::lemma_find_king(b, c, 0);
        if b[n - 1] != model::man(PieceType::King, c) {
            lemma_king_found(b, c, (n - 1) as nat);
        }
    }
}

/// The first pawn on the first or last rank.
fn find_stray_pawn(pos: &Position) -> (r: Option<Square>)
    ensures
        r matches Some(sq) ==> sq.wf() && sq.0 == notation::first_stray_pawn(pos@.board, 0) && notation::stray_pawn(
            pos@.board,
            sq.0 as int,
        ),
        r is None ==> notation::first_stray_pawn(pos@.board, 0) == 64,
{
    let mut s: u8 = 0;
    while s < 64
        invariant
            s <= 64,
            notation::first_stray_pawn(pos@.board, 0) == notation::first_stray_pawn(pos@.board, s as int),
        decreases 64 - s,
    {
        let sq = Square(s);
        if pos.piece_at(sq) == PieceType::Pawn && (sq.rank() == 0 || sq.rank() == 7) {
            return Some(sq);
        }
        s = s + 1;
    }
    None
}

/// Accepts a position that has been read, and computes its hashes.
fn finish_position(pos: Position) -> (r: Result<Position, FenError>)
    requires
        pos.wf(),
    ensures
        agrees(r, notation::accept(pos@)),
{
    let mut pos = pos;
    let ghost p = pos@;
    // 1. Each side has exactly one king
    let white_kings = pos.pieces(PieceType::King, Color::White);
    let black_kings = pos.pieces(PieceType::King, Color::Black);
    proof {
        assert forall|i: int| 0 <= i < 64 implies bits::member(white_kings.0, i) == (p.board[i] == model::man(
            PieceType::King,
            Color::White,
        )) by {
            assert(white_kings.on(i) == (p.board[i] == model::man(PieceType::King, Color::White)));
        }
        assert forall|i: int| 0 <= i < 64 implies bits::member(black_kings.0, i) == (p.board[i] == model::man(
            PieceType::King,
            Color::Black,
        )) by {
            assert(black_kings.on(i) == (p.board[i] == model::man(PieceType::King, Color::Black)));
        }
        lemma_headcount(p.board, model::man(PieceType::King, Color::White), white_kings.0, 64);
        lemma_headcount(p.board, model::man(PieceType::King, Color::Black), black_kings.0, 64);
    }
    if white_kings.popcount() != 1 {
        return Err(FenError::MissingKing { color: "white" });
    }
    if black_kings.popcount() != 1 {
        return Err(FenError::MissingKing { color: "black" });
    }

    // 2. No pawn on the first or last rank
    match find_stray_pawn(&pos) {
        Some(sq) => {
            let color = color_on(&pos, sq);
            return Err(
                FenError::InvalidPiece { ch: PieceType::Pawn.to_char(color), rank: sq.rank(), file: sq.file() },
            );
        },
        None => {},
    }

    // 3. The side not to move is not in check
    let us = pos.stm;
    let them = us.opposite();
    proof {
        lemma_king_found(p.board, them, 64);
    }
    match attacks::king_square(&pos, them) {
        Some(k) => {
            if pos.is_attacked::<false>(k, us, Bitboard::empty()) {
                return Err(FenError::IllegalCheck);
            }
        },
        None => {},
    }

    // 4. Every castling right has its rook
    if pos.castling_rights & WHITE_OO != 0 && pos.piece_at(pos.castling_rooks[0]) != PieceType::Rook {
        return Err(rook_missing(pos.castling_rooks[0]));
    }
    if pos.castling_rights & WHITE_OOO != 0 && pos.piece_at(pos.castling_rooks[1]) != PieceType::Rook {
        return Err(rook_missing(pos.castling_rooks[1]));
    }
    if pos.castling_rights & BLACK_OO != 0 && pos.piece_at(pos.castling_rooks[2]) != PieceType::Rook {
        return Err(rook_missing(pos.castling_rooks[2]));
    }
    if pos.castling_rights & BLACK_OOO != 0 && pos.piece_at(pos.castling_rooks[3]) != PieceType::Rook {
        return Err(rook_missing(pos.castling_rooks[3]));
    }
    pos.hash = pos.calc_zobrist();
    pos.pawn_hash = pos.calc_pawn_hash();
    Ok(pos)
}

fn rook_missing(sq: Square) -> (e: FenError)
    requires
        sq.wf(),
    ensures
        e@ == (FenErrorV::InvalidCastlingRights { sq: types::square_name(sq.0 as int) }),
{
    let mut name = String::new();
    text::push_square(&mut name, sq);
    proof {
        assert(name@ =~= types::square_name(sq.0 as int));
    }
    FenError::InvalidCastlingRights { sq: name }
}

/// Parses the piece-placement field onto an empty board.
fn parse_placement(pos: &mut Position, field: &Vec<char>) -> (r: Result<(), FenError>)
    requires
        old(pos).wf(),
        old(pos)@.board == notation::empty_board(),
    ensures
        final(pos).wf(),
        match notation::read_placement(field@) {
            Ok(b) => r is Ok && final(pos)@ == (PositionV {
                board: b,
                hash: old(pos).hash ^ model::board_key(b, 64),
                ..old(pos)@
            }),
            Err(e) => r matches Err(x) && x@ == e,
        },
{
    let mut rank: u8 = 7;
    let mut file: u8 = 0;
    let mut i: usize = 0;
    let ghost start = PlaceV { board: notation::empty_board(), rank: 7, file: 0 };
    proof {
        queries::lemma_empty_keys(pos@.board, 64);
        zobrist::lemma_xor_zero(pos.hash);
    }
    while i < field.len()
        invariant
            i <= field.len(),
            rank < 8,
            file <= 8,
            pos.wf(),
            pos@ == (PositionV {
                board: pos@.board,
                hash: old(pos).hash ^ model::board_key(pos@.board, 64),
                ..old(pos)@
            }),
            start == (PlaceV { board: notation::empty_board(), rank: 7, file: 0 }),
            notation::place_from(start, field@, 0) == notation::place_from(
                PlaceV { board: pos@.board, rank: rank as int, file: file as int },
                field@,
                i as int,
            ),
            forall|s: int|
                0 <= s < 64 && (s / 8 < rank || (s / 8 == rank && s % 8 >= file)) ==> pos@.board[s] is None,
        decreases field.len() - i,
    {
        let ch = field[i];
        if ch == '/' {
            if file != 8 {
                return Err(FenError::InvalidRankWidth { rank, width: file });
            }
            if rank == 0 {
                return Err(FenError::TooManyRanks { rank: 0, count: 9 });
            }
            rank = rank - 1;
            file = 0;
        } else if '1' <= ch && ch <= '8' {
            file = file + (ch as u8 - '0' as u8);
            if file > 8 {
                return Err(FenError::FileOverflow { rank, file });
            }
        } else {
            let pt = PieceType::from_char(ch);
            if pt == PieceType::Empty {
                return Err(FenError::InvalidPiece { ch, rank, file });
            }
            if file >= 8 {
                return Err(FenError::SquareOutOfBounds { square: rank as i32 * 8 + file as i32 });
            }
            let color = if 'A' <= ch && ch <= 'Z' {
                Color::White
            } else {
                Color::Black
            };
            let sq = Square::from_coords(file, rank);
            proof {
                laws::lemma_board_key_update(pos@.board, sq.0 as int, model::man(pt, color), 64);
                let key = model::board_key(pos@.board, 64);
                zobrist::lemma_xor_zero(key);
                zobrist::lemma_xor_assoc(old(pos).hash, key, zobrist::piece_key(pt, color, sq.0 as int));
            }
            pos.add_piece(sq, pt, color);
            file = file + 1;
        }
        i = i + 1;
    }
    if rank != 0 || file != 8 {
        Err(FenError::InvalidRankWidth { rank, width: file })
    } else {
        Ok(())
    }
}

/// Parses the en passant field and records the square only if a pawn of the side to move can
/// capture there. A field that names no en passant square is an error, and changes nothing.
pub fn parse_en_passant(pos: &mut Position, token: &Vec<char>) -> (r: Result<(), FenError>)
    requires
        old(pos).wf(),
    ensures
        final(pos).wf(),
        match notation::ep_square(token@) {
            None => final(pos)@ == old(pos)@ && (r matches Err(e) && e@ == (FenErrorV::InvalidEnPassant {
                square: token@,
            })),
            Some(s) => r is Ok && final(pos)@ == (PositionV {
                en_passant: if model::ep_possible(old(pos)@.board, s, old(pos).stm) {
                    Some(Square(s as u8))
                } else {
                    old(pos).en_passant
                },
                ..old(pos)@
            }),
        },
{
    if token.len() != 2 || !('a' <= token[0] && token[0] <= 'h') || (token[1] != '3' && token[1] != '6') {
        return Err(FenError::InvalidEnPassant { square: text::string_of(token) });
    }
    let sq = Square((token[1] as u8 - '1' as u8) * 8 + (token[0] as u8 - 'a' as u8));
    if pos.can_capture_ep(sq, pos.stm) {
        pos.en_passant = Some(sq);
    }
    Ok(())
}

/// Interprets the castling field, in either notation.
fn parse_castling_rights(pos: &mut Position, token: &Vec<char>)
    requires
        old(pos).wf(),
    ensures
        final(pos).wf(),
        ({
            let rv = notation::castling_from(
                old(pos)@.board,
                RightsV { rights: old(pos).castling_rights, rooks: old(pos)@.castling_rooks },
                token@,
                0,
            );
            final(pos)@ == (PositionV { castling_rights: rv.rights, castling_rooks: rv.rooks, ..old(pos)@ })
        }),
{
    let wk_file: u8 = king_file(pos, Color::White);
    let bk_file: u8 = king_file(pos, Color::Black);
    let ghost b = pos@.board;
    let ghost rv0 = RightsV { rights: pos.castling_rights, rooks: pos@.castling_rooks };
    let ghost want = notation::castling_from(b, rv0, token@, 0);
    let mut i: usize = 0;
    while i < token.len()
        invariant
            i <= token.len(),
            pos.wf(),
            wk_file == notation::king_file_of(b, Color::White),
            bk_file == notation::king_file_of(b, Color::Black),
            b == old(pos)@.board,
            pos@ == (PositionV {
                castling_rights: pos.castling_rights,
                castling_rooks: pos@.castling_rooks,
                ..old(pos)@
            }),
            want == notation::castling_from(
                b,
                RightsV { rights: pos.castling_rights, rooks: pos@.castling_rooks },
                token@,
                i as int,
            ),
        decreases token.len() - i,
    {
        let ch = token[i];
        if ch == 'K' {
            assign_rook(pos, Color::White, WHITE_OO, 0, KINGSIDE_FILE, SEARCH_LEFT);
        } else if ch == 'Q' {
            assign_rook(pos, Color::White, WHITE_OOO, 1, QUEENSIDE_FILE, SEARCH_RIGHT);
        } else if ch == 'k' {
            assign_rook(pos, Color::Black, BLACK_OO, 2, KINGSIDE_FILE, SEARCH_LEFT);
        } else if ch == 'q' {
            assign_rook(pos, Color::Black, BLACK_OOO, 3, QUEENSIDE_FILE, SEARCH_RIGHT);
        } else if 'A' <= ch && ch <= 'H' {
            let file: u8 = ch as u8 - 'A' as u8;
            if file < wk_file {
                grant(pos, WHITE_OOO, 1, Square::from_coords(file, 0));
            } else {
                grant(pos, WHITE_OO, 0, Square::from_coords(file, 0));
            }
        } else if 'a' <= ch && ch <= 'h' {
            let file: u8 = ch as u8 - 'a' as u8;
            if file < bk_file {
                grant(pos, BLACK_OOO, 3, Square::from_coords(file, 7));
            } else {
                grant(pos, BLACK_OO, 2, Square::from_coords(file, 7));
            }
        }
        i = i + 1;
    }
}

/// Grants a castling right to the rook on `sq`.
fn grant(pos: &mut Position, bit: u8, slot: usize, sq: Square)
    requires
        old(pos).wf(),
        sq.wf(),
        slot < 4,
        bit < 16,
    ensures
        final(pos).wf(),
        ({
            let rv = notation::grant(
                RightsV { rights: old(pos).castling_rights, rooks: old(pos)@.castling_rooks },
                bit,
                slot as int,
                sq.0 as int,
            );
            final(pos)@ == (PositionV { castling_rights: rv.rights, castling_rooks: rv.rooks, ..old(pos)@ })
        }),
{
    proof {
        let (x, y) = (pos.castling_rights, bit);
        assert(x < 16 && y < 16 ==> (x | y) < 16) by (bit_vector);
    }
    pos.castling_rights = pos.castling_rights | bit;
    pos.castling_rooks[slot] = sq;
    proof {
        assert forall|k: int| 0 <= k < 4 implies (#[trigger] pos.castling_rooks[k]).wf() by {
            assert(old(pos).castling_rooks[k].wf());
        }
    }
}

/// Scans the back rank for a rook and, if found, grants it the castling right.
fn assign_rook(pos: &mut Position, color: Color, bit: u8, slot: usize, start: u8, step: i8)
    requires
        old(pos).wf(),
        slot < 4,
        bit < 16,
        start < 8,
        step == 1 || step == -1,
    ensures
        final(pos).wf(),
        ({
            let rv = notation::grant_found(
                RightsV { rights: old(pos).castling_rights, rooks: old(pos)@.castling_rooks },
                bit,
                slot as int,
                notation::rook_from(old(pos)@.board, color, start as int, step as int),
            );
            final(pos)@ == (PositionV { castling_rights: rv.rights, castling_rooks: rv.rooks, ..old(pos)@ })
        }),
{
    match find_rook(pos, color, start, step) {
        Some(sq) => {
            grant(pos, bit, slot, sq);
        },
        None => {},
    }
}

/// The file of `color`'s king, or the e-file if it has none.
fn king_file(pos: &Position, color: Color) -> (f: u8)
    ensures
        f == notation::king_file_of(pos@.board, color),
{
    match attacks::king_square(pos, color) {
        Some(k) => k.file(),
        None => DEFAULT_KING_FILE,
    }
}

/// Scans `color`'s back rank from `start_file` in steps of `step`, and returns the first rook on that side of
/// the king: from the board's edge, the outermost one.
fn find_rook(pos: &Position, color: Color, start_file: u8, step: i8) -> (r: Option<Square>)
    requires
        start_file < 8,
        step == 1 || step == -1,
    ensures
        match notation::rook_from(pos@.board, color, start_file as int, step as int) {
            Some(s) => r matches Some(sq) && sq.wf() && sq.0 == s,
            None => r is None,
        },
{
    let rank: u8 = color.back_rank();
    let king: i8 = king_file(pos, color) as i8;
    let mut file: i8 = start_file as i8;
    let ghost want = notation::rook_from(pos@.board, color, start_file as int, step as int);
    while 0 <= file && file < 8 && ((step < 0 && file >= king) || (step > 0 && file < king))
        invariant
            -1 <= file <= 8,
            king == notation::king_file_of(pos@.board, color),
            step == 1 || step == -1,
            rank == color.home_rank(),
            rank < 8,
            want == notation::rook_from(pos@.board, color, start_file as int, step as int),
            want == notation::rook_from(pos@.board, color, file as int, step as int),
        decreases
                if step > 0 {
                    8 - file
                } else {
                    file + 1
                },
    {
        let sq = Square(rank * 8 + file as u8);
        match pos.man_at(sq) {
            Some(p) => {
                if p.pt == PieceType::Rook && p.color == color {
                    return Some(sq);
                }
            },
            None => {},
        }
        file = file + step;
    }
    None
}

/// Which side occupies `sq`? Only meaningful when the square holds a piece.
fn color_on(pos: &Position, sq: Square) -> (c: Color)
    requires
        pos.wf(),
        sq.wf(),
    ensures
        pos@.board[sq.0 as int] matches Some(p) ==> c == p.color,
{
    proof {
        assert(pos.square_ok(sq.0 as int));
    }
    if pos.side_bb[0].check_bit(sq) {
        Color::White
    } else {
        Color::Black
    }
}

/// Every active castling rook sits in its usual corner.
fn has_standard_rook_homes(pos: &Position) -> (r: bool)
    ensures
        r == notation::corner_rooks(pos@),
{
    (pos.castling_rights & WHITE_OO == 0 || pos.castling_rooks[0] == Square(7)) && (pos.castling_rights & WHITE_OOO
        == 0 || pos.castling_rooks[1] == Square(0)) && (pos.castling_rights & BLACK_OO == 0
        || pos.castling_rooks[2] == Square(63)) && (pos.castling_rights & BLACK_OOO == 0 || pos.castling_rooks[3]
        == Square(56))
}

fn push_skip(out: &mut String, empty: u8)
    requires
        empty <= 8,
    ensures
        final(out)@ == old(out)@ + notation::skip_text(empty as int),
{
    if empty > 0 {
        out.push(('0' as u8 + empty) as char);
    }
    proof {
        assert(out@ =~= old(out)@ + notation::skip_text(empty as int));
    }
}

fn push_rank(out: &mut String, pos: &Position, rank: u8)
    requires
        pos.wf(),
        rank < 8,
    ensures
        final(out)@ == old(out)@ + notation::rank_text(pos@.board, rank as int, 0, 0),
{
    let ghost b = pos@.board;
    let ghost whole = old(out)@ + notation::rank_text(b, rank as int, 0, 0);
    let mut empty: u8 = 0;
    let mut file: u8 = 0;
    while file < 8
        invariant
            file <= 8,
            rank < 8,
            empty <= file,
            pos.wf(),
            b == pos@.board,
            whole == out@ + notation::rank_text(b, rank as int, file as int, empty as int),
        decreases 8 - file,
    {
        let sq = Square::from_coords(file, rank);
        let pt = pos.piece_at(sq);
        if pt == PieceType::Empty {
            empty = empty + 1;
        } else {
            let ghost before = out@;
            let ghost e = empty as int;
            push_skip(out, empty);
            empty = 0;
            let c = pt.to_char(color_on(pos, sq));
            out.push(c);
            proof {
                assert(out@ =~= before + notation::skip_text(e).push(c));
                assert(before + (notation::skip_text(e).push(c) + notation::rank_text(b, rank as int, file + 1, 0))
                    =~= out@ + notation::rank_text(b, rank as int, file + 1, 0));
            }
        }
        file = file + 1;
    }
    push_skip(out, empty);
}

fn push_placement(out: &mut String, pos: &Position)
    requires
        pos.wf(),
    ensures
        final(out)@ == old(out)@ + notation::board_text(pos@.board),
{
    let ghost b = pos@.board;
    let ghost whole = old(out)@ + notation::board_text(b);
    let mut rank: u8 = 7;
    while rank > 0
        invariant
            rank <= 7,
            pos.wf(),
            b == pos@.board,
            whole == out@ + notation::ranks_text(b, rank as int),
        decreases rank,
    {
        let ghost before = out@;
        push_rank(out, pos, rank);
        out.push('/');
        proof {
            let line = notation::rank_text(b, rank as int, 0, 0).push('/');
            assert(out@ =~= before + line);
            assert(before + (line + notation::ranks_text(b, rank - 1)) =~= out@ + notation::ranks_text(b, rank - 1));
        }
        rank = rank - 1;
    }
    push_rank(out, pos, 0);
}

fn push_right(out: &mut String, pos: &Position, shredder: bool, bit: u8, slot: usize, plain: char, base: char)
    requires
        pos.wf(),
        slot < 4,
        shredder == notation::by_file(pos@),
        base == 'A' || base == 'a',
    ensures
        final(out)@ == old(out)@ + notation::right_text(pos@, bit, slot as int, plain, base),
{
    if pos.castling_rights & bit != 0 {
        if shredder {
            out.push((base as u8 + pos.castling_rooks[slot].file()) as char);
        } else {
            out.push(plain);
        }
    }
    proof {
        assert(out@ =~= old(out)@ + notation::right_text(pos@, bit, slot as int, plain, base));
    }
}

fn push_castling(out: &mut String, pos: &Position)
    requires
        pos.wf(),
    ensures
        final(out)@ == old(out)@ + notation::castling_text(pos@),
{
    if pos.castling_rights == 0 {
        out.push('-');
    } else {
        let shredder = pos.is_frc && !has_standard_rook_homes(pos);
        push_right(out, pos, shredder, WHITE_OO, 0, 'K', 'A');
        push_right(out, pos, shredder, WHITE_OOO, 1, 'Q', 'A');
        push_right(out, pos, shredder, BLACK_OO, 2, 'k', 'a');
        push_right(out, pos, shredder, BLACK_OOO, 3, 'q', 'a');
    }
    proof {
        assert(out@ =~= old(out)@ + notation::castling_text(pos@));
    }
}

/// A position to be written in FEN.
pub struct Fen<'a>(pub &'a Position);

impl<'a> Fen<'a> {
    /// The FEN string.
    ///
    /// In FRC mode the castling field names rook files when the rooks do not sit in their usual
    /// corners: `KQkq` would be ambiguous there.
    pub fn to_text(&self) -> (s: String)
        requires
            self.0.wf(),
        ensures
            s@ == notation::fen_text(self.0@),
    {
        let pos = self.0;
        let mut out = String::new();
        push_placement(&mut out, pos);
        out.push(' ');
        if pos.stm == Color::White {
            out.push('w');
        } else {
            out.push('b');
        }
        out.push(' ');
        push_castling(&mut out, pos);
        out.push(' ');
        match pos.en_passant {
            Some(sq) => text::push_square(&mut out, sq),
            None => out.push('-'),
        }
        out.push(' ');
        text::push_number(&mut out, pos.halfmove_clock as u32);
        out.push(' ');
        text::push_number(&mut out, pos.fullmove_number as u32);
        proof {
            assert(out@ =~= notation::fen_text(pos@));
        }
        out
    }
}

/// The FEN string of the position.
pub fn as_fen(pos: &Position) -> (s: String)
    requires
        pos.wf(),
    ensures
        s@ == notation::fen_text(pos@),
{
    Fen(pos).to_text()
}

impl Position {
    /// Parse a FEN string that is known to be valid.
    pub fn from_fen(fen: &str) -> (pos: Position)
        requires
            notation::read_fen(fen@) is Ok,
        ensures
            pos.wf(),
            notation::read_fen(fen@) == Ok::<PositionV, FenErrorV>(pos@),
    {
        match Self::try_from_fen(fen) {
            Ok(pos) => pos,
            Err(_) => Position::new(),
        }
    }

    /// Parse a FEN string. Returns an error for malformed input.
    pub fn try_from_fen(fen: &str) -> (r: Result<Position, FenError>)
        ensures
            agrees(r, notation::read_fen(fen@)),
    {
        let mut tokens = Tokens::split(fen);
        Self::try_from_tokens(&mut tokens)
    }

    /// Parse from words that are already split.
    pub fn try_from_tokens(tokens: &mut Tokens) -> (r: Result<Position, FenError>)
        requires
            old(tokens).wf(),
        ensures
            final(tokens).wf(),
            final(tokens).list() == old(tokens).list(),
            final(tokens).taken() == old(tokens).taken() + notation::fields_read(
                old(tokens).list(),
                old(tokens).taken(),
            ),
            agrees(r, notation::read_fields(old(tokens).list(), old(tokens).taken())),
    {
        try_from_tokens(tokens)
    }

    /// Serialize the position to a FEN string.
    pub fn as_fen(&self) -> (s: String)
        requires
            self.wf(),
        ensures
            s@ == notation::fen_text(self@),
    {
        as_fen(self)
    }
}

} // verus!
