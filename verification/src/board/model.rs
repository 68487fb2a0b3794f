//! What a position is, mathematically: who stands where, and what the rules say about it.

use vstd::prelude::*;
use crate::bits;
use crate::moves;
use crate::moves::Move;
use crate::psqt;
use crate::types;
use crate::types::{Color, PieceType, Square};
use crate::zobrist;

verus! {

/// A piece on the board.
#[derive(Clone, Copy, PartialEq, Eq, Debug, Structural)]
pub struct Piece {
    pub pt: PieceType,
    pub color: Color,
}

/// The piece on each of the 64 squares.
pub type Board = Seq<Option<Piece>>;

/// The abstract value of a position.
pub struct PositionV {
    pub board: Board,
    pub stm: Color,
    pub castling_rights: u8,
    pub castling_rooks: Seq<Square>,
    pub en_passant: Option<Square>,
    pub halfmove_clock: u8,
    pub fullmove_number: u16,
    pub is_frc: bool,
    pub hash: u64,
    pub pawn_hash: u64,
}

pub open spec fn man(pt: PieceType, color: Color) -> Option<Piece> {
    Some(Piece { pt, color })
}

/// The type of the piece on `s`, `Empty` for an empty square.
pub open spec fn type_at(b: Board, s: int) -> PieceType {
    match b[s] {
        Some(p) => p.pt,
        None => PieceType::Empty,
    }
}

/// A board has 64 squares, and a square that holds a piece holds a real one.
pub open spec fn board_ok(b: Board) -> bool {
    b.len() == 64 && forall|i: int| 0 <= i < 64 ==> #[trigger] b[i] != man(PieceType::Empty, Color::White) && b[i]
        != man(PieceType::Empty, Color::Black)
}

// ──────── Lines and attacks ────────

pub open spec fn gap(a: int, b: int) -> int {
    if a <= b {
        b - a
    } else {
        a - b
    }
}

pub open spec fn toward(a: int, b: int) -> int {
    if a < b {
        1
    } else if a > b {
        -1
    } else {
        0
    }
}

/// How many files lie between two squares.
pub open spec fn file_gap(a: int, b: int) -> int {
    gap(types::file_of(a), types::file_of(b))
}

/// How many ranks lie between two squares.
pub open spec fn rank_gap(a: int, b: int) -> int {
    gap(types::rank_of(a), types::rank_of(b))
}

/// Number of king steps from one square to another.
pub open spec fn king_steps(a: int, b: int) -> int {
    if file_gap(a, b) >= rank_gap(a, b) {
        file_gap(a, b)
    } else {
        rank_gap(a, b)
    }
}

pub open spec fn on_line(a: int, b: int) -> bool {
    a != b && (file_gap(a, b) == 0 || rank_gap(a, b) == 0)
}

pub open spec fn on_diagonal(a: int, b: int) -> bool {
    a != b && file_gap(a, b) == rank_gap(a, b)
}

/// Square `i` is occupied, unless it belongs to the squares `off` that count as empty.
pub open spec fn blocks(b: Board, off: u64, i: int) -> bool {
    b[i] is Some && !bits::member(off, i)
}

/// The `n` squares that start at file `f` and rank `r` and go on in direction (`df`, `dr`)
/// are all free.
pub open spec fn free_run(b: Board, off: u64, f: int, r: int, df: int, dr: int, n: nat) -> bool
    decreases n,
{
    n == 0 || (!blocks(b, off, r * 8 + f) && free_run(b, off, f + df, r + dr, df, dr, (n - 1) as nat))
}

/// Nothing stands between two squares on a common line or diagonal.
pub open spec fn open_path(b: Board, off: u64, from: int, to: int) -> bool {
    let df = toward(types::file_of(from), types::file_of(to));
    let dr = toward(types::rank_of(from), types::rank_of(to));
    free_run(
        b,
        off,
        types::file_of(from) + df,
        types::rank_of(from) + dr,
        df,
        dr,
        (king_steps(from, to) - 1) as nat,
    )
}

/// A piece on `from` attacks `to`.
pub open spec fn reaches(b: Board, off: u64, p: Piece, from: int, to: int) -> bool {
    match p.pt {
        PieceType::Pawn => file_gap(from, to) == 1 && types::rank_of(to) - types::rank_of(from) == match p.color {
            Color::White => 1int,
            Color::Black => -1int,
        },
        PieceType::Knight => (file_gap(from, to) == 1 && rank_gap(from, to) == 2) || (file_gap(from, to) == 2
            && rank_gap(from, to) == 1),
        PieceType::Bishop => on_diagonal(from, to) && open_path(b, off, from, to),
        PieceType::Rook => on_line(from, to) && open_path(b, off, from, to),
        PieceType::Queen => (on_line(from, to) || on_diagonal(from, to)) && open_path(b, off, from, to),
        PieceType::King => king_steps(from, to) == 1,
        PieceType::Empty => false,
    }
}

/// The piece on `s` belongs to `by` and attacks `sq`.
pub open spec fn attacks_from(b: Board, off: u64, s: int, sq: int, by: Color) -> bool {
    0 <= s < 64 && (b[s] matches Some(p) && p.color == by && reaches(b, off, p, s, sq))
}

/// Some piece of `by` attacks `sq`, with the squares of `off` counted as empty.
pub open spec fn attacked(b: Board, off: u64, sq: int, by: Color) -> bool {
    exists|s: int| #[trigger] attacks_from(b, off, s, sq, by)
}

/// The first square at or after `i` with a king of color `c`; 64 when there is none.
pub open spec fn find_king(b: Board, c: Color, i: int) -> int
    decreases 64 - i,
{
    if i >= 64 {
        64
    } else if b[i] == man(PieceType::King, c) {
        i
    } else {
        find_king(b, c, i + 1)
    }
}

/// The king's square of color `c`; 64 when it has no king.
pub open spec fn king_at(b: Board, c: Color) -> int {
    find_king(b, c, 0)
}

/// The king of color `c` stands and is attacked.
pub open spec fn in_check(b: Board, c: Color) -> bool {
    king_at(b, c) < 64 && attacked(b, 0, king_at(b, c), c.other())
}

/// The piece of color `c` on `s` shields its king: an enemy piece attacks the king only once
/// `s` is counted as empty.
pub open spec fn pinned(b: Board, c: Color, s: int) -> bool {
    &&& b[s] matches Some(p) && p.color == c
    &&& king_at(b, c) < 64
    &&& s != king_at(b, c)
    &&& exists|e: int|
        #![trigger attacks_from(b, 0, e, king_at(b, c), c.other())]
        attacks_from(b, 1u64 << (s as u64), e, king_at(b, c), c.other()) && !attacks_from(
            b,
            0,
            e,
            king_at(b, c),
            c.other(),
        )
}

/// The board once the pawn on `s` has captured en passant on `ep`.
pub open spec fn ep_board(b: Board, s: int, ep: int, c: Color) -> Board {
    b.update(types::rank_mate(ep), None).update(s, None).update(ep, man(PieceType::Pawn, c))
}

/// The pawn of `c` on `s` may capture en passant on `ep` without leaving its king in check.
pub open spec fn ep_from(b: Board, s: int, ep: int, c: Color) -> bool {
    &&& 0 <= s < 64
    &&& b[s] == man(PieceType::Pawn, c)
    &&& reaches(b, 0, Piece { pt: PieceType::Pawn, color: c }, s, ep)
    &&& !in_check(ep_board(b, s, ep, c), c)
}

/// Some pawn of `c` can legally capture en passant on `ep`.
pub open spec fn ep_possible(b: Board, ep: int, c: Color) -> bool {
    &&& b[ep] is None
    &&& b[types::rank_mate(ep)] == man(PieceType::Pawn, c.other())
    &&& exists|s: int| #[trigger] ep_from(b, s, ep, c)
}

// ──────── Hashes and sums ────────

pub open spec fn square_key(o: Option<Piece>, i: int) -> u64 {
    match o {
        Some(p) => zobrist::piece_key(p.pt, p.color, i),
        None => 0,
    }
}

/// Xor of the keys of the pieces on the squares below `n`.
pub open spec fn board_key(b: Board, n: nat) -> u64
    decreases n,
{
    if n == 0 {
        0
    } else {
        board_key(b, (n - 1) as nat) ^ square_key(b[n - 1], n - 1)
    }
}

/// The board with everything but the pawns taken off.
pub open spec fn pawns_only(b: Board) -> Board {
    b.map_values(
        |o: Option<Piece>|
            match o {
                Some(p) => if p.pt == PieceType::Pawn {
                    o
                } else {
                    None
                },
                None => None,
            },
    )
}

pub open spec fn side_term(stm: Color) -> u64 {
    match stm {
        Color::White => 0,
        Color::Black => zobrist::side_key(),
    }
}

pub open spec fn ep_term(ep: Option<Square>) -> u64 {
    match ep {
        Some(sq) => zobrist::ep_key(sq.0 as int),
        None => 0,
    }
}

/// The Zobrist hash of a position, from its parts.
pub open spec fn zobrist_of(p: PositionV) -> u64 {
    board_key(p.board, 64) ^ side_term(p.stm) ^ zobrist::castling_key(p.castling_rights) ^ ep_term(p.en_passant)
}

/// The Zobrist hash of the pawns alone.
pub open spec fn pawn_zobrist_of(b: Board) -> u64 {
    board_key(pawns_only(b), 64)
}

/// Both hashes say what the position is.
pub open spec fn hashes_ok(p: PositionV) -> bool {
    p.hash == zobrist_of(p) && p.pawn_hash == pawn_zobrist_of(p.board)
}

pub open spec fn square_lane(o: Option<Piece>, i: int, l: int) -> int {
    match o {
        Some(p) => psqt::vec_of(p.pt, i, p.color)[l] as int,
        None => 0,
    }
}

/// Sum over the squares below `n` of lane `l` of the pieces' vectors.
pub open spec fn lane_sum(b: Board, l: int, n: nat) -> int
    decreases n,
{
    if n == 0 {
        0
    } else {
        lane_sum(b, l, (n - 1) as nat) + square_lane(b[n - 1], n - 1, l)
    }
}

/// The accumulator of a board: every piece's vector, summed lane by lane.
#[verifier::opaque]
pub open spec fn acc_of(b: Board) -> Seq<i16> {
    Seq::new(8, |l: int| psqt::wrap(lane_sum(b, l, 64)) as i16)
}

// ──────── Playing a move ────────

/// The type of the piece that `mv` takes on its destination square.
pub open spec fn taken(b: Board, mv: Move) -> PieceType {
    if mv.castles() {
        PieceType::Empty
    } else {
        type_at(b, mv.dst())
    }
}

/// The type of the piece that `mv` puts down.
pub open spec fn put_down(b: Board, mv: Move) -> PieceType {
    match mv.promoted() {
        Some(pt) => pt,
        None => type_at(b, mv.src()),
    }
}

/// `mv` takes a pawn en passant.
pub open spec fn takes_ep(b: Board, mv: Move) -> bool {
    taken(b, mv) == PieceType::Empty && mv.kind() == 5
}

/// `mv` can be carried out on the board: the side to move owns the piece on the origin square,
/// the destination holds nothing of its own, and whatever the kind of the move speaks of is there.
pub open spec fn playable(b: Board, stm: Color, mv: Move) -> bool {
    let (s, d) = (mv.src(), mv.dst());
    &&& s != d
    &&& b[s] matches Some(p) && p.color == stm
    &&& mv.castles() ==> {
        let (k, r) = moves::castle_landing(s, d);
        &&& b[s] == man(PieceType::King, stm)
        &&& b[d] == man(PieceType::Rook, stm)
        &&& b[k] is None || k == s || k == d
        &&& b[r] is None || r == s || r == d
    }
    &&& !mv.castles() ==> (b[d] matches Some(p) ==> p.color == stm.other())
    &&& takes_ep(b, mv) && !mv.castles() ==> b[types::rank_mate(d)] == man(PieceType::Pawn, stm.other())
}

/// The board after castling.
pub open spec fn castled(b: Board, stm: Color, s: int, d: int) -> Board {
    let (k, r) = moves::castle_landing(s, d);
    b.update(s, None).update(d, None).update(k, man(PieceType::King, stm)).update(r, man(PieceType::Rook, stm))
}

/// The board once the victim of `mv` is off it.
pub open spec fn victim_off(b: Board, mv: Move) -> Board {
    if taken(b, mv) != PieceType::Empty {
        b.update(mv.dst(), None)
    } else if mv.kind() == 5 {
        b.update(types::rank_mate(mv.dst()), None)
    } else {
        b
    }
}

/// The board after `mv`.
pub open spec fn board_after(b: Board, stm: Color, mv: Move) -> Board {
    if mv.castles() {
        castled(b, stm, mv.src(), mv.dst())
    } else {
        victim_off(b, mv).update(mv.src(), None).update(mv.dst(), man(put_down(b, mv), stm))
    }
}

/// Castling rights after a piece of type `pt` went from `s` to `d`: a king's move takes both rights
/// of its side, and each right goes with the square of its rook.
pub open spec fn rights_after(p: PositionV, mv: Move) -> u8 {
    let (s, d) = (mv.src(), mv.dst());
    let king = type_at(p.board, s) == PieceType::King;
    let hit = |slot: int| p.castling_rooks[slot].0 == s || p.castling_rooks[slot].0 == d;
    let r0 = p.castling_rights;
    let r1 = if king {
        r0 & (if p.stm == Color::White {
            !3u8
        } else {
            !12u8
        })
    } else {
        r0
    };
    let r2 = if hit(0) {
        r1 & !1u8
    } else {
        r1
    };
    let r3 = if hit(1) {
        r2 & !2u8
    } else {
        r2
    };
    let r4 = if hit(2) {
        r3 & !4u8
    } else {
        r3
    };
    let r5 = if hit(3) {
        r4 & !8u8
    } else {
        r4
    };
    if r0 == 0 {
        0
    } else {
        r5
    }
}

/// The en passant square after `mv`: the square a double push jumped over, if the side now to move
/// can capture there.
pub open spec fn ep_after(p: PositionV, mv: Move) -> Option<Square> {
    let sq = (mv.src() + mv.dst()) / 2;
    if mv.kind() == 1 && ep_possible(board_after(p.board, p.stm, mv), sq, p.stm.other()) {
        Some(Square(sq as u8))
    } else {
        None
    }
}

/// Key of the piece that leaves the board with `mv`.
pub open spec fn victim_key(p: PositionV, mv: Move) -> u64 {
    if taken(p.board, mv) != PieceType::Empty {
        zobrist::piece_key(taken(p.board, mv), p.stm.other(), mv.dst())
    } else if mv.kind() == 5 {
        zobrist::piece_key(PieceType::Pawn, p.stm.other(), types::rank_mate(mv.dst()))
    } else {
        0
    }
}

/// Keys of the pieces that `mv` lifts and puts down.
pub open spec fn travel_key(p: PositionV, mv: Move) -> u64 {
    let (s, d) = (mv.src(), mv.dst());
    if mv.castles() {
        let (k, r) = moves::castle_landing(s, d);
        zobrist::piece_key(PieceType::King, p.stm, s) ^ zobrist::piece_key(PieceType::Rook, p.stm, d)
            ^ zobrist::piece_key(PieceType::King, p.stm, k) ^ zobrist::piece_key(PieceType::Rook, p.stm, r)
    } else {
        zobrist::piece_key(type_at(p.board, s), p.stm, s) ^ zobrist::piece_key(put_down(p.board, mv), p.stm, d)
    }
}

/// The hash after `mv`, from the hash before it and the keys of what changed.
pub open spec fn hash_after(p: PositionV, mv: Move) -> u64 {
    p.hash ^ victim_key(p, mv) ^ travel_key(p, mv) ^ zobrist::side_key() ^ (zobrist::castling_key(p.castling_rights)
        ^ zobrist::castling_key(rights_after(p, mv))) ^ ep_term(p.en_passant) ^ ep_term(ep_after(p, mv))
}

/// The pawn hash after `mv`, from the pawn hash before it and the keys of the pawns that changed.
pub open spec fn pawn_hash_after(p: PositionV, mv: Move) -> u64 {
    let (s, d) = (mv.src(), mv.dst());
    let gone = if taken(p.board, mv) == PieceType::Pawn || takes_ep(p.board, mv) {
        victim_key(p, mv)
    } else {
        0
    };
    let left = if !mv.castles() && type_at(p.board, s) == PieceType::Pawn {
        zobrist::piece_key(PieceType::Pawn, p.stm, s)
    } else {
        0
    };
    let come = if !mv.castles() && type_at(p.board, s) == PieceType::Pawn && put_down(p.board, mv)
        == PieceType::Pawn {
        zobrist::piece_key(PieceType::Pawn, p.stm, d)
    } else {
        0
    };
    p.pawn_hash ^ gone ^ left ^ come
}

/// The fifty-move counter after `mv`: back to zero on a pawn move or capture, else one more,
/// up to the counter's limit.
pub open spec fn clock_after(p: PositionV, mv: Move) -> u8 {
    if type_at(p.board, mv.src()) == PieceType::Pawn || taken(p.board, mv) != PieceType::Empty {
        0
    } else if p.halfmove_clock == 255 {
        255
    } else {
        (p.halfmove_clock + 1) as u8
    }
}

/// The position after `mv`.
pub open spec fn made(p: PositionV, mv: Move) -> PositionV {
    PositionV {
        board: board_after(p.board, p.stm, mv),
        stm: p.stm.other(),
        castling_rights: rights_after(p, mv),
        castling_rooks: p.castling_rooks,
        en_passant: ep_after(p, mv),
        halfmove_clock: clock_after(p, mv),
        fullmove_number: if p.stm == Color::Black {
            (p.fullmove_number + 1) as u16
        } else {
            p.fullmove_number
        },
        is_frc: p.is_frc,
        hash: hash_after(p, mv),
        pawn_hash: pawn_hash_after(p, mv),
    }
}

/// The vector sum after `mv`.
pub open spec fn acc_after(acc: Seq<i16>, b: Board, stm: Color, mv: Move) -> Seq<i16> {
    acc_step(acc, stm, mv, type_at(b, mv.src()), taken(b, mv), put_down(b, mv))
}

/// The vector sum after `mv` moved a `pt`, took a `captured` and put down a `placed`.
pub open spec fn acc_step(
    acc: Seq<i16>,
    stm: Color,
    mv: Move,
    pt: PieceType,
    captured: PieceType,
    placed: PieceType,
) -> Seq<i16> {
    let (s, d) = (mv.src(), mv.dst());
    if mv.castles() {
        let (k, r) = moves::castle_landing(s, d);
        let a1 = psqt::minus(acc, psqt::vec_of(PieceType::King, s, stm));
        let a2 = psqt::plus(a1, psqt::vec_of(PieceType::King, k, stm));
        let a3 = psqt::minus(a2, psqt::vec_of(PieceType::Rook, d, stm));
        psqt::plus(a3, psqt::vec_of(PieceType::Rook, r, stm))
    } else {
        let a1 = psqt::minus(acc, psqt::vec_of(pt, s, stm));
        let a2 = psqt::plus(a1, psqt::vec_of(placed, d, stm));
        if captured != PieceType::Empty {
            psqt::minus(a2, psqt::vec_of(captured, d, stm.other()))
        } else if mv.kind() == 5 {
            psqt::minus(a2, psqt::vec_of(PieceType::Pawn, types::rank_mate(d), stm.other()))
        } else {
            a2
        }
    }
}

// ──────── Taking a move back ────────

/// What a move destroys and its undoing needs.
pub struct InfoV {
    pub hash: u64,
    pub pawn_hash: u64,
    pub en_passant: Option<Square>,
    pub castling_rights: u8,
    pub captured: PieceType,
    pub halfmove_clock: u8,
}

/// The snapshot that belongs to playing `mv` in `p`.
pub open spec fn snapshot(p: PositionV, captured: PieceType) -> InfoV {
    InfoV {
        hash: p.hash,
        pawn_hash: p.pawn_hash,
        en_passant: p.en_passant,
        castling_rights: p.castling_rights,
        captured,
        halfmove_clock: p.halfmove_clock,
    }
}

/// `mv`, which took a `captured`, can be taken back from the board: its piece stands where it landed and
/// the squares it came from are free.
pub open spec fn takeback_ok(b: Board, mover: Color, mv: Move, captured: PieceType) -> bool {
    let (s, d) = (mv.src(), mv.dst());
    &&& s != d
    &&& mv.castles() ==> {
        let (k, r) = moves::castle_landing(s, d);
        &&& b[k] == man(PieceType::King, mover)
        &&& b[r] == man(PieceType::Rook, mover)
        &&& b[s] is None || s == k || s == r
        &&& b[d] is None || d == k || d == r
    }
    &&& !mv.castles() ==> {
        &&& b[d] matches Some(p) && p.color == mover
        &&& b[s] is None
        &&& captured == PieceType::Empty && mv.kind() == 5 ==> b[types::rank_mate(d)] is None
            && types::rank_mate(d) != s
    }
}

/// The board before `mv`, which took a `captured`.
pub open spec fn board_before(b: Board, mover: Color, mv: Move, captured: PieceType) -> Board {
    let (s, d) = (mv.src(), mv.dst());
    if mv.castles() {
        let (k, r) = moves::castle_landing(s, d);
        b.update(k, None).update(r, None).update(s, man(PieceType::King, mover)).update(
            d,
            man(PieceType::Rook, mover),
        )
    } else {
        let lifted = if mv.promoted() is Some {
            PieceType::Pawn
        } else {
            type_at(b, d)
        };
        let b1 = b.update(d, None).update(s, man(lifted, mover));
        if captured != PieceType::Empty {
            b1.update(d, man(captured, mover.other()))
        } else if mv.kind() == 5 {
            b1.update(types::rank_mate(d), man(PieceType::Pawn, mover.other()))
        } else {
            b1
        }
    }
}

/// The position before `mv`.
pub open spec fn unmade(p: PositionV, mv: Move, info: InfoV) -> PositionV {
    let mover = p.stm.other();
    PositionV {
        board: board_before(p.board, mover, mv, info.captured),
        stm: mover,
        castling_rights: info.castling_rights,
        castling_rooks: p.castling_rooks,
        en_passant: info.en_passant,
        halfmove_clock: info.halfmove_clock,
        fullmove_number: if mover == Color::Black {
            (p.fullmove_number - 1) as u16
        } else {
            p.fullmove_number
        },
        is_frc: p.is_frc,
        hash: info.hash,
        pawn_hash: info.pawn_hash,
    }
}

/// The position after passing the turn.
pub open spec fn passed(p: PositionV) -> PositionV {
    PositionV {
        stm: p.stm.other(),
        en_passant: None,
        halfmove_clock: (p.halfmove_clock + 1) as u8,
        hash: p.hash ^ ep_term(p.en_passant) ^ zobrist::side_key(),
        ..p
    }
}

} // verus!
