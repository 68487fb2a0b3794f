//! The rules of play, said over squares: what a move does to the board, the clocks, the castling rights and
//! the en passant square, how pieces attack, and when a game is drawn.

use vstd::prelude::*;
use crate::board::model;
use crate::board::model::{Board, Piece, PositionV};
use crate::board::queries;
use crate::moves::Move;
use crate::types;
use crate::types::{Color, PieceType};

verus! {

// ──────── Clocks and turns ────────

/// The fifty-move counter: a move by a pawn and a move onto an enemy piece set it to 0, and every other move
/// counts one more, up to 255.
pub proof fn law_halfmove_clock(p: PositionV, mv: Move)
    requires
        model::board_ok(p.board),
        model::playable(p.board, p.stm, mv),
    ensures
        ({
            let pawn = p.board[mv.src()] == Some(Piece { pt: PieceType::Pawn, color: p.stm });
            let capture = p.board[mv.dst()] matches Some(x) && x.color != p.stm;
            let after = model::made(p, mv).halfmove_clock;
            &&& pawn || capture ==> after == 0
            &&& !pawn && !capture && p.halfmove_clock < 255 ==> after == p.halfmove_clock + 1
            &&& !pawn && !capture && p.halfmove_clock == 255 ==> after == 255
        }),
{
    assert(p.board[mv.dst()] != model::man(PieceType::Empty, Color::White));
    assert(p.board[mv.dst()] != model::man(PieceType::Empty, Color::Black));
}

/// The turn goes to the other side, the full-move number grows after Black's moves only, and neither the
/// castling rooks nor the variant ever change.
pub proof fn law_turns(p: PositionV, mv: Move)
    requires
        p.stm == Color::Black ==> p.fullmove_number < u16::MAX,
    ensures
        ({
            let q = model::made(p, mv);
            &&& q.stm != p.stm
            &&& p.stm == Color::White ==> q.fullmove_number == p.fullmove_number
            &&& p.stm == Color::Black ==> q.fullmove_number == p.fullmove_number + 1
            &&& q.castling_rooks == p.castling_rooks
            &&& q.is_frc == p.is_frc
        }),
{
}

/// The fifty-move rule. A position is a draw by it once a hundred half-moves in a row were neither a capture nor a pawn
/// move: a pawn move or a capture puts the draw off, and any other move brings it nearer by one.
pub proof fn law_fifty_moves(p: PositionV, mv: Move)
    requires
        model::board_ok(p.board),
        model::playable(p.board, p.stm, mv),
    ensures
        ({
            let q = model::made(p, mv);
            let moved = p.board[mv.src()];
            let resets = (moved matches Some(x) && x.pt == PieceType::Pawn) || (mv.kind() != 2 && p.board[mv.dst()]
                is Some);
            &&& resets ==> !queries::fifty_moves(q)
            &&& !resets ==> (queries::fifty_moves(q) <==> p.halfmove_clock >= 99)
            &&& queries::fifty_moves(p) <==> p.halfmove_clock >= 100
        }),
{
    law_halfmove_clock(p, mv);
}

/// Passing the turn changes nothing on the board and no right: the turn goes over, a chance to capture en passant is
/// lost, and the fifty-move counter goes on.
pub proof fn law_pass(p: PositionV)
    requires
        p.halfmove_clock < 255,
    ensures
        ({
            let q = model::passed(p);
            &&& q.board == p.board
            &&& q.stm != p.stm
            &&& q.castling_rights == p.castling_rights && q.castling_rooks == p.castling_rooks
            &&& q.en_passant is None
            &&& q.halfmove_clock == p.halfmove_clock + 1
            &&& q.fullmove_number == p.fullmove_number
            &&& q.pawn_hash == p.pawn_hash && q.is_frc == p.is_frc
        }),
{
}

// ──────── The board after a move ────────

/// A move that is no castling move takes its piece from the origin square to the destination square, where
/// it takes the place of whatever stood there; a promotion puts down the promised piece of the mover's color.
/// No other square changes, but for the one behind the destination of an en passant capture, which is
/// emptied.
pub proof fn law_piece_moves(p: PositionV, mv: Move)
    requires
        model::board_ok(p.board),
        model::playable(p.board, p.stm, mv),
        mv.kind() != 2,
    ensures
        ({
            let (s, d) = (mv.src(), mv.dst());
            let (b, a) = (p.board, model::made(p, mv).board);
            &&& a.len() == 64
            &&& a[s] is None
            &&& a[d] matches Some(x) && x.color == p.stm
            &&& mv.kind() < 8 ==> a[d] == b[s]
            &&& mv.kind() == 8 || mv.kind() == 12 ==> a[d].unwrap().pt == PieceType::Knight
            &&& mv.kind() == 9 || mv.kind() == 13 ==> a[d].unwrap().pt == PieceType::Bishop
            &&& mv.kind() == 10 || mv.kind() == 14 ==> a[d].unwrap().pt == PieceType::Rook
            &&& mv.kind() == 11 || mv.kind() == 15 ==> a[d].unwrap().pt == PieceType::Queen
            &&& forall|i: int|
                0 <= i < 64 && i != s && i != d && !(mv.kind() == 5 && b[d] is None && i % 8 == d % 8 && i / 8 == d / 8
                    + (if (d / 8) % 2 == 0 {
                    1int
                } else {
                    -1int
                })) ==> #[trigger] a[i] == b[i]
            &&& forall|i: int|
                0 <= i < 64 && i != s && i != d && mv.kind() == 5 && b[d] is None && i % 8 == d % 8 && i / 8 == d / 8 + (if (d / 8) % 2 == 0 {
                    1int
                } else {
                    -1int
                }) ==> #[trigger] a[i] is None
        }),
{
    let (s, d) = (mv.src(), mv.dst());
    let (b, a) = (p.board, model::made(p, mv).board);
    lemma_rank_mate(d);
    assert(mv.kind() < 16);
    assert(b[d] != model::man(PieceType::Empty, Color::White) && b[d] != model::man(PieceType::Empty, Color::Black));
    assert(model::taken(b, mv) == PieceType::Empty <==> b[d] is None);
    assert forall|i: int| 0 <= i < 64 && i != s && i != d implies #[trigger] a[i] == if mv.kind() == 5 && b[d] is None
        && i == types::rank_mate(d) {
        None
    } else {
        b[i]
    } by {}
}

proof fn lemma_rank_mate(d: int)
    requires
        0 <= d < 64,
    ensures
        types::rank_mate(d) == d + (if (d / 8) % 2 == 0 {
            8int
        } else {
            -8int
        }),
{
}

/// Castling takes the king to the g-file and the rook to the f-file, or, towards a rook on the king's left,
/// to the c- and d-file, on the king's rank. Nothing else moves.
pub proof fn law_castling_moves(p: PositionV, mv: Move)
    requires
        p.board.len() == 64,
        model::playable(p.board, p.stm, mv),
        mv.kind() == 2,
    ensures
        ({
            let (s, d) = (mv.src(), mv.dst());
            let (b, a) = (p.board, model::made(p, mv).board);
            let long = d % 8 < s % 8;
            let king = s / 8 * 8 + (if long {
                2int
            } else {
                6int
            });
            let rook = s / 8 * 8 + (if long {
                3int
            } else {
                5int
            });
            &&& a.len() == 64
            &&& a[king] == Some(Piece { pt: PieceType::King, color: p.stm })
            &&& a[rook] == Some(Piece { pt: PieceType::Rook, color: p.stm })
            &&& s != king && s != rook ==> a[s] is None
            &&& d != king && d != rook ==> a[d] is None
            &&& forall|i: int|
                0 <= i < 64 && i != s && i != d && i != king && i != rook ==> #[trigger] a[i] == b[i]
        }),
{
}

// ──────── Castling rights ────────

proof fn lemma_rights_bits(r: u8)
    ensures
        (r & !3u8) & 1 == 0 && (r & !3u8) & 2 == 0 && (r & !3u8) & 4 == r & 4 && (r & !3u8) & 8 == r & 8,
        (r & !12u8) & 1 == r & 1 && (r & !12u8) & 2 == r & 2 && (r & !12u8) & 4 == 0 && (r & !12u8) & 8 == 0,
        (r & !1u8) & 1 == 0 && (r & !1u8) & 2 == r & 2 && (r & !1u8) & 4 == r & 4 && (r & !1u8) & 8 == r & 8,
        (r & !2u8) & 1 == r & 1 && (r & !2u8) & 2 == 0 && (r & !2u8) & 4 == r & 4 && (r & !2u8) & 8 == r & 8,
        (r & !4u8) & 1 == r & 1 && (r & !4u8) & 2 == r & 2 && (r & !4u8) & 4 == 0 && (r & !4u8) & 8 == r & 8,
        (r & !8u8) & 1 == r & 1 && (r & !8u8) & 2 == r & 2 && (r & !8u8) & 4 == r & 4 && (r & !8u8) & 8 == 0,
        0u8 & 1 == 0 && 0u8 & 2 == 0 && 0u8 & 4 == 0 && 0u8 & 8 == 0,
{
    assert({
        &&& (r & !3u8) & 1 == 0 && (r & !3u8) & 2 == 0 && (r & !3u8) & 4 == r & 4 && (r & !3u8) & 8 == r & 8
        &&& (r & !12u8) & 1 == r & 1 && (r & !12u8) & 2 == r & 2 && (r & !12u8) & 4 == 0 && (r & !12u8) & 8 == 0
        &&& (r & !1u8) & 1 == 0 && (r & !1u8) & 2 == r & 2 && (r & !1u8) & 4 == r & 4 && (r & !1u8) & 8 == r & 8
        &&& (r & !2u8) & 1 == r & 1 && (r & !2u8) & 2 == 0 && (r & !2u8) & 4 == r & 4 && (r & !2u8) & 8 == r & 8
        &&& (r & !4u8) & 1 == r & 1 && (r & !4u8) & 2 == r & 2 && (r & !4u8) & 4 == 0 && (r & !4u8) & 8 == r & 8
        &&& (r & !8u8) & 1 == r & 1 && (r & !8u8) & 2 == r & 2 && (r & !8u8) & 4 == r & 4 && (r & !8u8) & 8 == 0
        &&& 0u8 & 1 == 0 && 0u8 & 2 == 0 && 0u8 & 4 == 0 && 0u8 & 8 == 0
    }) by (bit_vector);
}

/// A castling right lasts exactly as long as its king stays and nothing leaves or reaches the square of its
/// rook: White's short and long right, then Black's.
pub proof fn law_rights_exact(p: PositionV, mv: Move)
    ensures
        ({
            let (s, d) = (mv.src(), mv.dst());
            let after = model::made(p, mv).castling_rights;
            let touched = |k: int| p.castling_rooks[k].0 == s || p.castling_rooks[k].0 == d;
            let king = p.board[s] matches Some(x) && x.pt == PieceType::King;
            let white = king && p.stm == Color::White;
            let black = king && p.stm == Color::Black;
            &&& after & 1 != 0 <==> p.castling_rights & 1 != 0 && !white && !touched(0)
            &&& after & 2 != 0 <==> p.castling_rights & 2 != 0 && !white && !touched(1)
            &&& after & 4 != 0 <==> p.castling_rights & 4 != 0 && !black && !touched(2)
            &&& after & 8 != 0 <==> p.castling_rights & 8 != 0 && !black && !touched(3)
        }),
{
    let r0 = p.castling_rights;
    let (s, d) = (mv.src(), mv.dst());
    let king = model::type_at(p.board, s) == PieceType::King;
    let hit = |slot: int| p.castling_rooks[slot].0 == s || p.castling_rooks[slot].0 == d;
    let r1 = if king {
        r0 & (if p.stm == Color::White {
            !3u8
        } else {
            !12u8
        })
    } else {
        r0
    };
    let r2 = if hit(0) {
        r1 & !1u8
    } else {
        r1
    };
    let r3 = if hit(1) {
        r2 & !2u8
    } else {
        r2
    };
    let r4 = if hit(2) {
        r3 & !4u8
    } else {
        r3
    };
    lemma_rights_bits(r0);
    lemma_rights_bits(r1);
    lemma_rights_bits(r2);
    lemma_rights_bits(r3);
    lemma_rights_bits(r4);
}

// ──────── Draws ────────

/// Two different earlier places of the history hold the position's hash, an even number of plies ago and no
/// more than the fifty-move counter allows.
pub open spec fn twice_before(p: PositionV, h: Seq<u64>, i: int, j: int) -> bool {
    &&& 0 <= i < j <= h.len() - 3
    &&& h[i] == p.hash && h[j] == p.hash
    &&& (h.len() - 1 - i) % 2 == 0 && (h.len() - 1 - j) % 2 == 0
    &&& h.len() - 1 - i <= p.halfmove_clock
}

proof fn lemma_recurs(h: Seq<u64>, key: u64, i: int, lo: int)
    requires
        0 <= lo,
        i < h.len(),
    ensures
        queries::recurrences(h, key, i, lo) >= 1 <==> exists|a: int|
            lo <= a <= i && (i - a) % 2 == 0 && #[trigger] h[a] == key,
    decreases i - lo + 2,
{
    if i >= lo {
        lemma_recurs(h, key, i - 2, lo);
        if h[i] == key {
            assert((i - i) % 2 == 0);
        } else if exists|a: int| lo <= a <= i && (i - a) % 2 == 0 && #[trigger] h[a] == key {
            let a = choose|a: int| lo <= a <= i && (i - a) % 2 == 0 && #[trigger] h[a] == key;
            assert(a <= i - 2 && (i - 2 - a) % 2 == 0);
        }
        if exists|a: int| lo <= a <= i - 2 && (i - 2 - a) % 2 == 0 && #[trigger] h[a] == key {
            let a = choose|a: int| lo <= a <= i - 2 && (i - 2 - a) % 2 == 0 && #[trigger] h[a] == key;
            assert((i - a) % 2 == 0);
        }
    }
}

proof fn lemma_recurs_twice(h: Seq<u64>, key: u64, i: int, lo: int)
    requires
        0 <= lo,
        i < h.len(),
    ensures
        queries::recurrences(h, key, i, lo) >= 2 <==> exists|a: int, b: int|
            lo <= a < b <= i && (i - a) % 2 == 0 && (i - b) % 2 == 0 && #[trigger] h[a] == key && #[trigger] h[b]
                == key,
    decreases i - lo + 2,
{
    if i >= lo {
        lemma_recurs_twice(h, key, i - 2, lo);
        lemma_recurs(h, key, i - 2, lo);
        if queries::recurrences(h, key, i - 2, lo) >= 2 {
            let (a, b) = choose|a: int, b: int|
                lo <= a < b <= i - 2 && (i - 2 - a) % 2 == 0 && (i - 2 - b) % 2 == 0 && #[trigger] h[a] == key
                    && #[trigger] h[b] == key;
            assert((i - a) % 2 == 0 && (i - b) % 2 == 0 && h[a] == key && h[b] == key);
        } else if queries::recurrences(h, key, i - 2, lo) >= 1 && h[i] == key {
            let a = choose|a: int| lo <= a <= i - 2 && (i - 2 - a) % 2 == 0 && #[trigger] h[a] == key;
            assert((i - a) % 2 == 0 && (i - i) % 2 == 0 && h[a] == key);
        }
        if exists|a: int, b: int|
            lo <= a < b <= i && (i - a) % 2 == 0 && (i - b) % 2 == 0 && #[trigger] h[a] == key && #[trigger] h[b]
                == key {
            let (a, b) = choose|a: int, b: int|
                lo <= a < b <= i && (i - a) % 2 == 0 && (i - b) % 2 == 0 && #[trigger] h[a] == key && #[trigger] h[b]
                    == key;
            assert(a <= i - 2 && (i - 2 - a) % 2 == 0 && h[a] == key);
            if b < i {
                assert(b <= i - 2 && (i - 2 - b) % 2 == 0);
            }
        }
    }
}

/// A position stands on the board for the third time exactly when it stood there twice before with the same
/// side to move, since the last move that cannot be taken back.
pub proof fn law_threefold(p: PositionV, h: Seq<u64>)
    ensures
        queries::threefold(p, h) <==> exists|i: int, j: int| #[trigger] twice_before(p, h, i, j),
{
    let lo = queries::horizon(h.len() as int, p.halfmove_clock as int);
    let top = h.len() - 3;
    if h.len() >= 1 {
        lemma_recurs_twice(h, p.hash, top, lo);
    }
    if queries::threefold(p, h) {
        let (a, b) = choose|a: int, b: int|
            lo <= a < b <= top && (top - a) % 2 == 0 && (top - b) % 2 == 0 && #[trigger] h[a] == p.hash
                && #[trigger] h[b] == p.hash;
        assert(twice_before(p, h, a, b));
    }
    if exists|i: int, j: int| #[trigger] twice_before(p, h, i, j) {
        let (a, b) = choose|i: int, j: int| #[trigger] twice_before(p, h, i, j);
        assert(lo <= a < b <= top && (top - a) % 2 == 0 && (top - b) % 2 == 0 && h[a] == p.hash && h[b] == p.hash);
    }
}

/// A knight or a bishop stands on `i`.
pub open spec fn minor_on(b: Board, i: int) -> bool {
    b[i] matches Some(x) && (x.pt == PieceType::Knight || x.pt == PieceType::Bishop)
}

/// How many of the squares below `n` hold a knight or bishop.
spec fn minors(b: Board, n: nat) -> nat {
    queries::census(b, PieceType::Knight, n) + queries::census(b, PieceType::Bishop, n)
}

proof fn lemma_minors(b: Board, n: nat)
    requires
        n <= 64,
    ensures
        minors(b, n) >= 1 <==> exists|i: int| 0 <= i < n && #[trigger] minor_on(b, i),
        minors(b, n) >= 2 <==> exists|i: int, j: int|
            0 <= i < j < n && #[trigger] minor_on(b, i) && #[trigger] minor_on(b, j),
    decreases n,
{
    if n > 0 {
        let m = (n - 1) as nat;
        lemma_minors(b, m);
        assert(minors(b, n) == minors(b, m) + if minor_on(b, n - 1) {
            1nat
        } else {
            0nat
        });
        if minors(b, n) >= 1 && !minor_on(b, n - 1) {
            let i = choose|i: int| 0 <= i < m && #[trigger] minor_on(b, i);
            assert(minor_on(b, i));
        }
        if minors(b, n) >= 2 {
            if minor_on(b, n - 1) {
                let i = choose|i: int| 0 <= i < m && #[trigger] minor_on(b, i);
                assert(minor_on(b, i) && minor_on(b, n - 1));
            } else {
                let (i, j) = choose|i: int, j: int|
                    0 <= i < j < m && #[trigger] minor_on(b, i) && #[trigger] minor_on(b, j);
                assert(minor_on(b, i) && minor_on(b, j));
            }
        }
        if exists|i: int, j: int| 0 <= i < j < n && #[trigger] minor_on(b, i) && #[trigger] minor_on(b, j) {
            let (i, j) = choose|i: int, j: int|
                0 <= i < j < n && #[trigger] minor_on(b, i) && #[trigger] minor_on(b, j);
            assert(i < m && minor_on(b, i));
        }
    }
}

/// Nobody can mate: exactly when no pawn, rook or queen is on the board and no two squares hold a knight or
/// bishop.
pub proof fn law_dead_material(b: Board)
    ensures
        queries::dead_material(b) <==> {
            &&& forall|i: int|
                0 <= i < 64 ==> (#[trigger] b[i] matches Some(x) ==> x.pt != PieceType::Pawn && x.pt
                    != PieceType::Rook && x.pt != PieceType::Queen)
            &&& forall|i: int, j: int|
                0 <= i < j < 64 ==> !(#[trigger] minor_on(b, i) && #[trigger] minor_on(b, j))
        },
{
    lemma_minors(b, 64);
    if queries::dead_material(b) {
        assert forall|i: int| 0 <= i < 64 implies (#[trigger] b[i] matches Some(x) ==> x.pt != PieceType::Pawn && x.pt
            != PieceType::Rook && x.pt != PieceType::Queen) by {
            assert(!(model::type_at(b, i) == PieceType::Pawn || model::type_at(b, i) == PieceType::Rook
                || model::type_at(b, i) == PieceType::Queen));
        }
    }
}

} // verus!
