//! The rules of chess moves, said over files and ranks: which moves each piece has, when castling and en passant
//! are allowed, and what a legal move may not leave behind.

use vstd::prelude::*;
use crate::bits;
use crate::board::attacklaws;
use crate::board::model;
use crate::board::model::{Board, Piece, PositionV};
use crate::board::position::Position;
use crate::board::queries;
use crate::engine::movegen;
use crate::moves::Move;
use crate::types;
use crate::types::{Color, PieceType, Square};

verus! {

/// The other side.
pub open spec fn enemy(c: Color) -> Color {
    if c == Color::White {
        Color::Black
    } else {
        Color::White
    }
}

/// One rank forward.
pub open spec fn ahead(c: Color) -> int {
    if c == Color::White {
        1
    } else {
        -1
    }
}

/// The rank on which pawns of a color promote.
pub open spec fn last_rank(c: Color) -> int {
    if c == Color::White {
        7
    } else {
        0
    }
}

/// The rank on which pawns of a color start.
pub open spec fn second_rank(c: Color) -> int {
    if c == Color::White {
        1
    } else {
        6
    }
}

/// A move is made by a piece of the side to move, and goes to no piece of its own but to the rook of a castling
/// move.
pub proof fn law_own_pieces_move(p: PositionV, mv: Move)
    requires
        movegen::pseudo_legal(p, mv),
    ensures
        p.board[mv.src()] matches Some(x) && x.color == p.stm,
        (p.board[mv.dst()] matches Some(y) && y.color == p.stm) ==> mv.kind() == 2 && movegen::may_castle(
            p,
            mv.src(),
            mv.dst(),
        ),
        mv.kind() == 2 ==> movegen::may_castle(p, mv.src(), mv.dst()),
{
    let (s, d) = (mv.src(), mv.dst());
    let ms = movegen::moves_between(p, s, d);
    let i = choose|i: int| 0 <= i < ms.len() && ms[i] == mv;
    assert(ms[i] == mv);
    lemma_kinds(s, d);
}

proof fn lemma_kinds(s: int, d: int)
    requires
        0 <= s < 64,
        0 <= d < 64,
    ensures
        forall|k: int|
            #![trigger movegen::encoded(s, d, k)]
            0 <= k < 16 ==> movegen::encoded(s, d, k).kind() == k && movegen::encoded(s, d, k).src() == s
                && movegen::encoded(s, d, k).dst() == d,
{
    assert forall|k: int|
        #![trigger movegen::encoded(s, d, k)]
        0 <= k < 16 implies movegen::encoded(s, d, k).kind() == k && movegen::encoded(s, d, k).src() == s
        && movegen::encoded(s, d, k).dst() == d by {
        movegen::lemma_encoded(s, d, k);
    }
}

proof fn lemma_move_is_encoded(mv: Move)
    ensures
        0 <= mv.src() < 64,
        0 <= mv.dst() < 64,
        0 <= mv.kind() < 16,
        mv == movegen::encoded(mv.src(), mv.dst(), mv.kind()),
{
    let n = mv.0 as int;
    assert(n == n % 64 + (n / 64) % 64 * 64 + n / 4096 * 4096);
}

/// Knights, bishops, rooks, queens and kings go where they attack, unless an own piece stands there; the move is
/// marked as a capture exactly when it is one.
pub proof fn law_piece_moves_exact(p: PositionV, mv: Move)
    requires
        p.board[mv.src()] matches Some(x) && x.color == p.stm && x.pt != PieceType::Pawn,
        p.board[mv.dst()] matches Some(y) ==> y.color != p.stm,
    ensures
        movegen::pseudo_legal(p, mv) <==> model::reaches(
            p.board,
            0,
            p.board[mv.src()].unwrap(),
            mv.src(),
            mv.dst(),
        ) && mv.kind() == (if p.board[mv.dst()] is Some {
            4int
        } else {
            0int
        }),
{
    let (s, d) = (mv.src(), mv.dst());
    lemma_move_is_encoded(mv);
    lemma_kinds(s, d);
    let ms = movegen::moves_between(p, s, d);
    if movegen::pseudo_legal(p, mv) {
        let i = choose|i: int| 0 <= i < ms.len() && ms[i] == mv;
        assert(ms[i] == mv);
    }
    if model::reaches(p.board, 0, p.board[s].unwrap(), s, d) && mv.kind() == (if p.board[d] is Some {
        4int
    } else {
        0int
    }) {
        assert(ms[0] == mv);
    }
}

/// Pawns take diagonally forward, and en passant on the square recorded for that; they step forward onto an
/// empty square, or two squares from their first rank over another empty one; and on the last rank, there and
/// only there, they promote, to a knight, bishop, rook or queen.
pub proof fn law_pawn_moves_exact(p: PositionV, mv: Move)
    requires
        p.board[mv.src()] == Some(Piece { pt: PieceType::Pawn, color: p.stm }),
        p.board[mv.dst()] matches Some(y) ==> y.color != p.stm,
    ensures
        ({
            let (s, d, k) = (mv.src(), mv.dst(), mv.kind());
            let (df, dr) = (d % 8 - s % 8, d / 8 - s / 8);
            let b = p.board;
            let last = d / 8 == last_rank(p.stm);
            let slant = attacklaws::size(df) == 1 && dr == ahead(p.stm);
            let behind = if (d / 8) % 2 == 0 {
                d + 8
            } else {
                d - 8
            };
            movegen::pseudo_legal(p, mv) <==> {
                ||| slant && b[d] is Some && (if last {
                    12 <= k <= 15
                } else {
                    k == 4
                })
                ||| slant && b[d] is None && k == 5 && p.en_passant == Some(Square(d as u8)) && b[behind] == Some(
                    Piece {
                        pt: PieceType::Pawn,
                        color: if p.stm == Color::White {
                            Color::Black
                        } else {
                            Color::White
                        },
                    },
                )
                ||| df == 0 && dr == ahead(p.stm) && b[d] is None && (if last {
                    8 <= k <= 11
                } else {
                    k == 0
                })
                ||| df == 0 && dr == 2 * ahead(p.stm) && s / 8 == second_rank(p.stm) && b[d] is None && b[s + 8 * ahead(
                    p.stm,
                )] is None && k == 1
            }
        }),
{
    let (s, d) = (mv.src(), mv.dst());
    lemma_move_is_encoded(mv);
    lemma_kinds(s, d);
    let ms = movegen::moves_between(p, s, d);
    if movegen::pseudo_legal(p, mv) {
        let i = choose|i: int| 0 <= i < ms.len() && ms[i] == mv;
        assert(ms[i] == mv);
    }
    let plain = if p.board[d] is Some {
        4int
    } else {
        0int
    };
    let k = mv.kind();
    if ms.len() == 1 {
        assert(ms[0] == mv ==> movegen::pseudo_legal(p, mv));
    }
    if ms.len() == 4 {
        assert(ms[0] == mv || ms[1] == mv || ms[2] == mv || ms[3] == mv ==> movegen::pseudo_legal(p, mv));
    }
}

/// A legal move is one that follows the way its piece moves and after which the mover's king is not attacked.
pub proof fn law_legal_means_safe(p: PositionV, mv: Move)
    ensures
        movegen::legal(p, mv) <==> movegen::pseudo_legal(p, mv) && !model::in_check(
            model::made(p, mv).board,
            p.stm,
        ),
{
}

/// After a move the en passant square is recorded exactly when a pawn has just gone two squares and an enemy pawn
/// can legally take it in passing: the square that it passed over.
pub proof fn law_en_passant_recorded(p: PositionV, mv: Move)
    requires
        movegen::pseudo_legal(p, mv),
    ensures
        ({
            let (s, d) = (mv.src(), mv.dst());
            let q = model::made(p, mv);
            let jump = p.board[s] == Some(Piece { pt: PieceType::Pawn, color: p.stm }) && attacklaws::size(d - s)
                == 16;
            &&& q.en_passant is Some ==> jump
            &&& jump ==> (q.en_passant == Some(Square(((s + d) / 2) as u8)) <==> model::ep_possible(
                q.board,
                (s + d) / 2,
                q.stm,
            ))
            &&& jump && !model::ep_possible(q.board, (s + d) / 2, q.stm) ==> q.en_passant is None
        }),
{
    let (s, d) = (mv.src(), mv.dst());
    lemma_move_is_encoded(mv);
    lemma_kinds(s, d);
    law_own_pieces_move(p, mv);
    if p.board[d] matches Some(y) && y.color == p.stm {
    } else if p.board[s].unwrap().pt == PieceType::Pawn {
        law_pawn_moves_exact(p, mv);
    } else {
        law_piece_moves_exact(p, mv);
    }
}

// ──────── Castling ────────

proof fn lemma_gaps(occ: u64)
    ensures
        occ & 0x60 == 0 <==> !bits::member(occ, 5) && !bits::member(occ, 6),
        occ & 0x0e == 0 <==> !bits::member(occ, 1) && !bits::member(occ, 2) && !bits::member(occ, 3),
        occ & 0x6000_0000_0000_0000 == 0 <==> !bits::member(occ, 61) && !bits::member(occ, 62),
        occ & 0x0e00_0000_0000_0000 == 0 <==> !bits::member(occ, 57) && !bits::member(occ, 58) && !bits::member(
            occ,
            59,
        ),
{
    reveal(bits::member);
    assert({
        &&& occ & 0x60 == 0 <==> (occ >> 5u64) & 1 != 1 && (occ >> 6u64) & 1 != 1
        &&& occ & 0x0e == 0 <==> (occ >> 1u64) & 1 != 1 && (occ >> 2u64) & 1 != 1 && (occ >> 3u64) & 1 != 1
        &&& occ & 0x6000_0000_0000_0000 == 0 <==> (occ >> 61u64) & 1 != 1 && (occ >> 62u64) & 1 != 1
        &&& occ & 0x0e00_0000_0000_0000 == 0 <==> (occ >> 57u64) & 1 != 1 && (occ >> 58u64) & 1 != 1 && (occ >> 59u64)
            & 1 != 1
    }) by (bit_vector);
}

/// King and rook of the side to move stand on the first rank, and the right to castle with this rook is held:
/// White's short right is the first bit, then White's long, Black's short and Black's long.
pub open spec fn castling_prepared(p: PositionV, s: int, d: int) -> bool {
    let white = p.stm == Color::White;
    let long = d < s;
    let bit = if white && !long {
        1u8
    } else if white {
        2u8
    } else if !long {
        4u8
    } else {
        8u8
    };
    let slot = if white && !long {
        0int
    } else if white {
        1int
    } else if !long {
        2int
    } else {
        3int
    };
    let first = if white {
        0int
    } else {
        7int
    };
    &&& p.board[s] == Some(Piece { pt: PieceType::King, color: p.stm })
    &&& p.board[d] == Some(Piece { pt: PieceType::Rook, color: p.stm })
    &&& s / 8 == first
    &&& d / 8 == first
    &&& p.castling_rights & bit != 0
    &&& p.castling_rooks[slot].0 == d
}

/// Castling from the usual squares: allowed exactly when it is prepared, the squares between king and rook are
/// empty, and neither the king's square nor the two that it passes and reaches are attacked.
pub proof fn law_castling_usual(pos: Position, long: bool)
    requires
        pos.wf(),
    ensures
        ({
            let p = pos@;
            let base = if p.stm == Color::White {
                0int
            } else {
                56int
            };
            let (s, d) = (base + 4, base + (if long {
                0int
            } else {
                7int
            }));
            let foe = enemy(p.stm);
            let free = |i: int| p.board[base + i] is None;
            let calm = |i: int| !model::attacked(p.board, 0, base + i, foe);
            movegen::may_castle(p, s, d) <==> castling_prepared(p, s, d) && (if long {
                free(1) && free(2) && free(3) && calm(4) && calm(3) && calm(2)
            } else {
                free(5) && free(6) && calm(4) && calm(5) && calm(6)
            })
        }),
{
    let p = pos@;
    let occ = movegen::occupancy_of(p.board);
    movegen::lemma_occupancy(pos);
    lemma_gaps(occ);
    let base = if p.stm == Color::White {
        0int
    } else {
        56int
    };
    let (s, d) = (base + 4, base + (if long {
        0int
    } else {
        7int
    }));
    let slot = movegen::castle_slot(p.stm, s, d);
    let path = movegen::CASTLE_PATH[slot]@;
    let data = movegen::CASTLE_DATA[slot]@;
    assert(bits::member(occ, base + 1) == (p.board[base + 1] is Some));
    assert(bits::member(occ, base + 2) == (p.board[base + 2] is Some));
    assert(bits::member(occ, base + 3) == (p.board[base + 3] is Some));
    assert(bits::member(occ, base + 5) == (p.board[base + 5] is Some));
    assert(bits::member(occ, base + 6) == (p.board[base + 6] is Some));
    let foe = enemy(p.stm);
    if movegen::may_castle(p, s, d) && queries::canonical_castle(occ, s, d, data, movegen::CASTLE_GAP[slot]) {
        assert(!model::attacked(p.board, 0, path[0] as int, foe));
        assert(!model::attacked(p.board, 0, path[1] as int, foe));
        assert(!model::attacked(p.board, 0, path[2] as int, foe));
    }
    if !model::attacked(p.board, 0, path[0] as int, foe) && !model::attacked(p.board, 0, path[1] as int, foe)
        && !model::attacked(p.board, 0, path[2] as int, foe) {
        assert forall|i: int| 0 <= i < path.len() implies !#[trigger] model::attacked(
            p.board,
            0,
            path[i] as int,
            foe,
        ) by {
            assert(i == 0 || i == 1 || i == 2);
        }
    }
}

proof fn lemma_run_opens(b: Board, off: u64, f: int, r: int, df: int, dr: int, n: nat)
    requires
        model::free_run(b, 0, f, r, df, dr, n),
    ensures
        model::free_run(b, off, f, r, df, dr, n),
    decreases n,
{
    bits::lemma_member_ops();
    if n > 0 {
        lemma_run_opens(b, off, f + df, r + dr, df, dr, (n - 1) as nat);
    }
}

/// Counting squares as empty takes no attack away.
proof fn lemma_attack_stays(b: Board, off: u64, sq: int, by: Color)
    requires
        model::attacked(b, 0, sq, by),
    ensures
        model::attacked(b, off, sq, by),
{
    let s = choose|s: int| #[trigger] model::attacks_from(b, 0, s, sq, by);
    let (df, dr) = (
        model::toward(types::file_of(s), types::file_of(sq)),
        model::toward(types::rank_of(s), types::rank_of(sq)),
    );
    if model::open_path(b, 0, s, sq) {
        lemma_run_opens(
            b,
            off,
            types::file_of(s) + df,
            types::rank_of(s) + dr,
            df,
            dr,
            (model::king_steps(s, sq) - 1) as nat,
        );
    }
    assert(model::attacks_from(b, off, s, sq, by));
}

/// Castling from any squares is allowed only when it is prepared, when every square from the outermost to the
/// innermost of the squares that king and rook leave and reach is empty but for the two, and when no square from
/// the king's to the one that it reaches is attacked.
pub proof fn law_castling_needs(pos: Position, s: int, d: int)
    requires
        pos.wf(),
        0 <= s < 64,
        0 <= d < 64,
        movegen::may_castle(pos@, s, d),
    ensures
        castling_prepared(pos@, s, d),
        ({
            let p = pos@;
            let base = s / 8 * 8;
            let (k, r) = if d < s {
                (base + 2, base + 3)
            } else {
                (base + 6, base + 5)
            };
            let foe = enemy(p.stm);
            &&& forall|i: int|
                i != s && i != d && (i >= s || i >= d || i >= k || i >= r) && (i <= s || i <= d || i <= k || i <= r)
                    ==> #[trigger] p.board[i] is None
            &&& forall|i: int|
                (s <= i <= k || k <= i <= s) ==> !#[trigger] model::attacked(p.board, 0, i, foe)
        }),
{
    let p = pos@;
    let occ = movegen::occupancy_of(p.board);
    movegen::lemma_occupancy(pos);
    lemma_gaps(occ);
    let slot = movegen::castle_slot(p.stm, s, d);
    let path = movegen::CASTLE_PATH[slot]@;
    let data = movegen::CASTLE_DATA[slot]@;
    let foe = enemy(p.stm);
    let (k, r) = (data[2] as int, data[3] as int);
    if queries::canonical_castle(occ, s, d, data, movegen::CASTLE_GAP[slot]) {
        assert(!model::attacked(p.board, 0, path[0] as int, foe));
        assert(!model::attacked(p.board, 0, path[1] as int, foe));
        assert(!model::attacked(p.board, 0, path[2] as int, foe));
        let base = s / 8 * 8;
        assert(bits::member(occ, base + 1) == (p.board[base + 1] is Some));
        assert(bits::member(occ, base + 2) == (p.board[base + 2] is Some));
        assert(bits::member(occ, base + 3) == (p.board[base + 3] is Some));
        assert(bits::member(occ, base + 5) == (p.board[base + 5] is Some));
        assert(bits::member(occ, base + 6) == (p.board[base + 6] is Some));
        assert forall|i: int|
            i != s && i != d && (i >= s || i >= d || i >= k || i >= r) && (i <= s || i <= d || i <= k || i
                <= r) implies #[trigger] p.board[i] is None by {
            if d < s {
                assert(i == base + 1 || i == base + 2 || i == base + 3);
            } else {
                assert(i == base + 5 || i == base + 6);
            }
        }
        assert forall|i: int| (s <= i <= k || k <= i <= s) implies !#[trigger] model::attacked(p.board, 0, i, foe) by {
            assert(i == path[0] || i == path[1] || i == path[2]);
        }
    } else {
        assert forall|i: int|
            i != s && i != d && (i >= s || i >= d || i >= k || i >= r) && (i <= s || i <= d || i <= k || i
                <= r) implies #[trigger] p.board[i] is None by {
            assert(bits::member(occ, i) == (p.board[i] is Some));
        }
        let off = 1u64 << (s as u64);
        assert forall|i: int| (s <= i <= k || k <= i <= s) implies !#[trigger] model::attacked(p.board, 0, i, foe) by {
            assert(!model::attacked(p.board, off, i, foe));
            if model::attacked(p.board, 0, i, foe) {
                lemma_attack_stays(p.board, off, i, foe);
            }
        }
    }
}

/// And castling from unusual squares is allowed whenever it is prepared, those squares are empty, and no square
/// on the king's way is attacked, even with the king, and at its end the rook, out of the way.
pub proof fn law_castling_suffices(pos: Position, s: int, d: int)
    requires
        pos.wf(),
        0 <= s < 64,
        0 <= d < 64,
        castling_prepared(pos@, s, d),
        s % 8 != 4 || (d % 8 != 0 && d % 8 != 7),
        ({
            let p = pos@;
            let base = s / 8 * 8;
            let (k, r) = if d < s {
                (base + 2, base + 3)
            } else {
                (base + 6, base + 5)
            };
            let foe = enemy(p.stm);
            &&& forall|i: int|
                base <= i < base + 8 && i != s && i != d && (i >= s || i >= d || i >= k || i >= r) && (i <= s || i <= d
                    || i <= k || i <= r) ==> #[trigger] p.board[i] is None
            &&& forall|i: int|
                (s <= i <= k || k <= i <= s) ==> !#[trigger] model::attacked(p.board, 1u64 << (s as u64), i, foe)
            &&& !model::attacked(p.board, 1u64 << (s as u64) | 1u64 << (d as u64), k, foe)
        }),
    ensures
        movegen::may_castle(pos@, s, d),
{
    let p = pos@;
    let occ = movegen::occupancy_of(p.board);
    movegen::lemma_occupancy(pos);
    let slot = movegen::castle_slot(p.stm, s, d);
    let data = movegen::CASTLE_DATA[slot]@;
    let (k, r) = (data[2] as int, data[3] as int);
    let lo = queries::least(queries::least(queries::least(s, d), k), r);
    let hi = queries::most(queries::most(queries::most(s, d), k), r);
    let base = s / 8 * 8;
    assert(base == 0 || base == 56);
    if d < s {
        assert(k == base + 2 && r == base + 3);
    } else {
        assert(k == base + 6 && r == base + 5);
    }
    let foe = enemy(p.stm);
    assert(!queries::canonical_castle(occ, s, d, data, movegen::CASTLE_GAP[slot]));
    assert forall|i: int| lo <= i <= hi && i != s && i != d implies !#[trigger] bits::member(occ, i) by {
        assert(p.board[i] is None);
    }
    assert forall|i: int| queries::least(s, k) <= i <= queries::most(s, k) implies !#[trigger] model::attacked(
        p.board,
        1u64 << (s as u64),
        i,
        foe,
    ) by {}
    assert(p.castling_rights & movegen::right_bit(slot) != 0);
    assert(p.castling_rooks[slot].0 == d);
}

} // verus!
