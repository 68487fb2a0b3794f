//! Static evaluation: the accumulator's two scores, blended by the game phase.

use vstd::prelude::*;
use crate::arith;
use crate::board::model;
use crate::board::model::{Board, Piece};
use crate::board::position::Position;
use crate::psqt;
use crate::psqt::Vi16x8;
use crate::types;
use crate::types::{Color, PieceType, TOTAL_PHASE};

verus! {

/// The game phase that an accumulator holds: 24 for a full army, 0 for bare kings.
pub open spec fn phase_of(acc: Seq<i16>) -> int {
    arith::clamped(acc[2] as int, 0, TOTAL_PHASE as int)
}

/// White's score: the middlegame score weighs as much as the phase, the endgame score as much as what is
/// missing from a full one.
pub open spec fn blended(acc: Seq<i16>) -> int {
    arith::quot(acc[0] * phase_of(acc) + acc[1] * (TOTAL_PHASE - phase_of(acc)), TOTAL_PHASE as int)
}

/// The score from the side to move's point of view.
pub open spec fn score_of(acc: Seq<i16>, stm: Color) -> int {
    match stm {
        Color::White => blended(acc),
        Color::Black => -blended(acc),
    }
}

/// The phase of the game, from the full army's down to 0.
pub fn extract_phase(acc: &Vi16x8) -> (r: i32)
    ensures
        r == phase_of(acc@),
        0 <= r <= TOTAL_PHASE,
{
    arith::clamp(acc.lanes[2] as i32, 0, TOTAL_PHASE)
}

/// The static evaluation from the side to move's point of view.
pub fn evaluate(pos: &Position, acc: &Vi16x8) -> (r: i32)
    ensures
        r == score_of(acc@, pos.stm),
        -32768 <= r <= 32768,
{
    let phase: i32 = extract_phase(acc);
    let mg: i32 = acc.lanes[0] as i32;
    let eg: i32 = acc.lanes[1] as i32;
    proof {
        lemma_blend(mg as int, eg as int, phase as int);
    }
    let sum: i32 = mg * phase + eg * (TOTAL_PHASE - phase);
    let score: i32 = arith::divide(sum, TOTAL_PHASE);
    match pos.stm {
        Color::White => score,
        Color::Black => -score,
    }
}

proof fn lemma_blend(mg: int, eg: int, phase: int)
    requires
        0 <= phase <= 24,
        -32768 <= mg <= 32767,
        -32768 <= eg <= 32767,
    ensures
        -32768 * 24 <= mg * phase + eg * (24 - phase) <= 32767 * 24,
        -32768 * 24 <= mg * phase <= 32767 * 24,
        -32768 * 24 <= eg * (24 - phase) <= 32767 * 24,
{
    assert(-32768 * phase <= mg * phase <= 32767 * phase) by (nonlinear_arith)
        requires
            0 <= phase,
            -32768 <= mg <= 32767,
    ;
    let rest = 24 - phase;
    assert(-32768 * rest <= eg * rest <= 32767 * rest) by (nonlinear_arith)
        requires
            0 <= rest,
            -32768 <= eg <= 32767,
    ;
}

// ──────── Symmetry ────────

/// The mirrored rank.
pub open spec fn flipped(i: int) -> int {
    (7 - i / 8) * 8 + i % 8
}

/// The piece with its color changed.
pub open spec fn recolored(o: Option<Piece>) -> Option<Piece> {
    match o {
        Some(p) => Some(Piece { pt: p.pt, color: p.color.other() }),
        None => None,
    }
}

/// The board seen from the other side: ranks mirrored, colors changed.
pub open spec fn mirrored(b: Board) -> Board {
    Seq::new(64, |i: int| recolored(b[flipped(i)]))
}

spec fn rank_sum(b: Board, l: int, r: int) -> int {
    let at = |f: int| model::square_lane(b[r * 8 + f], r * 8 + f, l);
    at(0) + at(1) + at(2) + at(3) + at(4) + at(5) + at(6) + at(7)
}

proof fn lemma_rank_sum(b: Board, l: int, r: int)
    requires
        0 <= r < 8,
    ensures
        model::lane_sum(b, l, (8 * r + 8) as nat) == model::lane_sum(b, l, (8 * r) as nat) + rank_sum(b, l, r),
{
    reveal_with_fuel(model::lane_sum, 9);
}

proof fn lemma_all_ranks(b: Board, l: int)
    ensures
        model::lane_sum(b, l, 64) == rank_sum(b, l, 0) + rank_sum(b, l, 1) + rank_sum(b, l, 2) + rank_sum(b, l, 3)
            + rank_sum(b, l, 4) + rank_sum(b, l, 5) + rank_sum(b, l, 6) + rank_sum(b, l, 7),
{
    lemma_rank_sum(b, l, 0);
    lemma_rank_sum(b, l, 1);
    lemma_rank_sum(b, l, 2);
    lemma_rank_sum(b, l, 3);
    lemma_rank_sum(b, l, 4);
    lemma_rank_sum(b, l, 5);
    lemma_rank_sum(b, l, 6);
    lemma_rank_sum(b, l, 7);
}

proof fn lemma_terms(pt: PieceType, f: int, r: int)
    requires
        0 <= f < 8,
        0 <= r < 8,
    ensures
        -2000 <= psqt::terms(pt, f, r).0 <= 2000,
        -2000 <= psqt::terms(pt, f, r).1 <= 2000,
        0 <= psqt::terms(pt, f, r).2 <= 4,
{
    assert(1 <= psqt::rim(f, r) <= 7);
    assert(1 <= psqt::spread(f) <= 7);
    match pt {
        PieceType::Pawn => {},
        PieceType::Knight => {},
        PieceType::Bishop => {},
        PieceType::Rook => {},
        PieceType::Queen => {},
        PieceType::King => {},
        PieceType::Empty => {},
    }
}

proof fn lemma_mirror_lane(pt: PieceType, i: int, c: Color, l: int)
    requires
        0 <= i < 64,
        0 <= l < 3,
    ensures
        psqt::vec_of(pt, flipped(i), c.other())[l] == if l == 2 {
            psqt::vec_of(pt, i, c)[l] as int
        } else {
            -(psqt::vec_of(pt, i, c)[l])
        },
{
    let f = types::file_of(i);
    let r = match c {
        Color::White => types::rank_of(i),
        Color::Black => 7 - types::rank_of(i),
    };
    assert(types::file_of(flipped(i)) == f);
    assert(types::rank_of(flipped(i)) == 7 - types::rank_of(i));
    lemma_terms(pt, f, r);
    let t = psqt::terms(pt, f, r);
    assert(psqt::vec_of(pt, i, c) == match c {
        Color::White => seq![t.0 as i16, t.1 as i16, t.2 as i16, 0, 0, 0, 0, 0],
        Color::Black => seq![(-t.0) as i16, (-t.1) as i16, t.2 as i16, 0, 0, 0, 0, 0],
    }) by {
        reveal(psqt::vec_of);
    }
    assert(psqt::vec_of(pt, flipped(i), c.other()) == match c {
        Color::Black => seq![t.0 as i16, t.1 as i16, t.2 as i16, 0, 0, 0, 0, 0],
        Color::White => seq![(-t.0) as i16, (-t.1) as i16, t.2 as i16, 0, 0, 0, 0, 0],
    }) by {
        reveal(psqt::vec_of);
    }
}

proof fn lemma_mirror_square(b: Board, i: int, l: int)
    requires
        0 <= i < 64,
        0 <= l < 3,
    ensures
        model::square_lane(mirrored(b)[i], i, l) == if l == 2 {
            model::square_lane(b[flipped(i)], flipped(i), l)
        } else {
            -model::square_lane(b[flipped(i)], flipped(i), l)
        },
{
    assert(flipped(flipped(i)) == i);
    match b[flipped(i)] {
        Some(p) => {
            lemma_mirror_lane(p.pt, flipped(i), p.color, l);
        },
        None => {},
    }
}

proof fn lemma_mirror_rank(b: Board, l: int, r: int)
    requires
        0 <= r < 8,
        0 <= l < 3,
    ensures
        rank_sum(mirrored(b), l, r) == if l == 2 {
            rank_sum(b, l, 7 - r)
        } else {
            -rank_sum(b, l, 7 - r)
        },
{
    assert forall|f: int| 0 <= f < 8 implies #[trigger] flipped(r * 8 + f) == (7 - r) * 8 + f by {}
    lemma_mirror_square(b, r * 8 + 0, l);
    lemma_mirror_square(b, r * 8 + 1, l);
    lemma_mirror_square(b, r * 8 + 2, l);
    lemma_mirror_square(b, r * 8 + 3, l);
    lemma_mirror_square(b, r * 8 + 4, l);
    lemma_mirror_square(b, r * 8 + 5, l);
    lemma_mirror_square(b, r * 8 + 6, l);
    lemma_mirror_square(b, r * 8 + 7, l);
}

proof fn lemma_mirror_sum(b: Board, l: int)
    requires
        0 <= l < 3,
    ensures
        model::lane_sum(mirrored(b), l, 64) == if l == 2 {
            model::lane_sum(b, l, 64)
        } else {
            -model::lane_sum(b, l, 64)
        },
{
    lemma_all_ranks(b, l);
    lemma_all_ranks(mirrored(b), l);
    lemma_mirror_rank(b, l, 0);
    lemma_mirror_rank(b, l, 1);
    lemma_mirror_rank(b, l, 2);
    lemma_mirror_rank(b, l, 3);
    lemma_mirror_rank(b, l, 4);
    lemma_mirror_rank(b, l, 5);
    lemma_mirror_rank(b, l, 6);
    lemma_mirror_rank(b, l, 7);
}

/// A position and its mirror image have the same score for the side to move, as long as the sums fit the
/// accumulator's lanes.
pub proof fn law_mirror_scores(b: Board, stm: Color)
    requires
        b.len() == 64,
        -32768 < model::lane_sum(b, 0, 64) < 32768,
        -32768 < model::lane_sum(b, 1, 64) < 32768,
    ensures
        score_of(model::acc_of(mirrored(b)), stm.other()) == score_of(model::acc_of(b), stm),
{
    reveal(model::acc_of);
    lemma_mirror_sum(b, 0);
    lemma_mirror_sum(b, 1);
    lemma_mirror_sum(b, 2);
    let (a, m) = (model::acc_of(b), model::acc_of(mirrored(b)));
    assert(m[0] == -a[0]);
    assert(m[1] == -a[1]);
    assert(m[2] == a[2]);
    let ph = phase_of(a);
    assert((-a[0]) * ph == -(a[0] * ph)) by (nonlinear_arith);
    assert((-a[1]) * (24 - ph) == -(a[1] * (24 - ph))) by (nonlinear_arith);
}

/// The score of a position for one side is the negated score for the other.
pub proof fn law_zero_sum(acc: Seq<i16>, stm: Color)
    ensures
        score_of(acc, stm.other()) == -score_of(acc, stm),
{
}

} // verus!
