//! In which order a move picker hands its moves out.

use vstd::prelude::*;
use crate::board::model;
use crate::board::model::PositionV;
use crate::engine::history::HistoryV;
use crate::engine::movegen;
use crate::engine::movepicker;
use crate::engine::movepicker::{PickerV, Scored, STAGE_DONE, STAGE_HASH, STAGE_KILLER_ONE, STAGE_KILLER_TWO, STAGE_LIST_QUIET, STAGE_LIST_TACTICAL, STAGE_QUIET, STAGE_TACTICAL};
use crate::moves::Move;
use crate::types::PieceType;

verus! {

/// A capture or a promotion, by its kind.
pub open spec fn loud(mv: Move) -> bool {
    mv.kind() == 4 || mv.kind() == 5 || mv.kind() >= 8
}

/// The scores on the list are those of its moves, and the list belongs to the stage.
pub open spec fn scored(pk: PickerV, p: PositionV, h: HistoryV) -> bool {
    &&& pk.stage == STAGE_TACTICAL ==> forall|i: int|
        0 <= i < pk.list.len() ==> loud((#[trigger] pk.list[i]).mv) && pk.list[i].score
            == movepicker::tactical_score(pk, p, pk.list[i].mv) as i32
    &&& pk.stage == STAGE_QUIET ==> forall|i: int|
        0 <= i < pk.list.len() ==> !loud((#[trigger] pk.list[i]).mv) && pk.list[i].score
            == movepicker::quiet_score(pk, p, h, pk.list[i].mv) as i32
}

proof fn lemma_loud(mv: Move)
    ensures
        movepicker::tactical(mv) <==> loud(mv),
        movepicker::wanted(true, mv) ==> loud(mv),
{
}

proof fn lemma_tactical_scores(pk: PickerV, p: PositionV, ms: Seq<Move>, n: int)
    requires
        0 <= n <= ms.len(),
    ensures
        forall|i: int|
            0 <= i < movepicker::tactical_upto(pk, p, ms, n).len() ==> {
                let x = #[trigger] movepicker::tactical_upto(pk, p, ms, n)[i];
                loud(x.mv) && x.score == movepicker::tactical_score(pk, p, x.mv) as i32
            },
    decreases n,
{
    if n > 0 {
        let (all, rest) = (movepicker::tactical_upto(pk, p, ms, n), movepicker::tactical_upto(pk, p, ms, n - 1));
        lemma_tactical_scores(pk, p, ms, n - 1);
        lemma_loud(ms[n - 1]);
        assert forall|i: int| 0 <= i < all.len() implies loud((#[trigger] all[i]).mv) && all[i].score
            == movepicker::tactical_score(pk, p, all[i].mv) as i32 by {
            if i < rest.len() {
                assert(all[i] == rest[i]);
            }
        }
    }
}

proof fn lemma_quiet_scores(pk: PickerV, p: PositionV, h: HistoryV, ms: Seq<Move>, n: int)
    requires
        0 <= n <= ms.len(),
    ensures
        forall|i: int|
            0 <= i < movepicker::quiet_upto(pk, p, h, ms, n).len() ==> {
                let x = #[trigger] movepicker::quiet_upto(pk, p, h, ms, n)[i];
                !loud(x.mv) && x.score == movepicker::quiet_score(pk, p, h, x.mv) as i32
            },
    decreases n,
{
    if n > 0 {
        let (all, rest) = (movepicker::quiet_upto(pk, p, h, ms, n), movepicker::quiet_upto(pk, p, h, ms, n - 1));
        lemma_quiet_scores(pk, p, h, ms, n - 1);
        lemma_loud(ms[n - 1]);
        assert forall|i: int| 0 <= i < all.len() implies !loud((#[trigger] all[i]).mv) && all[i].score
            == movepicker::quiet_score(pk, p, h, all[i].mv) as i32 by {
            if i < rest.len() {
                assert(all[i] == rest[i]);
            }
        }
    }
}

/// What a pick says about the order: the hash move comes first; every capture and promotion comes before the
/// killers, the first killer before the second and both before the other quiet moves; and among captures and
/// promotions, as among quiet moves, none that is left scores more than the one that was handed out.
pub open spec fn in_order(pk: PickerV, p: PositionV, h: HistoryV, m: Move, next: PickerV) -> bool {
    &&& scored(next, p, h)
    &&& next.stage != STAGE_HASH
    &&& next.hash_move == pk.hash_move && next.killers == pk.killers && next.cont == pk.cont && next.noisy_only
        == pk.noisy_only && next.victims == pk.victims && next.attackers == pk.attackers
    &&& next.stage == STAGE_LIST_TACTICAL ==> pk.hash_move == Some(m)
    &&& next.stage == STAGE_TACTICAL ==> loud(m) && forall|j: int|
        0 <= j < next.list.len() ==> (#[trigger] next.list[j]).score <= movepicker::tactical_score(pk, p, m) as i32
    &&& next.stage == STAGE_KILLER_TWO ==> m == pk.killers.0 && !loud(m)
    &&& next.stage == STAGE_LIST_QUIET ==> m == pk.killers.1 && !loud(m)
    &&& next.stage == STAGE_QUIET ==> !loud(m) && forall|j: int|
        0 <= j < next.list.len() ==> (#[trigger] next.list[j]).score <= movepicker::quiet_score(pk, p, h, m) as i32
    &&& next.stage != STAGE_KILLER_ONE && next.stage <= STAGE_QUIET
}

/// The order in which moves are handed out.
pub proof fn law_pick_order(pk: PickerV, p: PositionV, h: HistoryV)
    requires
        scored(pk, p, h),
    ensures
        pk.stage == STAGE_HASH && pk.hash_move is Some ==> movepicker::pick(pk, p, h).0 == pk.hash_move,
        movepicker::pick(pk, p, h).0 matches Some(m) ==> in_order(pk, p, h, m, movepicker::pick(pk, p, h).1),
        pk.noisy_only && pk.stage <= STAGE_TACTICAL ==> (movepicker::pick(pk, p, h).0 matches Some(m) ==> pk.hash_move
            == Some(m) || loud(m)),
        pk.stage == STAGE_DONE ==> movepicker::pick(pk, p, h).0 is None,
    decreases 8 - pk.stage, pk.list.len(),
{
    let ms = movegen::pseudo_moves(p);
    let n = ms.len() as int;
    if pk.stage == STAGE_HASH {
        law_pick_order(PickerV { stage: STAGE_LIST_TACTICAL, ..pk }, p, h);
    } else if pk.stage == STAGE_LIST_TACTICAL {
        let next = PickerV { stage: STAGE_TACTICAL, list: movepicker::tactical_upto(pk, p, ms, n), ..pk };
        lemma_tactical_scores(pk, p, ms, n);
        law_pick_order(next, p, h);
    } else if pk.stage == STAGE_TACTICAL {
        if pk.list.len() == 0 {
            law_pick_order(PickerV { stage: STAGE_KILLER_ONE, ..pk }, p, h);
            law_pick_order(PickerV { stage: STAGE_DONE, ..pk }, p, h);
        } else {
            lemma_left_over(pk, p, h);
            law_pick_order(PickerV { list: pk.list.remove(movepicker::top(pk.list)), ..pk }, p, h);
        }
    } else if pk.stage == STAGE_KILLER_ONE {
        lemma_loud(pk.killers.0);
        law_pick_order(PickerV { stage: STAGE_KILLER_TWO, ..pk }, p, h);
    } else if pk.stage == STAGE_KILLER_TWO {
        lemma_loud(pk.killers.1);
        law_pick_order(PickerV { stage: STAGE_LIST_QUIET, ..pk }, p, h);
    } else if pk.stage == STAGE_LIST_QUIET {
        let next = PickerV { stage: STAGE_QUIET, list: movepicker::quiet_upto(pk, p, h, ms, n), ..pk };
        lemma_quiet_scores(pk, p, h, ms, n);
        law_pick_order(next, p, h);
    } else if pk.stage == STAGE_QUIET {
        if pk.list.len() > 0 {
            lemma_left_over(pk, p, h);
            law_pick_order(PickerV { list: pk.list.remove(movepicker::top(pk.list)), ..pk }, p, h);
        }
    }
}

proof fn lemma_left_over(pk: PickerV, p: PositionV, h: HistoryV)
    requires
        pk.list.len() > 0,
        scored(pk, p, h),
    ensures
        ({
            let k = movepicker::top(pk.list);
            let rest = pk.list.remove(k);
            &&& 0 <= k < pk.list.len()
            &&& scored(PickerV { list: rest, ..pk }, p, h)
            &&& forall|j: int| 0 <= j < rest.len() ==> (#[trigger] rest[j]).score <= pk.list[k].score
        }),
{
    let k = movepicker::top(pk.list);
    let rest = pk.list.remove(k);
    movepicker::lemma_top(pk.list, pk.list.len() as int);
    assert forall|j: int| 0 <= j < rest.len() implies (#[trigger] rest[j]).score <= pk.list[k].score && exists|i: int|
        0 <= i < pk.list.len() && rest[j] == #[trigger] pk.list[i] by {
        if j < k {
            assert(rest[j] == pk.list[j]);
        } else {
            assert(rest[j] == pk.list[j + 1]);
        }
    }
    let q = PickerV { list: rest, ..pk };
    assert forall|i: int| 0 <= i < rest.len() && pk.stage == STAGE_TACTICAL implies loud((#[trigger] rest[i]).mv)
        && rest[i].score == movepicker::tactical_score(q, p, rest[i].mv) as i32 by {
        let j = choose|j: int| 0 <= j < pk.list.len() && rest[i] == #[trigger] pk.list[j];
        assert(loud(pk.list[j].mv));
        assert(movepicker::tactical_score(q, p, rest[i].mv) == movepicker::tactical_score(pk, p, rest[i].mv));
    }
    assert forall|i: int| 0 <= i < rest.len() && pk.stage == STAGE_QUIET implies !loud((#[trigger] rest[i]).mv)
        && rest[i].score == movepicker::quiet_score(q, p, h, rest[i].mv) as i32 by {
        let j = choose|j: int| 0 <= j < pk.list.len() && rest[i] == #[trigger] pk.list[j];
        assert(!loud(pk.list[j].mv));
    }
}

/// Of a list, the first of the highest scores is taken.
pub proof fn law_highest_first(list: Seq<Scored>, j: int)
    requires
        0 <= j < list.len(),
    ensures
        0 <= movepicker::top(list) < list.len(),
        list[j].score <= list[movepicker::top(list)].score,
        j < movepicker::top(list) ==> list[j].score < list[movepicker::top(list)].score,
{
    movepicker::lemma_top(list, list.len() as int);
    lemma_top_is_first(list, list.len() as int, j);
}

proof fn lemma_top_is_first(list: Seq<Scored>, n: int, j: int)
    requires
        0 <= j < n <= list.len(),
    ensures
        j < movepicker::top_upto(list, n) ==> list[j].score < list[movepicker::top_upto(list, n)].score,
    decreases n,
{
    if n > 1 {
        movepicker::lemma_top(list, n - 1);
        if j < n - 1 {
            lemma_top_is_first(list, n - 1, j);
        }
    }
}

/// Most valuable victim, least valuable attacker. Of two captures that do not promote, the one that takes the piece
/// with the higher value scores more when the attackers are worth the same, and the one with the lower value of the
/// attacker when the victims are; a pawn that is taken en passant counts as a pawn; and a promotion adds the value
/// of the new piece: knight, bishop, rook or queen by its kind.
pub proof fn law_victim_then_attacker(pk: PickerV, p: PositionV, m: Move, n: Move, q: Move)
    requires
        m.kind() == 4,
        n.kind() == 4 || n.kind() == 5,
        q.kind() >= 8,
    ensures
        ({
            let victim = |x: Move| if x.kind() == 5 && model::type_at(p.board, x.dst()) == PieceType::Empty {
                pk.victims[PieceType::Pawn.idx()] as int
            } else {
                pk.victims[model::type_at(p.board, x.dst()).idx()] as int
            };
            let attacker = |x: Move| pk.attackers[model::type_at(p.board, x.src()).idx()] as int;
            &&& attacker(m) == attacker(n) ==> (victim(m) > victim(n) <==> movepicker::tactical_score(pk, p, m)
                > movepicker::tactical_score(pk, p, n))
            &&& victim(m) == victim(n) ==> (attacker(m) < attacker(n) <==> movepicker::tactical_score(pk, p, m)
                > movepicker::tactical_score(pk, p, n))
            &&& movepicker::tactical_score(pk, p, m) == victim(m) - attacker(m)
            &&& movepicker::tactical_score(pk, p, q) - victim(q) + attacker(q) == pk.victims[1 + q.kind() % 4]
        }),
{
}

} // verus!
