//! What a move picker hands out: every pseudo-legal move, exactly once.

use vstd::prelude::*;
use crate::board::model::PositionV;
use crate::engine::history::HistoryV;
use crate::engine::movegen;
use crate::engine::movepicker;
use crate::engine::movepicker::{PickerV, Scored, STAGE_HASH, STAGE_KILLER_ONE, STAGE_KILLER_TWO, STAGE_LIST_QUIET, STAGE_LIST_TACTICAL, STAGE_QUIET, STAGE_TACTICAL};
use crate::moves::Move;

verus! {

/// The move is on a list.
pub open spec fn listed(list: Seq<Scored>, mv: Move) -> bool {
    exists|i: int| 0 <= i < list.len() && (#[trigger] list[i]).mv == mv
}

/// No move is on the list twice.
pub open spec fn distinct(list: Seq<Scored>) -> bool {
    forall|i: int, j: int| 0 <= i < j < list.len() ==> (#[trigger] list[i]).mv != (#[trigger] list[j]).mv
}

/// The move will still be handed out.
pub open spec fn pending(pk: PickerV, p: PositionV, mv: Move) -> bool {
    let fresh = movegen::pseudo_legal(p, mv) && pk.hash_move != Some(mv);
    let quiet = fresh && !movepicker::tactical(mv);
    if pk.stage == STAGE_HASH {
        movegen::pseudo_legal(p, mv)
    } else if pk.stage == STAGE_LIST_TACTICAL {
        fresh
    } else if pk.stage == STAGE_TACTICAL {
        pk.hash_move != Some(mv) && (listed(pk.list, mv) || quiet)
    } else if pk.stage == STAGE_KILLER_ONE {
        quiet
    } else if pk.stage == STAGE_KILLER_TWO {
        quiet && pk.killers.0 != mv
    } else if pk.stage == STAGE_LIST_QUIET {
        quiet && pk.killers.0 != mv && pk.killers.1 != mv
    } else if pk.stage == STAGE_QUIET {
        listed(pk.list, mv) && !movepicker::already_given(pk, mv)
    } else {
        false
    }
}

/// The list belongs to the stage, and the hash move can be played.
pub open spec fn tidy(pk: PickerV, p: PositionV) -> bool {
    &&& !pk.noisy_only
    &&& pk.hash_move matches Some(m) ==> movegen::pseudo_legal(p, m)
    &&& pk.stage == STAGE_TACTICAL || pk.stage == STAGE_QUIET ==> distinct(pk.list)
    &&& pk.stage == STAGE_TACTICAL ==> forall|i: int|
        0 <= i < pk.list.len() ==> movepicker::tactical((#[trigger] pk.list[i]).mv)
}

proof fn lemma_null_unplayable(p: PositionV, mv: Move)
    requires
        movegen::pseudo_legal(p, mv),
    ensures
        mv.0 != 0,
{
    if mv.0 == 0 {
        assert(mv.src() == 0 && mv.dst() == 0);
        let ms = movegen::moves_between(p, 0, 0);
        let i = choose|i: int| 0 <= i < ms.len() && ms[i] == mv;
        assert(!movegen::may_castle(p, 0, 0));
    }
}

proof fn lemma_tactical_list(pk: PickerV, p: PositionV, ms: Seq<Move>, n: int)
    requires
        !pk.noisy_only,
        0 <= n <= ms.len(),
        ms.no_duplicates(),
    ensures
        distinct(movepicker::tactical_upto(pk, p, ms, n)),
        forall|i: int|
            0 <= i < movepicker::tactical_upto(pk, p, ms, n).len() ==> movepicker::tactical(
                (#[trigger] movepicker::tactical_upto(pk, p, ms, n)[i]).mv,
            ) && ms.take(n).contains(movepicker::tactical_upto(pk, p, ms, n)[i].mv),
        forall|mv: Move|
            #[trigger] listed(movepicker::tactical_upto(pk, p, ms, n), mv) <==> (movepicker::tactical(mv) && ms.take(
                n,
            ).contains(mv)),
    decreases n,
{
    let all = movepicker::tactical_upto(pk, p, ms, n);
    if n > 0 {
        let rest = movepicker::tactical_upto(pk, p, ms, n - 1);
        let x = ms[n - 1];
        lemma_tactical_list(pk, p, ms, n - 1);
        if movepicker::tactical(x) {
            assert(all.drop_last() =~= rest);
        }
        lemma_list_grows(rest, all, ms, n, x, movepicker::tactical(x));
        assert forall|mv: Move| #[trigger] listed(all, mv) <==> (movepicker::tactical(mv) && ms.take(n).contains(mv)) by {
            assert(listed(rest, mv) <==> (movepicker::tactical(mv) && ms.take(n - 1).contains(mv)));
        }
        assert forall|i: int| 0 <= i < all.len() implies movepicker::tactical((#[trigger] all[i]).mv) && ms.take(
            n,
        ).contains(all[i].mv) by {
            assert(listed(all, all[i].mv));
        }
    } else {
        assert(ms.take(0) =~= Seq::empty());
    }
}

proof fn lemma_quiet_list(pk: PickerV, p: PositionV, h: HistoryV, ms: Seq<Move>, n: int)
    requires
        0 <= n <= ms.len(),
        ms.no_duplicates(),
    ensures
        distinct(movepicker::quiet_upto(pk, p, h, ms, n)),
        forall|i: int|
            0 <= i < movepicker::quiet_upto(pk, p, h, ms, n).len() ==> ms.take(n).contains(
                (#[trigger] movepicker::quiet_upto(pk, p, h, ms, n)[i]).mv,
            ),
        forall|mv: Move|
            #[trigger] listed(movepicker::quiet_upto(pk, p, h, ms, n), mv) <==> (!movepicker::tactical(mv)
                && ms.take(n).contains(mv)),
    decreases n,
{
    let all = movepicker::quiet_upto(pk, p, h, ms, n);
    if n > 0 {
        let rest = movepicker::quiet_upto(pk, p, h, ms, n - 1);
        let x = ms[n - 1];
        lemma_quiet_list(pk, p, h, ms, n - 1);
        if !movepicker::tactical(x) {
            assert(all.drop_last() =~= rest);
        }
        lemma_list_grows(rest, all, ms, n, x, !movepicker::tactical(x));
        assert forall|mv: Move| #[trigger] listed(all, mv) <==> (!movepicker::tactical(mv) && ms.take(n).contains(mv)) by {
            assert(listed(rest, mv) <==> (!movepicker::tactical(mv) && ms.take(n - 1).contains(mv)));
        }
        assert forall|i: int| 0 <= i < all.len() implies ms.take(n).contains((#[trigger] all[i]).mv) by {
            assert(listed(all, all[i].mv));
        }
    } else {
        assert(ms.take(0) =~= Seq::empty());
    }
}

/// A list to which move number `n - 1` of `ms` was added, if it was taken.
proof fn lemma_list_grows(rest: Seq<Scored>, all: Seq<Scored>, ms: Seq<Move>, n: int, x: Move, taken: bool)
    requires
        0 < n <= ms.len(),
        ms.no_duplicates(),
        x == ms[n - 1],
        distinct(rest),
        forall|i: int| 0 <= i < rest.len() ==> ms.take(n - 1).contains((#[trigger] rest[i]).mv),
        !taken ==> all == rest,
        taken ==> all.len() == rest.len() + 1 && all.last().mv == x && all.drop_last() == rest,
    ensures
        distinct(all),
        forall|mv: Move| #[trigger] listed(all, mv) <==> (listed(rest, mv) || (taken && mv == x)),
        forall|mv: Move| #[trigger] ms.take(n).contains(mv) <==> (ms.take(n - 1).contains(mv) || mv == x),
{
    let (a, b) = (ms.take(n - 1), ms.take(n));
    assert(b =~= a.push(x));
    assert forall|mv: Move| #[trigger] b.contains(mv) <==> (a.contains(mv) || mv == x) by {
        if b.contains(mv) {
            let i = choose|i: int| 0 <= i < b.len() && b[i] == mv;
            if i < a.len() {
                assert(a[i] == mv);
            }
        }
        if a.contains(mv) {
            let i = choose|i: int| 0 <= i < a.len() && a[i] == mv;
            assert(b[i] == mv);
        }
        assert(b[a.len() as int] == x);
    }
    assert(!a.contains(x)) by {
        if a.contains(x) {
            let i = choose|i: int| 0 <= i < a.len() && a[i] == x;
            assert(ms[i] == x);
        }
    }
    if taken {
        assert forall|mv: Move| #[trigger] listed(all, mv) <==> (listed(rest, mv) || mv == x) by {
            if listed(all, mv) {
                let i = choose|i: int| 0 <= i < all.len() && (#[trigger] all[i]).mv == mv;
                if i < rest.len() {
                    assert(rest[i].mv == mv);
                }
            }
            if listed(rest, mv) {
                let i = choose|i: int| 0 <= i < rest.len() && (#[trigger] rest[i]).mv == mv;
                assert(all[i] == rest[i]);
                assert(all[i].mv == mv);
            }
            assert(all[rest.len() as int].mv == x);
        }
        assert forall|i: int, j: int| 0 <= i < j < all.len() implies (#[trigger] all[i]).mv != (#[trigger] all[j]).mv by {
            assert(all[i] == rest[i]);
            if j < rest.len() {
                assert(all[j] == rest[j]);
            } else {
                assert(a.contains(rest[i].mv));
            }
        }
    }
}

proof fn lemma_removed(list: Seq<Scored>, k: int)
    requires
        0 <= k < list.len(),
        distinct(list),
    ensures
        distinct(list.remove(k)),
        !listed(list.remove(k), list[k].mv),
        listed(list, list[k].mv),
        forall|mv: Move| mv != list[k].mv ==> (#[trigger] listed(list.remove(k), mv) <==> listed(list, mv)),
        forall|i: int| 0 <= i < list.remove(k).len() ==> listed(list, (#[trigger] list.remove(k)[i]).mv),
{
    let rest = list.remove(k);
    let place = |i: int|
        if i < k {
            i
        } else {
            i + 1
        };
    assert forall|i: int| 0 <= i < rest.len() implies #[trigger] rest[i] == list[place(i)] by {}
    assert forall|i: int, j: int| 0 <= i < j < rest.len() implies (#[trigger] rest[i]).mv != (#[trigger] rest[j]).mv by {
        assert(list[place(i)].mv != list[place(j)].mv);
    }
    assert forall|i: int| 0 <= i < rest.len() implies listed(list, (#[trigger] rest[i]).mv) && rest[i].mv
        != list[k].mv by {
        assert(list[place(i)].mv == rest[i].mv);
        if place(i) < k {
            assert(list[place(i)].mv != list[k].mv);
        } else {
            assert(list[k].mv != list[place(i)].mv);
        }
    }
    assert forall|mv: Move| mv != list[k].mv implies (#[trigger] listed(rest, mv) <==> listed(list, mv)) by {
        if listed(list, mv) {
            let i = choose|i: int| 0 <= i < list.len() && (#[trigger] list[i]).mv == mv;
            if i < k {
                assert(rest[i].mv == mv);
            } else {
                assert(rest[i - 1].mv == mv);
            }
        }
    }
}

/// What one pick does to what is still to come.
pub open spec fn picks_one(pk: PickerV, p: PositionV, r: (Option<Move>, PickerV)) -> bool {
    match r {
        (Some(m), next) => {
            &&& tidy(next, p)
            &&& pending(pk, p, m)
            &&& !pending(next, p, m)
            &&& forall|mv: Move| mv != m ==> (#[trigger] pending(next, p, mv) <==> pending(pk, p, mv))
        },
        (None, _) => forall|mv: Move| !#[trigger] pending(pk, p, mv),
    }
}

proof fn lemma_same_pending(a: PickerV, b: PickerV, p: PositionV, r: (Option<Move>, PickerV))
    requires
        picks_one(b, p, r),
        forall|mv: Move| #[trigger] pending(b, p, mv) <==> pending(a, p, mv),
    ensures
        picks_one(a, p, r),
{
    if r.0 is None {
        assert forall|mv: Move| !#[trigger] pending(a, p, mv) by {
            assert(!pending(b, p, mv));
        }
    } else {
        let (m, next) = (r.0.unwrap(), r.1);
        assert(pending(b, p, m));
        assert forall|mv: Move| mv != m implies (#[trigger] pending(next, p, mv) <==> pending(a, p, mv)) by {
            assert(pending(b, p, mv) <==> pending(a, p, mv));
        }
    }
}

/// A picker hands out, one by one, exactly the moves that are pending: the next move was pending and no
/// longer is, all others stay as they were, and it ends only when nothing is pending. A fresh picker's
/// pending moves are all pseudo-legal moves. The history may change between two picks.
pub proof fn law_picker_complete(pk: PickerV, p: PositionV, h: HistoryV)
    requires
        tidy(pk, p),
    ensures
        picks_one(pk, p, movepicker::pick(pk, p, h)),
    decreases 8 - pk.stage, pk.list.len(),
{
    let ms = movegen::pseudo_moves(p);
    let n = ms.len() as int;
    movegen::law_pseudo_moves_exact(p);
    assert(ms.take(n) =~= ms);
    if pk.stage == STAGE_HASH {
        let next = PickerV { stage: STAGE_LIST_TACTICAL, ..pk };
        if pk.hash_move is None {
            law_picker_complete(next, p, h);
            assert forall|mv: Move| #[trigger] pending(next, p, mv) <==> pending(pk, p, mv) by {}
            lemma_same_pending(pk, next, p, movepicker::pick(next, p, h));
        }
    } else if pk.stage == STAGE_LIST_TACTICAL {
        let next = PickerV { stage: STAGE_TACTICAL, list: movepicker::tactical_upto(pk, p, ms, n), ..pk };
        lemma_tactical_list(pk, p, ms, n);
        law_picker_complete(next, p, h);
        assert forall|mv: Move| #[trigger] pending(next, p, mv) <==> pending(pk, p, mv) by {
            assert(listed(next.list, mv) <==> (movepicker::tactical(mv) && ms.take(n).contains(mv)));
            assert(movegen::pseudo_legal(p, mv) <==> ms.contains(mv));
        }
        lemma_same_pending(pk, next, p, movepicker::pick(next, p, h));
    } else if pk.stage == STAGE_TACTICAL {
        if pk.list.len() == 0 {
            let next = PickerV { stage: STAGE_KILLER_ONE, ..pk };
            law_picker_complete(next, p, h);
            assert forall|mv: Move| #[trigger] pending(next, p, mv) <==> pending(pk, p, mv) by {}
            lemma_same_pending(pk, next, p, movepicker::pick(next, p, h));
        } else {
            let k = movepicker::top(pk.list);
            let m = pk.list[k].mv;
            let next = PickerV { list: pk.list.remove(k), ..pk };
            movepicker::lemma_top(pk.list, pk.list.len() as int);
            lemma_removed(pk.list, k);
            assert(tidy(next, p)) by {
                assert forall|i: int| 0 <= i < next.list.len() implies movepicker::tactical(
                    (#[trigger] next.list[i]).mv,
                ) by {
                    let j = choose|j: int| 0 <= j < pk.list.len() && (#[trigger] pk.list[j]).mv == next.list[i].mv;
                    assert(listed(pk.list, next.list[i].mv));
                }
            }
            assert(movepicker::tactical(pk.list[k].mv));
            assert forall|mv: Move| mv != m implies (#[trigger] pending(next, p, mv) <==> pending(pk, p, mv)) by {
                assert(listed(next.list, mv) <==> listed(pk.list, mv));
            }
            if pk.hash_move == Some(m) {
                law_picker_complete(next, p, h);
                assert forall|mv: Move| #[trigger] pending(next, p, mv) <==> pending(pk, p, mv) by {}
                lemma_same_pending(pk, next, p, movepicker::pick(next, p, h));
            }
        }
    } else if pk.stage == STAGE_KILLER_ONE {
        let next = PickerV { stage: STAGE_KILLER_TWO, ..pk };
        if !movepicker::usable(pk, p, pk.killers.0) {
            law_picker_complete(next, p, h);
            assert forall|mv: Move| #[trigger] pending(next, p, mv) <==> pending(pk, p, mv) by {
                if movegen::pseudo_legal(p, mv) {
                    lemma_null_unplayable(p, mv);
                }
            }
            lemma_same_pending(pk, next, p, movepicker::pick(next, p, h));
        }
    } else if pk.stage == STAGE_KILLER_TWO {
        let next = PickerV { stage: STAGE_LIST_QUIET, ..pk };
        if !(movepicker::usable(pk, p, pk.killers.1) && pk.killers.1 != pk.killers.0) {
            law_picker_complete(next, p, h);
            assert forall|mv: Move| #[trigger] pending(next, p, mv) <==> pending(pk, p, mv) by {
                if movegen::pseudo_legal(p, mv) {
                    lemma_null_unplayable(p, mv);
                }
            }
            lemma_same_pending(pk, next, p, movepicker::pick(next, p, h));
        }
    } else if pk.stage == STAGE_LIST_QUIET {
        let next = PickerV { stage: STAGE_QUIET, list: movepicker::quiet_upto(pk, p, h, ms, n), ..pk };
        lemma_quiet_list(pk, p, h, ms, n);
        law_picker_complete(next, p, h);
        assert forall|mv: Move| #[trigger] pending(next, p, mv) <==> pending(pk, p, mv) by {
            assert(listed(next.list, mv) <==> (!movepicker::tactical(mv) && ms.take(n).contains(mv)));
            assert(movegen::pseudo_legal(p, mv) <==> ms.contains(mv));
        }
        lemma_same_pending(pk, next, p, movepicker::pick(next, p, h));
    } else if pk.stage == STAGE_QUIET {
        if pk.list.len() > 0 {
            let k = movepicker::top(pk.list);
            let m = pk.list[k].mv;
            let next = PickerV { list: pk.list.remove(k), ..pk };
            movepicker::lemma_top(pk.list, pk.list.len() as int);
            lemma_removed(pk.list, k);
            assert forall|mv: Move| mv != m implies (#[trigger] pending(next, p, mv) <==> pending(pk, p, mv)) by {
                assert(listed(next.list, mv) <==> listed(pk.list, mv));
            }
            if movepicker::already_given(pk, m) {
                law_picker_complete(next, p, h);
                assert forall|mv: Move| #[trigger] pending(next, p, mv) <==> pending(pk, p, mv) by {}
                lemma_same_pending(pk, next, p, movepicker::pick(next, p, h));
            }
        }
    }
}

/// A fresh picker of the main search has all pseudo-legal moves still to hand out.
pub proof fn law_fresh_picker(pk: PickerV, p: PositionV)
    requires
        pk.stage == STAGE_HASH,
        !pk.noisy_only,
        pk.hash_move matches Some(m) ==> movegen::pseudo_legal(p, m),
    ensures
        tidy(pk, p),
        forall|mv: Move| #[trigger] pending(pk, p, mv) <==> movegen::pseudo_legal(p, mv),
{
}

} // verus!
