//! What the history tables learn, and of what they learn nothing.

use vstd::prelude::*;
use crate::arith;
use crate::board::model;
use crate::board::model::PositionV;
use crate::engine::history;
use crate::engine::history::{ContContext, HistoryV};
use crate::engine::search::model as run;
use crate::engine::search::model::{Scene, Tree};
use crate::moves::Move;
use crate::types::{Color, PieceType};

verus! {

/// A bonus never lowers a score and a malus never raises one. From nothing a score becomes the bonus itself; at
/// its bound it stays there; and what a bonus does to a score, the malus of the same size does to its opposite.
pub proof fn law_pull(v: int, bonus: int)
    requires
        -16_384 <= v <= 16_384,
        -16_384 <= bonus <= 16_384,
    ensures
        bonus >= 0 ==> v <= history::pulled(v, bonus) <= 16_384,
        bonus <= 0 ==> -16_384 <= history::pulled(v, bonus) <= v,
        bonus > 0 && v < 16_384 - bonus ==> history::pulled(v, bonus) > v,
        history::pulled(0, bonus) == bonus,
        bonus >= 0 ==> history::pulled(16_384, bonus) == 16_384,
        bonus <= 0 ==> history::pulled(-16_384, bonus) == -16_384,
        history::pulled(-v, -bonus) == -history::pulled(v, bonus),
        v * bonus <= 0 ==> arith::magnitude(history::pulled(v, bonus) - v) >= arith::magnitude(bonus),
        v * bonus >= 0 ==> arith::magnitude(history::pulled(v, bonus) - v) <= arith::magnitude(bonus),
{
    let m: int = 16_384;
    let b = arith::magnitude(bonus);
    history::law_gravity_bound(v, bonus);
    assert(-m * b <= v * b <= m * b && (v >= 0 ==> v * b >= 0) && (v <= 0 ==> v * b <= 0)) by (nonlinear_arith)
        requires
            -m <= v <= m,
            0 <= b,
    ;
    assert((-v) * b == -(v * b)) by (nonlinear_arith);
    assert(0 * b == 0);
    assert(m * b / m == b) by (nonlinear_arith)
        requires
            m == 16_384,
    ;
    assert((-m) * b == -(m * b)) by (nonlinear_arith);
    assert(bonus >= 0 ==> v * bonus == v * b);
    assert(bonus < 0 ==> v * bonus == -(v * b)) by (nonlinear_arith)
        requires
            bonus < 0 ==> bonus == -b,
    ;
    if bonus > 0 && v < m - bonus {
        assert(v * b < m * b) by (nonlinear_arith)
            requires
                v < m,
                b > 0,
        ;
        assert(v * b / m < b) by (nonlinear_arith)
            requires
                v * b < m * b,
                m == 16_384,
        ;
    }
}

/// No two moves share a slot: not by side, origin and destination, and not by the move before, the piece and its
/// destination. Pawn structures share one only when their hashes agree modulo the number of slots.
pub proof fn law_slots_distinct(
    a: Color,
    b: Color,
    s: int,
    t: int,
    d: int,
    e: int,
    c1: ContContext,
    c2: ContContext,
    p: PieceType,
    q: PieceType,
    k: u64,
    l: u64,
)
    requires
        0 <= s < 64,
        0 <= t < 64,
        0 <= d < 64,
        0 <= e < 64,
        c1.to.wf(),
        c2.to.wf(),
    ensures
        history::main_slot(a, s, d) == history::main_slot(b, t, e) ==> a == b && s == t && d == e,
        history::cont_slot(c1, p, d) == history::cont_slot(c2, q, e) ==> c1 == c2 && p == q && d == e,
        history::corr_slot(a, k) == history::corr_slot(b, l) <==> a == b && k % 16_384 == l % 16_384,
        0 <= history::main_slot(a, s, d) < 8192,
        0 <= history::cont_slot(c1, p, d) < 200_704,
        0 <= history::corr_slot(a, k) < 32_768,
{
}

/// A reward raises the score of the move it is for, and leaves every other move of another origin, destination or
/// side alone, unless the same piece goes to the same square after the same move.
pub proof fn law_reward(
    h: HistoryV,
    stm: Color,
    pt: PieceType,
    s: int,
    d: int,
    cont: ContContext,
    bonus: int,
    stm2: Color,
    pt2: PieceType,
    s2: int,
    d2: int,
    cont2: ContContext,
)
    requires
        h.wf(),
        0 <= s < 64,
        0 <= d < 64,
        0 <= s2 < 64,
        0 <= d2 < 64,
        cont.to.wf(),
        cont2.to.wf(),
    ensures
        ({
            let g = h.rewarded(stm, pt, s, d, cont, bonus);
            &&& g.wf()
            &&& g.corr == h.corr
            &&& bonus >= 0 ==> g.quiet_score(stm, pt, s, d, cont) >= h.quiet_score(stm, pt, s, d, cont)
            &&& bonus <= 0 ==> g.quiet_score(stm, pt, s, d, cont) <= h.quiet_score(stm, pt, s, d, cont)
            &&& h.quiet_score(stm, pt, s, d, cont) == 0 && h.main[history::main_slot(stm, s, d)] == 0 && -16_384
                <= bonus <= 16_384 ==> g.quiet_score(stm, pt, s, d, cont) == 2 * bonus
            &&& (stm2, s2, d2) != (stm, s, d) && (cont2, pt2, d2) != (cont, pt, d) ==> g.quiet_score(
                stm2,
                pt2,
                s2,
                d2,
                cont2,
            ) == h.quiet_score(stm2, pt2, s2, d2, cont2)
        }),
{
    let c = history::capped(bonus);
    let (i, j) = (history::main_slot(stm, s, d), history::cont_slot(cont, pt, d));
    law_slots_distinct(stm, stm2, s, s2, d, d2, cont, cont2, pt, pt2, 0, 0);
    law_slots_distinct(stm2, stm, s2, s, d2, d, cont2, cont, pt2, pt, 0, 0);
    law_pull(h.main[i] as int, c);
    law_pull(h.cont[j] as int, c);
    law_pull(0, c);
}

proof fn lemma_punished(h: HistoryV, p: PositionV, qs: Seq<Move>, n: int, cont: ContContext, bonus: int, slot: int)
    requires
        h.wf(),
        0 <= n <= qs.len(),
        cont.to.wf(),
        -16_384 <= bonus <= 0,
        0 <= slot < 8192,
    ensures
        ({
            let g = run::punished(h, p, qs, n, cont, bonus);
            &&& g.wf()
            &&& g.corr == h.corr
            &&& g.main[slot] <= h.main[slot]
            &&& (forall|i: int|
                0 <= i < n ==> history::main_slot(p.stm, (#[trigger] qs[i]).src(), qs[i].dst()) != slot) ==> g.main[slot]
                == h.main[slot]
            &&& h.main[slot] == 0 && bonus < 0 && (exists|i: int|
                0 <= i < n && history::main_slot(p.stm, (#[trigger] qs[i]).src(), qs[i].dst()) == slot)
                ==> g.main[slot] < 0
        }),
    decreases n,
{
    if n > 0 {
        let q = qs[n - 1];
        let g = run::punished(h, p, qs, n - 1, cont, bonus);
        let pt = model::type_at(p.board, q.src());
        lemma_punished(h, p, qs, n - 1, cont, bonus, slot);
        law_reward(g, p.stm, pt, q.src(), q.dst(), cont, bonus, p.stm, pt, q.src(), q.dst(), cont);
        let k = history::main_slot(p.stm, q.src(), q.dst());
        law_slots_distinct(p.stm, p.stm, q.src(), q.src(), q.dst(), q.dst(), cont, cont, pt, pt, 0, 0);
        law_pull(g.main[k] as int, bonus);
        law_pull(0, bonus);
        let f = run::punished(h, p, qs, n, cont, bonus);
        assert(f == g.rewarded(p.stm, pt, q.src(), q.dst(), cont, bonus));
        assert(f.main[k] == history::pulled(g.main[k] as int, bonus));
        if slot != k {
            assert(f.main[slot] == g.main[slot]);
            if exists|i: int| 0 <= i < n && history::main_slot(p.stm, (#[trigger] qs[i]).src(), qs[i].dst()) == slot {
                let i = choose|i: int|
                    0 <= i < n && history::main_slot(p.stm, (#[trigger] qs[i]).src(), qs[i].dst()) == slot;
                assert(i < n - 1);
            }
        } else if h.main[slot] == 0 && bonus < 0 && g.main[slot] < 0 {
            assert(f.main[slot] <= g.main[slot]);
        }
    }
}

/// What a cutoff teaches. A quiet move that caused it gains: from nothing, the square of the depth, but at most 400.
/// Each quiet move that was tried before it loses, if anything, and one without a score does lose; a move that was
/// neither keeps its score. The evaluation's corrections stay.
pub proof fn law_cutoff_teaches(t: Tree, sc: Scene, mv: Move, appended: bool, other: Move)
    requires
        t.hist.wf(),
        0 <= sc.ply < t.stack.len(),
        sc.cont.to.wf(),
        1 <= sc.depth,
        appended ==> t.stack[sc.ply].quiets.len() > 0 && t.stack[sc.ply].quiets.last() == mv,
        (other.src(), other.dst()) != (mv.src(), mv.dst()),
    ensures
        ({
            let qs = t.stack[sc.ply].quiets;
            let g = run::taught(t, sc, mv, appended).hist;
            let n = if appended {
                qs.len() - 1
            } else {
                qs.len() as int
            };
            let (own, its) = (
                history::main_slot(t.pos.stm, mv.src(), mv.dst()),
                history::main_slot(t.pos.stm, other.src(), other.dst()),
            );
            let alone = forall|i: int|
                0 <= i < n ==> ((#[trigger] qs[i]).src(), qs[i].dst()) != (mv.src(), mv.dst());
            let tried = exists|i: int| 0 <= i < n && ((#[trigger] qs[i]).src(), qs[i].dst()) == (other.src(), other.dst());
            &&& g.corr == t.hist.corr
            &&& alone && mv.kind() <= 1 ==> g.main[own] >= t.hist.main[own]
            &&& alone && mv.kind() <= 1 && t.hist.main[own] == 0 ==> g.main[own] == arith::smaller(
                sc.depth * sc.depth,
                400,
            )
            &&& alone && mv.kind() > 1 ==> g.main[own] == t.hist.main[own]
            &&& tried ==> g.main[its] <= t.hist.main[its]
            &&& tried && t.hist.main[its] == 0 ==> g.main[its] < 0
            &&& !tried ==> g.main[its] == t.hist.main[its]
        }),
{
    reveal(run::taught);
    let p = t.pos;
    let qs = t.stack[sc.ply].quiets;
    let n = if appended {
        qs.len() - 1
    } else {
        qs.len() as int
    };
    let bonus = arith::smaller(sc.depth * sc.depth, 400);
    assert(sc.depth * sc.depth >= 1) by (nonlinear_arith)
        requires
            sc.depth >= 1,
    ;
    let pt = model::type_at(p.board, mv.src());
    let c = sc.cont;
    let h1 = if mv.kind() <= 1 {
        t.hist.rewarded(p.stm, pt, mv.src(), mv.dst(), c, bonus)
    } else {
        t.hist
    };
    let (own, its) = (
        history::main_slot(p.stm, mv.src(), mv.dst()),
        history::main_slot(p.stm, other.src(), other.dst()),
    );
    law_reward(t.hist, p.stm, pt, mv.src(), mv.dst(), c, bonus, p.stm, pt, mv.src(), mv.dst(), c);
    law_slots_distinct(p.stm, p.stm, mv.src(), other.src(), mv.dst(), other.dst(), c, c, pt, pt, 0, 0);
    law_slots_distinct(p.stm, p.stm, other.src(), mv.src(), other.dst(), mv.dst(), c, c, pt, pt, 0, 0);
    law_pull(t.hist.main[own] as int, bonus);
    law_pull(0, bonus);
    assert(mv.kind() <= 1 ==> h1.main[own] == history::pulled(t.hist.main[own] as int, bonus));
    assert(h1.main[its] == t.hist.main[its]);
    lemma_punished(h1, p, qs, n, c, -bonus, own);
    lemma_punished(h1, p, qs, n, c, -bonus, its);
    assert forall|i: int| 0 <= i < n implies (history::main_slot(p.stm, (#[trigger] qs[i]).src(), qs[i].dst()) == own
        <==> (qs[i].src(), qs[i].dst()) == (mv.src(), mv.dst())) && (history::main_slot(
        p.stm,
        qs[i].src(),
        qs[i].dst(),
    ) == its <==> (qs[i].src(), qs[i].dst()) == (other.src(), other.dst())) by {
        law_slots_distinct(p.stm, p.stm, qs[i].src(), mv.src(), qs[i].dst(), mv.dst(), c, c, pt, pt, 0, 0);
        law_slots_distinct(p.stm, p.stm, qs[i].src(), other.src(), qs[i].dst(), other.dst(), c, c, pt, pt, 0, 0);
    }
    assert(run::taught(t, sc, mv, appended).hist == run::punished(h1, p, qs, n, c, -bonus));
}

/// Fresh tables know nothing: every score and every correction is 0.
pub proof fn law_blank_history(stm: Color, pt: PieceType, s: int, d: int, cont: ContContext, key: u64)
    requires
        0 <= s < 64,
        0 <= d < 64,
        cont.to.wf(),
    ensures
        history::blank().wf(),
        history::blank().quiet_score(stm, pt, s, d, cont) == 0,
        history::blank().corr[history::corr_slot(stm, key)] == 0,
{
    law_slots_distinct(stm, stm, s, s, d, d, cont, cont, pt, pt, key, key);
}

/// A correction is drawn from where it was toward what was found, never past it and never away from it, and the
/// deeper the search the further.
pub proof fn law_correction_drawn(old: int, diff: int, depth: int)
    requires
        -16_384 <= old <= 16_384,
    ensures
        old <= diff * 256 ==> old - 1 <= history::drawn(old, diff, depth) <= arith::larger(old, diff * 256),
        diff * 256 <= old ==> arith::smaller(old, diff * 256) <= history::drawn(old, diff, depth) <= old + 1,
        -16_384 <= history::drawn(old, diff, depth) <= 16_384,
        old == diff * 256 ==> history::drawn(old, diff, depth) == old,
{
    let w = arith::clamped(depth + 1, 1, 16);
    let goal = diff * 256;
    let sum = old * (256 - w) + diff * 256 * w;
    assert(sum == 256 * old + (goal - old) * w) by (nonlinear_arith)
        requires
            sum == old * (256 - w) + diff * 256 * w,
            goal == diff * 256,
    ;
    assert(old <= goal ==> 0 <= (goal - old) * w <= 256 * (goal - old)) by (nonlinear_arith)
        requires
            1 <= w <= 16,
    ;
    assert(goal <= old ==> 256 * (goal - old) <= (goal - old) * w <= 0) by (nonlinear_arith)
        requires
            1 <= w <= 16,
    ;
}

/// The evaluation that a node works with is the static one, off by no more than what was learned about the pawn
/// structure, and it never looks like a mate.
pub proof fn law_corrected_eval(t: Tree)
    requires
        t.hist.wf(),
        crate::engine::eval::score_of(t.acc, t.pos.stm) <= 32_768,
        crate::engine::eval::score_of(t.acc, t.pos.stm) >= -32_768,
    ensures
        ({
            let raw = crate::engine::eval::score_of(t.acc, t.pos.stm);
            let learned = t.hist.corr[history::corr_slot(t.pos.stm, t.pos.pawn_hash)] as int;
            let ev = run::corrected_eval(t);
            &&& learned == 0 ==> ev == raw
            &&& learned >= 0 ==> raw <= ev && 256 * (ev - raw) <= learned < 256 * (ev - raw) + 256
            &&& learned <= 0 ==> ev <= raw && 256 * (ev - raw) >= learned > 256 * (ev - raw) - 256
            &&& -48_000 < ev < 48_000
        }),
{
    reveal(run::corrected_eval);
    law_slots_distinct(
        t.pos.stm,
        t.pos.stm,
        0,
        0,
        0,
        0,
        ContContext { pt: PieceType::Empty, to: crate::types::Square(0) },
        ContContext { pt: PieceType::Empty, to: crate::types::Square(0) },
        PieceType::Pawn,
        PieceType::Pawn,
        t.pos.pawn_hash,
        t.pos.pawn_hash,
    );
}

} // verus!
