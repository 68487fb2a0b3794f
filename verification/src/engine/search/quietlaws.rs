//! What quiescence amounts to: a position is judged only once its captures and queen promotions are resolved.

use vstd::prelude::*;
use crate::board::model::PositionV;
use crate::engine::history::HistoryV;
use crate::engine::movegen;
use crate::engine::movepicker;
use crate::engine::movepicker::{PickerV, STAGE_HASH, STAGE_LIST_TACTICAL, STAGE_TACTICAL};
use crate::engine::pickerlaws;
use crate::engine::play;
use crate::engine::search::laws;
use crate::engine::search::matelaws;
use crate::engine::search::model as run;
use crate::engine::search::model::{Env, Gate, NodeKind, QuietTurn, QuietV, Tree};
use crate::engine::search::searchlaws;
use crate::engine::search::searchlaws::Place;
use crate::engine::see;
use crate::moves::Move;
use crate::types::INF;

verus! {

/// The move takes a piece, or promotes a pawn to a queen.
pub open spec fn noisy(p: PositionV, mv: Move) -> bool {
    ||| p.board[mv.dst()] matches Some(x) && x.color != p.stm
    ||| mv.kind() == 5
    ||| mv.kind() == 11
    ||| mv.kind() == 15
}

/// `v` is what quiescence of the position behind `mv` came to, seen from the side that plays `mv`.
pub open spec fn quiet_behind(env: Env, w: Place, mv: Move, ply: int, v: int) -> bool {
    exists|x: Tree, kind: NodeKind, a: int, b: int|
        searchlaws::stands_behind(x, w, mv) && (#[trigger] run::quiet_node(env, x, kind, a, b, ply + 1)).1 == Some(-v)
}

/// A move onto an enemy piece is marked as a capture.
pub proof fn law_captures_marked(p: PositionV, mv: Move)
    requires
        movegen::pseudo_legal(p, mv),
        p.board[mv.dst()] matches Some(x) && x.color != p.stm,
    ensures
        mv.kind() == 4 || mv.kind() >= 12,
{
    let (s, d) = (mv.src(), mv.dst());
    let ms = movegen::moves_between(p, s, d);
    let i = choose|i: int| 0 <= i < ms.len() && ms[i] == mv;
    assert(ms[i] == mv);
    movegen::lemma_encoded(s, d, 4);
    movegen::lemma_encoded(s, d, 12);
    movegen::lemma_encoded(s, d, 13);
    movegen::lemma_encoded(s, d, 14);
    movegen::lemma_encoded(s, d, 15);
}

// ──────── The picker of captures ────────

/// The move will still be handed out by a picker of captures and queen promotions.
spec fn noisy_pending(pk: PickerV, p: PositionV, mv: Move) -> bool {
    if pk.stage == STAGE_HASH {
        pk.hash_move == Some(mv) || (movegen::pseudo_legal(p, mv) && movepicker::wanted(true, mv))
    } else if pk.stage == STAGE_LIST_TACTICAL {
        movegen::pseudo_legal(p, mv) && movepicker::wanted(true, mv) && pk.hash_move != Some(mv)
    } else if pk.stage == STAGE_TACTICAL {
        pickerlaws::listed(pk.list, mv) && pk.hash_move != Some(mv)
    } else {
        false
    }
}

proof fn lemma_noisy_list(pk: PickerV, p: PositionV, ms: Seq<Move>, n: int, mv: Move)
    requires
        pk.noisy_only,
        0 <= n <= ms.len(),
    ensures
        pickerlaws::listed(movepicker::tactical_upto(pk, p, ms, n), mv) <==> movepicker::wanted(true, mv) && exists|
            i: int,
        |
            0 <= i < n && #[trigger] ms[i] == mv,
    decreases n,
{
    if n > 0 {
        lemma_noisy_list(pk, p, ms, n - 1, mv);
        let rest = movepicker::tactical_upto(pk, p, ms, n - 1);
        let all = movepicker::tactical_upto(pk, p, ms, n);
        if pickerlaws::listed(all, mv) {
            let i = choose|i: int| 0 <= i < all.len() && (#[trigger] all[i]).mv == mv;
            if i < rest.len() {
                assert(rest[i] == all[i]);
                assert(pickerlaws::listed(rest, mv));
            } else {
                assert(ms[n - 1] == mv);
            }
        }
        if pickerlaws::listed(rest, mv) {
            let i = choose|i: int| 0 <= i < rest.len() && (#[trigger] rest[i]).mv == mv;
            assert(all[i] == rest[i]);
        }
        if movepicker::wanted(true, mv) && ms[n - 1] == mv {
            assert(all[rest.len() as int].mv == mv);
        }
    }
}

/// What one pick does to the moves still to come: the one that comes is gone or was another, and the end comes
/// only when none is left.
proof fn lemma_noisy_pick(pk: PickerV, p: PositionV, h: HistoryV, good: Move)
    requires
        pk.noisy_only,
        noisy_pending(pk, p, good),
    ensures
        ({
            let (m, next) = movepicker::pick(pk, p, h);
            &&& m is Some
            &&& m != Some(good) ==> noisy_pending(next, p, good)
            &&& next.noisy_only
        }),
    decreases 8 - pk.stage, pk.list.len(),
{
    let ms = movegen::pseudo_moves(p);
    if pk.stage == STAGE_HASH {
        if pk.hash_move is None {
            lemma_noisy_pick(PickerV { stage: STAGE_LIST_TACTICAL, ..pk }, p, h, good);
        }
    } else if pk.stage == STAGE_LIST_TACTICAL {
        let n = ms.len() as int;
        movegen::law_pseudo_moves_exact(p);
        assert(ms.contains(good));
        lemma_noisy_list(pk, p, ms, n, good);
        let i = choose|i: int| 0 <= i < ms.len() && ms[i] == good;
        assert(ms[i] == good);
        lemma_noisy_pick(
            PickerV { stage: STAGE_TACTICAL, list: movepicker::tactical_upto(pk, p, ms, n), ..pk },
            p,
            h,
            good,
        );
    } else {
        let i = choose|i: int| 0 <= i < pk.list.len() && (#[trigger] pk.list[i]).mv == good;
        movepicker::lemma_top(pk.list, pk.list.len() as int);
        let k = movepicker::top(pk.list);
        let next = PickerV { list: pk.list.remove(k), ..pk };
        if pk.list[k].mv != good {
            let j = if i < k {
                i
            } else {
                i - 1
            };
            assert(next.list[j] == pk.list[i]);
            assert(pickerlaws::listed(next.list, good));
            if pk.hash_move == Some(pk.list[k].mv) {
                lemma_noisy_pick(next, p, h, good);
            }
        }
    }
}

// ──────── Completeness ────────

/// Quiescence searches the move: it is legal and, out of check, its exchange does not lose material.
pub open spec fn worth_resolving(p: PositionV, mv: Move) -> bool {
    movegen::legal(p, mv) && (run::checked(p) || see::balance(p, mv) >= 0)
}

proof fn lemma_quiet_step_added(env: Env, t: Tree, kind: NodeKind, beta: int, ply: int, q: QuietV, mv: Move)
    requires
        ply < 256,
    ensures
        match run::quiet_step(env, t, kind, beta, ply, q, mv) {
            QuietTurn::Stop(u, None) => searchlaws::place(u) == searchlaws::place(t),
            QuietTurn::Stop(u, Some(f)) => {
                &&& f.best_eval >= beta
                &&& f.best_eval >= q.best_eval
                &&& worth_resolving(t.pos, mv) && quiet_behind(env, searchlaws::place(t), mv, ply, f.best_eval)
            },
            QuietTurn::More(u, f) => {
                &&& searchlaws::place(u) == searchlaws::place(t)
                &&& f.best_eval >= q.best_eval
                &&& worth_resolving(t.pos, mv) ==> exists|w: int|
                    #[trigger] quiet_behind(env, searchlaws::place(t), mv, ply, w) && w <= f.best_eval
                &&& f.best_eval > q.best_eval ==> worth_resolving(t.pos, mv) && quiet_behind(
                    env,
                    searchlaws::place(t),
                    mv,
                    ply,
                    f.best_eval,
                )
            },
        },
{
    reveal(run::quiet_step);
    reveal(run::quiet_node);
    reveal(play::after);
    reveal(play::acc_after);
    laws::lemma_quiet_step(env, t, kind, beta, ply, q, mv);
    if worth_resolving(t.pos, mv) {
        let x = run::descended(t, mv);
        if let Some(v) = run::quiet_node(env, x, kind, -beta, -q.alpha, ply + 1).1 {
            assert(v == -(-v));
            assert(quiet_behind(env, searchlaws::place(t), mv, ply, -v));
        }
    }
}

proof fn lemma_quiet_loop_grows(env: Env, t: Tree, kind: NodeKind, beta: int, ply: int, q: QuietV, pk: PickerV)
    requires
        ply < 256,
    ensures
        run::quiet_loop(env, t, kind, beta, ply, q, pk).1 matches Some(f) ==> f.best_eval >= q.best_eval,
    decreases 8 - pk.stage, pk.list.len(),
{
    reveal(run::quiet_loop);
    reveal(run::quiet_step);
    reveal(run::quiet_node);
    movepicker::lemma_pick_advances(pk, t.pos, t.hist);
    if let (Some(mv), next) = movepicker::pick(pk, t.pos, t.hist) {
        lemma_quiet_step_added(env, t, kind, beta, ply, q, mv);
        if let QuietTurn::More(t2, q2) = run::quiet_step(env, t, kind, beta, ply, q, mv) {
            lemma_quiet_loop_grows(env, t2, kind, beta, ply, q2, next);
        }
    }
}

proof fn lemma_evasions_complete(
    env: Env,
    t: Tree,
    kind: NodeKind,
    beta: int,
    ply: int,
    q: QuietV,
    pk: PickerV,
    good: Move,
)
    requires
        ply < 256,
        run::checked(t.pos),
        pickerlaws::tidy(pk, t.pos),
        pickerlaws::pending(pk, t.pos, good),
        movegen::legal(t.pos, good),
    ensures
        run::quiet_loop(env, t, kind, beta, ply, q, pk).1 matches Some(f) ==> f.best_eval < beta ==> exists|w: int|
            #[trigger] quiet_behind(env, searchlaws::place(t), good, ply, w) && w <= f.best_eval,
    decreases 8 - pk.stage, pk.list.len(),
{
    reveal(run::quiet_loop);
    reveal(run::quiet_step);
    reveal(run::quiet_node);
    movepicker::lemma_pick_advances(pk, t.pos, t.hist);
    pickerlaws::law_picker_complete(pk, t.pos, t.hist);
    let (m, next) = movepicker::pick(pk, t.pos, t.hist);
    if m is None {
        assert(!pickerlaws::pending(pk, t.pos, good));
    } else {
        let mv = m.unwrap();
        lemma_quiet_step_added(env, t, kind, beta, ply, q, mv);
        if let QuietTurn::More(t2, q2) = run::quiet_step(env, t, kind, beta, ply, q, mv) {
            if mv == good {
                lemma_quiet_loop_grows(env, t2, kind, beta, ply, q2, next);
                if let Some(f) = run::quiet_loop(env, t2, kind, beta, ply, q2, next).1 {
                    let w = choose|w: int| #[trigger] quiet_behind(env, searchlaws::place(t), good, ply, w) && w <= q2.best_eval;
                    assert(quiet_behind(env, searchlaws::place(t), good, ply, w) && w <= f.best_eval);
                }
            } else {
                assert(pickerlaws::pending(next, t.pos, good));
                lemma_evasions_complete(env, t2, kind, beta, ply, q2, next, good);
            }
        }
    }
}

/// In check there is no standing pat: a quiescence node that the table does not settle searches every legal
/// move, unless it is aborted or cut off, and its score is at least what came out behind each of them.
pub proof fn law_evasions_complete(env: Env, t: Tree, kind: NodeKind, alpha: int, beta: int, ply: int, good: Move)
    requires
        ply < 256,
        run::checked(t.pos),
        run::entry(env, t, ply).1 == Gate::Open,
        run::quiet_table_cut(run::entry(env, t, ply).0, kind, alpha, beta, ply) is None,
        movegen::legal(t.pos, good),
    ensures
        run::quiet_node(env, t, kind, alpha, beta, ply).1 matches Some(v) ==> v < beta ==> exists|w: int|
            #[trigger] quiet_behind(env, searchlaws::place(t), good, ply, w) && w <= v,
{
    reveal(run::quiet_node);
    reveal(run::quiet_loop);
    reveal(run::quiet_conclude);
    reveal(run::stand_pat);
    reveal(run::table_move);
    laws::lemma_entry(env, t, ply);
    let t1 = run::entry(env, t, ply).0;
    let q = run::stand_pat(env.cfg, t1, alpha, beta)->Ok_0;
    let hash_move = run::table_move(t1, ply);
    let pk = matelaws::quiet_picker(env.cfg, t1.pos, hash_move);
    pickerlaws::law_fresh_picker(pk, t1.pos);
    assert(pickerlaws::pending(pk, t1.pos, good));
    lemma_evasions_complete(env, t1, kind, beta, ply, q, pk, good);
    matelaws::law_quiet_evasion(env, t1, kind, beta, ply, q, hash_move, good);
    laws::lemma_quiet_loop(env, t1, kind, beta, ply, q, pk);
}

proof fn lemma_quiet_loop_complete(
    env: Env,
    t: Tree,
    kind: NodeKind,
    beta: int,
    ply: int,
    q: QuietV,
    pk: PickerV,
    good: Move,
)
    requires
        ply < 256,
        !run::checked(t.pos),
        pk.noisy_only,
        noisy_pending(pk, t.pos, good),
        movegen::legal(t.pos, good),
        see::balance(t.pos, good) >= 0,
    ensures
        run::quiet_loop(env, t, kind, beta, ply, q, pk).1 matches Some(f) ==> f.best_eval < beta ==> exists|w: int|
            #[trigger] quiet_behind(env, searchlaws::place(t), good, ply, w) && w <= f.best_eval,
    decreases 8 - pk.stage, pk.list.len(),
{
    reveal(run::quiet_loop);
    reveal(run::quiet_step);
    reveal(run::quiet_node);
    movepicker::lemma_pick_advances(pk, t.pos, t.hist);
    lemma_noisy_pick(pk, t.pos, t.hist, good);
    let (m, next) = movepicker::pick(pk, t.pos, t.hist);
    let mv = m.unwrap();
    lemma_quiet_step_added(env, t, kind, beta, ply, q, mv);
    if let QuietTurn::More(t2, q2) = run::quiet_step(env, t, kind, beta, ply, q, mv) {
        if mv == good {
            lemma_quiet_loop_grows(env, t2, kind, beta, ply, q2, next);
            if let Some(f) = run::quiet_loop(env, t2, kind, beta, ply, q2, next).1 {
                let w = choose|w: int| #[trigger] quiet_behind(env, searchlaws::place(t), good, ply, w) && w <= q2.best_eval;
                assert(quiet_behind(env, searchlaws::place(t), good, ply, w) && w <= f.best_eval);
            }
        } else {
            lemma_quiet_loop_complete(env, t2, kind, beta, ply, q2, next, good);
        }
    }
}

/// The best score of a quiescence node out of check is `ev`, or that of a legal move that loses no material.
pub open spec fn quiet_earned(env: Env, w: Place, ply: int, ev: int, v: int) -> bool {
    v == ev || exists|m: Move|
        #[trigger] movegen::legal(w.pos, m) && see::balance(w.pos, m) >= 0 && quiet_behind(env, w, m, ply, v)
}

proof fn lemma_quiet_loop_earned(
    env: Env,
    t: Tree,
    kind: NodeKind,
    beta: int,
    ply: int,
    q: QuietV,
    pk: PickerV,
    ev: int,
)
    requires
        ply < 256,
        !run::checked(t.pos),
        quiet_earned(env, searchlaws::place(t), ply, ev, q.best_eval),
    ensures
        run::quiet_loop(env, t, kind, beta, ply, q, pk).1 matches Some(f) ==> quiet_earned(
            env,
            searchlaws::place(t),
            ply,
            ev,
            f.best_eval,
        ),
    decreases 8 - pk.stage, pk.list.len(),
{
    reveal(run::quiet_loop);
    reveal(run::quiet_step);
    reveal(run::quiet_node);
    movepicker::lemma_pick_advances(pk, t.pos, t.hist);
    if let (Some(mv), next) = movepicker::pick(pk, t.pos, t.hist) {
        lemma_quiet_step_added(env, t, kind, beta, ply, q, mv);
        if let QuietTurn::More(t2, q2) = run::quiet_step(env, t, kind, beta, ply, q, mv) {
            lemma_quiet_loop_earned(env, t2, kind, beta, ply, q2, next, ev);
        }
    }
}

/// A quiescence node out of check that the table does not settle, and that neither stands pat nor gives up,
/// searches every legal capture and queen promotion whose exchange does not lose material, unless it is aborted
/// or cut off: its score is at least the static evaluation and at least what came out behind each of those
/// moves.
pub proof fn law_quiet_complete(env: Env, t: Tree, kind: NodeKind, alpha: int, beta: int, ply: int, good: Move)
    requires
        ply < 256,
        !run::checked(t.pos),
        run::entry(env, t, ply).1 == Gate::Open,
        run::quiet_table_cut(run::entry(env, t, ply).0, kind, alpha, beta, ply) is None,
        run::stand_pat(env.cfg, run::entry(env, t, ply).0, alpha, beta) is Ok,
        movegen::legal(t.pos, good),
        noisy(t.pos, good),
        see::balance(t.pos, good) >= 0,
    ensures
        run::quiet_node(env, t, kind, alpha, beta, ply).1 matches Some(v) ==> {
            &&& v >= run::corrected_eval(run::entry(env, t, ply).0)
            &&& v < beta ==> exists|w: int| #[trigger] quiet_behind(env, searchlaws::place(t), good, ply, w) && w <= v
        },
{
    reveal(run::quiet_node);
    reveal(run::quiet_loop);
    reveal(run::quiet_conclude);
    reveal(run::stand_pat);
    laws::lemma_entry(env, t, ply);
    let t1 = run::entry(env, t, ply).0;
    let q = run::stand_pat(env.cfg, t1, alpha, beta)->Ok_0;
    let pk = matelaws::quiet_picker(env.cfg, t1.pos, run::table_move(t1, ply));
    if t.pos.board[good.dst()] matches Some(x) && x.color != t.pos.stm {
        law_captures_marked(t.pos, good);
    }
    assert(noisy_pending(pk, t1.pos, good));
    lemma_quiet_loop_grows(env, t1, kind, beta, ply, q, pk);
    lemma_quiet_loop_complete(env, t1, kind, beta, ply, q, pk, good);
    laws::lemma_quiet_loop(env, t1, kind, beta, ply, q, pk);
}

/// And no other score comes out of such a node than the static evaluation or what came out behind a legal move
/// that loses no material.
pub proof fn law_quiet_earned(env: Env, t: Tree, kind: NodeKind, alpha: int, beta: int, ply: int)
    requires
        ply < 256,
        !run::checked(t.pos),
        run::entry(env, t, ply).1 == Gate::Open,
        run::quiet_table_cut(run::entry(env, t, ply).0, kind, alpha, beta, ply) is None,
        run::stand_pat(env.cfg, run::entry(env, t, ply).0, alpha, beta) is Ok,
    ensures
        run::quiet_node(env, t, kind, alpha, beta, ply).1 matches Some(v) ==> quiet_earned(
            env,
            searchlaws::place(t),
            ply,
            run::corrected_eval(run::entry(env, t, ply).0),
            v,
        ),
{
    reveal(run::quiet_node);
    reveal(run::quiet_loop);
    reveal(run::quiet_conclude);
    reveal(run::stand_pat);
    laws::lemma_entry(env, t, ply);
    let t1 = run::entry(env, t, ply).0;
    let q = run::stand_pat(env.cfg, t1, alpha, beta)->Ok_0;
    let pk = matelaws::quiet_picker(env.cfg, t1.pos, run::table_move(t1, ply));
    lemma_quiet_loop_earned(env, t1, kind, beta, ply, q, pk, run::corrected_eval(t1));
    laws::lemma_quiet_loop(env, t1, kind, beta, ply, q, pk);
}

// ──────── Standing pat ────────

/// An enemy piece of type number `k` is on the board.
pub open spec fn faces(p: PositionV, k: int) -> bool {
    exists|i: int| 0 <= i < 64 && (#[trigger] p.board[i] matches Some(x) && x.color != p.stm && x.pt.idx() == k)
}

/// Standing pat. In check nothing is decided, and no evaluation stands. Out of check an evaluation that reaches
/// `beta` is the score; the node is given up for `alpha` only if the evaluation, the margin and the value of the
/// most valuable enemy piece together stay below it; and otherwise the evaluation is the first score to beat.
pub proof fn law_stand_pat(env: Env, t: Tree, alpha: int, beta: int)
    ensures
        ({
            let ev = run::corrected_eval(t);
            let r = run::stand_pat(env.cfg, t, alpha, beta);
            &&& run::checked(t.pos) ==> (r matches Ok(q) && q.best_eval == -INF && q.alpha == alpha && !q.made)
            &&& !run::checked(t.pos) && ev >= beta ==> r == Err::<QuietV, int>(ev)
            &&& !run::checked(t.pos) && ev < beta ==> match r {
                Err(v) => {
                    &&& v == alpha
                    &&& forall|k: int|
                        0 <= k < 5 && #[trigger] faces(t.pos, k) && (forall|j: int| k < j < 5 ==> !faces(t.pos, j))
                            ==> ev + env.cfg.mvvlva_v@[k] + env.cfg.search_params.delta_margin < alpha
                    &&& (forall|j: int| 0 <= j < 5 ==> !faces(t.pos, j)) ==> ev + env.cfg.search_params.delta_margin
                        < alpha
                },
                Ok(q) => {
                    &&& q.best_eval == ev && !q.made
                    &&& q.alpha >= alpha && q.alpha >= ev && (q.alpha == alpha || q.alpha == ev)
                    &&& forall|k: int|
                        0 <= k < 5 && #[trigger] faces(t.pos, k) && (forall|j: int| k < j < 5 ==> !faces(t.pos, j))
                            ==> ev + env.cfg.mvvlva_v@[k] + env.cfg.search_params.delta_margin >= alpha
                },
            }
        }),
{
    reveal(run::stand_pat);
    lemma_priciest(env, t.pos, 4);
    assert forall|k: int|
        0 <= k < 5 && #[trigger] faces(t.pos, k) && (forall|j: int| k < j < 5 ==> !faces(t.pos, j)) implies run::priciest(
        env.cfg,
        t.pos.board,
        t.pos.stm.other(),
        4,
    ) == env.cfg.mvvlva_v@[k] by {
        assert(forall|j: int| k < j <= 4 ==> !faces(t.pos, j));
    }
}

proof fn lemma_priciest(env: Env, p: PositionV, n: int)
    requires
        -1 <= n <= 4,
    ensures
        forall|k: int|
            0 <= k <= n && #[trigger] faces(p, k) && (forall|j: int| k < j <= n ==> !faces(p, j)) ==> run::priciest(
                env.cfg,
                p.board,
                p.stm.other(),
                n,
            ) == env.cfg.mvvlva_v@[k],
        (forall|j: int| 0 <= j <= n ==> !faces(p, j)) ==> run::priciest(env.cfg, p.board, p.stm.other(), n) == 0,
    decreases n + 1,
{
    if n >= 0 {
        lemma_priciest(env, p, n - 1);
        let (b, c) = (p.board, p.stm.other());
        let there = exists|i: int|
            0 <= i < 64 && (#[trigger] b[i] matches Some(x) && x.color == c && x.pt.idx() == n);
        assert(there == faces(p, n)) by {
            if there {
                let i = choose|i: int|
                    0 <= i < 64 && (#[trigger] b[i] matches Some(x) && x.color == c && x.pt.idx() == n);
                assert(p.board[i] is Some);
            }
            if faces(p, n) {
                let i = choose|i: int|
                    0 <= i < 64 && (#[trigger] p.board[i] matches Some(x) && x.color != p.stm && x.pt.idx() == n);
                assert(b[i] is Some);
            }
        }
        assert forall|k: int|
            0 <= k <= n && #[trigger] faces(p, k) && (forall|j: int| k < j <= n ==> !faces(p, j)) implies run::priciest(
            env.cfg,
            b,
            c,
            n,
        ) == env.cfg.mvvlva_v@[k] by {
            if k < n {
                assert(!faces(p, n));
                assert(forall|j: int| k < j <= n - 1 ==> !faces(p, j));
            }
        }
    }
}

} // verus!
