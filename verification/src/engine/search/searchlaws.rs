//! What the search of a node amounts to: every move that counts is searched, and the best of them is found.

use vstd::prelude::*;
use crate::arith;
use crate::board::model;
use crate::board::model::PositionV;
use crate::engine::movegen;
use crate::engine::movepicker;
use crate::engine::movepicker::PickerV;
use crate::engine::pickerlaws;
use crate::engine::play;
use crate::engine::search::laws;
use crate::engine::search::line::{RootV, StackV};
use crate::engine::search::model as run;
use crate::engine::search::model::{Env, NodeKind, ResV, Scene, Tree, Turn};
use crate::moves::Move;
use crate::types::INF;

verus! {

/// Where a node stands: its position, the hashes of the positions up to it, and its vector sum.
pub struct Place {
    pub pos: PositionV,
    pub trail: Seq<u64>,
    pub acc: Seq<i16>,
}

pub open spec fn place(t: Tree) -> Place {
    Place { pos: t.pos, trail: t.trail, acc: t.acc }
}

/// The tree stands behind `mv`: the move is made on the board and in the vector sum, and the new position's hash
/// ends the trail.
pub open spec fn stands_behind(x: Tree, w: Place, mv: Move) -> bool {
    &&& x.pos == model::made(w.pos, mv)
    &&& x.trail == w.trail.push(x.pos.hash)
    &&& x.acc == model::acc_after(w.acc, w.pos.board, w.pos.stm, mv)
}

/// `v` is what a search to depth `d` of the position behind `mv` came to, seen from the side that plays `mv`.
pub open spec fn behind(env: Env, w: Place, mv: Move, ply: int, d: int, v: int) -> bool {
    exists|x: Tree, kind: NodeKind, a: int, b: int, hint: Option<Move>|
        stands_behind(x, w, mv) && (#[trigger] run::node(env, x, kind, d, a, b, ply + 1, hint)).1 == Some(-v)
}

/// `v` is what a search to depth `d` of the position behind `mv`, with the window from `alpha` to `beta`, came
/// to, seen from the side that plays `mv`.
pub open spec fn behind_in_window(env: Env, w: Place, mv: Move, ply: int, d: int, alpha: int, beta: int, v: int) -> bool {
    exists|x: Tree, kind: NodeKind, hint: Option<Move>|
        stands_behind(x, w, mv) && (#[trigger] run::node(env, x, kind, d, -beta, -alpha, ply + 1, hint)).1 == Some(
            -v,
        )
}

/// Principal variation search. Whatever comes out is the score of a search of the position behind the move:
/// for the first move to the full depth and with the whole window; for a later move that beats `alpha` to no
/// less than the full depth, and with the whole window if it stays below `beta`; for a later move that does not
/// beat `alpha` to the full depth or to the reduced one.
pub proof fn law_pvs(
    env: Env,
    t: Tree,
    w: Place,
    mv: Move,
    kind: NodeKind,
    depth: int,
    alpha: int,
    beta: int,
    ply: int,
    is_first: bool,
    is_pv_move: bool,
    reduction: int,
)
    requires
        ply < 256,
        stands_behind(t, w, mv),
    ensures
        run::scout(env, t, kind, depth, alpha, beta, ply, is_first, is_pv_move, reduction).1 matches Some(v) ==> {
            &&& is_first ==> behind_in_window(env, w, mv, ply, depth - 1, alpha, beta, v)
            &&& is_first || (v > alpha && reduction >= 0) ==> behind(env, w, mv, ply, depth - 1, v)
            &&& alpha < v < beta ==> behind_in_window(env, w, mv, ply, depth - 1, alpha, beta, v)
            &&& behind(env, w, mv, ply, depth - 1, v) || behind(env, w, mv, ply, depth - 1 - reduction, v)
        },
{
    reveal(run::scout);
    reveal(run::node);
    let next_pv = if kind.pv() && is_pv_move {
        crate::engine::search::line::move_at(env.prev_pv, ply + 1)
    } else {
        None
    };
    if is_first {
        let (t1, r) = run::node(env, t, kind.child(), depth - 1, -beta, -alpha, ply + 1, next_pv);
        if let Some(v) = r {
            assert(v == -(-v));
            assert(behind(env, w, mv, ply, depth - 1, -v));
            assert(behind_in_window(env, w, mv, ply, depth - 1, alpha, beta, -v));
        }
    } else {
        let (t1, r1) = run::node(env, t, NodeKind::NonPv, depth - 1 - reduction, -alpha - 1, -alpha, ply + 1, None);
        laws::law_search_restores(env, t, NodeKind::NonPv, depth - 1 - reduction, -alpha - 1, -alpha, ply + 1, None);
        let again = r1 matches Some(v) && -v > alpha && reduction > 0;
        let (t2, r2) = if again {
            run::node(env, t1, NodeKind::NonPv, depth - 1, -alpha - 1, -alpha, ply + 1, None)
        } else {
            (t1, r1)
        };
        laws::law_search_restores(env, t1, NodeKind::NonPv, depth - 1, -alpha - 1, -alpha, ply + 1, None);
        let wider = r2 matches Some(v) && -v > alpha && -v < beta;
        let (t3, r3) = if wider {
            run::node(env, t2, kind.child(), depth - 1, -beta, -alpha, ply + 1, next_pv)
        } else {
            (t2, r2)
        };
        if let Some(v) = r1 {
            assert(v == -(-v));
            assert(behind(env, w, mv, ply, depth - 1 - reduction, -v));
        }
        if let Some(v) = r2 {
            assert(v == -(-v));
            if again {
                assert(behind(env, w, mv, ply, depth - 1, -v));
            }
        }
        if let Some(v) = r3 {
            assert(v == -(-v));
            if wider {
                assert(behind(env, w, mv, ply, depth - 1, -v));
                assert(behind_in_window(env, w, mv, ply, depth - 1, alpha, beta, -v));
            }
        }
    }
}

// ──────── One move ────────

/// The score `v` of `mv` has been added to what was found so far: one move more, the best score is the larger
/// of the two, and the best move and alpha follow a new best.
pub open spec fn added(res: ResV, mv: Move, v: int, r: ResV) -> bool {
    &&& r.move_count == res.move_count + 1 || res.move_count >= usize::MAX
    &&& r.best_eval == arith::larger(res.best_eval, v)
    &&& r.best_move == if v > res.best_eval {
        mv
    } else {
        res.best_move
    }
    &&& r.alpha == if v > res.best_eval && v > res.alpha {
        v
    } else {
        res.alpha
    }
}

/// A move that is tried is played, searched, taken back, and its score added to what was found. At the root
/// the score is noted with the move.
proof fn lemma_tried_added(
    env: Env,
    t: Tree,
    kind: NodeKind,
    mv: Move,
    depth: int,
    res: ResV,
    beta: int,
    ply: int,
    root_idx: Option<int>,
    is_pv_move: bool,
    reduction: int,
) -> (w: (int, int))
    requires
        ply < 256,
        root_idx matches Some(i) ==> 0 <= i < t.roots.len() && t.roots[i].mv == mv,
        run::tried(env, t, kind, mv, depth, res, beta, ply, root_idx, is_pv_move, reduction).1 is Some,
    ensures
        ({
            let (u, r) = run::tried(env, t, kind, mv, depth, res, beta, ply, root_idx, is_pv_move, reduction);
            &&& behind(env, place(t), mv, ply, w.1, w.0)
            &&& w.1 >= depth - 1 || w.1 >= depth - 1 - reduction
            &&& w.0 > res.alpha && reduction >= 0 ==> behind(env, place(t), mv, ply, depth - 1, w.0)
            &&& added(res, mv, w.0, r.unwrap())
            &&& kind.root() && root_idx is Some ==> u.roots == t.roots.update(
                root_idx.unwrap(),
                RootV { score: w.0 as i32, pv: u.roots[root_idx.unwrap()].pv, mv },
            )
        }),
{
    reveal(run::tried);
    reveal(run::scout);
    reveal(run::mentioned);
    reveal(run::recorded);
    reveal(play::after);
    reveal(play::acc_after);
    let res1 = ResV { move_count: run::next_number(res.move_count), ..res };
    let t1 = run::mentioned(env, run::descended(t, mv), kind, depth, mv, res1.move_count);
    let eased = run::eased(t1.pos, reduction);
    let first = res1.move_count == 1;
    law_pvs(env, t1, place(t), mv, kind, depth, res.alpha, beta, ply, first, is_pv_move, eased);
    laws::lemma_scout(env, t1, kind, depth, res.alpha, beta, ply, first, is_pv_move, eased);
    let v = run::scout(env, t1, kind, depth, res.alpha, beta, ply, first, is_pv_move, eased).1.unwrap();
    let (u, r) = run::tried(env, t, kind, mv, depth, res, beta, ply, root_idx, is_pv_move, reduction);
    if kind.root() && root_idx is Some {
        let i = root_idx.unwrap();
        assert(u.roots =~= t.roots.update(i, RootV { score: v as i32, pv: u.roots[i].pv, mv }));
    }
    if behind(env, place(t), mv, ply, depth - 1, v) {
        (v, depth - 1)
    } else {
        (v, depth - 1 - eased)
    }
}

// ──────── The root ────────

/// The score of a root move is that of a search of the position behind it, and `best` is no less.
pub open spec fn root_scored(env: Env, w: Place, ply: int, x: RootV, best: int) -> bool {
    exists|v: int, d: int| #[trigger] behind(env, w, x.mv, ply, d, v) && x.score == v as i32 && v <= best
}

proof fn lemma_root_loop_scored(env: Env, t: Tree, sc: Scene, res: ResV, i: int, alpha: int)
    requires
        sc.kind.root(),
        sc.ply < 256,
        0 <= i <= t.roots.len() < usize::MAX,
        res.move_count == i,
        res.alpha == arith::larger(alpha, res.best_eval),
        forall|j: int| 0 <= j < i ==> root_scored(env, place(t), sc.ply, #[trigger] t.roots[j], res.best_eval),
        res.best_eval > alpha ==> exists|j: int|
            0 <= j < i && (#[trigger] t.roots[j]).mv == res.best_move && t.roots[j].score == res.best_eval as i32,
    ensures
        ({
            let (u, r) = run::root_loop(env, t, sc, res, i);
            r matches Some(f) ==> {
                &&& f.alpha == arith::larger(alpha, f.best_eval)
                &&& f.move_count >= i
                &&& i < t.roots.len() ==> f.move_count > i
                &&& f.alpha < sc.beta ==> {
                    &&& f.move_count == t.roots.len()
                    &&& u.roots.len() == t.roots.len()
                    &&& forall|j: int|
                        0 <= j < u.roots.len() ==> root_scored(env, place(t), sc.ply, #[trigger] u.roots[j], f.best_eval)
                    &&& f.best_eval > alpha ==> exists|j: int|
                        0 <= j < u.roots.len() && (#[trigger] u.roots[j]).mv == f.best_move && u.roots[j].score
                            == f.best_eval as i32
                }
            }
        }),
    decreases t.roots.len() - i,
{
    reveal(run::root_loop);
    reveal(run::tried);
    if i < t.roots.len() {
        let mv = t.roots[i].mv;
        let reduction = run::root_reduction(env.cfg, sc.depth, sc.in_check, i, mv);
        let first = sc.pv_move == Some(mv);
        laws::lemma_tried(env, t, sc.kind, mv, sc.depth, res, sc.beta, sc.ply, Some(i), first, reduction);
        let (t1, r) = run::tried(env, t, sc.kind, mv, sc.depth, res, sc.beta, sc.ply, Some(i), first, reduction);
        if r is Some {
            let f = r.unwrap();
            let (v, d) = lemma_tried_added(
                env,
                t,
                sc.kind,
                mv,
                sc.depth,
                res,
                sc.beta,
                sc.ply,
                Some(i),
                first,
                reduction,
            );
            assert(t1.roots[i].mv == mv && t1.roots[i].score == v as i32);
            assert(root_scored(env, place(t), sc.ply, t1.roots[i], f.best_eval));
            assert forall|j: int| 0 <= j < i + 1 implies root_scored(
                env,
                place(t),
                sc.ply,
                #[trigger] t1.roots[j],
                f.best_eval,
            ) by {
                if j < i {
                    assert(t1.roots[j] == t.roots[j]);
                    assert(root_scored(env, place(t), sc.ply, t.roots[j], res.best_eval));
                }
            }
            if f.best_eval > alpha {
                if v > res.best_eval {
                    assert(t1.roots[i].mv == f.best_move);
                } else {
                    let j = choose|j: int|
                        0 <= j < i && (#[trigger] t.roots[j]).mv == res.best_move && t.roots[j].score
                            == res.best_eval as i32;
                    assert(t1.roots[j] == t.roots[j]);
                    assert(t1.roots[j].mv == f.best_move && t1.roots[j].score == f.best_eval as i32);
                }
            }
            if f.alpha < sc.beta {
                lemma_root_loop_scored(env, t1, sc, f, i + 1, alpha);
            }
        }
    }
}

/// A search of the root moves that is neither aborted nor cut off has searched every one of them: each got the
/// score of a search of the position behind it, and the best score is at least as large as every one of these.
/// A best score above the window's lower end is that of the best move.
pub proof fn law_root_complete(env: Env, t: Tree, sc: Scene, alpha: int, hash_move: Option<Move>)
    requires
        sc.kind.root(),
        sc.ply < 256,
        t.roots.len() < usize::MAX,
        alpha >= -INF,
    ensures
        ({
            let (u, r) = run::all_moves(env, t, sc, alpha, hash_move);
            r matches Some(f) ==> {
                &&& f.alpha == arith::larger(alpha, f.best_eval)
                &&& t.roots.len() > 0 ==> f.move_count > 0
                &&& f.alpha < sc.beta ==> {
                    &&& f.move_count == t.roots.len()
                    &&& u.roots.len() == t.roots.len()
                    &&& forall|j: int|
                        0 <= j < u.roots.len() ==> root_scored(env, place(t), sc.ply, #[trigger] u.roots[j], f.best_eval)
                    &&& f.best_eval > alpha ==> exists|j: int|
                        0 <= j < u.roots.len() && (#[trigger] u.roots[j]).mv == f.best_move && u.roots[j].score
                            == f.best_eval as i32
                }
            }
        }),
{
    reveal(run::all_moves);
    reveal(run::root_loop);
    lemma_root_loop_scored(env, t, sc, run::no_result(alpha), 0, alpha);
}

/// The same of a whole root node: unless it is a draw, a result below `beta` means that every root move was
/// searched and that the result is no less than any of their scores; a result above `alpha` is the score of a
/// root move.
pub proof fn law_root_node(env: Env, t: Tree, depth: int, alpha: int, beta: int, pv_move: Option<Move>)
    requires
        !run::is_drawn(t.pos, 0, t.trail),
        depth >= 1,
        0 < t.roots.len() < usize::MAX,
        -INF <= alpha < beta,
    ensures
        ({
            let (u, r) = run::node(env, t, NodeKind::Root, depth, alpha, beta, 0, pv_move);
            r matches Some(v) ==> v < beta ==> {
                &&& u.roots.len() == t.roots.len()
                &&& forall|j: int| 0 <= j < u.roots.len() ==> (#[trigger] u.roots[j]).mv == t.roots[j].mv
                &&& forall|j: int|
                    0 <= j < u.roots.len() ==> root_scored(env, place(t), 0, #[trigger] u.roots[j], v)
                &&& v > alpha ==> exists|j: int| 0 <= j < u.roots.len() && (#[trigger] u.roots[j]).score == v as i32
            }
        }),
{
    reveal(run::node);
    reveal(run::expanded);
    reveal(run::entry);
    reveal(run::poll);
    reveal(run::counted);
    reveal(run::table_cut);
    reveal(run::razor_step);
    reveal(run::null_step);
    reveal(run::played_out);
    reveal(run::all_moves);
    reveal(run::conclude);
    let (u, r) = run::node(env, t, NodeKind::Root, depth, alpha, beta, 0, pv_move);
    laws::law_search_restores(env, t, NodeKind::Root, depth, alpha, beta, 0, pv_move);
    let (t1, gate) = run::entry(env, t, 0);
    laws::lemma_entry(env, t, 0);
    if r is Some && r.unwrap() < beta {
        let hint = run::table_move(t1, 0);
        let pv = run::playable_hint(t1.pos, pv_move);
        let chk = run::checked(t1.pos);
        let d = if chk {
            depth + 1
        } else {
            depth
        };
        let ev = if chk {
            crate::engine::tt::SCORE_NONE as int
        } else {
            run::corrected_eval(t1)
        };
        let t2 = run::with_ply(t1, 0, StackV { static_eval: ev as i32, ..t1.stack[0] });
        let sc = Scene {
            kind: NodeKind::Root,
            depth: run::reduced_without_hint(d, hint),
            beta,
            ply: 0,
            in_check: chk,
            static_eval: ev,
            pv_move: pv,
            cont: run::context(t2, 0),
        };
        law_root_complete(env, t2, sc, alpha, run::first_of(hint, pv));
        let (t3, f) = run::all_moves(env, t2, sc, alpha, run::first_of(hint, pv));
        assert(f is Some);
        assert(u.roots == t3.roots);
        let best = f.unwrap();
        assert(r == Some(best.best_eval));
        assert forall|j: int| 0 <= j < u.roots.len() implies root_scored(
            env,
            place(t),
            0,
            #[trigger] u.roots[j],
            r.unwrap(),
        ) by {
            assert(root_scored(env, place(t2), 0, t3.roots[j], best.best_eval));
        }
    }
}

// ──────── Interior nodes ────────

/// The move was searched, and `best` is no less than what came out.
pub open spec fn searched(env: Env, w: Place, ply: int, mv: Move, best: int) -> bool {
    exists|v: int, d: int| #[trigger] behind(env, w, mv, ply, d, v) && v <= best
}

/// The move was passed over by a pruning rule.
pub open spec fn passed_over(env: Env, p: PositionV, sc: Scene, mv: Move) -> bool {
    exists|r: ResV| #[trigger] run::skipped(env.cfg, p, sc, r, mv)
}

/// What one turn of the move loop does: the position stays, the best score does not fall, and a legal move was
/// searched or passed over.
proof fn lemma_move_step_added(env: Env, t: Tree, sc: Scene, res: ResV, mv: Move)
    requires
        sc.ply < 256,
    ensures
        match run::move_step(env, t, sc, res, mv) {
            Turn::Stop(u, None) => place(u) == place(t),
            Turn::Stop(u, Some(f)) => f.alpha >= sc.beta && f.best_eval >= res.best_eval && place(u) == place(t),
            Turn::More(u, f) => {
                &&& place(u) == place(t)
                &&& f.best_eval >= res.best_eval
                &&& movegen::legal(t.pos, mv) ==> searched(env, place(t), sc.ply, mv, f.best_eval) || passed_over(
                    env,
                    t.pos,
                    sc,
                    mv,
                )
                &&& f.best_eval > res.best_eval ==> f.best_move == mv && movegen::legal(t.pos, mv) && exists|d: int|
                    #[trigger] behind(env, place(t), mv, sc.ply, d, f.best_eval)
                &&& f.best_eval == res.best_eval ==> f.best_move == res.best_move
            },
        },
{
    reveal(run::move_step);
    reveal(run::tried);
    reveal(run::remembered);
    reveal(run::noted);
    reveal(run::taught);
    laws::lemma_move_step(env, t, sc, res, mv);
    if movegen::legal(t.pos, mv) {
        if run::skipped(env.cfg, t.pos, sc, res, mv) {
            assert(passed_over(env, t.pos, sc, mv));
        } else {
            let t1 = run::remembered(t, sc.ply, mv);
            let u = run::noted(t1, sc.ply, mv);
            let reduction = run::reduction_of(env.cfg, t1, sc, res, mv);
            let hinted = sc.pv_move == Some(mv);
            if run::tried(env, u, sc.kind, mv, sc.depth, res, sc.beta, sc.ply, None, hinted, reduction).1 is Some {
                let (v, d) = lemma_tried_added(
                    env,
                    u,
                    sc.kind,
                    mv,
                    sc.depth,
                    res,
                    sc.beta,
                    sc.ply,
                    None,
                    hinted,
                    reduction,
                );
                assert(behind(env, place(t), mv, sc.ply, d, v));
            }
        }
    }
}

proof fn lemma_move_loop_grows(env: Env, t: Tree, sc: Scene, res: ResV, pk: PickerV)
    requires
        sc.ply < 256,
    ensures
        run::move_loop(env, t, sc, res, pk).1 matches Some(f) ==> f.best_eval >= res.best_eval,
    decreases 8 - pk.stage, pk.list.len(),
{
    reveal(run::move_loop);
    reveal(run::move_step);
    movepicker::lemma_pick_advances(pk, t.pos, t.hist);
    if let (Some(mv), next) = movepicker::pick(pk, t.pos, t.hist) {
        lemma_move_step_added(env, t, sc, res, mv);
        if let Turn::More(t2, res2) = run::move_step(env, t, sc, res, mv) {
            lemma_move_loop_grows(env, t2, sc, res2, next);
        }
    }
}

proof fn lemma_move_loop_complete(env: Env, t: Tree, sc: Scene, res: ResV, pk: PickerV, good: Move)
    requires
        sc.ply < 256,
        pickerlaws::tidy(pk, t.pos),
        pickerlaws::pending(pk, t.pos, good),
        movegen::legal(t.pos, good),
    ensures
        run::move_loop(env, t, sc, res, pk).1 matches Some(f) ==> f.alpha >= sc.beta || searched(
            env,
            place(t),
            sc.ply,
            good,
            f.best_eval,
        ) || passed_over(env, t.pos, sc, good),
    decreases 8 - pk.stage, pk.list.len(),
{
    reveal(run::move_loop);
    reveal(run::move_step);
    movepicker::lemma_pick_advances(pk, t.pos, t.hist);
    pickerlaws::law_picker_complete(pk, t.pos, t.hist);
    let (m, next) = movepicker::pick(pk, t.pos, t.hist);
    if m is None {
        assert(!pickerlaws::pending(pk, t.pos, good));
    } else {
        let mv = m.unwrap();
        lemma_move_step_added(env, t, sc, res, mv);
        if let Turn::More(t2, res2) = run::move_step(env, t, sc, res, mv) {
            if mv == good {
                lemma_move_loop_grows(env, t2, sc, res2, next);
                if let Some(f) = run::move_loop(env, t2, sc, res2, next).1 {
                    if searched(env, place(t), sc.ply, good, res2.best_eval) {
                        let (v, d) = choose|v: int, d: int|
                            #[trigger] behind(env, place(t), good, sc.ply, d, v) && v <= res2.best_eval;
                        assert(behind(env, place(t), good, sc.ply, d, v) && v <= f.best_eval);
                    }
                }
            } else {
                assert(pickerlaws::pending(next, t.pos, good));
                lemma_move_loop_complete(env, t2, sc, res2, next, good);
            }
        }
    }
}

/// Where the best score so far comes from: it is the start value, or a legal move's.
pub open spec fn earned(env: Env, w: Place, ply: int, r: ResV) -> bool {
    r.best_eval <= -INF || (movegen::legal(w.pos, r.best_move) && exists|d: int|
        #[trigger] behind(env, w, r.best_move, ply, d, r.best_eval))
}

proof fn lemma_move_loop_earned(env: Env, t: Tree, sc: Scene, res: ResV, pk: PickerV)
    requires
        sc.ply < 256,
        earned(env, place(t), sc.ply, res),
    ensures
        run::move_loop(env, t, sc, res, pk).1 matches Some(f) ==> earned(env, place(t), sc.ply, f),
    decreases 8 - pk.stage, pk.list.len(),
{
    reveal(run::move_loop);
    reveal(run::move_step);
    movepicker::lemma_pick_advances(pk, t.pos, t.hist);
    if let (Some(mv), next) = movepicker::pick(pk, t.pos, t.hist) {
        lemma_move_step_added(env, t, sc, res, mv);
        match run::move_step(env, t, sc, res, mv) {
            Turn::More(t2, res2) => {
                lemma_move_loop_earned(env, t2, sc, res2, next);
            },
            Turn::Stop(t2, r) => {
                if r is Some {
                    lemma_last_step_earned(env, t, sc, res, mv);
                }
            },
        }
    }
}

proof fn lemma_last_step_earned(env: Env, t: Tree, sc: Scene, res: ResV, mv: Move)
    requires
        sc.ply < 256,
        earned(env, place(t), sc.ply, res),
    ensures
        run::move_step(env, t, sc, res, mv) matches Turn::Stop(_, Some(f)) ==> earned(env, place(t), sc.ply, f),
{
    reveal(run::move_step);
    reveal(run::tried);
    reveal(run::remembered);
    reveal(run::noted);
    if movegen::legal(t.pos, mv) && !run::skipped(env.cfg, t.pos, sc, res, mv) {
        let t1 = run::remembered(t, sc.ply, mv);
        let u = run::noted(t1, sc.ply, mv);
        let reduction = run::reduction_of(env.cfg, t1, sc, res, mv);
        let hinted = sc.pv_move == Some(mv);
        if run::tried(env, u, sc.kind, mv, sc.depth, res, sc.beta, sc.ply, None, hinted, reduction).1 is Some {
            let (v, d) = lemma_tried_added(
                env,
                u,
                sc.kind,
                mv,
                sc.depth,
                res,
                sc.beta,
                sc.ply,
                None,
                hinted,
                reduction,
            );
            assert(behind(env, place(t), mv, sc.ply, d, v));
        }
    }
}

/// A search of the moves of an interior node that is neither aborted nor cut off has searched every legal move
/// that no pruning rule passed over, and the best score is at least as large as each of their scores.
pub proof fn law_moves_complete(env: Env, t: Tree, sc: Scene, alpha: int, hash_move: Option<Move>, good: Move)
    requires
        !sc.kind.root(),
        sc.ply < 256,
        hash_move matches Some(m) ==> movegen::pseudo_legal(t.pos, m),
        movegen::legal(t.pos, good),
    ensures
        run::all_moves(env, t, sc, alpha, hash_move).1 matches Some(f) ==> f.alpha < sc.beta ==> searched(
            env,
            place(t),
            sc.ply,
            good,
            f.best_eval,
        ) || passed_over(env, t.pos, sc, good),
{
    reveal(run::all_moves);
    reveal(run::move_loop);
    let t1 = run::with_ply(t, sc.ply, StackV { quiets: Seq::empty(), ..t.stack[sc.ply] });
    let pk = movepicker::fresh(
        hash_move,
        t.stack[sc.ply].killers,
        sc.cont,
        env.cfg.mvvlva_v@,
        env.cfg.mvvlva_a@,
        false,
    );
    pickerlaws::law_fresh_picker(pk, t1.pos);
    assert(pickerlaws::pending(pk, t1.pos, good));
    lemma_move_loop_complete(env, t1, sc, run::no_result(alpha), pk, good);
}

/// The best score of an interior node is the score of a search behind the best move, which is legal.
pub proof fn law_best_is_earned(env: Env, t: Tree, sc: Scene, alpha: int, hash_move: Option<Move>)
    requires
        !sc.kind.root(),
        sc.ply < 256,
    ensures
        run::all_moves(env, t, sc, alpha, hash_move).1 matches Some(f) ==> earned(env, place(t), sc.ply, f),
{
    reveal(run::all_moves);
    reveal(run::move_loop);
    let t1 = run::with_ply(t, sc.ply, StackV { quiets: Seq::empty(), ..t.stack[sc.ply] });
    let pk = movepicker::fresh(
        hash_move,
        t.stack[sc.ply].killers,
        sc.cont,
        env.cfg.mvvlva_v@,
        env.cfg.mvvlva_a@,
        false,
    );
    lemma_move_loop_earned(env, t1, sc, run::no_result(alpha), pk);
}

/// What pruning never passes over: any move on the principal variation or out of check; the first move, as
/// long as late move pruning lets one through; with margins that are not negative, a capture or promotion
/// whose exchange does not lose material; and a quiet move whose exchange does not lose material, where the
/// evaluation is above alpha and few moves have been searched.
pub proof fn law_pruning_spares(env: Env, p: PositionV, sc: Scene, r: ResV, mv: Move)
    requires
        run::skipped(env.cfg, p, sc, r, mv),
        sc.depth >= 1,
    ensures
        !sc.in_check,
        !sc.kind.pv(),
        env.cfg.search_params.lmp_base >= 0 ==> r.move_count >= 1,
        ({
            let sp = env.cfg.search_params;
            let loses = crate::engine::see::balance(p, mv) < 0;
            let noisy = mv.kind() == 4 || mv.kind() == 5 || mv.kind() >= 8;
            &&& noisy && sp.see_capture_margin >= 0 && sp.see_quiet_margin >= 0 ==> loses
            &&& !loses && sp.see_capture_margin >= 0 && sp.see_quiet_margin >= 0 ==> {
                ||| sc.depth <= sp.fp_depth && sc.static_eval + sp.fp_margin * sc.depth <= r.alpha
                ||| sc.depth <= sp.lmp_depth && r.move_count >= sp.lmp_base + sc.depth * sc.depth
            }
        }),
{
    reveal(run::skipped);
    let sp = env.cfg.search_params;
    assert(sc.depth * sc.depth >= 1) by (nonlinear_arith)
        requires
            sc.depth >= 1,
    ;
    let (a, b, d) = (sp.see_capture_margin as int, sp.see_quiet_margin as int, sc.depth);
    assert(a >= 0 ==> -a * d <= 0) by (nonlinear_arith)
        requires
            d >= 1,
    ;
    assert(b >= 0 ==> -b * d * d <= 0) by (nonlinear_arith)
        requires
            d >= 1,
    ;
}

} // verus!
