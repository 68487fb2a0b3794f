//! What the shortcuts of a node may and may not do: the transposition table, static pruning, razoring, the null
//! move, reductions, extensions, and what a node leaves behind for later ones.

use vstd::prelude::*;
use crate::arith;
use crate::board::model;
use crate::board::model::PositionV;
use crate::engine::eval;
use crate::engine::history;
use crate::engine::history::ContContext;
use crate::engine::learnlaws;
use crate::engine::movegen;
use crate::engine::play;
use crate::engine::search::laws;
use crate::engine::search::line::StackV;
use crate::engine::search::model as run;
use crate::engine::search::model::{Env, Gate, NodeKind, QuietV, ResV, Scene, Step, Tree};
use crate::engine::see;
use crate::engine::tt;
use crate::engine::tt::{BOUND_EXACT, BOUND_LOWER, BOUND_NONE, BOUND_UPPER};
use crate::engine::valuelaws;
use crate::moves::Move;
use crate::types::{PieceType, Square, INF, MATE_BOUND, MAX_DEPTH};

verus! {

// ──────── The transposition table ────────

/// A stored result settles a node only off the principal variation, when it belongs to the position, when it
/// comes from a search at least as deep, and when its bound speaks to the window: an exact score always, a lower
/// bound when it reaches `beta`, an upper bound when it does not exceed `alpha`.
pub proof fn law_table_cut(t: Tree, kind: NodeKind, depth: int, alpha: int, beta: int, ply: int)
    ensures
        run::table_cut(t, kind, depth, alpha, beta, ply) matches Some(v) ==> {
            let e = t.table[t.pos.hash as int % t.table.len() as int];
            &&& kind == NodeKind::NonPv
            &&& e.key == t.pos.hash
            &&& e.depth >= depth
            &&& e.bound != BOUND_NONE
            &&& e.bound == BOUND_EXACT || (e.bound == BOUND_LOWER && v >= beta) || (e.bound == BOUND_UPPER && v
                <= alpha)
            &&& e.mv.0 == 0 || movegen::pseudo_legal(t.pos, e.mv)
        },
        run::quiet_table_cut(t, kind, alpha, beta, ply) matches Some(v) ==> {
            let e = t.table[t.pos.hash as int % t.table.len() as int];
            &&& kind == NodeKind::NonPv
            &&& e.key == t.pos.hash
            &&& e.bound == BOUND_EXACT || (e.bound == BOUND_LOWER && v >= beta) || (e.bound == BOUND_UPPER && v
                <= alpha)
        },
        run::table_move(t, ply) matches Some(m) ==> movegen::pseudo_legal(t.pos, m) && m == t.table[t.pos.hash as int
            % t.table.len() as int].mv,
{
    reveal(run::table_cut);
    reveal(run::quiet_table_cut);
    reveal(run::table_move);
}

/// And whenever all of that holds, it does settle the node.
pub proof fn law_table_cut_taken(t: Tree, depth: int, alpha: int, beta: int, ply: int)
    requires
        tt::table_ok(t.table),
        ({
            let e = t.table[t.pos.hash as int % t.table.len() as int];
            let v = tt::from_node(e.score as int, ply);
            &&& e.key == t.pos.hash
            &&& e.depth >= depth
            &&& e.bound != BOUND_NONE
            &&& e.bound == BOUND_EXACT || (e.bound == BOUND_LOWER && v >= beta) || (e.bound == BOUND_UPPER && v
                <= alpha)
            &&& e.mv.0 == 0 || movegen::pseudo_legal(t.pos, e.mv)
        }),
    ensures
        run::table_cut(t, NodeKind::NonPv, depth, alpha, beta, ply) is Some,
        run::quiet_table_cut(t, NodeKind::NonPv, alpha, beta, ply) is Some,
{
    reveal(run::table_cut);
    reveal(run::quiet_table_cut);
}

/// A mate that is stored counts from its own node and is read as counting from the root again: whoever reads it
/// at another ply sees it nearer or further by the difference.
pub proof fn law_mate_travels(score: int, ply: int, other: int)
    requires
        0 <= ply <= 256,
        0 <= other <= 256,
        -INF <= score <= INF,
    ensures
        score > MATE_BOUND && -INF <= score + ply - other <= INF ==> tt::from_node(tt::from_root(score, ply), other)
            == score + ply - other,
        score < -MATE_BOUND && -INF <= score - ply + other <= INF ==> tt::from_node(
            tt::from_root(score, ply),
            other,
        ) == score - ply + other,
        -MATE_BOUND <= score <= MATE_BOUND ==> tt::from_node(tt::from_root(score, ply), other) == score,
{
}

/// What a node leaves in the table: its best score, with the depth that it was searched to, marked as a lower
/// bound when it reached `beta`, as exact when it was inside the window, and as an upper bound else. A node
/// without a legal move leaves nothing and scores as mate or as a draw.
pub proof fn law_node_result(t: Tree, res: ResV, depth: int, alpha: int, beta: int, ply: int, in_check: bool, raw: int)
    requires
        tt::table_ok(t.table),
        0 <= ply <= 256,
        -INF <= res.best_eval <= INF,
        i32::MIN <= depth <= i32::MAX,
        alpha < beta,
    ensures
        ({
            let (u, r) = run::conclude(t, res, depth, alpha, beta, ply, in_check, raw);
            let seen = tt::lookup(u.table, t.pos.hash, ply);
            &&& res.move_count == 0 && in_check ==> r == Some(ply - 49_000)
            &&& res.move_count == 0 && !in_check ==> r == Some(0int)
            &&& res.move_count == 0 ==> u == t
            &&& res.move_count > 0 ==> r == Some(res.best_eval)
            &&& res.move_count > 0 ==> (seen matches Some((m, v, d, bound)) && v == res.best_eval && d == depth && (
            res.best_move.0 != 0 ==> m == res.best_move) && (bound == BOUND_LOWER <==> res.best_eval >= beta) && (bound
                == BOUND_EXACT <==> alpha < res.best_eval < beta) && (bound == BOUND_UPPER <==> res.best_eval
                <= alpha))
            &&& in_check || res.best_eval >= MATE_BOUND || res.best_eval <= -MATE_BOUND ==> u.hist == t.hist
            &&& u.pos == t.pos && u.stack == t.stack && u.roots == t.roots && u.trail == t.trail && u.nodes == t.nodes
        }),
{
    reveal(run::conclude);
    tt::law_read_back(
        t.table,
        t.pos.hash,
        ply,
        depth,
        res.best_eval,
        res.best_move,
        run::bound_of(res.best_eval, alpha, beta),
    );
}

/// What a quiescence node leaves behind. In check without a legal move it is mate, and nothing is stored; otherwise its
/// score is the best one, which can be read back from the table unless a deeper result stands there, marked as a node
/// of the main search marks it.
pub proof fn law_quiet_node_result(t: Tree, q: QuietV, alpha: int, beta: int, ply: int)
    requires
        tt::table_ok(t.table),
        0 <= ply <= 256,
        -INF <= q.best_eval <= INF,
        alpha < beta,
    ensures
        ({
            let (u, r) = run::quiet_conclude(t, q, alpha, beta, ply);
            let mated = run::checked(t.pos) && !q.made;
            let deeper = tt::lookup(t.table, t.pos.hash, ply) matches Some((_, _, d, _)) && d > 0;
            &&& mated ==> u == t && r == Some(ply - 49_000)
            &&& !mated ==> r == Some(q.best_eval)
            &&& !mated && deeper ==> u == t
            &&& !mated && !deeper ==> (tt::lookup(u.table, t.pos.hash, ply) matches Some((m, v, d, bound)) && v
                == q.best_eval && d == 0 && (q.best_move.0 != 0 ==> m == q.best_move) && (bound == BOUND_LOWER <==> v
                >= beta) && (bound == BOUND_EXACT <==> alpha < v < beta) && (bound == BOUND_UPPER <==> v <= alpha))
        }),
{
    reveal(run::quiet_conclude);
    valuelaws::law_quiet_results(
        t.table,
        t.pos.hash,
        ply,
        q.best_eval,
        q.best_move,
        run::bound_of(q.best_eval, alpha, beta),
    );
}

/// What a node teaches about the evaluation. Unless it is in check or ends in a mate, the correction for its pawn
/// structure is drawn toward the difference between its score and the static one, and nothing else is learned.
pub proof fn law_node_corrects(t: Tree, res: ResV, depth: int, alpha: int, beta: int, ply: int, raw: int, i: int)
    requires
        t.hist.wf(),
        res.move_count > 0,
        -MATE_BOUND < res.best_eval < MATE_BOUND,
        0 <= i < 32_768,
    ensures
        ({
            let u = run::conclude(t, res, depth, alpha, beta, ply, false, raw).0;
            let goal = 256 * (res.best_eval - raw);
            let (old, new) = (t.hist.corr[i] as int, u.hist.corr[i] as int);
            let own = i == t.pos.stm.idx() * 16_384 + t.pos.pawn_hash as int % 16_384;
            &&& u.hist.main == t.hist.main && u.hist.cont == t.hist.cont
            &&& !own ==> new == old
            &&& own && old <= goal ==> old - 1 <= new <= arith::larger(old, goal)
            &&& own && goal <= old ==> arith::smaller(old, goal) <= new <= old + 1
            &&& own && old == 0 && goal >= 256 && goal <= 16_384 ==> new > 0
            &&& own && old == 0 && goal <= -256 && goal >= -16_384 ==> new < 0
        }),
{
    reveal(run::conclude);
    let k = history::corr_slot(t.pos.stm, t.pos.pawn_hash);
    let diff = res.best_eval - raw;
    learnlaws::law_correction_drawn(t.hist.corr[k] as int, diff, depth);
    let w = arith::clamped(depth + 1, 1, 16);
    let old = t.hist.corr[k] as int;
    assert(diff * 256 * w == 256 * (diff * w)) by (nonlinear_arith);
    assert(old == 0 ==> old * (256 - w) == 0) by (nonlinear_arith);
    assert(old == 0 ==> arith::quot(old * (256 - w) + diff * 256 * w, 256) == diff * w);
    assert(history::drawn(old, diff, depth) as i32 == history::drawn(old, diff, depth));
    assert(diff >= 1 ==> diff * w >= 1) by (nonlinear_arith)
        requires
            w >= 1,
    ;
    assert(diff <= -1 ==> diff * w <= -1) by (nonlinear_arith)
        requires
            w >= 1,
    ;
}

// ──────── Pruning ────────

/// Static pruning, razoring and the null move are for nodes off the principal variation that are not in check.
/// Static pruning cuts only where the evaluation, less its margin, reaches `beta`; razoring only where it, plus
/// its margin, is below `alpha`.
pub proof fn law_static_pruning(env: Env, kind: NodeKind, in_check: bool, depth: int, ev: int, alpha: int, beta: int)
    requires
        depth >= 0,
    ensures
        ({
            let sp = env.cfg.search_params;
            &&& run::futile_to_play_on(env.cfg, kind, in_check, depth, ev, beta) <==> {
                &&& !in_check
                &&& kind == NodeKind::NonPv
                &&& depth <= sp.rfp_depth
                &&& ev >= beta + sp.rfp_margin * depth
            }
            &&& run::futile_to_play_on(env.cfg, kind, in_check, depth, ev, beta) && sp.rfp_margin >= 0 ==> ev >= beta
            &&& run::razor_due(env.cfg, kind, in_check, depth, ev, alpha) <==> {
                &&& !in_check
                &&& kind == NodeKind::NonPv
                &&& depth <= sp.razoring_depth
                &&& ev < alpha - sp.razoring_margin * depth
            }
            &&& run::razor_due(env.cfg, kind, in_check, depth, ev, alpha) && sp.razoring_margin >= 0 ==> ev < alpha
        }),
{
    let sp = env.cfg.search_params;
    let (a, b) = (sp.rfp_margin as int, sp.razoring_margin as int);
    assert(a >= 0 ==> a * depth >= 0) by (nonlinear_arith)
        requires
            depth >= 0,
    ;
    assert(b >= 0 ==> b * depth >= 0) by (nonlinear_arith)
        requires
            depth >= 0,
    ;
}

/// Razoring ends a node only with what quiescence says of it, and only if that does not beat `alpha`.
pub proof fn law_razoring(
    env: Env,
    t: Tree,
    kind: NodeKind,
    in_check: bool,
    depth: int,
    ev: int,
    alpha: int,
    beta: int,
    ply: int,
)
    requires
        ply <= 256,
    ensures
        match run::razor_step(env, t, kind, in_check, depth, ev, alpha, beta, ply) {
            Step::Return(u, Some(v)) => v <= alpha && run::quiet_node(env, t, kind, alpha, beta, ply) == (u, Some(v))
                && run::razor_due(env.cfg, kind, in_check, depth, ev, alpha),
            Step::Return(u, None) => run::quiet_node(env, t, kind, alpha, beta, ply).1 is None,
            Step::Continue(u) => u == t || (run::quiet_node(env, t, kind, alpha, beta, ply).1 matches Some(v) && v
                > alpha),
        },
{
    reveal(run::razor_step);
    reveal(run::quiet_node);
}

/// The null move. It is tried only off the principal variation, out of check, not twice in a row, with a piece
/// besides pawns and king, and where the evaluation reaches `beta`. It ends a node only when the search behind a
/// pass, with the smallest window at `beta`, still reaches `beta`; what it gives is that score, but never a mate.
pub proof fn law_null_move_pruning(
    env: Env,
    t: Tree,
    kind: NodeKind,
    in_check: bool,
    depth: int,
    ev: int,
    beta: int,
    ply: int,
)
    requires
        ply < 256,
    ensures
        ({
            let p = t.pos;
            let ready = {
                &&& !in_check
                &&& kind == NodeKind::NonPv
                &&& !t.stack[ply].is_null
                &&& ev >= beta
                &&& exists|i: int|
                    0 <= i < 64 && (#[trigger] p.board[i] matches Some(x) && x.color == p.stm && (x.pt
                        == PieceType::Knight || x.pt == PieceType::Bishop || x.pt == PieceType::Rook || x.pt
                        == PieceType::Queen || x.pt == PieceType::Empty))
            };
            match run::null_step(env, t, kind, in_check, depth, ev, beta, ply) {
                Step::Return(u, Some(v)) => {
                    &&& ready
                    &&& v >= beta
                    &&& v > MATE_BOUND ==> v == beta
                    &&& exists|x: Tree, d: int|
                        {
                            &&& x.pos == model::passed(p)
                            &&& x.trail == t.trail.push(x.pos.hash)
                            &&& x.acc == t.acc
                            &&& 0 <= ply < t.stack.len() - 1 ==> x.stack[ply + 1].is_null && x.stack[ply].moved_pt
                                == PieceType::Empty
                            &&& (#[trigger] run::node(env, x, NodeKind::NonPv, d, -beta, 1 - beta, ply + 1, None)).1
                                matches Some(w)
                            &&& -w >= beta
                            &&& -w <= MATE_BOUND ==> v == -w
                        }
                },
                Step::Return(u, None) => ready,
                Step::Continue(u) => u == t || ready,
            }
        }),
{
    reveal(run::null_step);
    reveal(run::node);
    reveal(play::after_pass);
    if run::null_due(t, kind, in_check, ev, beta, ply) {
        let i = choose|i: int|
            0 <= i < 64 && (#[trigger] t.pos.board[i] matches Some(p) && p.color == t.pos.stm && p.pt
                != PieceType::Pawn && p.pt != PieceType::King);
        assert(t.pos.board[i] is Some);
        let x = run::passed_turn(t, ply);
        let d = run::null_depth(env.cfg, depth, ev, beta);
        let r = run::node(env, x, NodeKind::NonPv, d, -beta, -beta + 1, ply + 1, None).1;
        assert(-beta + 1 == 1 - beta);
    }
}

/// Back from behind a pass, position and trail are as before, and the next ply is no longer marked as behind a pass.
pub proof fn law_pass_forgotten(u: Tree, t: Tree, ply: int)
    requires
        0 <= ply < u.stack.len() - 1,
    ensures
        ({
            let x = run::returned_from_pass(u, t, ply);
            &&& x.pos == t.pos && x.trail == t.trail
            &&& !x.stack[ply + 1].is_null
            &&& x.nodes == u.nodes && x.table == u.table && x.hist == u.hist && x.said == u.said
        }),
{
}

/// The search behind a pass is never deeper than the node itself, and shallower by one at least unless the
/// parameters reduce by less than nothing.
pub proof fn law_null_move_depth(env: Env, depth: int, ev: int, beta: int)
    requires
        env.cfg.wf(),
        1 <= depth <= MAX_DEPTH,
        ev >= beta,
    ensures
        0 <= run::null_depth(env.cfg, depth, ev, beta) <= depth,
        env.cfg.search_params.least_null_reduction() >= 0 ==> run::null_depth(env.cfg, depth, ev, beta) < depth,
{
    let sp = env.cfg.search_params;
    if sp.nmp_depth_divisor < 0 {
        arith::lemma_negative_quotient_order(depth, MAX_DEPTH as int, sp.nmp_depth_divisor as int);
    } else {
        arith::lemma_quotient_order(0, depth, sp.nmp_depth_divisor as int);
        assert(0int / (sp.nmp_depth_divisor as int) == 0) by (nonlinear_arith)
            requires
                sp.nmp_depth_divisor >= 1,
        ;
    }
    arith::lemma_quotient_order(0, ev - beta, sp.nmp_eval_divisor as int);
    assert(0int / (sp.nmp_eval_divisor as int) == 0) by (nonlinear_arith)
        requires
            sp.nmp_eval_divisor >= 1,
    ;
}

/// Late moves are reduced only when they are quiet, not the first, not out of check and the depth is at least 2;
/// never by so much that nothing is left, and a killer by no more than it would be otherwise.
pub proof fn law_reductions(env: Env, t: Tree, sc: Scene, res: ResV, mv: Move)
    requires
        sc.depth >= 1,
    ensures
        ({
            let r = run::reduction_of(env.cfg, t, sc, res, mv);
            &&& 0 <= r < sc.depth
            &&& sc.depth < 2 || res.move_count == 0 || sc.in_check || mv.kind() == 4 || mv.kind() == 5 || mv.kind() >= 8
                ==> r == 0
            &&& forall|i: int|
                #[trigger] run::root_reduction(env.cfg, sc.depth, sc.in_check, i, mv) == 0 || (sc.depth >= 2 && i >= 1
                    && !sc.in_check && mv.kind() != 4 && mv.kind() != 5 && mv.kind() < 8)
        }),
{
    reveal(run::reduction_of);
}

/// A killer is reduced by no more than the same move would be if it were none.
pub proof fn law_killers_spared(env: Env, t: Tree, u: Tree, sc: Scene, res: ResV, mv: Move)
    requires
        sc.depth >= 1,
        t.pos == u.pos,
        t.hist == u.hist,
        t.stack[sc.ply].killers.0 == mv || t.stack[sc.ply].killers.1 == mv,
        u.stack[sc.ply].killers.0 != mv && u.stack[sc.ply].killers.1 != mv,
    ensures
        run::reduction_of(env.cfg, t, sc, res, mv) <= run::reduction_of(env.cfg, u, sc, res, mv),
{
    reveal(run::reduction_of);
}

/// A better history means no larger reduction, and a lower entry of the reduction table neither.
pub proof fn law_history_spares(env: Env, t: Tree, u: Tree, sc: Scene, res: ResV, mv: Move)
    requires
        sc.depth >= 1,
        t.pos == u.pos,
        t.stack == u.stack,
        ({
            let pt = model::type_at(t.pos.board, mv.src());
            t.hist.quiet_score(t.pos.stm, pt, mv.src(), mv.dst(), sc.cont) >= u.hist.quiet_score(
                t.pos.stm,
                pt,
                mv.src(),
                mv.dst(),
                sc.cont,
            )
        }),
    ensures
        run::reduction_of(env.cfg, t, sc, res, mv) <= run::reduction_of(env.cfg, u, sc, res, mv),
{
    reveal(run::reduction_of);
}

/// A late quiet move without history that is no killer is reduced by what the table says for its depth and number,
/// as far as that leaves a depth; one that gives check by one less, but never by less than nothing.
pub proof fn law_reduction_base(env: Env, t: Tree, sc: Scene, res: ResV, mv: Move, p: PositionV, r: int)
    requires
        sc.depth >= 2,
        1 <= res.move_count < 256,
        !sc.in_check,
        mv.kind() < 4,
        mv != t.stack[sc.ply].killers.0 && mv != t.stack[sc.ply].killers.1,
        t.hist.quiet_score(t.pos.stm, model::type_at(t.pos.board, mv.src()), mv.src(), mv.dst(), sc.cont) == 0,
        r >= 0,
    ensures
        run::reduction_of(env.cfg, t, sc, res, mv) == arith::clamped(
            env.cfg.lmr_table@[sc.depth * 257 + res.move_count + 1] as int,
            0,
            sc.depth - 1,
        ),
        !model::in_check(p.board, p.stm) ==> run::eased(p, r) == r,
        model::in_check(p.board, p.stm) && r > 0 ==> run::eased(p, r) == r - 1,
        model::in_check(p.board, p.stm) && r == 0 ==> run::eased(p, r) == 0,
{
    reveal(run::reduction_of);
}

/// Which moves are passed over, off the principal variation and out of check: late quiet moves, where the evaluation
/// and a margin do not exceed `alpha`; quiet moves behind as many as the depth allows; and moves behind the first
/// whose exchange loses more than a margin, which is larger for a quiet move the deeper the search.
pub proof fn law_late_pruning(env: Env, p: PositionV, sc: Scene, r: ResV, mv: Move)
    ensures
        run::skipped(env.cfg, p, sc, r, mv) <==> {
            let sp = env.cfg.search_params;
            let d = sc.depth;
            let quiet = mv.kind() != 4 && mv.kind() != 5 && mv.kind() < 8;
            let takes = mv.kind() == 4 || mv.kind() == 5 || mv.kind() >= 12;
            &&& !sc.in_check
            &&& sc.kind == NodeKind::NonPv
            &&& {
                ||| quiet && r.move_count > 0 && d <= sp.fp_depth && r.alpha - sc.static_eval >= sp.fp_margin * d
                ||| quiet && d <= sp.lmp_depth && r.move_count - sp.lmp_base >= d * d
                ||| takes && r.move_count > 0 && see::balance(p, mv) < -sp.see_capture_margin * d
                ||| !takes && r.move_count > 0 && see::balance(p, mv) < -sp.see_quiet_margin * d * d
            }
        },
{
    reveal(run::skipped);
}

// ──────── Extensions and horizons ────────

/// A node in check is never pruned: its moves are searched one ply deeper. A node without depth left is judged by
/// quiescence, and one at the end of the longest line by its evaluation.
pub proof fn law_check_extends(
    env: Env,
    t: Tree,
    kind: NodeKind,
    depth: int,
    alpha: int,
    beta: int,
    ply: int,
    pv_move: Option<Move>,
)
    requires
        ply < 256,
        run::checked(t.pos),
    ensures
        exists|u: Tree, raw: int, ev: int, pv: Option<Move>, hint: Option<Move>|
            u.pos == t.pos && #[trigger] run::played_out(
                env,
                u,
                kind,
                depth + 1,
                alpha,
                beta,
                ply,
                true,
                raw,
                ev,
                pv,
                hint,
            ) == run::expanded(env, t, kind, depth, alpha, beta, ply, pv_move),
{
    reveal(run::expanded);
    reveal(run::razor_step);
    reveal(run::null_step);
    reveal(run::played_out);
    let ev = tt::SCORE_NONE as int;
    let t1 = run::with_ply(t, ply, StackV { static_eval: ev as i32, ..t.stack[ply] });
    let pv = run::playable_hint(t.pos, pv_move);
    let hint = run::table_move(t, ply);
    assert(run::played_out(env, t1, kind, depth + 1, alpha, beta, ply, true, ev, ev, pv, hint) == run::expanded(
        env,
        t,
        kind,
        depth,
        alpha,
        beta,
        ply,
        pv_move,
    ));
}

/// A node on the principal variation takes no shortcut either: all that it does is search its moves.
pub proof fn law_principal_unpruned(
    env: Env,
    t: Tree,
    kind: NodeKind,
    depth: int,
    alpha: int,
    beta: int,
    ply: int,
    pv_move: Option<Move>,
)
    requires
        ply < 256,
        depth > 0,
        kind != NodeKind::NonPv,
        run::entry(env, t, ply).1 == Gate::Open,
        !run::checked(t.pos),
    ensures
        exists|u: Tree, raw: int, ev: int, pv: Option<Move>, hint: Option<Move>|
            u.pos == t.pos && u.table == run::entry(env, t, ply).0.table && #[trigger] run::played_out(
                env,
                u,
                kind,
                depth,
                alpha,
                beta,
                ply,
                false,
                raw,
                ev,
                pv,
                hint,
            ) == run::node(env, t, kind, depth, alpha, beta, ply, pv_move),
{
    reveal(run::node);
    reveal(run::expanded);
    reveal(run::razor_step);
    reveal(run::null_step);
    reveal(run::played_out);
    reveal(run::table_cut);
    laws::lemma_entry(env, t, ply);
    let t1 = run::entry(env, t, ply).0;
    let raw = eval::score_of(t1.acc, t1.pos.stm);
    let ev = run::corrected_eval(t1);
    let u = run::with_ply(t1, ply, StackV { static_eval: ev as i32, ..t1.stack[ply] });
    let pv = run::playable_hint(t1.pos, pv_move);
    let hint = run::table_move(t1, ply);
    assert(run::played_out(env, u, kind, depth, alpha, beta, ply, false, raw, ev, pv, hint) == run::node(
        env,
        t,
        kind,
        depth,
        alpha,
        beta,
        ply,
        pv_move,
    ));
}

/// Where the tree ends. A node without depth left is what quiescence makes of it; a node at the longest line has
/// its static evaluation as score.
pub proof fn law_horizon(
    env: Env,
    t: Tree,
    kind: NodeKind,
    depth: int,
    alpha: int,
    beta: int,
    ply: int,
    pv_move: Option<Move>,
)
    requires
        ply <= 256,
        run::entry(env, t, ply).1 == Gate::Open,
    ensures
        depth <= 0 ==> run::node(env, t, kind, depth, alpha, beta, ply, pv_move) == run::quiet_node(
            env,
            run::entry(env, t, ply).0,
            kind,
            alpha,
            beta,
            ply,
        ),
        depth > 0 && ply == 256 ==> run::node(env, t, kind, depth, alpha, beta, ply, pv_move).1 == Some(
            eval::score_of(t.acc, t.pos.stm),
        ),
{
    reveal(run::node);
    reveal(run::quiet_node);
    reveal(run::expanded);
    laws::lemma_entry(env, t, ply);
}

/// Without a suggestion from the table the moves of a deep node are searched one ply less deep; otherwise the
/// depth stays.
pub proof fn law_reduced_without_hint(depth: int, hint: Option<Move>)
    ensures
        hint is Some || depth < 4 ==> run::reduced_without_hint(depth, hint) == depth,
        hint is None && depth >= 4 ==> run::reduced_without_hint(depth, hint) == depth - 1,
{
}

/// Static pruning gives the corrected evaluation: a node off the principal variation, out of check and shallow enough,
/// whose corrected evaluation less the margin reaches `beta`, has it as its score, unless the table settles it first.
pub proof fn law_static_cut(env: Env, t: Tree, depth: int, alpha: int, beta: int, ply: int, pv_move: Option<Move>)
    requires
        ply < 256,
        depth > 0,
        run::entry(env, t, ply).1 == Gate::Open,
        !run::checked(t.pos),
        run::table_cut(run::entry(env, t, ply).0, NodeKind::NonPv, depth, alpha, beta, ply) is None,
        depth <= env.cfg.search_params.rfp_depth,
        run::corrected_eval(run::entry(env, t, ply).0) >= beta + env.cfg.search_params.rfp_margin * depth,
    ensures
        run::node(env, t, NodeKind::NonPv, depth, alpha, beta, ply, pv_move).1 == Some(
            run::corrected_eval(run::entry(env, t, ply).0),
        ),
{
    reveal(run::node);
    reveal(run::expanded);
    laws::lemma_entry(env, t, ply);
}

/// The first move of a node is searched with the whole window turned round, one ply less deep; on the principal
/// variation as part of it, and along the last line as long as that was followed.
pub proof fn law_first_move(
    env: Env,
    t: Tree,
    kind: NodeKind,
    depth: int,
    alpha: int,
    beta: int,
    ply: int,
    followed: bool,
    reduction: int,
)
    requires
        0 <= ply < 256,
    ensures
        ({
            let child = if kind == NodeKind::NonPv {
                NodeKind::NonPv
            } else {
                NodeKind::Pv
            };
            let hint = if kind != NodeKind::NonPv && followed && ply + 1 < env.prev_pv.len() {
                Some(env.prev_pv[ply + 1])
            } else {
                None
            };
            let (u, r) = run::node(env, t, child, depth - 1, -beta, -alpha, ply + 1, hint);
            let (x, s) = run::scout(env, t, kind, depth, alpha, beta, ply, true, followed, reduction);
            &&& x == u
            &&& r matches Some(v) ==> s == Some(-v)
            &&& r is None ==> s is None
        }),
{
    reveal(run::scout);
    reveal(run::node);
}

// ──────── What is remembered ────────

/// The node behind a move knows which piece moved where; nothing led to the root.
pub proof fn law_context(t: Tree, ply: int, mv: Move)
    requires
        0 <= ply < t.stack.len(),
    ensures
        run::context(run::descended(run::noted(t, ply, mv), mv), ply + 1) == (ContContext {
            pt: model::type_at(t.pos.board, mv.src()),
            to: Square(mv.dst() as u8),
        }),
        run::context(t, 0) == (ContContext { pt: PieceType::Empty, to: Square(0) }),
{
    reveal(run::noted);
}

/// Quiet moves other than castling are kept in the order in which they are tried, as long as there is room for 256 of
/// them; other moves are not.
pub proof fn law_quiets_kept(t: Tree, ply: int, mv: Move)
    requires
        0 <= ply < t.stack.len(),
    ensures
        ({
            let before = t.stack[ply].quiets;
            let after = run::remembered(t, ply, mv).stack[ply].quiets;
            &&& mv.kind() <= 1 && before.len() < 256 ==> after == before.push(mv)
            &&& mv.kind() > 1 || before.len() >= 256 ==> after == before
        }),
{
    reveal(run::remembered);
}

/// A move that raises alpha becomes the start of the node's line, followed by the line behind it.
pub proof fn law_line_follows(t: Tree, kind: NodeKind, ply: int, root_idx: Option<int>, mv: Move, res: ResV, v: int)
    requires
        0 <= ply < t.stack.len() - 1,
        t.stack[ply + 1].pv.len() < 256,
        v > res.best_eval,
        v > res.alpha,
    ensures
        ({
            let line = run::recorded(t, kind, ply, root_idx, mv, res, v).0.stack[ply].pv;
            &&& line.len() == t.stack[ply + 1].pv.len() + 1
            &&& line[0] == mv
            &&& forall|i: int| 1 <= i < line.len() ==> #[trigger] line[i] == t.stack[ply + 1].pv[i - 1]
        }),
{
    reveal(run::recorded);
}

/// At the root, the score is noted with the move that was searched, and its line follows it when it is the best so
/// far; the other root moves, and a line that is not the best, stay as they are.
pub proof fn law_root_line_follows(t: Tree, ply: int, i: int, j: int, mv: Move, res: ResV, v: int)
    requires
        0 <= ply < t.stack.len() - 1,
        t.stack[ply + 1].pv.len() < 256,
        0 <= i < t.roots.len(),
        0 <= j < t.roots.len(),
        t.roots[i].mv == mv,
        i32::MIN <= v <= i32::MAX,
    ensures
        ({
            let (u, r) = run::recorded(t, NodeKind::Root, ply, Some(i), mv, res, v);
            let x = u.roots[i];
            &&& u.roots.len() == t.roots.len()
            &&& j != i ==> u.roots[j] == t.roots[j]
            &&& x.mv == mv && x.score == v
            &&& v > res.best_eval ==> x.pv.len() == t.stack[ply + 1].pv.len() + 1 && x.pv[0] == mv && forall|k: int|
                1 <= k < x.pv.len() ==> #[trigger] x.pv[k] == t.stack[ply + 1].pv[k - 1]
            &&& v <= res.best_eval ==> x.pv == t.roots[i].pv && r.best_move == res.best_move && r.best_eval
                == res.best_eval
        }),
{
    reveal(run::recorded);
}

/// A suggested move is tried only if it can be played: the table's before that of the last line.
pub proof fn law_hints(t: Tree, ply: int, pv_move: Option<Move>)
    ensures
        ({
            let (hint, pv) = (run::table_move(t, ply), run::playable_hint(t.pos, pv_move));
            let first = run::first_of(hint, pv);
            &&& first matches Some(m) ==> movegen::pseudo_legal(t.pos, m)
            &&& hint is Some ==> first == hint
            &&& hint is None ==> first == pv
            &&& pv is Some ==> pv == pv_move
            &&& pv_move matches Some(m) ==> (movegen::pseudo_legal(t.pos, m) ==> pv == pv_move)
        }),
{
    reveal(run::table_move);
}

/// A quiet move that causes a cutoff becomes the first killer of its ply, and the first one before it the second;
/// the same move again, and any other cutoff, change nothing about them.
pub proof fn law_killers(t: Tree, sc: Scene, mv: Move, appended: bool)
    requires
        0 <= sc.ply < t.stack.len(),
    ensures
        ({
            let before = t.stack[sc.ply].killers;
            let after = run::taught(t, sc, mv, appended).stack[sc.ply].killers;
            let quiet = mv.kind() == 0 || mv.kind() == 1;
            &&& quiet && mv != before.0 ==> after.0 == mv && after.1 == before.0
            &&& !quiet || mv == before.0 ==> after == before
        }),
{
    reveal(run::taught);
}

} // verus!
