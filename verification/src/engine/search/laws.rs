//! What holds of every search.

use vstd::prelude::*;
use crate::arith;
use crate::board::model::PositionV;
use crate::engine::movepicker;
use crate::engine::movepicker::PickerV;
use crate::engine::search::deepening;
use crate::engine::search::deepening::{Job, Progress};
use crate::engine::search::line;
use crate::engine::search::line::{RootV, StackV};
use crate::engine::search::model as run;
use crate::engine::search::model::{Env, Gate, NodeKind, QuietTurn, QuietV, ResV, Scene, Step, Tree, Turn};
use crate::engine::tt;
use crate::moves::Move;
use crate::types::{INF, MAX_PLY};

verus! {

/// The same moves in the same order.
pub open spec fn same_order(a: Seq<RootV>, b: Seq<RootV>) -> bool {
    a.len() == b.len() && forall|i: int| 0 <= i < a.len() ==> (#[trigger] a[i]).mv == b[i].mv
}

/// Position, accumulator, trail and the order of the root moves are the same, and root moves keep lines of
/// their own.
pub open spec fn undisturbed(u: Tree, t: Tree) -> bool {
    &&& u.pos == t.pos
    &&& u.acc == t.acc
    &&& u.trail == t.trail
    &&& same_order(t.roots, u.roots)
    &&& line::own_lines(t.roots) ==> line::own_lines(u.roots)
}

/// What was said, the count of the nodes and the stop flag are the same.
pub open spec fn untold(u: Tree, t: Tree) -> bool {
    u.said == t.said && u.nodes == t.nodes && u.raised == t.raised
}

/// A silent search says nothing, nodes are only ever added, and a stop flag that was raised stays up.
pub open spec fn steady(env: Env, u: Tree, t: Tree) -> bool {
    &&& env.cfg.limits.silent ==> u.said == t.said
    &&& u.nodes >= t.nodes
    &&& t.raised ==> u.raised
}

proof fn lemma_undisturbed(a: Tree, b: Tree, c: Tree)
    requires
        undisturbed(a, b),
        undisturbed(b, c),
    ensures
        undisturbed(a, c),
{
    assert forall|i: int| 0 <= i < c.roots.len() implies (#[trigger] c.roots[i]).mv == a.roots[i].mv by {
        assert(b.roots[i].mv == a.roots[i].mv);
    }
}

proof fn lemma_returned(u: Tree, t: Tree, s: Tree)
    requires
        same_order(t.roots, u.roots),
        line::own_lines(t.roots) ==> line::own_lines(u.roots),
        s == run::returned(u, t),
    ensures
        undisturbed(s, t),
{
}

pub proof fn lemma_entry(env: Env, t: Tree, ply: int)
    ensures
        undisturbed(run::entry(env, t, ply).0, t),
        steady(env, run::entry(env, t, ply).0, t),
        run::entry(env, t, ply).0.roots == t.roots,
{
    reveal(run::entry);
    reveal(run::poll);
    reveal(run::counted);
}

pub(crate) proof fn lemma_quiet_node(env: Env, t: Tree, kind: NodeKind, alpha: int, beta: int, ply: int)
    requires
        ply <= 256,
    ensures
        undisturbed(run::quiet_node(env, t, kind, alpha, beta, ply).0, t),
        steady(env, run::quiet_node(env, t, kind, alpha, beta, ply).0, t),
        run::quiet_node(env, t, kind, alpha, beta, ply).0.roots == t.roots,
    decreases 257 - ply, 3int, 0int, 0int,
{
    reveal(run::quiet_node);
    reveal(run::quiet_loop);
    lemma_entry(env, t, ply);
    let (t1, gate) = run::entry(env, t, ply);
    if gate == Gate::Open && ply < MAX_PLY && run::quiet_table_cut(t1, kind, alpha, beta, ply) is None {
        if let Ok(q) = run::stand_pat(env.cfg, t1, alpha, beta) {
            let pk = movepicker::fresh(
                run::table_move(t1, ply),
                (Move(0), Move(0)),
                (crate::engine::history::ContContext {
                    pt: crate::types::PieceType::Empty,
                    to: crate::types::Square(0),
                }),
                env.cfg.mvvlva_v@,
                env.cfg.mvvlva_a@,
                !run::checked(t1.pos),
            );
            lemma_quiet_loop(env, t1, kind, beta, ply, q, pk);
            let t2 = run::quiet_loop(env, t1, kind, beta, ply, q, pk).0;
            reveal(run::quiet_conclude);
            lemma_undisturbed(t2, t1, t);
        }
    }
}

pub(crate) proof fn lemma_quiet_step(env: Env, t: Tree, kind: NodeKind, beta: int, ply: int, q: QuietV, mv: Move)
    requires
        ply < 256,
    ensures
        match run::quiet_step(env, t, kind, beta, ply, q, mv) {
            QuietTurn::Stop(u, _) => undisturbed(u, t) && steady(env, u, t) && u.roots == t.roots,
            QuietTurn::More(u, _) => undisturbed(u, t) && steady(env, u, t) && u.roots == t.roots,
        },
    decreases 257 - ply, 1int, 0int, 0int,
{
    reveal(run::quiet_step);
    reveal(run::quiet_node);
    lemma_quiet_node(env, run::descended(t, mv), kind, -beta, -q.alpha, ply + 1);
}

pub(crate) proof fn lemma_quiet_loop(env: Env, t: Tree, kind: NodeKind, beta: int, ply: int, q: QuietV, pk: PickerV)
    requires
        ply < 256,
    ensures
        undisturbed(run::quiet_loop(env, t, kind, beta, ply, q, pk).0, t),
        steady(env, run::quiet_loop(env, t, kind, beta, ply, q, pk).0, t),
        run::quiet_loop(env, t, kind, beta, ply, q, pk).0.roots == t.roots,
    decreases 257 - ply, 2int, 8 - pk.stage, pk.list.len(),
{
    reveal(run::quiet_loop);
    reveal(run::quiet_step);
    movepicker::lemma_pick_advances(pk, t.pos, t.hist);
    if let (Some(mv), next) = movepicker::pick(pk, t.pos, t.hist) {
        lemma_quiet_step(env, t, kind, beta, ply, q, mv);
        if let QuietTurn::More(t2, q2) = run::quiet_step(env, t, kind, beta, ply, q, mv) {
            lemma_quiet_loop(env, t2, kind, beta, ply, q2, next);
            lemma_undisturbed(run::quiet_loop(env, t2, kind, beta, ply, q2, next).0, t2, t);
        }
    }
}

proof fn lemma_null_step(
    env: Env,
    t: Tree,
    kind: NodeKind,
    in_check: bool,
    depth: int,
    ev: int,
    beta: int,
    ply: int,
)
    requires
        ply < 256,
    ensures
        match run::null_step(env, t, kind, in_check, depth, ev, beta, ply) {
            Step::Return(u, _) => undisturbed(u, t) && steady(env, u, t) && u.roots == t.roots,
            Step::Continue(u) => undisturbed(u, t) && steady(env, u, t) && u.roots == t.roots,
        },
    decreases 257 - ply, 7int, 0int, 0int,
{
    reveal(run::null_step);
    reveal(run::node);
    law_search_restores(
        env,
        run::passed_turn(t, ply),
        NodeKind::NonPv,
        run::null_depth(env.cfg, depth, ev, beta),
        -beta,
        -beta + 1,
        ply + 1,
        None,
    );
}

pub(crate) proof fn lemma_scout(
    env: Env,
    t: Tree,
    kind: NodeKind,
    depth: int,
    alpha: int,
    beta: int,
    ply: int,
    is_first: bool,
    is_pv_move: bool,
    reduction: int,
)
    requires
        ply < 256,
    ensures
        undisturbed(run::scout(env, t, kind, depth, alpha, beta, ply, is_first, is_pv_move, reduction).0, t),
        steady(env, run::scout(env, t, kind, depth, alpha, beta, ply, is_first, is_pv_move, reduction).0, t),
        run::scout(env, t, kind, depth, alpha, beta, ply, is_first, is_pv_move, reduction).0.roots == t.roots,
    decreases 257 - ply, 3int, 0int, 0int,
{
    reveal(run::scout);
    reveal(run::node);
    let next_pv = if kind.pv() && is_pv_move {
        line::move_at(env.prev_pv, ply + 1)
    } else {
        None
    };
    law_search_restores(env, t, kind.child(), depth - 1, -beta, -alpha, ply + 1, next_pv);
    if !is_first {
        law_search_restores(
            env,
            t,
            NodeKind::NonPv,
            depth - 1 - reduction,
            -alpha - 1,
            -alpha,
            ply + 1,
            None,
        );
        let (t1, r1) = run::node(
            env,
            t,
            NodeKind::NonPv,
            depth - 1 - reduction,
            -alpha - 1,
            -alpha,
            ply + 1,
            None,
        );
        law_search_restores(env, t1, NodeKind::NonPv, depth - 1, -alpha - 1, -alpha, ply + 1, None);
        let (t2, r2) = if r1 matches Some(v) && -v > alpha && reduction > 0 {
            run::node(env, t1, NodeKind::NonPv, depth - 1, -alpha - 1, -alpha, ply + 1, None)
        } else {
            (t1, r1)
        };
        if t2 != t1 {
            lemma_undisturbed(t2, t1, t);
        }
        law_search_restores(env, t2, kind.child(), depth - 1, -beta, -alpha, ply + 1, next_pv);
        lemma_undisturbed(
            run::node(env, t2, kind.child(), depth - 1, -beta, -alpha, ply + 1, next_pv).0,
            t2,
            t,
        );
    }
}

pub(crate) proof fn lemma_recorded(t: Tree, kind: NodeKind, ply: int, root_idx: Option<int>, mv: Move, res: ResV, v: int)
    requires
        root_idx matches Some(i) ==> 0 <= i < t.roots.len() && t.roots[i].mv == mv,
    ensures
        undisturbed(run::recorded(t, kind, ply, root_idx, mv, res, v).0, t),
        untold(run::recorded(t, kind, ply, root_idx, mv, res, v).0, t),
        !kind.root() || root_idx is None ==> run::recorded(t, kind, ply, root_idx, mv, res, v).0.roots == t.roots,
{
    reveal(run::recorded);
}

pub(crate) proof fn lemma_tried(
    env: Env,
    t: Tree,
    kind: NodeKind,
    mv: Move,
    depth: int,
    res: ResV,
    beta: int,
    ply: int,
    root_idx: Option<int>,
    is_pv_move: bool,
    reduction: int,
)
    requires
        ply < 256,
        root_idx matches Some(i) ==> 0 <= i < t.roots.len() && t.roots[i].mv == mv,
    ensures
        undisturbed(
            run::tried(env, t, kind, mv, depth, res, beta, ply, root_idx, is_pv_move, reduction).0,
            t,
        ),
        steady(
            env,
            run::tried(env, t, kind, mv, depth, res, beta, ply, root_idx, is_pv_move, reduction).0,
            t,
        ),
        !kind.root() || root_idx is None ==> run::tried(
            env,
            t,
            kind,
            mv,
            depth,
            res,
            beta,
            ply,
            root_idx,
            is_pv_move,
            reduction,
        ).0.roots == t.roots,
    decreases 257 - ply, 4int, 0int, 0int,
{
    reveal(run::tried);
    reveal(run::scout);
    reveal(run::mentioned);
    let res1 = ResV { move_count: run::next_number(res.move_count), ..res };
    let t1 = run::mentioned(env, run::descended(t, mv), kind, depth, mv, res1.move_count);
    let eased = run::eased(t1.pos, reduction);
    lemma_scout(env, t1, kind, depth, res.alpha, beta, ply, res1.move_count == 1, is_pv_move, eased);
    let (t2, r) = run::scout(
        env,
        t1,
        kind,
        depth,
        res.alpha,
        beta,
        ply,
        res1.move_count == 1,
        is_pv_move,
        eased,
    );
    let t3 = run::returned(t2, t);
    lemma_returned(t2, t, t3);
    if let Some(v) = r {
        lemma_recorded(t3, kind, ply, root_idx, mv, res1, v);
        lemma_undisturbed(run::recorded(t3, kind, ply, root_idx, mv, res1, v).0, t3, t);
    }
}

proof fn lemma_root_loop(env: Env, t: Tree, sc: Scene, res: ResV, i: int)
    requires
        sc.ply < 256,
        0 <= i,
    ensures
        undisturbed(run::root_loop(env, t, sc, res, i).0, t),
        steady(env, run::root_loop(env, t, sc, res, i).0, t),
    decreases 257 - sc.ply, 6int, t.roots.len() - i, 0int,
{
    reveal(run::root_loop);
    reveal(run::tried);
    if i < t.roots.len() {
        let mv = t.roots[i].mv;
        let reduction = run::root_reduction(env.cfg, sc.depth, sc.in_check, i, mv);
        lemma_tried(
            env,
            t,
            sc.kind,
            mv,
            sc.depth,
            res,
            sc.beta,
            sc.ply,
            Some(i),
            sc.pv_move == Some(mv),
            reduction,
        );
        let (t1, r) = run::tried(
            env,
            t,
            sc.kind,
            mv,
            sc.depth,
            res,
            sc.beta,
            sc.ply,
            Some(i),
            sc.pv_move == Some(mv),
            reduction,
        );
        if let Some(res1) = r {
            if !(res1.alpha >= sc.beta || t1.roots.len() != t.roots.len()) {
                lemma_root_loop(env, t1, sc, res1, i + 1);
                lemma_undisturbed(run::root_loop(env, t1, sc, res1, i + 1).0, t1, t);
            }
        }
    }
}

pub(crate) proof fn lemma_move_step(env: Env, t: Tree, sc: Scene, res: ResV, mv: Move)
    requires
        sc.ply < 256,
    ensures
        match run::move_step(env, t, sc, res, mv) {
            Turn::Stop(u, _) => undisturbed(u, t) && steady(env, u, t) && u.roots == t.roots,
            Turn::More(u, _) => undisturbed(u, t) && steady(env, u, t) && u.roots == t.roots,
        },
    decreases 257 - sc.ply, 5int, 0int, 0int,
{
    reveal(run::move_step);
    reveal(run::tried);
    reveal(run::remembered);
    reveal(run::noted);
    reveal(run::taught);
    let t1 = run::remembered(t, sc.ply, mv);
    let u = run::noted(t1, sc.ply, mv);
    let reduction = run::reduction_of(env.cfg, t1, sc, res, mv);
    lemma_tried(
        env,
        u,
        sc.kind,
        mv,
        sc.depth,
        res,
        sc.beta,
        sc.ply,
        None,
        sc.pv_move == Some(mv),
        reduction,
    );
    let t2 = run::tried(
        env,
        u,
        sc.kind,
        mv,
        sc.depth,
        res,
        sc.beta,
        sc.ply,
        None,
        sc.pv_move == Some(mv),
        reduction,
    ).0;
    lemma_undisturbed(t2, u, t);
}

pub(crate) proof fn lemma_move_loop(env: Env, t: Tree, sc: Scene, res: ResV, pk: PickerV)
    requires
        sc.ply < 256,
    ensures
        undisturbed(run::move_loop(env, t, sc, res, pk).0, t),
        steady(env, run::move_loop(env, t, sc, res, pk).0, t),
        run::move_loop(env, t, sc, res, pk).0.roots == t.roots,
    decreases 257 - sc.ply, 6int, 8 - pk.stage, pk.list.len(),
{
    reveal(run::move_loop);
    reveal(run::move_step);
    movepicker::lemma_pick_advances(pk, t.pos, t.hist);
    if let (Some(mv), next) = movepicker::pick(pk, t.pos, t.hist) {
        lemma_move_step(env, t, sc, res, mv);
        if let Turn::More(t2, res2) = run::move_step(env, t, sc, res, mv) {
            lemma_move_loop(env, t2, sc, res2, next);
            lemma_undisturbed(run::move_loop(env, t2, sc, res2, next).0, t2, t);
        }
    }
}

proof fn lemma_all_moves(env: Env, t: Tree, sc: Scene, alpha: int, hash_move: Option<Move>)
    requires
        sc.ply < 256,
    ensures
        undisturbed(run::all_moves(env, t, sc, alpha, hash_move).0, t),
        steady(env, run::all_moves(env, t, sc, alpha, hash_move).0, t),
        !sc.kind.root() ==> run::all_moves(env, t, sc, alpha, hash_move).0.roots == t.roots,
    decreases 257 - sc.ply, 7int, 0int, 0int,
{
    reveal(run::all_moves);
    reveal(run::root_loop);
    reveal(run::move_loop);
    if sc.kind.root() {
        lemma_root_loop(env, t, sc, run::no_result(alpha), 0);
    } else {
        let t1 = run::with_ply(t, sc.ply, StackV { quiets: Seq::empty(), ..t.stack[sc.ply] });
        let pk = movepicker::fresh(
            hash_move,
            t.stack[sc.ply].killers,
            sc.cont,
            env.cfg.mvvlva_v@,
            env.cfg.mvvlva_a@,
            false,
        );
        lemma_move_loop(env, t1, sc, run::no_result(alpha), pk);
        lemma_undisturbed(run::move_loop(env, t1, sc, run::no_result(alpha), pk).0, t1, t);
    }
}

proof fn lemma_played_out(
    env: Env,
    t: Tree,
    kind: NodeKind,
    depth: int,
    alpha: int,
    beta: int,
    ply: int,
    in_check: bool,
    raw: int,
    ev: int,
    pv: Option<Move>,
    hint: Option<Move>,
)
    requires
        ply < 256,
    ensures
        undisturbed(
            run::played_out(env, t, kind, depth, alpha, beta, ply, in_check, raw, ev, pv, hint).0,
            t,
        ),
        steady(
            env,
            run::played_out(env, t, kind, depth, alpha, beta, ply, in_check, raw, ev, pv, hint).0,
            t,
        ),
        !kind.root() ==> run::played_out(
            env,
            t,
            kind,
            depth,
            alpha,
            beta,
            ply,
            in_check,
            raw,
            ev,
            pv,
            hint,
        ).0.roots == t.roots,
    decreases 257 - ply, 8int, 0int, 0int,
{
    reveal(run::played_out);
    reveal(run::all_moves);
    reveal(run::conclude);
    let sc = Scene {
        kind,
        depth: run::reduced_without_hint(depth, hint),
        beta,
        ply,
        in_check,
        static_eval: ev,
        pv_move: pv,
        cont: run::context(t, ply),
    };
    lemma_all_moves(env, t, sc, alpha, run::first_of(hint, pv));
}

proof fn lemma_expanded(
    env: Env,
    t: Tree,
    kind: NodeKind,
    depth: int,
    alpha: int,
    beta: int,
    ply: int,
    pv_move: Option<Move>,
)
    requires
        ply < 256,
    ensures
        undisturbed(run::expanded(env, t, kind, depth, alpha, beta, ply, pv_move).0, t),
        steady(env, run::expanded(env, t, kind, depth, alpha, beta, ply, pv_move).0, t),
        !kind.root() ==> run::expanded(env, t, kind, depth, alpha, beta, ply, pv_move).0.roots == t.roots,
    decreases 257 - ply, 9int, 0int, 0int,
{
    reveal(run::expanded);
    reveal(run::null_step);
    reveal(run::played_out);
    reveal(run::razor_step);
    let hint = run::table_move(t, ply);
    let pv = run::playable_hint(t.pos, pv_move);
    let chk = run::checked(t.pos);
    let d = if chk {
        depth + 1
    } else {
        depth
    };
    let raw = if chk {
        tt::SCORE_NONE as int
    } else {
        crate::engine::eval::score_of(t.acc, t.pos.stm)
    };
    let ev = if chk {
        tt::SCORE_NONE as int
    } else {
        run::corrected_eval(t)
    };
    let t1 = run::with_ply(t, ply, StackV { static_eval: ev as i32, ..t.stack[ply] });
    lemma_quiet_node(env, t1, kind, alpha, beta, ply);
    if let Step::Continue(t2) = run::razor_step(env, t1, kind, chk, d, ev, alpha, beta, ply) {
        lemma_null_step(env, t2, kind, chk, d, ev, beta, ply);
        match run::null_step(env, t2, kind, chk, d, ev, beta, ply) {
            Step::Return(t3, _) => {
                lemma_undisturbed(t3, t2, t);
            },
            Step::Continue(t3) => {
                lemma_undisturbed(t3, t2, t);
                lemma_played_out(env, t3, kind, d, alpha, beta, ply, chk, raw, ev, pv, hint);
                lemma_undisturbed(
                    run::played_out(env, t3, kind, d, alpha, beta, ply, chk, raw, ev, pv, hint).0,
                    t3,
                    t,
                );
            },
        }
    }
}

/// Searching a node, to its end or until it is aborted, leaves the position, the accumulator, the trail and
/// the order of the root moves as they were; and below the root their scores and lines as well. A silent search says
/// nothing.
pub proof fn law_search_restores(
    env: Env,
    t: Tree,
    kind: NodeKind,
    depth: int,
    alpha: int,
    beta: int,
    ply: int,
    pv_move: Option<Move>,
)
    requires
        ply <= 256,
    ensures
        undisturbed(run::node(env, t, kind, depth, alpha, beta, ply, pv_move).0, t),
        steady(env, run::node(env, t, kind, depth, alpha, beta, ply, pv_move).0, t),
        !kind.root() ==> run::node(env, t, kind, depth, alpha, beta, ply, pv_move).0.roots == t.roots,
    decreases 257 - ply, 10int, 0int, 0int,
{
    reveal(run::node);
    reveal(run::expanded);
    lemma_entry(env, t, ply);
    let (t1, gate) = run::entry(env, t, ply);
    if gate == Gate::Open {
        if depth <= 0 {
            lemma_quiet_node(env, t1, kind, alpha, beta, ply);
            lemma_undisturbed(run::quiet_node(env, t1, kind, alpha, beta, ply).0, t1, t);
        } else if ply < MAX_PLY {
            lemma_expanded(env, t1, kind, depth, alpha, beta, ply, pv_move);
            lemma_undisturbed(run::expanded(env, t1, kind, depth, alpha, beta, ply, pv_move).0, t1, t);
        }
    }
}

/// The search of one depth, aborted or not, leaves the order of the root moves as it was: only a completed
/// iteration sorts them. Their lines stay their own.
pub proof fn law_abort_keeps_order(
    env: Env,
    root: PositionV,
    t: Tree,
    depth: int,
    alpha: int,
    beta: int,
    delta: int,
)
    ensures
        same_order(t.roots, deepening::aspired(env, root, t, depth, alpha, beta, delta).0.roots),
        line::own_lines(t.roots) ==> line::own_lines(
            deepening::aspired(env, root, t, depth, alpha, beta, delta).0.roots,
        ),
    decreases u64::MAX - t.nodes,
{
    reveal(deepening::aspired);
    let t0 = deepening::at_root(t, root);
    law_search_restores(env, t0, NodeKind::Root, depth, alpha, beta, 0, None);
    let (t1, r) = run::node(env, t0, NodeKind::Root, depth, alpha, beta, 0, None);
    let score = t1.roots[0].score as int;
    if r is Some && t1.nodes > t.nodes {
        if score <= alpha {
            let lower = arith::larger(score - delta, -INF as int);
            law_abort_keeps_order(env, root, t1, depth, lower, beta, deepening::wider(delta));
            lemma_order_chain(
                t.roots,
                t1.roots,
                deepening::aspired(env, root, t1, depth, lower, beta, deepening::wider(delta)).0.roots,
            );
        } else if score >= beta {
            let upper = arith::smaller(score + delta, INF as int);
            law_abort_keeps_order(env, root, t1, depth, alpha, upper, deepening::wider(delta));
            lemma_order_chain(
                t.roots,
                t1.roots,
                deepening::aspired(env, root, t1, depth, alpha, upper, deepening::wider(delta)).0.roots,
            );
        }
    }
}

/// Searching a drawn root counts one node and leaves everything else but its line, the signals and the
/// display alone.
proof fn lemma_drawn_root_node(env: Env, t: Tree, depth: int, alpha: int, beta: int)
    requires
        run::is_drawn(t.pos, 0, t.trail),
    ensures
        ({
            let (t1, r) = run::node(env, t, NodeKind::Root, depth, alpha, beta, 0, None);
            &&& t1.roots == t.roots
            &&& t1.trail == t.trail
            &&& r is None ==> t1.raised
            &&& r is Some ==> t1.nodes == run::one_more(t.nodes)
        }),
{
    reveal(run::node);
    reveal(run::quiet_node);
    reveal(run::expanded);
    reveal(run::quiet_loop);
    reveal(run::entry);
    reveal(run::counted);
    reveal(run::poll);
}

/// A root that is drawn as it stands gets no score: it is searched until the search is stopped, and its
/// moves stay as they are. Only a node counter at its limit ends this otherwise.
pub proof fn law_drawn_root(
    env: Env,
    root: PositionV,
    t: Tree,
    depth: int,
    alpha: int,
    beta: int,
    delta: int,
)
    requires
        run::is_drawn(root, 0, t.trail),
        t.roots[0].score == -INF,
        alpha >= -INF,
        delta >= 0,
    ensures
        ({
            let (t1, aborted) = deepening::aspired(env, root, t, depth, alpha, beta, delta);
            &&& t1.roots == t.roots
            &&& aborted || t1.nodes == u64::MAX
            &&& aborted ==> t1.raised
        }),
    decreases u64::MAX - t.nodes,
{
    reveal(deepening::aspired);
    let t0 = deepening::at_root(t, root);
    lemma_drawn_root_node(env, t0, depth, alpha, beta);
    let (t1, r) = run::node(env, t0, NodeKind::Root, depth, alpha, beta, 0, None);
    if r is Some && t1.nodes > t.nodes {
        law_drawn_root(env, root, t1, depth, -INF as int, beta, deepening::wider(delta));
    }
}

/// So the search of such a root ends with its first iteration, which does not complete: no line is found,
/// none is remembered, and the root moves stay as they are.
pub proof fn law_drawn_root_unscored(job: Job, p: Progress, depth: int, last: u64)
    requires
        job.cfg.wf(),
        run::is_drawn(job.root, 0, p.tree.trail),
        p.tree.roots[0].score == -INF,
        depth <= deepening::last_depth(job.cfg.limits),
    ensures
        ({
            let (q, began) = deepening::iteration(job, p, depth, last);
            q.tree.nodes < u64::MAX ==> {
                &&& began is None
                &&& deepening::iterations(job, p, depth, last) == q
                &&& q.tree.roots == p.tree.roots
                &&& q.prev_pv == p.prev_pv
                &&& q.prev_score == p.prev_score
                &&& q.past == p.past
            }
        }),
{
    reveal(deepening::iterations);
    reveal(deepening::iteration);
    reveal(deepening::completed);
    reveal(run::poll);
    let p1 = deepening::clocked(Progress { iter_depth: depth as i32, ..p });
    let env = deepening::env_for(job, p1);
    let (stop, t2) = run::poll(env, p1.tree);
    let (alpha, beta) = deepening::first_window(job.cfg, depth, p.prev_score as int);
    law_drawn_root(env, job.root, t2, depth, alpha, beta, job.cfg.search_params.asp_initial as int);
}

proof fn lemma_order_chain(a: Seq<RootV>, b: Seq<RootV>, c: Seq<RootV>)
    requires
        same_order(a, b),
        same_order(b, c),
    ensures
        same_order(a, c),
{
    assert forall|i: int| 0 <= i < a.len() implies (#[trigger] a[i]).mv == c[i].mv by {
        assert(b[i].mv == c[i].mv);
    }
}

/// The moves of a list of root moves.
pub open spec fn moves_of(r: Seq<RootV>) -> Seq<Move> {
    r.map_values(|x: RootV| x.mv)
}

/// The same moves, each as often, in any order.
pub open spec fn same_choice(a: Seq<RootV>, b: Seq<RootV>) -> bool {
    moves_of(a).to_multiset() == moves_of(b).to_multiset()
}

proof fn lemma_same_order_choice(a: Seq<RootV>, b: Seq<RootV>)
    requires
        same_order(a, b),
    ensures
        same_choice(a, b),
{
    assert(moves_of(a) =~= moves_of(b));
}

/// Lists with the same entries in any order have the same moves.
proof fn lemma_shuffled(a: Seq<RootV>, b: Seq<RootV>)
    requires
        a.to_multiset() == b.to_multiset(),
    ensures
        same_choice(a, b),
    decreases a.len(),
{
    a.to_multiset_ensures();
    b.to_multiset_ensures();
    assert(a.len() == b.len());
    if a.len() == 0 {
        assert(moves_of(a) =~= moves_of(b));
    } else {
        let n = a.len() - 1;
        let x = a[n];
        assert(a.contains(x));
        assert(b.to_multiset().count(x) > 0);
        let j = choose|j: int| 0 <= j < b.len() && b[j] == x;
        lemma_shuffled(a.remove(n), b.remove(j));
        assert(moves_of(a) =~= moves_of(a.remove(n)).insert(n, x.mv));
        assert(moves_of(b) =~= moves_of(b.remove(j)).insert(j, x.mv));
        vstd::seq_lib::to_multiset_insert(moves_of(a.remove(n)), n, x.mv);
        vstd::seq_lib::to_multiset_insert(moves_of(b.remove(j)), j, x.mv);
    }
}

proof fn lemma_sorted_choice(r: Seq<RootV>)
    ensures
        same_choice(r, deepening::sorted(r)),
{
    deepening::law_sorted(r);
    lemma_shuffled(r, deepening::sorted(r));
}

proof fn lemma_iteration_choice(job: Job, p: Progress, depth: int, last: u64)
    requires
        job.cfg.wf(),
    ensures
        same_choice(p.tree.roots, deepening::iteration(job, p, depth, last).0.tree.roots),
{
    reveal(deepening::iteration);
    reveal(deepening::completed);
    reveal(run::poll);
    let p1 = deepening::clocked(Progress { iter_depth: depth as i32, ..p });
    let env = deepening::env_for(job, p1);
    let t2 = run::poll(env, p1.tree).1;
    let (alpha, beta) = deepening::first_window(job.cfg, depth, p.prev_score as int);
    let delta = job.cfg.search_params.asp_initial as int;
    law_abort_keeps_order(env, job.root, t2, depth, alpha, beta, delta);
    let t3 = deepening::aspired(env, job.root, t2, depth, alpha, beta, delta).0;
    lemma_same_order_choice(p.tree.roots, t3.roots);
    lemma_sorted_choice(t3.roots);
}

proof fn lemma_sorted_lines(r: Seq<RootV>)
    requires
        line::own_lines(r),
    ensures
        line::own_lines(deepening::sorted(r)),
{
    let s = deepening::sorted(r);
    deepening::law_sorted(r);
    r.to_multiset_ensures();
    s.to_multiset_ensures();
    assert forall|i: int| 0 <= i < s.len() implies line::own_line(#[trigger] s[i]) by {
        assert(s.contains(s[i]));
        assert(r.to_multiset().count(s[i]) > 0);
        let j = choose|j: int| 0 <= j < r.len() && r[j] == s[i];
        assert(line::own_line(r[j]));
    }
}

/// The line of a root move is always its own: empty, or beginning with that move. So when an iteration
/// completes, the move to announce is the first root move.
pub proof fn law_announced_first(job: Job, p: Progress, depth: int, last: u64)
    requires
        line::own_lines(p.tree.roots),
        p.tree.roots.len() > 0,
    ensures
        ({
            let (q, began) = deepening::iteration(job, p, depth, last);
            &&& line::own_lines(q.tree.roots)
            &&& began is Some ==> deepening::announced(job.root, q.prev_pv, q.tree.roots[0].mv)
                == q.tree.roots[0].mv
        }),
{
    reveal(deepening::iteration);
    reveal(deepening::completed);
    reveal(run::poll);
    let p1 = deepening::clocked(Progress { iter_depth: depth as i32, ..p });
    let env = deepening::env_for(job, p1);
    let t2 = run::poll(env, p1.tree).1;
    let (alpha, beta) = deepening::first_window(job.cfg, depth, p.prev_score as int);
    let delta = job.cfg.search_params.asp_initial as int;
    law_abort_keeps_order(env, job.root, t2, depth, alpha, beta, delta);
    let t3 = deepening::aspired(env, job.root, t2, depth, alpha, beta, delta).0;
    lemma_sorted_lines(t3.roots);
    deepening::law_sorted(t3.roots);
    t3.roots.to_multiset_ensures();
    deepening::sorted(t3.roots).to_multiset_ensures();
}

/// A search neither loses nor invents root moves: after any number of iterations they are the moves that it
/// began with, in some order.
pub proof fn law_root_moves_stay(job: Job, p: Progress, depth: int, last: u64)
    requires
        job.cfg.wf(),
    ensures
        same_choice(p.tree.roots, deepening::iterations(job, p, depth, last).tree.roots),
    decreases deepening::last_depth(job.cfg.limits) - depth + 1,
{
    reveal(deepening::iterations);
    if depth <= deepening::last_depth(job.cfg.limits) {
        lemma_iteration_choice(job, p, depth, last);
        let (p1, began) = deepening::iteration(job, p, depth, last);
        if let Some(b) = began {
            law_root_moves_stay(job, p1, depth + 1, b);
        }
    }
}

} // verus!
