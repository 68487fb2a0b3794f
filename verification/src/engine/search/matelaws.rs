//! Mate, stalemate, and moves that must not be overlooked.

use vstd::prelude::*;
use crate::board::model::PositionV;
use crate::engine::history::ContContext;
use crate::engine::movegen;
use crate::engine::movepicker;
use crate::engine::movepicker::PickerV;
use crate::engine::pickerlaws;
use crate::engine::search::config::SearchConfig;
use crate::engine::search::laws;
use crate::engine::search::line::StackV;
use crate::engine::search::model as run;
use crate::engine::search::model::{Env, Gate, NodeKind, QuietTurn, QuietV, ResV, Scene, Tree, Turn};
use crate::moves::Move;
use crate::types::{INF, MATE, MAX_PLY, PieceType, Square};

verus! {

/// There is no legal move.
pub open spec fn no_legal_move(t: Tree) -> bool {
    forall|mv: Move| !#[trigger] movegen::legal(t.pos, mv)
}

proof fn lemma_dead_loop(env: Env, t: Tree, sc: Scene, res: ResV, pk: PickerV)
    requires
        sc.ply < 256,
        no_legal_move(t),
    ensures
        run::move_loop(env, t, sc, res, pk) == (t, Some(res)),
    decreases 8 - pk.stage, pk.list.len(),
{
    reveal(run::move_loop);
    reveal(run::move_step);
    movepicker::lemma_pick_advances(pk, t.pos, t.hist);
    if let (Some(mv), next) = movepicker::pick(pk, t.pos, t.hist) {
        assert(!movegen::legal(t.pos, mv));
        assert(run::move_step(env, t, sc, res, mv) == Turn::More(t, res));
        lemma_dead_loop(env, t, sc, res, next);
    }
}

proof fn lemma_dead_node(env: Env, t: Tree, sc: Scene, alpha: int, hash_move: Option<Move>)
    requires
        sc.ply < 256,
        !sc.kind.root(),
        no_legal_move(t),
    ensures
        run::all_moves(env, t, sc, alpha, hash_move).1 == Some(run::no_result(alpha)),
        0 <= sc.ply < t.stack.len() ==> run::all_moves(env, t, sc, alpha, hash_move).0.stack[sc.ply].pv
            == t.stack[sc.ply].pv,
{
    reveal(run::all_moves);
    reveal(run::move_loop);
    let t1 = run::with_ply(t, sc.ply, StackV { quiets: Seq::empty(), ..t.stack[sc.ply] });
    let pk = movepicker::fresh(
        hash_move,
        t.stack[sc.ply].killers,
        sc.cont,
        env.cfg.mvvlva_v@,
        env.cfg.mvvlva_a@,
        false,
    );
    assert(no_legal_move(t1)) by {
        assert forall|mv: Move| !#[trigger] movegen::legal(t1.pos, mv) by {
            assert(!movegen::legal(t.pos, mv));
        }
    }
    lemma_dead_loop(env, t1, sc, run::no_result(alpha), pk);
}

/// The node is entered, and neither a draw nor the table decides it.
pub open spec fn undecided(env: Env, t: Tree, kind: NodeKind, depth: int, alpha: int, beta: int, ply: int) -> bool {
    let (t1, gate) = run::entry(env, t, ply);
    gate == Gate::Open && run::table_cut(t1, kind, depth, alpha, beta, ply) is None
}

proof fn lemma_unpruned(
    env: Env,
    t: Tree,
    kind: NodeKind,
    depth: int,
    alpha: int,
    beta: int,
    ply: int,
    pv_move: Option<Move>,
)
    requires
        ply < 256,
        !kind.root(),
        run::checked(t.pos) || kind.pv(),
        no_legal_move(t),
    ensures
        run::expanded(env, t, kind, depth, alpha, beta, ply, pv_move).1 == Some(
            if run::checked(t.pos) {
                -MATE + ply
            } else {
                0
            },
        ),
        0 <= ply < t.stack.len() ==> run::expanded(env, t, kind, depth, alpha, beta, ply, pv_move).0.stack[ply].pv
            == t.stack[ply].pv,
{
    reveal(run::expanded);
    reveal(run::null_step);
    reveal(run::played_out);
    reveal(run::all_moves);
    reveal(run::razor_step);
    reveal(run::conclude);
    let hint = run::table_move(t, ply);
    let pv = run::playable_hint(t.pos, pv_move);
    let chk = run::checked(t.pos);
    let d = if chk {
        depth + 1
    } else {
        depth
    };
    let ev = if chk {
        crate::engine::tt::SCORE_NONE as int
    } else {
        run::corrected_eval(t)
    };
    let t1 = run::with_ply(t, ply, StackV { static_eval: ev as i32, ..t.stack[ply] });
    let sc = Scene {
        kind,
        depth: run::reduced_without_hint(d, hint),
        beta,
        ply,
        in_check: chk,
        static_eval: ev,
        pv_move: pv,
        cont: run::context(t1, ply),
    };
    assert(no_legal_move(t1)) by {
        assert forall|mv: Move| !#[trigger] movegen::legal(t1.pos, mv) by {
            assert(!movegen::legal(t.pos, mv));
        }
    }
    lemma_dead_node(env, t1, sc, alpha, run::first_of(hint, pv));
}

/// Checkmate: a node in check without a legal move scores as being mated at its ply, the sooner the worse, and
/// has no line.
pub proof fn law_checkmate(
    env: Env,
    t: Tree,
    kind: NodeKind,
    depth: int,
    alpha: int,
    beta: int,
    ply: int,
    pv_move: Option<Move>,
)
    requires
        0 <= ply < MAX_PLY,
        depth > 0,
        !kind.root(),
        undecided(env, t, kind, depth, alpha, beta, ply),
        run::checked(t.pos),
        no_legal_move(t),
    ensures
        run::node(env, t, kind, depth, alpha, beta, ply, pv_move).1 == Some(-MATE + ply),
        ply < t.stack.len() ==> run::node(env, t, kind, depth, alpha, beta, ply, pv_move).0.stack[ply].pv.len() == 0,
{
    reveal(run::node);
    reveal(run::expanded);
    let t1 = run::entry(env, t, ply).0;
    laws::lemma_entry(env, t, ply);
    lemma_entry_line(env, t, ply);
    lemma_same_moves(t, t1);
    lemma_unpruned(env, t1, kind, depth, alpha, beta, ply, pv_move);
}

/// Stalemate: a node on the principal variation without a legal move and not in check scores 0.
pub proof fn law_stalemate(env: Env, t: Tree, depth: int, alpha: int, beta: int, ply: int, pv_move: Option<Move>)
    requires
        0 <= ply < MAX_PLY,
        depth > 0,
        undecided(env, t, NodeKind::Pv, depth, alpha, beta, ply),
        !run::checked(t.pos),
        no_legal_move(t),
    ensures
        run::node(env, t, NodeKind::Pv, depth, alpha, beta, ply, pv_move).1 == Some(0int),
{
    reveal(run::node);
    reveal(run::expanded);
    let t1 = run::entry(env, t, ply).0;
    laws::lemma_entry(env, t, ply);
    lemma_same_moves(t, t1);
    lemma_unpruned(env, t1, NodeKind::Pv, depth, alpha, beta, ply, pv_move);
}

proof fn lemma_entry_line(env: Env, t: Tree, ply: int)
    ensures
        0 <= ply < t.stack.len() ==> run::entry(env, t, ply).0.stack[ply].pv.len() == 0 && run::entry(
            env,
            t,
            ply,
        ).0.stack.len() == t.stack.len(),
{
    reveal(run::entry);
    reveal(run::poll);
    reveal(run::counted);
}

proof fn lemma_same_moves(t: Tree, u: Tree)
    requires
        u.pos == t.pos,
        no_legal_move(t),
    ensures
        no_legal_move(u),
{
    assert forall|mv: Move| !#[trigger] movegen::legal(u.pos, mv) by {
        assert(!movegen::legal(t.pos, mv));
    }
}

proof fn lemma_tried_counts(
    env: Env,
    t: Tree,
    kind: NodeKind,
    mv: Move,
    depth: int,
    res: ResV,
    beta: int,
    ply: int,
    root_idx: Option<int>,
    is_pv_move: bool,
    reduction: int,
)
    requires
        ply < 256,
    ensures
        run::tried(env, t, kind, mv, depth, res, beta, ply, root_idx, is_pv_move, reduction).1 matches Some(r)
            ==> r.move_count == run::next_number(res.move_count),
{
    reveal(run::tried);
    reveal(run::recorded);
}

proof fn lemma_count_grows(env: Env, t: Tree, sc: Scene, res: ResV, pk: PickerV)
    requires
        sc.ply < 256,
    ensures
        run::move_loop(env, t, sc, res, pk).1 matches Some(r) ==> r.move_count >= res.move_count,
    decreases 8 - pk.stage, pk.list.len(),
{
    reveal(run::move_loop);
    reveal(run::move_step);
    movepicker::lemma_pick_advances(pk, t.pos, t.hist);
    if let (Some(mv), next) = movepicker::pick(pk, t.pos, t.hist) {
        let t1 = run::remembered(t, sc.ply, mv);
        reveal(run::tried);
        lemma_tried_counts(
            env,
            run::noted(t1, sc.ply, mv),
            sc.kind,
            mv,
            sc.depth,
            res,
            sc.beta,
            sc.ply,
            None,
            sc.pv_move == Some(mv),
            run::reduction_of(env.cfg, t1, sc, res, mv),
        );
        if let Turn::More(t2, res2) = run::move_step(env, t, sc, res, mv) {
            lemma_count_grows(env, t2, sc, res2, next);
        }
    }
}

/// No pruning rule passes over the first legal move.
proof fn lemma_first_move_kept(cfg: SearchConfig, p: PositionV, sc: Scene, res: ResV, mv: Move)
    requires
        cfg.search_params.lmp_base >= 0,
        sc.depth >= 1,
        res.move_count == 0,
    ensures
        !run::skipped(cfg, p, sc, res, mv),
{
    reveal(run::skipped);
    assert(sc.depth * sc.depth >= 1) by (nonlinear_arith)
        requires
            sc.depth >= 1,
    ;
}

proof fn lemma_move_found(env: Env, t: Tree, sc: Scene, res: ResV, pk: PickerV, good: Move)
    requires
        env.cfg.search_params.lmp_base >= 0,
        sc.ply < 256,
        sc.depth >= 1,
        res.move_count == 0,
        pickerlaws::tidy(pk, t.pos),
        pickerlaws::pending(pk, t.pos, good),
        movegen::legal(t.pos, good),
    ensures
        run::move_loop(env, t, sc, res, pk).1 matches Some(r) ==> r.move_count >= 1,
    decreases 8 - pk.stage, pk.list.len(),
{
    reveal(run::move_loop);
    reveal(run::move_step);
    reveal(run::skipped);
    reveal(run::tried);
    movepicker::lemma_pick_advances(pk, t.pos, t.hist);
    pickerlaws::law_picker_complete(pk, t.pos, t.hist);
    let (m, next) = movepicker::pick(pk, t.pos, t.hist);
    if m is None {
        assert(!pickerlaws::pending(pk, t.pos, good));
    } else {
        let mv = m.unwrap();
        if movegen::legal(t.pos, mv) {
            let t1 = run::remembered(t, sc.ply, mv);
            lemma_first_move_kept(env.cfg, t1.pos, sc, res, mv);
            lemma_tried_counts(
                env,
                run::noted(t1, sc.ply, mv),
                sc.kind,
                mv,
                sc.depth,
                res,
                sc.beta,
                sc.ply,
                None,
                sc.pv_move == Some(mv),
                run::reduction_of(env.cfg, t1, sc, res, mv),
            );
            if let Turn::More(t2, res2) = run::move_step(env, t, sc, res, mv) {
                lemma_count_grows(env, t2, sc, res2, next);
            }
        } else {
            assert(mv != good);
            assert(pickerlaws::pending(next, t.pos, good));
            lemma_move_found(env, t, sc, res, next, good);
        }
    }
}

/// No false mate and no false stalemate: when an interior node has a legal move, a search of its moves that is
/// not aborted has searched at least one. No pruning rule passes over the first of them, unless the number of
/// moves that late move pruning lets through starts below 0.
pub proof fn law_no_false_mate(env: Env, t: Tree, sc: Scene, alpha: int, hash_move: Option<Move>, good: Move)
    requires
        env.cfg.search_params.lmp_base >= 0,
        sc.ply < 256,
        sc.depth >= 1,
        !sc.kind.root(),
        hash_move matches Some(m) ==> movegen::pseudo_legal(t.pos, m),
        movegen::legal(t.pos, good),
    ensures
        run::all_moves(env, t, sc, alpha, hash_move).1 matches Some(r) ==> r.move_count >= 1,
{
    reveal(run::all_moves);
    reveal(run::move_loop);
    let t1 = run::with_ply(t, sc.ply, StackV { quiets: Seq::empty(), ..t.stack[sc.ply] });
    let pk = movepicker::fresh(
        hash_move,
        t.stack[sc.ply].killers,
        sc.cont,
        env.cfg.mvvlva_v@,
        env.cfg.mvvlva_a@,
        false,
    );
    pickerlaws::law_fresh_picker(pk, t1.pos);
    assert(pickerlaws::pending(pk, t1.pos, good));
    lemma_move_found(env, t1, sc, run::no_result(alpha), pk, good);
}

// ──────── Quiescence ────────

/// The picker of a quiescence node: captures and promotions, but in check all moves.
pub open spec fn quiet_picker(cfg: SearchConfig, p: PositionV, hash_move: Option<Move>) -> PickerV {
    movepicker::fresh(
        hash_move,
        (Move(0), Move(0)),
        (ContContext { pt: PieceType::Empty, to: Square(0) }),
        cfg.mvvlva_v@,
        cfg.mvvlva_a@,
        !run::checked(p),
    )
}

proof fn lemma_quiet_dead(env: Env, t: Tree, kind: NodeKind, beta: int, ply: int, q: QuietV, pk: PickerV)
    requires
        ply < 256,
        no_legal_move(t),
    ensures
        run::quiet_loop(env, t, kind, beta, ply, q, pk) == (t, Some(q)),
    decreases 8 - pk.stage, pk.list.len(),
{
    reveal(run::quiet_loop);
    reveal(run::quiet_step);
    reveal(run::quiet_node);
    movepicker::lemma_pick_advances(pk, t.pos, t.hist);
    if let (Some(mv), next) = movepicker::pick(pk, t.pos, t.hist) {
        assert(!movegen::legal(t.pos, mv));
        assert(run::quiet_step(env, t, kind, beta, ply, q, mv) == QuietTurn::More(t, q));
        lemma_quiet_dead(env, t, kind, beta, ply, q, next);
    }
}

proof fn lemma_made_stays(env: Env, t: Tree, kind: NodeKind, beta: int, ply: int, q: QuietV, pk: PickerV)
    requires
        ply < 256,
        q.made,
    ensures
        run::quiet_loop(env, t, kind, beta, ply, q, pk).1 matches Some(r) ==> r.made,
    decreases 8 - pk.stage, pk.list.len(),
{
    reveal(run::quiet_loop);
    reveal(run::quiet_step);
    reveal(run::quiet_node);
    movepicker::lemma_pick_advances(pk, t.pos, t.hist);
    if let (Some(mv), next) = movepicker::pick(pk, t.pos, t.hist) {
        if let QuietTurn::More(t2, q2) = run::quiet_step(env, t, kind, beta, ply, q, mv) {
            lemma_made_stays(env, t2, kind, beta, ply, q2, next);
        }
    }
}

proof fn lemma_evasion_found(
    env: Env,
    t: Tree,
    kind: NodeKind,
    beta: int,
    ply: int,
    q: QuietV,
    pk: PickerV,
    good: Move,
)
    requires
        ply < 256,
        run::checked(t.pos),
        pickerlaws::tidy(pk, t.pos),
        pickerlaws::pending(pk, t.pos, good),
        movegen::legal(t.pos, good),
    ensures
        run::quiet_loop(env, t, kind, beta, ply, q, pk).1 matches Some(r) ==> r.made,
    decreases 8 - pk.stage, pk.list.len(),
{
    reveal(run::quiet_loop);
    reveal(run::quiet_step);
    reveal(run::quiet_node);
    movepicker::lemma_pick_advances(pk, t.pos, t.hist);
    pickerlaws::law_picker_complete(pk, t.pos, t.hist);
    let (m, next) = movepicker::pick(pk, t.pos, t.hist);
    if m is None {
        assert(!pickerlaws::pending(pk, t.pos, good));
    } else {
        let mv = m.unwrap();
        if movegen::legal(t.pos, mv) {
            if let QuietTurn::More(t2, q2) = run::quiet_step(env, t, kind, beta, ply, q, mv) {
                lemma_made_stays(env, t2, kind, beta, ply, q2, next);
            }
        } else {
            assert(mv != good);
            assert(pickerlaws::pending(next, t.pos, good));
            lemma_evasion_found(env, t, kind, beta, ply, q, next, good);
        }
    }
}

/// Quiescence overlooks no evasion: in check, with a legal move, a search of the moves that is not aborted has
/// made one.
pub proof fn law_quiet_evasion(
    env: Env,
    t: Tree,
    kind: NodeKind,
    beta: int,
    ply: int,
    q: QuietV,
    hash_move: Option<Move>,
    good: Move,
)
    requires
        ply < 256,
        run::checked(t.pos),
        hash_move matches Some(m) ==> movegen::pseudo_legal(t.pos, m),
        movegen::legal(t.pos, good),
    ensures
        run::quiet_loop(env, t, kind, beta, ply, q, quiet_picker(env.cfg, t.pos, hash_move)).1 matches Some(r)
            ==> r.made,
{
    let pk = quiet_picker(env.cfg, t.pos, hash_move);
    pickerlaws::law_fresh_picker(pk, t.pos);
    assert(pickerlaws::pending(pk, t.pos, good));
    lemma_evasion_found(env, t, kind, beta, ply, q, pk, good);
}

/// Quiescence announces a mate only where there is one: an open node in check that the table does not settle
/// scores as mated when it has no legal move; otherwise, unless it is aborted, it has made a move and scores
/// as the best that was found.
pub proof fn law_quiet_mate(env: Env, t: Tree, kind: NodeKind, alpha: int, beta: int, ply: int)
    requires
        ply < 256,
        run::checked(t.pos),
        run::entry(env, t, ply).1 == Gate::Open,
        run::quiet_table_cut(run::entry(env, t, ply).0, kind, alpha, beta, ply) is None,
    ensures
        no_legal_move(t) ==> run::quiet_node(env, t, kind, alpha, beta, ply).1 == Some(-MATE + ply),
        !no_legal_move(t) ==> ({
            let t1 = run::entry(env, t, ply).0;
            let q = (QuietV { best_eval: -INF as int, best_move: Move(0), made: false, alpha });
            let pk = quiet_picker(env.cfg, t1.pos, run::table_move(t1, ply));
            match run::quiet_loop(env, t1, kind, beta, ply, q, pk).1 {
                None => run::quiet_node(env, t, kind, alpha, beta, ply).1 is None,
                Some(r) => r.made && run::quiet_node(env, t, kind, alpha, beta, ply).1 == Some(r.best_eval),
            }
        }),
{
    reveal(run::quiet_node);
    reveal(run::quiet_loop);
    reveal(run::quiet_conclude);
    laws::lemma_entry(env, t, ply);
    let t1 = run::entry(env, t, ply).0;
    let q = (QuietV { best_eval: -INF as int, best_move: Move(0), made: false, alpha });
    let hash_move = run::table_move(t1, ply);
    let pk = quiet_picker(env.cfg, t1.pos, hash_move);
    assert(run::stand_pat(env.cfg, t1, alpha, beta) == Ok::<QuietV, int>(q)) by {
        reveal(run::stand_pat);
    }
    if no_legal_move(t) {
        lemma_same_moves(t, t1);
        lemma_quiet_dead(env, t1, kind, beta, ply, q, pk);
    } else {
        let good = choose|mv: Move| movegen::legal(t.pos, mv);
        reveal(run::table_move);
        law_quiet_evasion(env, t1, kind, beta, ply, q, hash_move, good);
    }
}

/// A drawn position scores 0 before any of its moves is looked at, unless the search is aborted there.
pub proof fn law_draw(
    env: Env,
    t: Tree,
    kind: NodeKind,
    depth: int,
    alpha: int,
    beta: int,
    ply: int,
    pv_move: Option<Move>,
)
    requires
        ply <= 256,
        run::is_drawn(t.pos, ply, t.trail),
    ensures
        run::node(env, t, kind, depth, alpha, beta, ply, pv_move).1 == (if run::entry(env, t, ply).1 == Gate::Abort {
            None
        } else {
            Some(0int)
        }),
        run::quiet_node(env, t, kind, alpha, beta, ply).1 == run::node(
            env,
            t,
            kind,
            depth,
            alpha,
            beta,
            ply,
            pv_move,
        ).1,
{
    reveal(run::node);
    reveal(run::quiet_node);
    reveal(run::expanded);
    reveal(run::quiet_loop);
    reveal(run::entry);
    reveal(run::counted);
    reveal(run::poll);
}

} // verus!
