//! What a search tells whoever listens.

use vstd::prelude::*;
use crate::board::model::PositionV;
use crate::engine::search::config::{Protocol, SearchConfig};
use crate::engine::search::deepening;
use crate::engine::search::deepening::{Job, Progress};
use crate::engine::search::laws;
use crate::engine::search::model as run;
use crate::engine::search::model::{Env, NodeKind, Tree};
use crate::engine::search::report::ReportV;
use crate::engine::valuelaws;
use crate::moves::Move;

verus! {

/// A completed iteration of a search that is not silent ends with a report of it: the depth, the score and line of
/// the best root move, the nodes, the position at the root, and times that fit together.
pub proof fn law_iteration_reported(job: Job, p: Progress, depth: int, last: u64)
    requires
        !job.cfg.limits.silent,
        deepening::iteration(job, p, depth, last).1 is Some,
    ensures
        ({
            let q = deepening::iteration(job, p, depth, last).0;
            &&& q.tree.said.len() > 0
            &&& q.tree.said.last() matches ReportV::Info { data, full_screen, protocol, pretty } && {
                &&& data.depth == depth as i32
                &&& data.score == q.prev_score && data.score == q.tree.roots[0].score
                &&& data.pv == q.prev_pv && data.pv == q.tree.roots[0].pv
                &&& data.nodes == q.tree.nodes
                &&& data.sel_depth == q.tree.sel
                &&& data.board == job.root && data.stm == job.root.stm.idx()
                &&& data.history == p.past
                &&& data.time_ms >= 1
                &&& data.nps * data.time_ms <= data.nodes * 1000
                &&& protocol == job.cfg.limits.protocol
                &&& full_screen <==> job.cfg.display.go_pretty && protocol == Protocol::Uci
                &&& pretty == job.cfg.display.pretty_print
            }
        }),
{
    reveal(deepening::iteration);
    reveal(deepening::completed);
    let q = deepening::iteration(job, p, depth, last).0;
    let elapsed = job.signals.times[p.tree.reads] as u64;
    let p1 = deepening::clocked(Progress { iter_depth: depth as i32, ..p });
    let (alpha, beta) = deepening::first_window(job.cfg, depth, p.prev_score as int);
    let t3 = deepening::aspired(
        deepening::env_for(job, p1),
        job.root,
        run::poll(deepening::env_for(job, p1), p1.tree).1,
        depth,
        alpha,
        beta,
        job.cfg.search_params.asp_initial as int,
    ).0;
    let ms = job.signals.times[t3.reads];
    let at = if ms > 0 {
        ms
    } else {
        1u128
    };
    valuelaws::law_speed(t3.nodes, at);
}

proof fn lemma_aspired_quiet(env: Env, root: PositionV, t: Tree, depth: int, alpha: int, beta: int, delta: int)
    requires
        env.cfg.limits.silent,
    ensures
        deepening::aspired(env, root, t, depth, alpha, beta, delta).0.said == t.said,
    decreases u64::MAX - t.nodes,
{
    reveal(deepening::aspired);
    let (t1, r) = run::node(env, deepening::at_root(t, root), NodeKind::Root, depth, alpha, beta, 0, None);
    laws::law_search_restores(env, deepening::at_root(t, root), NodeKind::Root, depth, alpha, beta, 0, None);
    let score = t1.roots[0].score as int;
    if r is Some && t1.nodes > t.nodes {
        if score <= alpha {
            lemma_aspired_quiet(
                env,
                root,
                t1,
                depth,
                crate::arith::larger(score - delta, -crate::types::INF as int),
                beta,
                deepening::wider(delta),
            );
        } else if score >= beta {
            lemma_aspired_quiet(
                env,
                root,
                t1,
                depth,
                alpha,
                crate::arith::smaller(score + delta, crate::types::INF as int),
                deepening::wider(delta),
            );
        }
    }
}

/// A silent search says nothing, however deep it goes and however it ends.
pub proof fn law_silence(job: Job, p: Progress, depth: int, last: u64)
    requires
        job.cfg.limits.silent,
    ensures
        deepening::iterations(job, p, depth, last).tree.said == p.tree.said,
    decreases deepening::last_depth(job.cfg.limits) - depth + 1,
{
    reveal(deepening::iterations);
    reveal(deepening::iteration);
    reveal(deepening::completed);
    reveal(run::poll);
    if depth <= deepening::last_depth(job.cfg.limits) {
        let p1 = deepening::clocked(Progress { iter_depth: depth as i32, ..p });
        let env = deepening::env_for(job, p1);
        let (alpha, beta) = deepening::first_window(job.cfg, depth, p.prev_score as int);
        let t2 = run::poll(env, p1.tree).1;
        lemma_aspired_quiet(env, job.root, t2, depth, alpha, beta, job.cfg.search_params.asp_initial as int);
        let (q, began) = deepening::iteration(job, p, depth, last);
        assert(q.tree.said == p.tree.said);
        if let Some(b) = began {
            law_silence(job, q, depth + 1, b);
        }
    }
}

/// The move to play is said once, at the end, in the protocol of the search; a silent search does not say it.
pub proof fn law_best_move_said(cfg: SearchConfig, root: PositionV, said: Seq<ReportV>, mv: Move)
    ensures
        ({
            let after = deepening::with_best_move(cfg, root, said, mv);
            &&& cfg.limits.silent ==> after == said
            &&& !cfg.limits.silent ==> after.len() == said.len() + 1 && after.drop_last() == said && (after.last()
                matches ReportV::BestMove { protocol, mv: words } && protocol == cfg.limits.protocol && words == mv.uci(
                root.is_frc,
            ))
        }),
{
    let after = deepening::with_best_move(cfg, root, said, mv);
    if !cfg.limits.silent {
        assert(after.drop_last() =~= said);
    }
}

/// Root moves that are being searched are mentioned only in a long analysis over UCI: from a hundred million nodes on,
/// where that is switched on, and neither in silence nor on a full-screen display.
pub proof fn law_current_moves(cfg: SearchConfig, root: PositionV, nodes: u64, said: Seq<ReportV>, depth: i32, mv: Move, number: int)
    ensures
        ({
            let after = run::with_currmove(cfg, root, nodes, said, depth, mv, number);
            let due = {
                &&& nodes >= 100_000_000
                &&& cfg.display.show_currmove && !cfg.display.go_pretty
                &&& !cfg.limits.silent
                &&& cfg.limits.protocol == Protocol::Uci
            };
            &&& !due ==> after == said
            &&& due ==> after == said.push(ReportV::CurrentMove { depth, mv: mv.uci(root.is_frc), number })
        }),
{
}

/// The display is brought up to date at most once in 25 milliseconds, and only where there is one.
pub proof fn law_display_rate(env: Env, t: Tree)
    ensures
        ({
            let (stop, u) = run::poll(env, t);
            &&& u.said != t.said ==> env.cfg.display.go_pretty && !env.cfg.limits.silent && !stop && u.printed
                - t.printed > 25
            &&& u.said.len() <= t.said.len() + 1
            &&& !stop && env.cfg.display.go_pretty && !env.cfg.limits.silent && t.roots.len() > 0 && t.nodes as int % 2048
                == 0 && u.printed != t.printed ==> (u.said.last() matches ReportV::Info { data, full_screen, .. }
                && full_screen && data.score == t.roots[0].score && data.pv == t.roots[0].pv && data.nodes == t.nodes
                && data.depth == env.iter_depth)
        }),
{
    reveal(run::poll);
}

} // verus!
