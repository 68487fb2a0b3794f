//! Iterative deepening: depth 1, then 2, then 3, with the results of each iteration feeding the next.

use vstd::prelude::*;
use crate::arith;
use crate::board::model;
use crate::board::model::PositionV;
use crate::engine::clock;
use crate::engine::history::{History, HistoryV};
use crate::engine::movegen;
use crate::engine::perft;
use crate::engine::search::config::{Limits, Protocol, SearchConfig};
use crate::engine::search::laws;
use crate::engine::search::line;
use crate::engine::search::line::{RootMove, RootV, Stack};
use crate::engine::search::model as run;
use crate::engine::search::model::{Env, NodeKind, Signals, Tree};
use crate::engine::search::negamax;
use crate::engine::search::report;
use crate::engine::search::report::{Console, PastV, Report, ReportV};
use crate::engine::search::searcher;
use crate::engine::search::searcher::{Searcher, Worker, PV_HISTORY};
use crate::engine::search::worker;
use crate::engine::search::worker::RootNode;
use crate::moves::Move;
use crate::types::{FARTHEST, INF, MAX_DEPTH, MAX_PLY};

verus! {

/// What a deepening search depends on and does not change.
pub struct Job {
    pub cfg: SearchConfig,
    pub root: PositionV,
    /// The soft time limit in milliseconds.
    pub soft: u64,
    /// The hard time limit in milliseconds, for the estimate between iterations.
    pub cap: u64,
    /// The hard time limit, if there is one.
    pub hard: Option<u64>,
    pub signals: Signals,
}

/// What a deepening search changes.
pub struct Progress {
    pub tree: Tree,
    pub prev_pv: Seq<Move>,
    pub prev_score: i32,
    pub iter_depth: i32,
    pub past: Seq<PastV>,
}

/// The deepest iteration: twice the mate distance, or the depth limit, or the deepest possible.
pub open spec fn last_depth(l: Limits) -> int {
    match l.mate {
        Some(m) => arith::smaller(2 * m, MAX_DEPTH as int),
        None => if l.depth > 0 {
            l.depth as int
        } else {
            MAX_DEPTH as int
        },
    }
}

/// The root moves among the first `n` that are asked for.
pub open spec fn asked_for(roots: Seq<RootV>, moves: Seq<Move>, n: int) -> Seq<RootV>
    decreases n,
{
    if n <= 0 {
        Seq::empty()
    } else if moves.contains(roots[n - 1].mv) {
        asked_for(roots, moves, n - 1).push(roots[n - 1])
    } else {
        asked_for(roots, moves, n - 1)
    }
}

/// The root moves to search: those asked for, or all when none is.
pub open spec fn selected(roots: Seq<RootV>, moves: Seq<Move>) -> Seq<RootV> {
    if moves.len() == 0 {
        roots
    } else {
        asked_for(roots, moves, roots.len() as int)
    }
}

// ──────── Sorting ────────

/// The first place from `j` on whose score is less than `score`.
pub open spec fn place_for(s: Seq<RootV>, score: i32, j: int) -> int
    decreases s.len() - j,
{
    if j >= s.len() || s[j].score < score {
        j
    } else {
        place_for(s, score, j + 1)
    }
}

/// The first `n` of the root moves, best score first; equal scores keep their order.
pub open spec fn by_score(s: Seq<RootV>, n: int) -> Seq<RootV>
    decreases n,
{
    if n <= 0 {
        Seq::empty()
    } else {
        let rest = by_score(s, n - 1);
        rest.insert(place_for(rest, s[n - 1].score, 0), s[n - 1])
    }
}

/// All root moves, best score first.
pub open spec fn sorted(s: Seq<RootV>) -> Seq<RootV> {
    by_score(s, s.len() as int)
}

proof fn lemma_place(s: Seq<RootV>, score: i32, j: int)
    requires
        0 <= j <= s.len(),
    ensures
        j <= place_for(s, score, j) <= s.len(),
        forall|i: int| j <= i < place_for(s, score, j) ==> (#[trigger] s[i]).score >= score,
        place_for(s, score, j) < s.len() ==> s[place_for(s, score, j)].score < score,
    decreases s.len() - j,
{
    if j < s.len() && s[j].score >= score {
        lemma_place(s, score, j + 1);
    }
}

proof fn lemma_by_score(s: Seq<RootV>, n: int)
    requires
        0 <= n <= s.len(),
    ensures
        by_score(s, n).len() == n,
        forall|i: int, j: int|
            0 <= i < j < n ==> (#[trigger] by_score(s, n)[i]).score >= (#[trigger] by_score(s, n)[j]).score,
        by_score(s, n).to_multiset() == s.take(n).to_multiset(),
    decreases n,
{
    if n > 0 {
        let rest = by_score(s, n - 1);
        let x = s[n - 1];
        let k = place_for(rest, x.score, 0);
        let all = rest.insert(k, x);
        lemma_by_score(s, n - 1);
        lemma_place(rest, x.score, 0);
        assert forall|i: int, j: int| 0 <= i < j < n implies (#[trigger] all[i]).score >= (#[trigger] all[j]).score by {
            if i < k {
                assert(all[i] == rest[i]);
                if j > k {
                    assert(all[j] == rest[j - 1]);
                }
            } else {
                if i > k {
                    assert(all[i] == rest[i - 1]);
                }
                if j > k {
                    assert(all[j] == rest[j - 1]);
                    if k < rest.len() && k < j - 1 {
                        assert(rest[k].score >= rest[j - 1].score);
                    }
                }
            }
        }
        assert(s.take(n) =~= s.take(n - 1).push(x));
        vstd::seq_lib::to_multiset_insert(rest, k, x);
        vstd::seq_lib::to_multiset_build(s.take(n - 1), x);
    } else {
        assert(s.take(0) =~= Seq::empty());
    }
}

/// Sorting the root moves keeps all of them and brings the best scores to the front.
pub proof fn law_sorted(s: Seq<RootV>)
    ensures
        sorted(s).to_multiset() == s.to_multiset(),
        forall|i: int, j: int|
            0 <= i < j < s.len() ==> (#[trigger] sorted(s)[i]).score >= (#[trigger] sorted(s)[j]).score,
{
    lemma_by_score(s, s.len() as int);
    assert(s.take(s.len() as int) =~= s);
}

// ──────── Aspiration windows ────────

/// The first window of an iteration: around the previous score from depth 4 on, else open.
pub open spec fn first_window(cfg: SearchConfig, depth: int, prev: int) -> (int, int) {
    let delta = cfg.search_params.asp_initial;
    if depth >= 4 {
        (arith::larger(prev - delta, -INF as int), arith::smaller(prev + delta, INF as int))
    } else {
        (-INF as int, INF as int)
    }
}

/// No margin is wider; it reaches from any score beyond all others.
pub const WIDEST: i32 = 200_000;

/// The next, wider margin.
pub open spec fn wider(delta: int) -> int {
    arith::smaller(delta + delta / 3, WIDEST as int)
}

/// Back at the root.
pub open spec fn at_root(t: Tree, root: PositionV) -> Tree {
    Tree { pos: root, acc: model::acc_of(root.board), ..t }
}

/// The search of one depth: with a window that is widened, up to the limits of any score, as long as the
/// first root move's score is not inside it. True when aborted.
///
/// A root that is drawn as it stands is not expanded, so its moves never get a score: it is searched again,
/// one node at a time, until the search is stopped. Each search counts a node, so only a node counter at its
/// limit ends this otherwise.
#[verifier::opaque]
pub open spec fn aspired(env: Env, root: PositionV, t: Tree, depth: int, alpha: int, beta: int, delta: int) -> (
    Tree,
    bool,
)
    decreases u64::MAX - t.nodes,
{
    let (t1, r) = run::node(env, at_root(t, root), NodeKind::Root, depth, alpha, beta, 0, None);
    let score = t1.roots[0].score as int;
    if r is None {
        (t1, true)
    } else if t1.nodes <= t.nodes {
        (t1, false)
    } else if score <= alpha {
        aspired(env, root, t1, depth, arith::larger(score - delta, -INF as int), beta, wider(delta))
    } else if score >= beta {
        aspired(env, root, t1, depth, alpha, arith::smaller(score + delta, INF as int), wider(delta))
    } else {
        (t1, false)
    }
}

// ──────── Iterations ────────

/// What the tree of an iteration depends on.
pub open spec fn env_for(job: Job, p: Progress) -> Env {
    Env {
        cfg: job.cfg,
        hard: job.hard,
        root: job.root,
        iter_depth: p.iter_depth,
        prev_pv: p.prev_pv,
        past: p.past,
        signals: job.signals,
    }
}

/// The stop flag is loaded once more.
pub open spec fn looked(p: Progress) -> Progress {
    Progress { tree: Tree { looks: p.tree.looks + 1, ..p.tree }, ..p }
}

/// The clock is read once more.
pub open spec fn clocked(p: Progress) -> Progress {
    Progress { tree: Tree { reads: p.tree.reads + 1, ..p.tree }, ..p }
}

pub open spec fn left_over(a: u64, b: u64) -> int {
    if a > b {
        a - b
    } else {
        0
    }
}

/// It does not pay to start another iteration: the soft limit is reached, the next iteration would probably
/// not finish in time, or the soft node limit is reached.
pub open spec fn not_worth_starting(job: Job, depth: int, elapsed: u64, last: u64, nodes: u64) -> bool {
    let softnodes = job.cfg.limits.softnodes;
    depth > 1 && (elapsed >= job.soft || elapsed + 2 * left_over(elapsed, last) > job.cap || (softnodes > 0 && nodes
        >= softnodes))
}

/// The past results with one more, the oldest dropped when there are too many.
pub open spec fn remember(past: Seq<PastV>, x: PastV) -> Seq<PastV> {
    let more = past.push(x);
    if more.len() > PV_HISTORY {
        more.skip(1)
    } else {
        more
    }
}

/// The end of a completed iteration: the root moves are sorted and the result is noted and reported.
#[verifier::opaque]
pub open spec fn completed(job: Job, p: Progress) -> (Progress, bool) {
    let (flags, times) = (job.signals.flags, job.signals.times);
    let (k, n) = (p.tree.looks, p.tree.reads);
    if flags[k] {
        (looked(p), false)
    } else {
        let t1 = Tree { roots: sorted(p.tree.roots), looks: k + 2, ..p.tree };
        if flags[k + 1] {
            (Progress { tree: t1, ..p }, false)
        } else {
            let best = t1.roots[0];
            let reads = if job.cfg.limits.silent {
                0int
            } else {
                1int
            };
            let ms = times[n + reads];
            let at = if ms > 0 {
                ms
            } else {
                1
            };
            let told = if job.cfg.limits.silent {
                t1.said
            } else {
                let now = times[n];
                t1.said.push(
                    run::iteration_report(
                        env_for(job, p),
                        p.iter_depth,
                        best.score,
                        best.pv,
                        t1.sel,
                        t1.nodes,
                        t1.table,
                        now,
                    ),
                )
            };
            (
                Progress {
                    tree: Tree { reads: n + reads + 1, said: told, ..t1 },
                    prev_pv: best.pv,
                    prev_score: best.score,
                    past: remember(p.past, (at, best.pv, best.score)),
                    ..p
                },
                true,
            )
        }
    }
}

/// One iteration, and when it began; none when the search ends with it.
#[verifier::opaque]
pub open spec fn iteration(job: Job, p: Progress, depth: int, last: u64) -> (Progress, Option<u64>) {
    let elapsed = job.signals.times[p.tree.reads] as u64;
    let p1 = clocked(Progress { iter_depth: depth as i32, ..p });
    if not_worth_starting(job, depth, elapsed, last, p.tree.nodes) {
        (p1, None)
    } else {
        let env = env_for(job, p1);
        let (stop, t2) = run::poll(env, p1.tree);
        if stop {
            (Progress { tree: t2, ..p1 }, None)
        } else {
            let (alpha, beta) = first_window(job.cfg, depth, p.prev_score as int);
            let (t3, aborted) = aspired(
                env,
                job.root,
                t2,
                depth,
                alpha,
                beta,
                job.cfg.search_params.asp_initial as int,
            );
            let p3 = Progress { tree: t3, ..p1 };
            if aborted {
                (p3, None)
            } else {
                let (p4, goes_on) = completed(job, p3);
                if goes_on {
                    (p4, Some(elapsed))
                } else {
                    (p4, None)
                }
            }
        }
    }
}

/// The iterations from `depth` on.
#[verifier::opaque]
pub open spec fn iterations(job: Job, p: Progress, depth: int, last: u64) -> Progress
    decreases last_depth(job.cfg.limits) - depth + 1,
{
    if depth > last_depth(job.cfg.limits) {
        p
    } else {
        match iteration(job, p, depth, last) {
            (p1, None) => p1,
            (p1, Some(began)) => iterations(job, p1, depth + 1, began),
        }
    }
}

/// The move to announce: the first of the last line if it is legal at the root, else the first root move.
pub open spec fn announced(p: PositionV, prev_pv: Seq<Move>, first: Move) -> Move {
    if prev_pv.len() > 0 && movegen::legal(p, prev_pv[0]) {
        prev_pv[0]
    } else {
        first
    }
}

// ──────── Carrying it out ────────

/// The job of a searcher, with the signals `o`.
pub open spec fn job_of<C: Console>(s: Searcher<C>, o: Signals) -> Job {
    Job {
        cfg: *s.cfg,
        root: s.root_pos@,
        soft: match s.tm.soft_ms() {
            Some(ms) => ms,
            None => u64::MAX,
        },
        cap: match s.tm.hard_ms() {
            Some(ms) => ms,
            None => u64::MAX,
        },
        hard: s.tm.hard_ms(),
        signals: o,
    }
}

pub open spec fn progress_of<C: Console>(w: Worker, s: Searcher<C>) -> Progress {
    Progress {
        tree: searcher::tree_of(w, s),
        prev_pv: s.prev_pv@,
        prev_score: s.prev_score,
        iter_depth: s.iter_depth,
        past: report::past_of(s.pv_history@),
    }
}

/// Configuration, time limits, root position and start history are the same.
pub open spec fn same_job<C: Console>(a: Searcher<C>, b: Searcher<C>) -> bool {
    &&& a.cfg == b.cfg
    &&& a.tm == b.tm
    &&& a.root_pos == b.root_pos
    &&& a.history_table == b.history_table
}

/// The searcher and the worker are ready for an iteration.
pub open spec fn set_up<C: Console>(w: Worker, s: Searcher<C>) -> bool {
    &&& worker::fit(w, s)
    &&& s.root_moves@.len() > 0
    &&& w.pos == s.root_pos
    &&& s.root_pos.fullmove_number <= 65_407
}

/// The reports when a search begins: a full-screen display is cleared.
pub open spec fn opened(cfg: SearchConfig, said: Seq<ReportV>) -> Seq<ReportV> {
    if cfg.display.go_pretty && cfg.limits.protocol == Protocol::Uci {
        said.push(ReportV::ClearScreen)
    } else {
        said
    }
}

/// The reports with the one that there is no move, unless the search is silent.
pub open spec fn without_move(cfg: SearchConfig, said: Seq<ReportV>) -> Seq<ReportV> {
    if cfg.limits.silent {
        said
    } else {
        said.push(ReportV::NoMove)
    }
}

/// The reports of a search that has nothing to search: the count of move sequences, or that there is no move.
pub open spec fn excused<C: Console>(s: Searcher<C>) -> Seq<ReportV> {
    let said = opened(*s.cfg, s.said@);
    match s.cfg.limits.perft {
        Some(depth) => said.push(
            ReportV::NodesSearched(perft::leaves(s.root_pos@, depth as nat) as int % 0x1_0000_0000_0000_0000),
        ),
        None => if s.root_moves@.len() == 0 {
            without_move(*s.cfg, said)
        } else {
            without_move(*s.cfg, said.push(ReportV::NoMatchingMove))
        },
    }
}

/// The reports with the one of the move to play, unless the search is silent.
pub open spec fn with_best_move(cfg: SearchConfig, root: PositionV, said: Seq<ReportV>, mv: Move) -> Seq<ReportV> {
    if cfg.limits.silent {
        said
    } else {
        said.push(ReportV::BestMove { protocol: cfg.limits.protocol, mv: mv.uci(root.is_frc) })
    }
}

/// Where a deepening search starts: at the root, with a blank stack and the moves to search.
pub open spec fn start_of<C: Console>(s: Searcher<C>) -> Progress {
    Progress {
        tree: Tree {
            pos: s.root_pos@,
            acc: model::acc_of(s.root_pos@.board),
            stack: Seq::new(257, |i: int| line::blank_ply()),
            hist: s.history_table@,
            roots: selected(line::roots_of(s.root_moves@), s.cfg.limits.searchmoves@),
            trail: s.zobrist_trail@,
            nodes: 0,
            sel: s.sel_depth,
            printed: s.last_print,
            table: s.tt@,
            looks: s.heard@.flags.len() as int,
            reads: s.heard@.times.len() as int,
            said: opened(*s.cfg, s.said@),
            raised: false,
        },
        prev_pv: s.prev_pv@,
        prev_score: s.prev_score,
        iter_depth: s.iter_depth,
        past: report::past_of(s.pv_history@),
    }
}

/// The searcher holds what the search has come to, and `h` is the history it has learned.
pub open spec fn holds<C: Console>(p: Progress, s: Searcher<C>, h: HistoryV) -> bool {
    &&& p.tree.hist == h
    &&& p.tree.roots == line::roots_of(s.root_moves@)
    &&& p.tree.trail == s.zobrist_trail@
    &&& p.tree.nodes == s.nodes
    &&& p.tree.sel == s.sel_depth
    &&& p.tree.printed == s.last_print
    &&& p.tree.table == s.tt@
    &&& p.tree.looks == s.heard@.flags.len()
    &&& p.tree.reads == s.heard@.times.len()
    &&& p.tree.raised == s.raised@
    &&& s.said@ == with_best_move(
        *s.cfg,
        s.root_pos@,
        p.tree.said,
        announced(s.root_pos@, p.prev_pv, p.tree.roots[0].mv),
    )
    &&& p.prev_pv == s.prev_pv@
    &&& p.prev_score == s.prev_score
    &&& p.iter_depth == s.iter_depth
    &&& p.past == report::past_of(s.pv_history@)
}

/// The stop flag was never found raised between two states of a search.
pub open spec fn unflagged<C: Console>(a: Searcher<C>, b: Searcher<C>) -> bool {
    forall|i: int| a.heard@.flags.len() <= i < b.heard@.flags.len() ==> !#[trigger] b.heard@.flags[i]
}

proof fn lemma_flagged<C: Console>(a: Searcher<C>, b: Searcher<C>, c: Searcher<C>)
    requires
        searcher::continues(b.heard@, a.heard@),
        searcher::continues(c.heard@, b.heard@),
        unflagged(a, c),
    ensures
        unflagged(a, b),
        unflagged(b, c),
{
    assert forall|i: int| a.heard@.flags.len() <= i < b.heard@.flags.len() implies !#[trigger] b.heard@.flags[i] by {
        assert(c.heard@.flags[i] == b.heard@.flags[i]);
    }
}

/// The root moves are sorted by score, and the last result is that of the first of them, which is the move to
/// announce.
pub open spec fn settled<C: Console>(s: Searcher<C>) -> bool {
    &&& s.root_moves@.len() > 0
    &&& forall|i: int, j: int|
        0 <= i < j < s.root_moves@.len() ==> (#[trigger] s.root_moves@[i]).score >= (#[trigger] s.root_moves@[j]).score
    &&& s.prev_score == s.root_moves@[0].score
    &&& s.prev_pv == s.root_moves@[0].pv
    &&& announced(s.root_pos@, s.prev_pv@, s.root_moves@[0].mv) == s.root_moves@[0].mv
}

/// The past results are not more than before, unless they are at most as many as are kept.
pub open spec fn past_bounded<C: Console>(a: Searcher<C>, b: Searcher<C>) -> bool {
    b.pv_history@.len() <= a.pv_history@.len() || b.pv_history@.len() <= PV_HISTORY
}

/// There is nothing to search: only move sequences are counted, or no root move is left.
pub open spec fn nothing_to_search<C: Console>(s: Searcher<C>) -> bool {
    s.cfg.limits.perft is Some || selected(line::roots_of(s.root_moves@), s.cfg.limits.searchmoves@).len() == 0
}

/// The searcher did not search; only the node counter was reset and the root moves were selected.
pub open spec fn idle<C: Console>(a: Searcher<C>, b: Searcher<C>) -> bool {
    &&& searcher::same_task(a, b)
    &&& a.zobrist_trail == b.zobrist_trail
    &&& a.sel_depth == b.sel_depth
    &&& a.last_print == b.last_print
    &&& a.tt == b.tt
    &&& a.heard == b.heard
    &&& !b.raised@
    &&& b.said@ == excused(a)
    &&& b.nodes == 0
    &&& line::roots_of(b.root_moves@) == if a.cfg.limits.perft is Some {
        line::roots_of(a.root_moves@)
    } else {
        selected(line::roots_of(a.root_moves@), a.cfg.limits.searchmoves@)
    }
}

fn sort_roots(v: &mut Vec<RootMove>, Ghost(p): Ghost<PositionV>)
    requires
        searcher::roots_ok(p, old(v)@),
    ensures
        line::roots_of(final(v)@) == sorted(line::roots_of(old(v)@)),
        final(v)@.len() == old(v)@.len(),
        searcher::roots_ok(p, final(v)@),
{
    let mut out: Vec<RootMove> = Vec::new();
    let mut i: usize = 0;
    let ghost all = line::roots_of(v@);
    proof {
        assert(line::roots_of(out@) =~= Seq::empty());
    }
    while i < v.len()
        invariant
            i <= v.len(),
            v@ == old(v)@,
            all == line::roots_of(v@),
            searcher::roots_ok(p, v@),
            searcher::roots_ok(p, out@),
            out@.len() == i,
            line::roots_of(out@) == by_score(all, i as int),
        decreases v.len() - i,
    {
        let x = v[i];
        let ghost before = line::roots_of(out@);
        let mut j: usize = 0;
        proof {
            assert(v@[i as int].wf());
        }
        while j < out.len() && out[j].score >= x.score
            invariant
                j <= out.len(),
                before == line::roots_of(out@),
                place_for(before, x.score, 0) == place_for(before, x.score, j as int),
            decreases out.len() - j,
        {
            j = j + 1;
        }
        let ghost list = out@;
        out.insert(j, x);
        proof {
            assert(line::roots_of(out@) =~= before.insert(j as int, x@));
            assert forall|k: int| 0 <= k < out@.len() implies (#[trigger] out@[k]).wf() && movegen::legal(
                p,
                out@[k].mv,
            ) by {
                if k < j {
                    assert(out@[k] == list[k]);
                    assert(list[k].wf());
                } else if k > j {
                    assert(out@[k] == list[k - 1]);
                    assert(list[k - 1].wf());
                }
            }
        }
        i = i + 1;
    }
    *v = out;
}

fn contains_move(moves: &Vec<Move>, mv: Move) -> (r: bool)
    ensures
        r == moves@.contains(mv),
{
    let mut i: usize = 0;
    while i < moves.len()
        invariant
            i <= moves.len(),
            forall|j: int| 0 <= j < i ==> moves@[j] != mv,
        decreases moves.len() - i,
    {
        if moves[i] == mv {
            proof {
                assert(moves@[i as int] == mv);
            }
            return true;
        }
        i = i + 1;
    }
    false
}

fn retain_roots(v: &mut Vec<RootMove>, moves: &Vec<Move>, Ghost(p): Ghost<PositionV>)
    requires
        searcher::roots_ok(p, old(v)@),
    ensures
        line::roots_of(final(v)@) == asked_for(line::roots_of(old(v)@), moves@, old(v)@.len() as int),
        searcher::roots_ok(p, final(v)@),
{
    let mut out: Vec<RootMove> = Vec::new();
    let mut i: usize = 0;
    let ghost all = line::roots_of(v@);
    proof {
        assert(line::roots_of(out@) =~= Seq::empty());
    }
    while i < v.len()
        invariant
            i <= v.len(),
            v@ == old(v)@,
            all == line::roots_of(v@),
            searcher::roots_ok(p, v@),
            searcher::roots_ok(p, out@),
            line::roots_of(out@) == asked_for(all, moves@, i as int),
        decreases v.len() - i,
    {
        let x = v[i];
        proof {
            assert(v@[i as int].wf());
            assert(all[i as int] == x@);
        }
        if contains_move(moves, x.mv) {
            let ghost list = out@;
            out.push(x);
            proof {
                assert(line::roots_of(out@) =~= line::roots_of(list).push(x@));
                assert forall|k: int| 0 <= k < out@.len() implies (#[trigger] out@[k]).wf() && movegen::legal(
                    p,
                    out@[k].mv,
                ) by {
                    if k < list.len() {
                        assert(out@[k] == list[k]);
                        assert(list[k].wf());
                    }
                }
            }
        }
        i = i + 1;
    }
    *v = out;
}

fn blank_stack() -> (stack: Vec<Stack>)
    ensures
        line::stack_ok(stack@),
        line::stack_of(stack@) == Seq::new(257, |i: int| line::blank_ply()),
{
    let mut stack: Vec<Stack> = Vec::new();
    while stack.len() < MAX_PLY + 1
        invariant
            stack.len() <= MAX_PLY + 1,
            forall|i: int| 0 <= i < stack@.len() ==> (#[trigger] stack@[i]).wf() && stack@[i]@ == line::blank_ply(),
        decreases MAX_PLY + 1 - stack.len(),
    {
        stack.push(Stack::default());
    }
    proof {
        assert(line::stack_of(stack@) =~= Seq::new(257, |i: int| line::blank_ply()));
    }
    stack
}

impl<'cfg, C: Console> Searcher<'cfg, C> {
    /// Searches one depth with aspiration windows. True when aborted.
    ///
    /// A root that is drawn as it stands gets no score, so this goes on until the search is stopped.
    fn aspire(&mut self, w: &mut Worker, depth: i32) -> (aborted: bool)
        requires
            set_up(*old(w), *old(self)),
            1 <= depth <= MAX_DEPTH,
        ensures
            set_up(*final(w), *final(self)),
            searcher::same_task(*old(self), *final(self)),
            aborted ==> final(self).raised@,
            final(self).zobrist_trail@ == old(self).zobrist_trail@,
            searcher::continues(final(self).heard@, old(self).heard@),
            searcher::discreet(*old(self), *final(self)),
            forall|o: Signals|
                searcher::continues(o, final(self).heard@) ==> #[trigger] aspired(
                    searcher::env_of(*old(self), o),
                    old(self).root_pos@,
                    searcher::tree_of(*old(w), *old(self)),
                    depth as int,
                    first_window(*old(self).cfg, depth as int, old(self).prev_score as int).0,
                    first_window(*old(self).cfg, depth as int, old(self).prev_score as int).1,
                    old(self).cfg.search_params.asp_initial as int,
                ) == (searcher::tree_of(*final(w), *final(self)), aborted),
    {
        let mut delta: i32 = self.cfg.search_params.asp_initial;
        let mut alpha: i32 = if depth >= 4 {
            arith::max(self.prev_score - delta, -INF)
        } else {
            -INF
        };
        let mut beta: i32 = if depth >= 4 {
            arith::min(self.prev_score + delta, INF)
        } else {
            INF
        };
        let ghost t0 = searcher::tree_of(*w, *self);
        let ghost s0 = *self;
        let ghost win = (alpha as int, beta as int);
        let ghost delta0 = delta as int;
        let ghost root = self.root_pos@;
        loop
            invariant
                set_up(*w, *self),
                s0 == *old(self),
                t0 == searcher::tree_of(*old(w), *old(self)),
                searcher::same_task(s0, *self),
                self.zobrist_trail@ == s0.zobrist_trail@,
                searcher::continues(self.heard@, s0.heard@),
                searcher::discreet(s0, *self),
                1 <= depth <= MAX_DEPTH,
                0 <= delta <= WIDEST,
                -FARTHEST <= alpha <= FARTHEST,
                -FARTHEST <= beta <= FARTHEST,
                root == s0.root_pos@,
                win == first_window(*s0.cfg, depth as int, s0.prev_score as int),
                delta0 == s0.cfg.search_params.asp_initial,
                forall|o: Signals|
                    searcher::continues(o, self.heard@) ==> #[trigger] aspired(
                        searcher::env_of(s0, o),
                        root,
                        t0,
                        depth as int,
                        win.0,
                        win.1,
                        delta0,
                    ) == aspired(
                        searcher::env_of(s0, o),
                        root,
                        searcher::tree_of(*w, *self),
                        depth as int,
                        alpha as int,
                        beta as int,
                        delta as int,
                    ),
            decreases u64::MAX - self.nodes,
        {
            let ghost t1 = searcher::tree_of(*w, *self);
            let ghost s1 = *self;
            let ghost (a1, b1, d1) = (alpha as int, beta as int, delta as int);
            let counted: u64 = self.nodes;
            w.pos = self.root_pos;
            w.accumulator = self.root_pos.get_initial_accumulator();
            let ghost t2 = searcher::tree_of(*w, *self);
            proof {
                assert(t2 == at_root(t1, root));
            }
            let result = w.negamax::<RootNode, C>(self, depth, alpha, beta, 0, None);
            let ghost t3 = searcher::tree_of(*w, *self);
            let score: i32 = self.root_moves[0].score;
            proof {
                assert(self.root_moves@[0].wf());
                assert(t3.roots[0].score == score);
                assert forall|o: Signals| searcher::continues(o, self.heard@) implies #[trigger] aspired(
                    searcher::env_of(s0, o),
                    root,
                    t0,
                    depth as int,
                    win.0,
                    win.1,
                    delta0,
                ) == (if result is Err {
                    (t3, true)
                } else if self.nodes <= counted {
                    (t3, false)
                } else if score <= a1 {
                    aspired(
                        searcher::env_of(s0, o),
                        root,
                        t3,
                        depth as int,
                        arith::larger(score - d1, -INF as int),
                        b1,
                        wider(d1),
                    )
                } else if score >= b1 {
                    aspired(
                        searcher::env_of(s0, o),
                        root,
                        t3,
                        depth as int,
                        a1,
                        arith::smaller(score + d1, INF as int),
                        wider(d1),
                    )
                } else {
                    (t3, false)
                }) by {
                    searcher::lemma_continues(o, self.heard@, s1.heard@);
                    let env = searcher::env_of(s0, o);
                    assert(searcher::env_of(s1, o) == env);
                    assert(aspired(env, root, t0, depth as int, win.0, win.1, delta0) == aspired(
                        env,
                        root,
                        t1,
                        depth as int,
                        a1,
                        b1,
                        d1,
                    ));
                    assert(run::node(env, t2, NodeKind::Root, depth as int, a1, b1, 0, None) == (
                        t3,
                        worker::outcome(result),
                    ));
                    lemma_aspired(env, root, t1, depth as int, a1, b1, d1);
                }
            }
            if result.is_err() {
                return true;
            }
            if self.nodes <= counted {
                return false;
            }
            if score <= alpha {
                alpha = arith::max(score - delta, -INF);
            } else if score >= beta {
                beta = arith::min(score + delta, INF);
            } else {
                return false;
            }
            delta = arith::min(delta + delta / 3, WIDEST);
        }
    }

    /// Ends a completed iteration. False when the search is to stop.
    fn complete(&mut self, w: &Worker, depth: i32) -> (goes_on: bool)
        requires
            set_up(*w, *old(self)),
            depth == old(self).iter_depth,
        ensures
            set_up(*w, *final(self)),
            same_job(*old(self), *final(self)),
            goes_on ==> settled(*final(self)),
            !goes_on ==> !unflagged(*old(self), *final(self)),
            past_bounded(*old(self), *final(self)),
            final(self).zobrist_trail@ == old(self).zobrist_trail@,
            searcher::continues(final(self).heard@, old(self).heard@),
            searcher::discreet(*old(self), *final(self)),
            forall|o: Signals|
                searcher::continues(o, final(self).heard@) ==> #[trigger] completed(
                    job_of(*old(self), o),
                    progress_of(*w, *old(self)),
                ) == (progress_of(*w, *final(self)), goes_on),
    {
        let ghost s0 = *self;
        let ghost h0 = self.heard@;
        let ghost p0 = progress_of(*w, *self);
        let stopped = self.is_stopped();
        let ghost h1 = self.heard@;
        if stopped {
            proof {
                assert forall|o: Signals| searcher::continues(o, self.heard@) implies #[trigger] completed(
                    job_of(s0, o),
                    p0,
                ) == (progress_of(*w, *self), false) by {
                    reveal(completed);
                    assert(o.flags[h0.flags.len() as int] == h1.flags[h0.flags.len() as int]);
                }
                assert(self.heard@.flags[h0.flags.len() as int]);
            }
            return false;
        }
        sort_roots(&mut self.root_moves, Ghost(self.root_pos@));
        let stopped = self.is_stopped();
        let ghost h2 = self.heard@;
        if stopped {
            proof {
                assert forall|o: Signals| searcher::continues(o, self.heard@) implies #[trigger] completed(
                    job_of(s0, o),
                    p0,
                ) == (progress_of(*w, *self), false) by {
                    reveal(completed);
                    assert(o.flags[h0.flags.len() as int] == h2.flags[h0.flags.len() as int]);
                    assert(o.flags[h0.flags.len() as int + 1] == h2.flags[h0.flags.len() as int + 1]);
                }
                assert(self.heard@.flags[h0.flags.len() as int + 1]);
            }
            return false;
        }
        let best = self.root_moves[0];
        proof {
            law_sorted(p0.tree.roots);
            let v = self.root_moves@;
            assert forall|i: int, j: int| 0 <= i < j < v.len() implies (#[trigger] v[i]).score >= (
            #[trigger] v[j]).score by {
                assert(line::roots_of(v)[i].score >= line::roots_of(v)[j].score);
            }
            assert(self.root_moves@[0].wf());
            assert(line::roots_of(self.root_moves@)[0] == best@);
        }
        self.prev_pv = best.pv;
        self.prev_score = best.score;
        self.print_info(depth, best.score, &best.pv);
        let ghost h3 = self.heard@;
        let ms: u128 = self.read_clock();
        let at: u128 = if ms > 0 {
            ms
        } else {
            1
        };
        let ghost past0 = self.pv_history@;
        self.pv_history.push_back((at, best.pv, best.score));
        if self.pv_history.len() > PV_HISTORY {
            self.pv_history.pop_front();
        }
        let ghost h4 = self.heard@;
        proof {
            assert(report::past_of(self.pv_history@) =~= remember(report::past_of(past0), (at, best.pv@, best.score)));
            assert forall|o: Signals| searcher::continues(o, self.heard@) implies #[trigger] completed(
                job_of(s0, o),
                p0,
            ) == (progress_of(*w, *self), true) by {
                reveal(completed);
                assert(o.flags[h0.flags.len() as int] == h4.flags[h0.flags.len() as int]);
                assert(o.flags[h0.flags.len() as int + 1] == h4.flags[h0.flags.len() as int + 1]);
                assert(h4.flags[h0.flags.len() as int] == h1.flags[h0.flags.len() as int]);
                assert(h4.flags[h0.flags.len() as int + 1] == h2.flags[h0.flags.len() as int + 1]);
                assert(o.times[h0.times.len() as int] == h4.times[h0.times.len() as int]);
                assert(o.times[h3.times.len() as int] == h4.times[h3.times.len() as int]);
            }
        }
        true
    }

    /// Carries out one iteration and returns when it began; `None` when the search ends with it.
    fn iterate(&mut self, w: &mut Worker, depth: i32, last: u64) -> (r: Option<u64>)
        requires
            set_up(*old(w), *old(self)),
            1 <= depth <= MAX_DEPTH,
        ensures
            set_up(*final(w), *final(self)),
            same_job(*old(self), *final(self)),
            r is Some ==> settled(*final(self)),
            r is None ==> final(self).raised@ || !unflagged(*old(self), *final(self)) || (depth > 1
                && final(self).root_moves == old(self).root_moves && final(self).prev_pv == old(self).prev_pv
                && final(self).prev_score == old(self).prev_score),
            past_bounded(*old(self), *final(self)),
            final(self).zobrist_trail@ == old(self).zobrist_trail@,
            searcher::continues(final(self).heard@, old(self).heard@),
            searcher::discreet(*old(self), *final(self)),
            forall|o: Signals|
                searcher::continues(o, final(self).heard@) ==> #[trigger] iteration(
                    job_of(*old(self), o),
                    progress_of(*old(w), *old(self)),
                    depth as int,
                    last,
                ) == (progress_of(*final(w), *final(self)), r),
    {
        let ghost s0 = *self;
        let ghost p0 = progress_of(*w, *self);
        let ghost h0 = self.heard@;
        self.iter_depth = depth;
        let ms: u128 = self.read_clock();
        let elapsed: u64 = ms as u64;
        let ghost s1 = *self;
        let ghost p1 = progress_of(*w, *self);
        let spent: u64 = if elapsed > last {
            elapsed - last
        } else {
            0
        };
        let softnodes: u64 = self.cfg.limits.softnodes;
        let enough = depth > 1 && (elapsed >= self.tm.soft_limit() || elapsed as u128 + 2 * spent as u128
            > self.tm.hard_limit() as u128 || (softnodes > 0 && self.nodes >= softnodes));
        if enough {
            proof {
                assert forall|o: Signals| searcher::continues(o, self.heard@) implies #[trigger] iteration(
                    job_of(s0, o),
                    p0,
                    depth as int,
                    last,
                ) == (p1, None::<u64>) by {
                    reveal(iteration);
                    assert(o.times[h0.times.len() as int] == s1.heard@.times[h0.times.len() as int]);
                }
            }
            return None;
        }
        let stop = self.check_signals();
        let ghost s2 = *self;
        let ghost p2 = progress_of(*w, *self);
        let ghost w2 = *w;
        if stop {
            proof {
                assert forall|o: Signals| searcher::continues(o, self.heard@) implies #[trigger] iteration(
                    job_of(s0, o),
                    p0,
                    depth as int,
                    last,
                ) == (p2, None::<u64>) by {
                    searcher::lemma_continues(o, s2.heard@, s1.heard@);
                    reveal(iteration);
                    assert(o.times[h0.times.len() as int] == s1.heard@.times[h0.times.len() as int]);
                    assert(env_for(job_of(s0, o), p1) == searcher::env_of(s1, o));
                    assert(run::poll(searcher::env_of(s1, o), searcher::tree_of(w2, s1)) == (true, p2.tree));
                }
            }
            return None;
        }
        let aborted = self.aspire(w, depth);
        let ghost s3 = *self;
        let ghost p3 = progress_of(*w, *self);
        if aborted {
            proof {
                assert forall|o: Signals| searcher::continues(o, self.heard@) implies #[trigger] iteration(
                    job_of(s0, o),
                    p0,
                    depth as int,
                    last,
                ) == (p3, None::<u64>) by {
                    searcher::lemma_continues(o, s3.heard@, s2.heard@);
                    searcher::lemma_continues(o, s2.heard@, s1.heard@);
                    reveal(iteration);
                    assert(o.times[h0.times.len() as int] == s1.heard@.times[h0.times.len() as int]);
                    assert(env_for(job_of(s0, o), p1) == searcher::env_of(s1, o));
                    assert(searcher::env_of(s2, o) == searcher::env_of(s1, o));
                    assert(run::poll(searcher::env_of(s1, o), searcher::tree_of(w2, s1)) == (false, p2.tree));
                    let win = first_window(*s2.cfg, depth as int, s2.prev_score as int);
                    assert(aspired(
                        searcher::env_of(s2, o),
                        s2.root_pos@,
                        p2.tree,
                        depth as int,
                        win.0,
                        win.1,
                        s2.cfg.search_params.asp_initial as int,
                    ) == (p3.tree, true));
                }
            }
            return None;
        }
        let goes_on = self.complete(w, depth);
        let ghost p4 = progress_of(*w, *self);
        let r = if goes_on {
            Some(elapsed)
        } else {
            None
        };
        proof {
            assert forall|o: Signals| searcher::continues(o, self.heard@) implies #[trigger] iteration(
                job_of(s0, o),
                p0,
                depth as int,
                last,
            ) == (p4, r) by {
                searcher::lemma_continues(o, self.heard@, s3.heard@);
                searcher::lemma_continues(o, s3.heard@, s2.heard@);
                searcher::lemma_continues(o, s2.heard@, s1.heard@);
                reveal(iteration);
                assert(o.times[h0.times.len() as int] == s1.heard@.times[h0.times.len() as int]);
                assert(env_for(job_of(s0, o), p1) == searcher::env_of(s1, o));
                assert(searcher::env_of(s2, o) == searcher::env_of(s1, o));
                assert(run::poll(searcher::env_of(s1, o), searcher::tree_of(w2, s1)) == (false, p2.tree));
                let win = first_window(*s2.cfg, depth as int, s2.prev_score as int);
                assert(aspired(
                    searcher::env_of(s2, o),
                    s2.root_pos@,
                    p2.tree,
                    depth as int,
                    win.0,
                    win.1,
                    s2.cfg.search_params.asp_initial as int,
                ) == (p3.tree, false));
                assert(job_of(s3, o) == job_of(s0, o));
                assert(completed(job_of(s3, o), p3) == (p4, goes_on));
            }
        }
        r
    }

    /// Carries out the iterations.
    fn deepen(&mut self, w: &mut Worker, limit: i32)
        requires
            set_up(*old(w), *old(self)),
            limit == last_depth(old(self).cfg.limits),
            limit <= MAX_DEPTH,
        ensures
            set_up(*final(w), *final(self)),
            same_job(*old(self), *final(self)),
            limit >= 1 ==> final(self).raised@ || !unflagged(*old(self), *final(self)) || settled(*final(self)),
            past_bounded(*old(self), *final(self)),
            final(self).zobrist_trail@ == old(self).zobrist_trail@,
            searcher::continues(final(self).heard@, old(self).heard@),
            searcher::discreet(*old(self), *final(self)),
            forall|o: Signals|
                searcher::continues(o, final(self).heard@) ==> #[trigger] iterations(
                    job_of(*old(self), o),
                    progress_of(*old(w), *old(self)),
                    1,
                    0,
                ) == progress_of(*final(w), *final(self)),
    {
        let ghost s0 = *self;
        let ghost p0 = progress_of(*w, *self);
        let mut last: u64 = 0;
        let mut depth: i32 = 1;
        while depth <= limit
            invariant
                set_up(*w, *self),
                s0 == *old(self),
                p0 == progress_of(*old(w), *old(self)),
                same_job(s0, *self),
                self.zobrist_trail@ == s0.zobrist_trail@,
                searcher::continues(self.heard@, s0.heard@),
                searcher::discreet(s0, *self),
                limit == last_depth(s0.cfg.limits),
                limit <= MAX_DEPTH,
                1 <= depth,
                depth <= limit + 1 || depth == 1,
                past_bounded(s0, *self),
                depth > 1 ==> !unflagged(s0, *self) || settled(*self),
                forall|o: Signals|
                    searcher::continues(o, self.heard@) ==> #[trigger] iterations(job_of(s0, o), p0, 1, 0)
                        == iterations(job_of(s0, o), progress_of(*w, *self), depth as int, last),
            decreases limit - depth + 1,
        {
            let ghost s1 = *self;
            let ghost p1 = progress_of(*w, *self);
            let ghost last1 = last;
            let step = self.iterate(w, depth, last);
            let ghost p2 = progress_of(*w, *self);
            proof {
                assert forall|o: Signals| searcher::continues(o, self.heard@) implies #[trigger] iterations(
                    job_of(s0, o),
                    p0,
                    1,
                    0,
                ) == match step {
                    Some(began) => iterations(job_of(s0, o), p2, depth + 1, began),
                    None => p2,
                } by {
                    searcher::lemma_continues(o, self.heard@, s1.heard@);
                    let job = job_of(s0, o);
                    assert(job_of(s1, o) == job);
                    assert(iterations(job, p0, 1, 0) == iterations(job, p1, depth as int, last1));
                    assert(iteration(job, p1, depth as int, last1) == (p2, step));
                    lemma_iterations(job, p1, depth as int, last1);
                }
                if unflagged(s0, *self) {
                    lemma_flagged(s0, s1, *self);
                }
            }
            match step {
                Some(began) => {
                    last = began;
                },
                None => {
                    return;
                },
            }
            depth = depth + 1;
        }
        proof {
            let p1 = progress_of(*w, *self);
            assert forall|o: Signals| searcher::continues(o, self.heard@) implies #[trigger] iterations(
                job_of(s0, o),
                p0,
                1,
                0,
            ) == p1 by {
                let job = job_of(s0, o);
                assert(iterations(job, p0, 1, 0) == iterations(job, p1, depth as int, last));
                lemma_iterations(job, p1, depth as int, last);
            }
        }
    }
    /// The move to announce.
    pub fn chosen_move(&self) -> (mv: Move)
        requires
            self.wf(),
            self.root_moves@.len() > 0,
        ensures
            mv == announced(self.root_pos@, self.prev_pv@, self.root_moves@[0].mv),
            movegen::legal(self.root_pos@, mv),
    {
        proof {
            assert(self.root_moves@[0].wf());
            assert(movegen::legal(self.root_pos@, self.root_moves@[0].mv));
        }
        let first = self.root_moves[0].mv;
        match self.prev_pv.get(0) {
            Some(mv) => if movegen::is_pseudo_legal(&self.root_pos, mv) && movegen::is_legal(&self.root_pos, mv) {
                mv
            } else {
                first
            },
            None => first,
        }
    }

    fn report_no_move(&mut self)
        requires
            old(self).wf(),
        ensures
            final(self).wf(),
            searcher::only_spoke(*old(self), *final(self)),
            final(self).said@ == without_move(*old(self).cfg, old(self).said@),
    {
        if !self.cfg.limits.silent {
            self.say(Report::NoMove);
        }
    }

    /// Reports the move to play, unless the search is silent.
    fn report_best_move(&mut self)
        requires
            old(self).wf(),
            old(self).root_moves@.len() > 0,
        ensures
            final(self).wf(),
            searcher::only_spoke(*old(self), *final(self)),
            final(self).said@ == with_best_move(
                *old(self).cfg,
                old(self).root_pos@,
                old(self).said@,
                announced(old(self).root_pos@, old(self).prev_pv@, old(self).root_moves@[0].mv),
            ),
    {
        if !self.cfg.limits.silent {
            let best = self.chosen_move();
            let what = Report::BestMove { protocol: self.cfg.limits.protocol, mv: best.to_uci(self.root_pos.is_frc) };
            self.say(what);
        }
    }

    /// The deepest iteration.
    fn depth_limit(&self) -> (limit: i32)
        requires
            self.cfg.wf(),
        ensures
            limit == last_depth(self.cfg.limits),
            limit <= MAX_DEPTH,
    {
        match self.cfg.limits.mate {
            Some(m) => arith::min(2 * m, MAX_DEPTH),
            None => if self.cfg.limits.depth > 0 {
                self.cfg.limits.depth
            } else {
                MAX_DEPTH
            },
        }
    }

    /// Searches depth 1, then 2, then 3, and so on, until a limit is reached, and reports the best move.
    /// Returns what was learned about quiet moves.
    ///
    /// Each iteration's move ordering feeds the next, and there is always a best move ready from the last
    /// completed iteration: an aborted iteration does not change the order of the root moves.
    ///
    /// A root that is a draw by the fifty-move rule or for want of material is not expanded, so no iteration
    /// on it completes: the search goes on until it is stopped, by the flag, the clock or the node limit, and
    /// then announces the first root move.
    ///
    /// The longest line has 128 moves of Black's, and the full-move number has to hold them.
    pub fn iterative_deepening(&mut self) -> (h: History)
        requires
            old(self).wf(),
            old(self).root_pos.fullmove_number <= 65_407,
        ensures
            final(self).wf(),
            same_job(*old(self), *final(self)),
            final(self).zobrist_trail@ == old(self).zobrist_trail@,
            past_bounded(*old(self), *final(self)),
            searcher::all_genuine(old(self).cfg.stop, old(self).tm.started(), final(self).heard@),
            searcher::relayed(final(self).told@, final(self).said@, final(self).console),
            final(self).raised@ ==> clock::flag_stored(old(self).cfg.stop),
            !nothing_to_search(*old(self)) ==> laws::same_choice(
                selected(line::roots_of(old(self).root_moves@), old(self).cfg.limits.searchmoves@),
                line::roots_of(final(self).root_moves@),
            ),
            !nothing_to_search(*old(self)) && old(self).cfg.limits.mate is None && !final(self).raised@ && unflagged(
                *old(self),
                *final(self),
            ) ==> settled(*final(self)),
            nothing_to_search(*old(self)) ==> idle(*old(self), *final(self)) && h@ == old(self).history_table@,
            !nothing_to_search(*old(self)) ==> final(self).root_moves@.len() > 0 && searcher::continues(
                final(self).heard@,
                old(self).heard@,
            ),
            !nothing_to_search(*old(self)) && old(self).cfg.limits.silent ==> final(self).said@ == opened(
                *old(self).cfg,
                old(self).said@,
            ),
            forall|o: Signals|
                !nothing_to_search(*old(self)) && searcher::continues(o, final(self).heard@) ==> holds(
                    #[trigger] iterations(job_of(*old(self), o), start_of(*old(self)), 1, 0),
                    *final(self),
                    h@,
                ),
    {
        let ghost s0 = *self;
        self.nodes = 0;
        self.raised = Ghost(false);
        if self.cfg.display.go_pretty && self.cfg.limits.protocol == Protocol::Uci {
            self.say(Report::ClearScreen);
        }
        if let Some(depth) = self.cfg.limits.perft {
            let mut board = self.root_pos;
            let mut acc = board.get_initial_accumulator();
            let count: u64 = perft::perft(&mut board, depth, &mut acc);
            self.say(Report::NodesSearched(count));
            return self.history_table.clone();
        }
        if self.root_moves.len() == 0 {
            proof {
                assert(line::roots_of(self.root_moves@) =~= Seq::empty());
            }
            self.report_no_move();
            return self.history_table.clone();
        }
        if self.cfg.limits.searchmoves.len() > 0 {
            retain_roots(&mut self.root_moves, &self.cfg.limits.searchmoves, Ghost(self.root_pos@));
            if self.root_moves.len() == 0 {
                self.say(Report::NoMatchingMove);
                self.report_no_move();
                return self.history_table.clone();
            }
        }
        let limit: i32 = self.depth_limit();
        let mut worker = Worker {
            pos: self.root_pos,
            accumulator: self.root_pos.get_initial_accumulator(),
            stack: blank_stack(),
            history: self.history_table.clone(),
        };
        let ghost s1 = *self;
        proof {
            assert(progress_of(worker, *self) == start_of(s0));
        }
        self.deepen(&mut worker, limit);
        let ghost s2 = *self;
        self.report_best_move();
        proof {
            assert(line::roots_of(s2.root_moves@)[0].mv == s2.root_moves@[0].mv);
            assert forall|o: Signals| searcher::continues(o, self.heard@) implies holds(
                #[trigger] iterations(job_of(s0, o), start_of(s0), 1, 0),
                *self,
                worker.history@,
            ) by {
                assert(job_of(s1, o) == job_of(s0, o));
                assert(iterations(job_of(s1, o), start_of(s0), 1, 0) == progress_of(worker, s2));
            }
            let o = self.heard@;
            assert(searcher::continues(o, self.heard@));
            laws::law_root_moves_stay(job_of(s0, o), start_of(s0), 1, 0);
            assert(holds(iterations(job_of(s0, o), start_of(s0), 1, 0), *self, worker.history@));
        }
        worker.history
    }
}

proof fn lemma_aspired(env: Env, root: PositionV, t: Tree, depth: int, alpha: int, beta: int, delta: int)
    ensures
        aspired(env, root, t, depth, alpha, beta, delta) == {
            let (t1, r) = run::node(env, at_root(t, root), NodeKind::Root, depth, alpha, beta, 0, None);
            let score = t1.roots[0].score as int;
            if r is None {
                (t1, true)
            } else if t1.nodes <= t.nodes {
                (t1, false)
            } else if score <= alpha {
                aspired(env, root, t1, depth, arith::larger(score - delta, -INF as int), beta, wider(delta))
            } else if score >= beta {
                aspired(env, root, t1, depth, alpha, arith::smaller(score + delta, INF as int), wider(delta))
            } else {
                (t1, false)
            }
        },
{
    reveal(aspired);
}

proof fn lemma_iterations(job: Job, p: Progress, depth: int, last: u64)
    ensures
        iterations(job, p, depth, last) == if depth > last_depth(job.cfg.limits) {
            p
        } else {
            match iteration(job, p, depth, last) {
                (p1, None) => p1,
                (p1, Some(began)) => iterations(job, p1, depth + 1, began),
            }
        },
{
    reveal(iterations);
}

} // verus!
