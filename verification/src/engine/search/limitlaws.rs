//! What holds of iterative deepening under its limits: which moves are searched, how deep, for how long, and
//! what is announced.

use vstd::prelude::*;
use crate::arith;
use crate::board::model::PositionV;
use crate::engine::movegen;
use crate::engine::search::deepening;
use crate::engine::search::deepening::{Job, Progress};
use crate::engine::search::laws;
use crate::engine::search::line;
use crate::engine::search::line::RootV;
use crate::engine::search::model as run;
use crate::engine::search::model::{Env, Gate, NodeKind, Tree};
use crate::engine::search::report::{Console, PastV};
use crate::engine::search::searcher;
use crate::engine::search::searcher::Searcher;
use crate::engine::tm;
use crate::engine::search::config::Limits;
use crate::moves::Move;
use crate::types::{Color, INF};

verus! {

// ──────── Root moves ────────

/// The move is one of the root moves.
pub open spec fn among(r: Seq<RootV>, mv: Move) -> bool {
    exists|i: int| 0 <= i < r.len() && (#[trigger] r[i]).mv == mv
}

proof fn lemma_asked_for(roots: Seq<RootV>, moves: Seq<Move>, n: int)
    requires
        0 <= n <= roots.len(),
    ensures
        ({
            let s = deepening::asked_for(roots, moves, n);
            &&& s.len() <= n
            &&& forall|i: int|
                0 <= i < n && moves.contains((#[trigger] roots[i]).mv) ==> exists|j: int|
                    0 <= j < s.len() && #[trigger] s[j] == roots[i]
            &&& forall|j: int|
                0 <= j < s.len() ==> moves.contains((#[trigger] s[j]).mv) && exists|i: int|
                    0 <= i < n && #[trigger] roots[i] == s[j]
        }),
    decreases n,
{
    if n > 0 {
        lemma_asked_for(roots, moves, n - 1);
        let rest = deepening::asked_for(roots, moves, n - 1);
        let s = deepening::asked_for(roots, moves, n);
        assert forall|i: int| 0 <= i < n && moves.contains((#[trigger] roots[i]).mv) implies exists|j: int|
            0 <= j < s.len() && #[trigger] s[j] == roots[i] by {
            if i < n - 1 {
                let j = choose|j: int| 0 <= j < rest.len() && #[trigger] rest[j] == roots[i];
                assert(s[j] == roots[i]);
            } else {
                assert(s[rest.len() as int] == roots[i]);
            }
        }
        assert forall|j: int| 0 <= j < s.len() implies moves.contains((#[trigger] s[j]).mv) && exists|i: int|
            0 <= i < n && #[trigger] roots[i] == s[j] by {
            if j < rest.len() {
                assert(s[j] == rest[j]);
                let i = choose|i: int| 0 <= i < n - 1 && #[trigger] roots[i] == rest[j];
                assert(roots[i] == s[j]);
            } else {
                assert(roots[n - 1] == s[j]);
            }
        }
    }
}

/// With a list of moves to search, a root move is searched exactly when it occurs anywhere in that list;
/// without one, all root moves are. None is invented, and none loses its score or line.
pub proof fn law_searchmoves(roots: Seq<RootV>, moves: Seq<Move>, mv: Move)
    ensures
        moves.len() > 0 ==> (among(deepening::selected(roots, moves), mv) <==> among(roots, mv) && moves.contains(
            mv,
        )),
        moves.len() == 0 ==> deepening::selected(roots, moves) == roots,
        forall|j: int|
            0 <= j < deepening::selected(roots, moves).len() ==> roots.contains(
                #[trigger] deepening::selected(roots, moves)[j],
            ),
{
    let s = deepening::selected(roots, moves);
    lemma_asked_for(roots, moves, roots.len() as int);
    if moves.len() > 0 {
        if among(s, mv) {
            let j = choose|j: int| 0 <= j < s.len() && (#[trigger] s[j]).mv == mv;
            let i = choose|i: int| 0 <= i < roots.len() && #[trigger] roots[i] == s[j];
            assert(roots[i].mv == mv);
        }
        if among(roots, mv) && moves.contains(mv) {
            let i = choose|i: int| 0 <= i < roots.len() && (#[trigger] roots[i]).mv == mv;
            let j = choose|j: int| 0 <= j < s.len() && #[trigger] s[j] == roots[i];
            assert(s[j].mv == mv);
        }
        assert forall|j: int| 0 <= j < s.len() implies roots.contains(#[trigger] s[j]) by {
            let i = choose|i: int| 0 <= i < roots.len() && #[trigger] roots[i] == s[j];
            assert(roots[i] == s[j]);
        }
    }
}

/// Where a deepening search starts: at the root position, with its vector sum, nothing counted, no killer and no line
/// of any ply known, what was learned before, and the root moves that are asked for. It counts what the flag and the
/// clock gave from there on.
pub proof fn law_search_starts<C: Console>(s: Searcher<C>, i: int)
    requires
        0 <= i <= 256,
    ensures
        ({
            let p = deepening::start_of(s);
            let t = p.tree;
            &&& t.pos == s.root_pos@
            &&& t.acc == crate::board::model::acc_of(s.root_pos@.board)
            &&& t.nodes == 0 && !t.raised
            &&& t.stack.len() == 257
            &&& t.stack[i].pv.len() == 0 && t.stack[i].quiets.len() == 0 && !t.stack[i].is_null
            &&& t.stack[i].killers.0.0 == 0 && t.stack[i].killers.1.0 == 0
            &&& t.hist == s.history_table@ && t.table == s.tt@
            &&& t.trail == s.zobrist_trail@
            &&& s.cfg.limits.searchmoves@.len() == 0 ==> t.roots == line::roots_of(s.root_moves@)
            &&& forall|x: RootV|
                s.cfg.limits.searchmoves@.len() > 0 ==> (#[trigger] t.roots.contains(x) <==> line::roots_of(
                    s.root_moves@,
                ).contains(x) && s.cfg.limits.searchmoves@.contains(x.mv))
        }),
{
    let roots = line::roots_of(s.root_moves@);
    let moves = s.cfg.limits.searchmoves@;
    assert forall|x: RootV|
        moves.len() > 0 implies (#[trigger] deepening::start_of(s).tree.roots.contains(x) <==> roots.contains(x)
        && moves.contains(x.mv)) by {
        lemma_asked_for(roots, moves, roots.len() as int);
        let sel = deepening::selected(roots, moves);
        if sel.contains(x) {
            let k = choose|k: int| 0 <= k < sel.len() && sel[k] == x;
            assert(sel[k] == x);
        }
        if roots.contains(x) && moves.contains(x.mv) {
            let k = choose|k: int| 0 <= k < roots.len() && roots[k] == x;
            assert(roots[k] == x);
        }
    }
}

/// A new search starts with every legal move of the position, each once and none scored.
pub proof fn law_fresh_roots(p: PositionV, mv: Move)
    ensures
        among(searcher::fresh_roots(p), mv) <==> movegen::legal(p, mv),
        forall|i: int|
            0 <= i < searcher::fresh_roots(p).len() ==> (#[trigger] searcher::fresh_roots(p)[i]).score == -INF
                && searcher::fresh_roots(p)[i].pv.len() == 0,
        forall|i: int, j: int|
            0 <= i < j < searcher::fresh_roots(p).len() ==> (#[trigger] searcher::fresh_roots(p)[i]).mv != (
            #[trigger] searcher::fresh_roots(p)[j]).mv,
{
    movegen::law_legal_moves_exact(p);
    let r = searcher::fresh_roots(p);
    let ms = movegen::legal_moves(p);
    if among(r, mv) {
        let i = choose|i: int| 0 <= i < r.len() && (#[trigger] r[i]).mv == mv;
        assert(ms[i] == mv);
        assert(ms.contains(mv));
    }
    if movegen::legal(p, mv) {
        assert(ms.contains(mv));
        let i = choose|i: int| 0 <= i < ms.len() && ms[i] == mv;
        assert(r[i].mv == mv);
    }
    assert forall|i: int, j: int| 0 <= i < j < r.len() implies (#[trigger] r[i]).mv != (#[trigger] r[j]).mv by {
        assert(ms[i] != ms[j]);
    }
}

// ──────── Sorting ────────

proof fn lemma_in_place(s: Seq<RootV>, n: int)
    requires
        0 <= n <= s.len(),
        forall|i: int, j: int| 0 <= i < j < s.len() ==> (#[trigger] s[i]).score >= (#[trigger] s[j]).score,
    ensures
        deepening::by_score(s, n) == s.take(n),
    decreases n,
{
    if n > 0 {
        lemma_in_place(s, n - 1);
        let rest = s.take(n - 1);
        lemma_goes_last(rest, s[n - 1].score, 0);
        assert(rest.insert(n - 1, s[n - 1]) =~= s.take(n));
    } else {
        assert(s.take(0) =~= Seq::empty());
    }
}

proof fn lemma_goes_last(s: Seq<RootV>, score: i32, j: int)
    requires
        0 <= j <= s.len(),
        forall|i: int| 0 <= i < s.len() ==> (#[trigger] s[i]).score >= score,
    ensures
        deepening::place_for(s, score, j) == s.len(),
    decreases s.len() - j,
{
    if j < s.len() {
        assert(s[j].score >= score);
        lemma_goes_last(s, score, j + 1);
    }
}

/// Sorting does not move anything without need: root moves that are in order already, equal scores among them,
/// stay as they are.
pub proof fn law_sort_is_stable(s: Seq<RootV>)
    requires
        forall|i: int, j: int| 0 <= i < j < s.len() ==> (#[trigger] s[i]).score >= (#[trigger] s[j]).score,
    ensures
        deepening::sorted(s) == s,
{
    lemma_in_place(s, s.len() as int);
    assert(s.take(s.len() as int) =~= s);
}

/// The root move that a search answers with. There is one whenever there are root moves, and of sorted root moves it is
/// one with the best score.
pub proof fn law_foremost_is_best(s: Seq<RootV>, i: int)
    requires
        0 <= i < s.len(),
    ensures
        searcher::foremost(s) is Some,
        searcher::foremost(deepening::sorted(s)) matches Some(x) && s.contains(x) && x.score >= s[i].score,
        searcher::foremost(Seq::empty()) is None,
{
    let r = deepening::sorted(s);
    deepening::law_sorted(s);
    broadcast use vstd::seq_lib::group_to_multiset_ensures;

    assert(r.len() == s.len()) by {
        assert(r.to_multiset().len() == s.to_multiset().len());
    }
    assert(s.to_multiset().count(s[i]) > 0) by {
        assert(s.contains(s[i]));
    }
    assert(r.contains(s[i]));
    let j = choose|j: int| 0 <= j < r.len() && r[j] == s[i];
    assert(r[0].score >= r[j].score);
    assert(r.contains(r[0]));
    assert(s.to_multiset().count(r[0]) > 0);
    assert(s.contains(r[0]));
}

/// A completed iteration leaves the best score in front, and notes the front move's score and line.
pub proof fn law_iteration_best_first(job: Job, p: Progress, depth: int, last: u64)
    requires
        p.tree.roots.len() > 0,
    ensures
        ({
            let (q, began) = deepening::iteration(job, p, depth, last);
            began is Some ==> {
                &&& q.tree.roots.len() == p.tree.roots.len()
                &&& forall|j: int|
                    0 <= j < q.tree.roots.len() ==> q.tree.roots[0].score >= (#[trigger] q.tree.roots[j]).score
                &&& q.prev_score == q.tree.roots[0].score
                &&& q.prev_pv == q.tree.roots[0].pv
                &&& q.iter_depth == depth as i32
                &&& q.past.len() > 0 && q.past.last().1 == q.prev_pv && q.past.last().2 == q.prev_score
            }
        }),
{
    reveal(deepening::iteration);
    reveal(deepening::completed);
    reveal(run::poll);
    let p1 = deepening::clocked(Progress { iter_depth: depth as i32, ..p });
    let env = deepening::env_for(job, p1);
    let t2 = run::poll(env, p1.tree).1;
    let (alpha, beta) = deepening::first_window(job.cfg, depth, p.prev_score as int);
    let delta = job.cfg.search_params.asp_initial as int;
    laws::law_abort_keeps_order(env, job.root, t2, depth, alpha, beta, delta);
    let t3 = deepening::aspired(env, job.root, t2, depth, alpha, beta, delta).0;
    deepening::law_sorted(t3.roots);
    t3.roots.to_multiset_ensures();
    deepening::sorted(t3.roots).to_multiset_ensures();
}

/// The past results end with the newest, hold at most thirty, and otherwise lose only the oldest.
pub proof fn law_past_results(past: Seq<PastV>, x: PastV)
    requires
        past.len() <= 30,
    ensures
        ({
            let r = deepening::remember(past, x);
            &&& r.len() <= 30
            &&& r.last() == x
            &&& past.len() < 30 ==> r == past.push(x)
            &&& past.len() == 30 ==> r.len() == 30 && forall|i: int| 0 <= i < 29 ==> #[trigger] r[i] == past[i + 1]
        }),
{
}

// ──────── Depth ────────

/// The depth limit: twice the number of moves to a mate that is asked for, or the depth that is asked for, but
/// no more than 128; else 128.
pub proof fn law_depth_limit(l: Limits)
    requires
        l.wf(),
    ensures
        deepening::last_depth(l) <= 128,
        l.mate matches Some(m) ==> deepening::last_depth(l) == 128 || deepening::last_depth(l) == 2 * m,
        l.mate matches Some(m) ==> 2 * m <= 128 ==> deepening::last_depth(l) == 2 * m,
        l.mate is None && l.depth > 0 ==> deepening::last_depth(l) == l.depth,
        l.mate is None && l.depth <= 0 ==> deepening::last_depth(l) == 128,
{
}

/// Depths are searched one after the other, from the first up to the limit and no further.
pub proof fn law_depths_in_turn(job: Job, p: Progress, depth: int, last: u64)
    requires
        1 <= depth <= deepening::last_depth(job.cfg.limits),
        deepening::last_depth(job.cfg.limits) <= 128,
    ensures
        depth <= deepening::iterations(job, p, depth, last).iter_depth <= deepening::last_depth(job.cfg.limits),
        match deepening::iteration(job, p, depth, last) {
            (q, None) => deepening::iterations(job, p, depth, last) == q,
            (q, Some(began)) => if depth == deepening::last_depth(job.cfg.limits) {
                deepening::iterations(job, p, depth, last) == q
            } else {
                deepening::iterations(job, p, depth, last) == deepening::iterations(job, q, depth + 1, began)
            },
        },
    decreases deepening::last_depth(job.cfg.limits) - depth,
{
    reveal_with_fuel(deepening::iterations, 2);
    reveal(deepening::iteration);
    reveal(deepening::completed);
    if let (q, Some(began)) = deepening::iteration(job, p, depth, last) {
        if depth < deepening::last_depth(job.cfg.limits) {
            law_depths_in_turn(job, q, depth + 1, began);
        }
    }
}

// ──────── Time and nodes ────────

/// A look at the signals stops the search exactly when the stop flag is set, the hard time limit is reached or
/// the node limit is spent, and raises the flag exactly then.
pub proof fn law_poll(env: Env, t: Tree)
    ensures
        ({
            let (stop, u) = run::poll(env, t);
            &&& stop <==> {
                ||| env.signals.flags[t.looks]
                ||| env.hard matches Some(h) && env.signals.times[t.reads] >= h
                ||| env.cfg.limits.nodes > 0 && t.nodes >= env.cfg.limits.nodes
            }
            &&& stop ==> u.raised
            &&& !stop ==> u.raised == t.raised
            &&& u.looks == t.looks + 1
            &&& u.nodes == t.nodes && u.pos == t.pos && u.roots == t.roots && u.trail == t.trail && u.table == t.table
        }),
{
    reveal(run::poll);
}

/// Entering a node. At every 2048th node the signals are looked at, and a stop aborts the node before it is
/// counted. Otherwise the node is counted, and is open exactly when it is no draw: the fifty-move counter has
/// not reached 100, there is material to mate with, and, below the root, the position did not occur before
/// since the last move that cannot be taken back.
pub proof fn law_enter(env: Env, t: Tree, ply: int)
    requires
        t.nodes < u64::MAX,
    ensures
        ({
            let (u, gate) = run::entry(env, t, ply);
            let seen = exists|i: int|
                0 <= i < t.trail.len() - 1 && t.trail.len() - 1 - i <= t.pos.halfmove_clock && #[trigger] t.trail[i]
                    == t.pos.hash;
            &&& gate == Gate::Abort ==> t.nodes as int % 2048 == 0 && u.raised && u.nodes == t.nodes
            &&& gate != Gate::Abort ==> u.nodes == t.nodes + 1
            &&& 0 <= ply < t.stack.len() ==> u.stack[ply].pv.len() == 0
            &&& gate == Gate::Open && 0 <= ply <= 256 ==> u.sel == arith::larger(t.sel as int, ply)
            &&& t.nodes as int % 2048 != 0 ==> gate != Gate::Abort && u.looks == t.looks && u.reads == t.reads
            &&& t.nodes as int % 2048 == 0 ==> u.looks == t.looks + 1
            &&& t.nodes as int % 2048 == 0 && env.signals.flags[t.looks] ==> gate == Gate::Abort
            &&& gate != Gate::Abort ==> (gate == Gate::Draw <==> {
                ||| t.pos.halfmove_clock >= 100
                ||| crate::board::queries::dead_material(t.pos.board)
                ||| ply > 0 && seen
            })
        }),
{
    reveal(run::entry);
    reveal(run::poll);
    reveal(run::counted);
    let start = if t.trail.len() > t.pos.halfmove_clock + 1 {
        t.trail.len() - (t.pos.halfmove_clock + 1)
    } else {
        0
    };
    if run::repeated(t.pos.hash, t.trail, t.pos.halfmove_clock as int) {
        let i = choose|i: int| start <= i <= t.trail.len() - 2 && #[trigger] t.trail[i] == t.pos.hash;
        assert(t.trail[i] == t.pos.hash);
    }
    if exists|i: int|
        0 <= i < t.trail.len() - 1 && t.trail.len() - 1 - i <= t.pos.halfmove_clock && #[trigger] t.trail[i]
            == t.pos.hash {
        let i = choose|i: int|
            0 <= i < t.trail.len() - 1 && t.trail.len() - 1 - i <= t.pos.halfmove_clock && #[trigger] t.trail[i]
                == t.pos.hash;
        assert(start <= i <= t.trail.len() - 2);
    }
}

/// The first depth is always begun. Another one is begun exactly when the soft time limit is not reached, twice
/// the time of the last one still fits below the hard limit, and the soft node limit is not spent. What is not
/// begun changes nothing but that the clock was read.
pub proof fn law_soft_limits(job: Job, p: Progress, depth: int, last: u64)
    ensures
        ({
            let (q, began) = deepening::iteration(job, p, depth, last);
            let now = job.signals.times[p.tree.reads] as u64;
            let spent = if now > last {
                now - last
            } else {
                0
            };
            let softnodes = job.cfg.limits.softnodes;
            let late = depth > 1 && (now >= job.soft || now + 2 * spent > job.cap || (softnodes > 0 && p.tree.nodes
                >= softnodes));
            &&& late ==> began is None && q.tree.nodes == p.tree.nodes && q.tree.roots == p.tree.roots
                && q.tree.looks == p.tree.looks && q.prev_pv == p.prev_pv && q.prev_score == p.prev_score && q.past
                == p.past
            &&& !late && job.signals.flags[p.tree.looks] ==> began is None && q.tree.raised
            &&& began is Some ==> !late && began == Some(now)
        }),
{
    reveal(deepening::iteration);
    reveal(run::poll);
    reveal(deepening::completed);
}

/// The time budget. A fixed time per move is kept, less the overhead; without a clock or for an infinite search
/// there is no limit; else the soft limit is not above the hard one, and neither above four fifths of the time
/// that the side to move has left.
pub proof fn law_time_budget(l: Limits, stm: Color, overhead: int, phase: int)
    requires
        overhead >= 0,
        phase >= 0,
    ensures
        ({
            let time = if stm == Color::White {
                l.wtime as int
            } else {
                l.btime as int
            };
            let left = if time - overhead >= 1 {
                time - overhead
            } else {
                1
            };
            let b = tm::budget(l, stm, overhead, phase);
            &&& l.movetime > 0 ==> (b matches Some((s, h)) && s == h && s >= 1 && (l.movetime > overhead ==> s
                == l.movetime - overhead))
            &&& l.movetime == 0 && (l.infinite || time == 0) ==> b is None
            &&& l.movetime == 0 && !l.infinite && time > 0 ==> (b matches Some((s, h)) && 0 <= s <= h && 5 * h <= 4
                * left + 4)
        }),
{
    if l.movetime == 0 && !l.infinite {
        let (time, inc) = tm::own_clock(l, stm);
        let left = tm::remainder(time as int, overhead);
        let n = tm::moves_left(l, phase);
        assert(left / n >= 0) by (nonlinear_arith)
            requires
                left >= 1,
                n >= 1,
        ;
    }
}

/// How the time is shared out. Without an increment the soft limit is the time left, divided by the moves that are to
/// come: as announced, up to fifty, else twenty and one for each unit of the game phase. An increment adds three times
/// its fourth part. The hard limit is four times the soft one. Both hold unless that is more than four fifths of the
/// time left.
pub proof fn law_time_shared(l: Limits, stm: Color, overhead: int, phase: int)
    requires
        overhead >= 0,
        0 <= phase <= 24,
        l.movetime == 0,
        !l.infinite,
        (if stm == Color::White {
            l.wtime
        } else {
            l.btime
        }) > 0,
    ensures
        ({
            let (time, inc) = if stm == Color::White {
                (l.wtime as int, l.winc as int)
            } else {
                (l.btime as int, l.binc as int)
            };
            let left = if time > overhead {
                time - overhead
            } else {
                1
            };
            let moves = if l.movestogo == 0 {
                20 + phase
            } else if l.movestogo > 50 {
                50
            } else {
                l.movestogo as int
            };
            let top = left - left / 5;
            tm::budget(l, stm, overhead, phase) matches Some((soft, hard)) && {
                let share = soft - 3 * (inc / 4);
                &&& soft < top ==> share * moves <= left < (share + 1) * moves
                &&& soft <= top && hard <= top
                &&& hard < top ==> hard == 4 * soft
                &&& hard == top ==> 4 * soft >= top
            }
        }),
{
    let (time, inc) = tm::own_clock(l, stm);
    let left = tm::remainder(time as int, overhead);
    let n = tm::moves_left(l, phase);
    let q = left / n;
    assert(q >= 0 && q * n <= left < (q + 1) * n) by (nonlinear_arith)
        requires
            q == left / n,
            left >= 1,
            n >= 1,
    ;
}

// ──────── Windows ────────

/// The margin of a window grows by a third each time, up to one that spans all scores.
pub proof fn law_margin_grows(delta: int)
    requires
        0 <= delta <= 200_000,
    ensures
        delta <= deepening::wider(delta) <= 200_000,
        3 <= delta < 200_000 ==> deepening::wider(delta) > delta,
        deepening::wider(delta) < 200_000 ==> 3 * (deepening::wider(delta) - delta) <= delta < 3 * (deepening::wider(
            delta,
        ) - delta) + 3,
{
}

/// The window of an iteration: open at first; from the fourth depth on around the last score, which is inside
/// it unless the margin is 0 or the score is at the limits.
pub proof fn law_first_window(job: Job, depth: int, prev: int)
    requires
        job.cfg.wf(),
    ensures
        ({
            let (a, b) = deepening::first_window(job.cfg, depth, prev);
            let m = job.cfg.search_params.asp_initial;
            &&& -INF <= a && b <= INF
            &&& depth < 4 ==> a == -INF && b == INF
            &&& depth >= 4 && m > 0 && -INF < prev < INF ==> a < prev < b
            &&& depth >= 4 && prev - m >= -INF ==> a == prev - m
            &&& depth >= 4 && prev - m < -INF ==> a == -INF
            &&& depth >= 4 && prev + m <= INF ==> b == prev + m
            &&& depth >= 4 && prev + m > INF ==> b == INF
        }),
{
}

/// A search of one depth that is not aborted ends with a search of the root whose window holds the score of the
/// first root move, unless the node counter is at its limit.
pub proof fn law_window_holds(
    env: Env,
    root: PositionV,
    t: Tree,
    depth: int,
    alpha: int,
    beta: int,
    delta: int,
)
    ensures
        ({
            let (u, aborted) = deepening::aspired(env, root, t, depth, alpha, beta, delta);
            !aborted ==> exists|x: Tree, a: int, b: int|
                {
                    &&& x.pos == root
                    &&& (#[trigger] run::node(env, x, NodeKind::Root, depth, a, b, 0, None)).0 == u
                    &&& u.nodes <= x.nodes || a < u.roots[0].score < b
                }
        }),
    decreases u64::MAX - t.nodes,
{
    reveal(deepening::aspired);
    let x = deepening::at_root(t, root);
    let (t1, r) = run::node(env, x, NodeKind::Root, depth, alpha, beta, 0, None);
    let score = t1.roots[0].score as int;
    if r is Some && t1.nodes > t.nodes {
        if score <= alpha {
            law_window_holds(
                env,
                root,
                t1,
                depth,
                arith::larger(score - delta, -INF as int),
                beta,
                deepening::wider(delta),
            );
        } else if score >= beta {
            law_window_holds(
                env,
                root,
                t1,
                depth,
                alpha,
                arith::smaller(score + delta, INF as int),
                deepening::wider(delta),
            );
        }
    }
}

/// What is announced can be played: it is the first move of the last completed line if that is legal, and else
/// the first root move.
pub proof fn law_announced_legal(p: PositionV, pv: Seq<Move>, first: Move)
    requires
        movegen::legal(p, first),
    ensures
        movegen::legal(p, deepening::announced(p, pv, first)),
        pv.len() > 0 && movegen::legal(p, pv[0]) ==> deepening::announced(p, pv, first) == pv[0],
        pv.len() == 0 ==> deepening::announced(p, pv, first) == first,
{
}

/// What a search remembers of the game: the position itself, and before it as many of the last positions as the
/// fifty-move counter has counted.
pub proof fn law_trail(history: Seq<u64>, p: PositionV)
    ensures
        ({
            let t = searcher::trail_of(history, p);
            let clock = p.halfmove_clock as int;
            &&& t.last() == p.hash
            &&& history.len() >= clock ==> t.len() == clock + 1
            &&& history.len() < clock ==> t.len() == history.len() + 1
            &&& forall|k: int|
                1 <= k < t.len() ==> #[trigger] t[t.len() - 1 - k] == history[history.len() - k]
        }),
{
}

} // verus!
