//! The state of a whole search: limits, root moves, transposition table, and what it says and hears.

use vstd::prelude::*;
use crate::board::model;
use crate::board::model::PositionV;
use crate::board::position::Position;
use crate::engine::clock;
use crate::engine::eval;
use crate::engine::history::History;
use crate::engine::movegen;
use crate::engine::search::config::{Protocol, SearchConfig};
use crate::engine::search::line;
use crate::engine::search::line::{Line, RootMove, RootV, Stack};
use crate::engine::search::model as run;
use crate::engine::search::model::{Env, Signals, Tree, NODE_CHECK_INTERVAL, PRINT_UPDATE_MS};
use crate::engine::search::report;
use crate::engine::search::report::{Console, PastResult, Report, ReportV, SearchInfoData, CURRMOVE_NODE_THRESHOLD};
use crate::engine::tm;
use crate::engine::tm::TimeManager;
use crate::engine::tt;
use crate::engine::tt::TranspositionTable;
use crate::moves::Move;
use crate::psqt::Vi16x8;
use crate::types::{FARTHEST, INF};
use std::collections::VecDeque;
use std::sync::atomic::AtomicBool;
use std::sync::Arc;
use std::time::Instant;

verus! {

/// How many past results are kept.
pub const PV_HISTORY: usize = 30;

pub struct Searcher<'cfg, C: Console> {
    pub cfg: &'cfg SearchConfig,
    pub tm: TimeManager,
    pub root_moves: Vec<RootMove>,
    pub zobrist_trail: Vec<u64>,
    pub root_pos: Position,
    pub prev_pv: Line,
    pub prev_score: i32,
    pub nodes: u64,
    pub sel_depth: i32,
    pub iter_depth: i32,
    pub last_print: u128,
    pub pv_history: VecDeque<PastResult>,
    pub history_table: History,
    pub tt: TranspositionTable,
    pub console: C,
    /// What the loads of the stop flag and the readings of the clock have given so far.
    pub heard: Ghost<Signals>,
    /// The reports made so far.
    pub said: Ghost<Seq<ReportV>>,
    /// The search has raised the stop flag.
    pub raised: Ghost<bool>,
    /// The console after each report, the one before the first in front.
    pub told: Ghost<Seq<C>>,
}

/// The state that changes on the way down the tree.
pub struct Worker {
    pub pos: Position,
    pub accumulator: Vi16x8,
    pub stack: Vec<Stack>,
    pub history: History,
}

/// Every recorded signal was really read: the flags by loads of the stop flag, the times from the clock.
#[verifier::opaque]
pub open spec fn all_genuine(stop: Arc<AtomicBool>, start: Instant, h: Signals) -> bool {
    &&& forall|i: int| 0 <= i < h.flags.len() ==> clock::flag_reads(stop, #[trigger] h.flags[i])
    &&& forall|i: int| 0 <= i < h.times.len() ==> clock::clock_reads(start, #[trigger] h.times[i])
}

/// No signal has been read.
pub open spec fn silence() -> Signals {
    Signals { flags: Seq::empty(), times: Seq::empty() }
}

/// The signals with one more load of the stop flag.
pub open spec fn with_flag(h: Signals, b: bool) -> Signals {
    Signals { flags: h.flags.push(b), ..h }
}

/// The signals with one more reading of the clock.
pub open spec fn with_time(h: Signals, ms: u128) -> Signals {
    Signals { times: h.times.push(ms), ..h }
}

/// Every recorded report was handed to the console, in this order.
#[verifier::opaque]
pub open spec fn relayed<C: Console>(told: Seq<C>, said: Seq<ReportV>, console: C) -> bool {
    &&& told.len() == said.len() + 1
    &&& told.last() == console
    &&& forall|i: int| 0 <= i < said.len() ==> C::handed(told[i], told[i + 1], #[trigger] said[i])
}

proof fn lemma_hears(stop: Arc<AtomicBool>, start: Instant, h: Signals)
    requires
        all_genuine(stop, start, h),
    ensures
        forall|b: bool| clock::flag_reads(stop, b) ==> all_genuine(stop, start, #[trigger] with_flag(h, b)),
        forall|ms: u128| clock::clock_reads(start, ms) ==> all_genuine(stop, start, #[trigger] with_time(h, ms)),
{
    reveal(all_genuine);
}

proof fn lemma_relays<C: Console>(told: Seq<C>, said: Seq<ReportV>, console: C, after: C, what: ReportV)
    requires
        relayed(told, said, console),
        C::handed(console, after, what),
    ensures
        relayed(told.push(after), said.push(what), after),
{
    reveal(relayed);
    let (t, s) = (told.push(after), said.push(what));
    assert forall|i: int| 0 <= i < s.len() implies C::handed(t[i], t[i + 1], #[trigger] s[i]) by {
        if i < said.len() {
            assert(C::handed(told[i], told[i + 1], said[i]));
        }
    }
}

/// The root moves are legal moves of the root position, and each one's line is empty or begins with it.
pub open spec fn roots_ok(p: PositionV, v: Seq<RootMove>) -> bool {
    forall|i: int|
        0 <= i < v.len() ==> (#[trigger] v[i]).wf() && movegen::legal(p, v[i].mv)
}

impl<'cfg, C: Console> Searcher<'cfg, C> {
    /// Tables, limits and root moves are in order; the recorded signals were read from this search's stop flag
    /// and clock, the recorded reports were handed to the console, and a raised stop flag was stored.
    pub open spec fn wf(self) -> bool {
        &&& self.cfg.wf()
        &&& self.root_pos.wf()
        &&& self.prev_pv.wf()
        &&& tt::table_ok(self.tt@)
        &&& self.history_table@.wf()
        &&& roots_ok(self.root_pos@, self.root_moves@)
        &&& -FARTHEST <= self.prev_score <= FARTHEST
        &&& all_genuine(self.cfg.stop, self.tm.started(), self.heard@)
        &&& relayed(self.told@, self.said@, self.console)
        &&& self.raised@ ==> clock::flag_stored(self.cfg.stop)
    }
}

/// What the search depends on and does not change, with the signals `o`.
pub open spec fn env_of<C: Console>(s: Searcher<C>, o: Signals) -> Env {
    Env {
        cfg: *s.cfg,
        hard: s.tm.hard_ms(),
        root: s.root_pos@,
        iter_depth: s.iter_depth,
        prev_pv: s.prev_pv@,
        past: report::past_of(s.pv_history@),
        signals: o,
    }
}

/// What the search changes.
pub open spec fn tree_of<C: Console>(w: Worker, s: Searcher<C>) -> Tree {
    Tree {
        pos: w.pos@,
        acc: w.accumulator@,
        stack: line::stack_of(w.stack@),
        hist: w.history@,
        roots: line::roots_of(s.root_moves@),
        trail: s.zobrist_trail@,
        nodes: s.nodes,
        sel: s.sel_depth,
        printed: s.last_print,
        table: s.tt@,
        looks: s.heard@.flags.len() as int,
        reads: s.heard@.times.len() as int,
        said: s.said@,
        raised: s.raised@,
    }
}

/// `o` begins with `h`.
pub open spec fn continues(o: Signals, h: Signals) -> bool {
    &&& h.flags.len() <= o.flags.len()
    &&& h.times.len() <= o.times.len()
    &&& forall|i: int| 0 <= i < h.flags.len() ==> #[trigger] o.flags[i] == h.flags[i]
    &&& forall|i: int| 0 <= i < h.times.len() ==> #[trigger] o.times[i] == h.times[i]
}

pub proof fn lemma_continues(o: Signals, h2: Signals, h1: Signals)
    requires
        continues(o, h2),
        continues(h2, h1),
    ensures
        continues(o, h1),
{
    assert forall|i: int| 0 <= i < h1.flags.len() implies #[trigger] o.flags[i] == h1.flags[i] by {
        assert(h2.flags[i] == h1.flags[i]);
    }
    assert forall|i: int| 0 <= i < h1.times.len() implies #[trigger] o.times[i] == h1.times[i] by {
        assert(h2.times[i] == h1.times[i]);
    }
}

/// Two states of a search that differ at most in what a run changes.
pub open spec fn same_task<C: Console>(a: Searcher<C>, b: Searcher<C>) -> bool {
    &&& a.cfg == b.cfg
    &&& a.tm == b.tm
    &&& a.root_pos == b.root_pos
    &&& a.prev_pv == b.prev_pv
    &&& a.prev_score == b.prev_score
    &&& a.iter_depth == b.iter_depth
    &&& a.pv_history == b.pv_history
    &&& a.history_table == b.history_table
}

/// The searcher changed nothing but the signals read and the reports made.
pub open spec fn unmoved<C: Console>(a: Searcher<C>, b: Searcher<C>) -> bool {
    &&& same_task(a, b)
    &&& a.root_moves == b.root_moves
    &&& a.zobrist_trail == b.zobrist_trail
    &&& a.nodes == b.nodes
    &&& a.sel_depth == b.sel_depth
    &&& a.last_print == b.last_print
    &&& a.tt == b.tt
    &&& a.raised == b.raised
}

/// The searcher changed nothing but the reports made.
pub open spec fn only_spoke<C: Console>(a: Searcher<C>, b: Searcher<C>) -> bool {
    unmoved(a, b) && a.heard == b.heard
}

/// The searcher changed nothing but the signals read.
pub open spec fn only_listened<C: Console>(a: Searcher<C>, b: Searcher<C>) -> bool {
    unmoved(a, b) && a.said == b.said && a.told == b.told && a.console == b.console
}

/// A silent search made no report.
pub open spec fn discreet<C: Console>(a: Searcher<C>, b: Searcher<C>) -> bool {
    a.cfg.limits.silent ==> b.said@ == a.said@
}

/// The last entries of a game's history that can still repeat, and the position itself.
pub open spec fn trail_of(history: Seq<u64>, p: PositionV) -> Seq<u64> {
    let clock = p.halfmove_clock as int;
    let recent = if history.len() > clock {
        history.skip(history.len() - clock)
    } else {
        history
    };
    recent.push(p.hash)
}

/// The root move at the front of a list, if there is one.
pub open spec fn foremost(r: Seq<RootV>) -> Option<RootV> {
    if r.len() > 0 {
        Some(r[0])
    } else {
        None
    }
}

/// The legal moves, none of them searched yet.
pub open spec fn fresh_roots(p: PositionV) -> Seq<RootV> {
    movegen::legal_moves(p).map_values(|mv: Move| line::unsearched(mv))
}

/// The time limits for a position.
pub open spec fn timed<'cfg>(t: TimeManager, cfg: &'cfg SearchConfig, p: PositionV) -> bool {
    &&& t.started() == cfg.start_time
    &&& match tm::budget(cfg.limits, p.stm, cfg.overhead as int, eval::phase_of(model::acc_of(p.board))) {
        Some(b) => t.soft_ms() matches Some(s) && s == b.0 && (t.hard_ms() matches Some(h) && h == b.1),
        None => t.soft_ms() is None && t.hard_ms() is None,
    }
}

fn build_trail(history: &[u64], pos: &Position) -> (trail: Vec<u64>)
    ensures
        trail@ == trail_of(history@, pos@),
{
    let clock: usize = pos.halfmove_clock as usize;
    let start: usize = if history.len() > clock {
        history.len() - clock
    } else {
        0
    };
    let mut trail: Vec<u64> = Vec::new();
    let mut i: usize = start;
    while i < history.len()
        invariant
            start <= i <= history.len(),
            trail@ == history@.subrange(start as int, i as int),
        decreases history.len() - i,
    {
        trail.push(history[i]);
        proof {
            assert(history@.subrange(start as int, i + 1) =~= history@.subrange(start as int, i as int).push(
                history@[i as int],
            ));
        }
        i = i + 1;
    }
    trail.push(pos.hash);
    proof {
        assert(trail@ =~= trail_of(history@, pos@));
    }
    trail
}

fn build_roots(pos: &Position) -> (roots: Vec<RootMove>)
    requires
        pos.wf(),
    ensures
        line::roots_of(roots@) == fresh_roots(pos@),
        roots_ok(pos@, roots@),
{
    let moves = movegen::gen_legal_moves(pos);
    let mut roots: Vec<RootMove> = Vec::new();
    let mut i: usize = 0;
    proof {
        movegen::law_legal_moves_exact(pos@);
    }
    while i < moves.len()
        invariant
            i <= moves.len(),
            roots.len() == i,
            moves@ == movegen::legal_moves(pos@),
            forall|mv: Move| moves@.contains(mv) <==> #[trigger] movegen::legal(pos@, mv),
            forall|j: int|
                0 <= j < i ==> (#[trigger] roots@[j]).wf() && movegen::legal(pos@, roots@[j].mv)
                    && roots@[j]@ == line::unsearched(moves@[j]),
        decreases moves.len() - i,
    {
        let mv = moves[i];
        proof {
            assert(moves@.contains(mv));
            assert(movegen::legal(pos@, mv));
        }
        roots.push(RootMove::new(mv));
        i = i + 1;
    }
    proof {
        assert(line::roots_of(roots@) =~= fresh_roots(pos@));
    }
    roots
}

fn build_timer(cfg: &SearchConfig, pos: &Position) -> (t: TimeManager)
    requires
        pos.wf(),
    ensures
        timed(t, cfg, pos@),
{
    let phase: i32 = eval::extract_phase(&pos.get_initial_accumulator());
    TimeManager::new(&cfg.limits, cfg.start_time, pos.stm, cfg.overhead, phase)
}

impl<'cfg, C: Console> Searcher<'cfg, C> {
    /// A search of `pos` with the given configuration. `history` holds the hashes of the game so far.
    pub fn new(
        cfg: &'cfg SearchConfig,
        pos: &Position,
        history: &[u64],
        history_table: History,
        tt: TranspositionTable,
        console: C,
    ) -> (s: Searcher<'cfg, C>)
        requires
            cfg.wf(),
            pos.wf(),
            history_table@.wf(),
            tt::table_ok(tt@),
        ensures
            s.wf(),
            s.cfg == cfg,
            s.root_pos == *pos,
            line::roots_of(s.root_moves@) == fresh_roots(pos@),
            s.zobrist_trail@ == trail_of(history@, pos@),
            timed(s.tm, cfg, pos@),
            s.prev_pv@ == Seq::<Move>::empty(),
            s.prev_score == -INF,
            s.nodes == 0 && s.sel_depth == 0 && s.iter_depth == 0 && s.last_print == 0,
            s.pv_history@ == Seq::<PastResult>::empty(),
            s.history_table == history_table,
            s.tt == tt,
            s.console == console,
            s.heard@ == silence(),
            s.said@.len() == 0,
            !s.raised@,
    {
        proof {
            reveal(all_genuine);
            reveal(relayed);
        }
        let ghost first = console;
        Searcher {
            cfg,
            tm: build_timer(cfg, pos),
            root_moves: build_roots(pos),
            zobrist_trail: build_trail(history, pos),
            root_pos: *pos,
            prev_pv: Line::new(),
            prev_score: -INF,
            nodes: 0,
            sel_depth: 0,
            iter_depth: 0,
            last_print: 0,
            pv_history: VecDeque::new(),
            history_table,
            tt,
            console,
            heard: Ghost(silence()),
            said: Ghost(Seq::empty()),
            raised: Ghost(false),
            told: Ghost(Seq::empty().push(first)),
        }
    }

    /// Prepares for another search. The transposition table and the last result stay.
    pub fn reset(&mut self, cfg: &'cfg SearchConfig, pos: &Position, history: &[u64], history_table: History)
        requires
            old(self).wf(),
            cfg.wf(),
            pos.wf(),
            history_table@.wf(),
        ensures
            final(self).wf(),
            final(self).cfg == cfg,
            final(self).root_pos == *pos,
            line::roots_of(final(self).root_moves@) == fresh_roots(pos@),
            final(self).zobrist_trail@ == trail_of(history@, pos@),
            timed(final(self).tm, cfg, pos@),
            final(self).nodes == 0 && final(self).sel_depth == 0 && final(self).iter_depth == 0,
            final(self).last_print == 0,
            final(self).pv_history@ == Seq::<PastResult>::empty(),
            final(self).history_table == history_table,
            final(self).prev_pv == old(self).prev_pv,
            final(self).prev_score == old(self).prev_score,
            final(self).tt == old(self).tt,
            final(self).heard@ == silence(),
            final(self).said == old(self).said,
            final(self).console == old(self).console,
            !final(self).raised@,
    {
        self.zobrist_trail = build_trail(history, pos);
        self.cfg = cfg;
        self.tm = build_timer(cfg, pos);
        self.root_pos = *pos;
        self.root_moves = build_roots(pos);
        self.nodes = 0;
        self.sel_depth = 0;
        self.iter_depth = 0;
        self.last_print = 0;
        self.pv_history.clear();
        self.history_table = history_table;
        self.heard = Ghost(silence());
        self.raised = Ghost(false);
        proof {
            reveal(all_genuine);
        }
    }

    /// The move at the front of the root list.
    pub fn best_move(&self) -> (r: Option<Move>)
        ensures
            r == if self.root_moves@.len() > 0 {
                Some(self.root_moves@[0].mv)
            } else {
                None
            },
            match foremost(line::roots_of(self.root_moves@)) {
                Some(x) => r == Some(x.mv),
                None => r is None,
            },
    {
        if self.root_moves.len() > 0 {
            Some(self.root_moves[0].mv)
        } else {
            None
        }
    }

    /// The score at the front of the root list.
    pub fn best_score(&self) -> (r: Option<i32>)
        ensures
            r == if self.root_moves@.len() > 0 {
                Some(self.root_moves@[0].score)
            } else {
                None
            },
            match foremost(line::roots_of(self.root_moves@)) {
                Some(x) => r == Some(x.score),
                None => r is None,
            },
    {
        if self.root_moves.len() > 0 {
            Some(self.root_moves[0].score)
        } else {
            None
        }
    }

    // ──────── Listening ────────

    /// Reads the stop flag.
    pub fn is_stopped(&mut self) -> (r: bool)
        ensures
            only_listened(*old(self), *final(self)),
            clock::flag_reads(old(self).cfg.stop, r),
            final(self).heard@ == with_flag(old(self).heard@, r),
            old(self).wf() ==> final(self).wf(),
    {
        let r = clock::stop_requested(&self.cfg.stop);
        proof {
            if self.wf() {
                lemma_hears(self.cfg.stop, self.tm.started(), self.heard@);
            }
        }
        self.heard = Ghost(with_flag(self.heard@, r));
        r
    }

    /// Reads the clock.
    pub(crate) fn read_clock(&mut self) -> (ms: u128)
        ensures
            only_listened(*old(self), *final(self)),
            clock::clock_reads(old(self).tm.started(), ms),
            final(self).heard@ == with_time(old(self).heard@, ms),
            old(self).wf() ==> final(self).wf(),
    {
        let ms: u128 = self.tm.elapsed();
        proof {
            if self.wf() {
                lemma_hears(self.cfg.stop, self.tm.started(), self.heard@);
            }
        }
        self.heard = Ghost(with_time(self.heard@, ms));
        ms
    }

    /// Raises the stop flag.
    fn raise_stop(&mut self)
        ensures
            *final(self) == (Searcher { raised: Ghost(true), ..*old(self) }),
            clock::flag_stored(old(self).cfg.stop),
    {
        clock::request_stop(&self.cfg.stop);
        self.raised = Ghost(true);
    }

    /// Periodic heartbeat: the stop flag, the hard time limit and the node limit. Also drives updates of
    /// the display. True when the search is to stop.
    pub(crate) fn check_signals(&mut self) -> (r: bool)
        requires
            old(self).wf(),
        ensures
            final(self).wf(),
            same_task(*old(self), *final(self)),
            all_genuine(old(self).cfg.stop, old(self).tm.started(), final(self).heard@),
            r ==> final(self).raised@ && clock::flag_stored(old(self).cfg.stop),
            !r ==> final(self).raised == old(self).raised,
            final(self).heard@.flags.len() == old(self).heard@.flags.len() + 1,
            !final(self).heard@.flags.last() && old(self).tm.hard_ms() is Some ==> final(self).heard@.times.len()
                > old(self).heard@.times.len(),
            r == {
                ||| final(self).heard@.flags.last()
                ||| old(self).tm.hard_ms() matches Some(h) && final(self).heard@.times[old(
                    self,
                ).heard@.times.len() as int] >= h
                ||| old(self).cfg.limits.nodes > 0 && old(self).nodes >= old(self).cfg.limits.nodes
            },
            final(self).root_moves == old(self).root_moves,
            final(self).zobrist_trail == old(self).zobrist_trail,
            final(self).nodes == old(self).nodes,
            final(self).tt == old(self).tt,
            continues(final(self).heard@, old(self).heard@),
            discreet(*old(self), *final(self)),
            forall|w: Worker, o: Signals|
                continues(o, final(self).heard@) ==> #[trigger] run::poll(
                    env_of(*old(self), o),
                    tree_of(w, *old(self)),
                ) == (r, tree_of(w, *final(self))),
    {
        let ghost h0 = self.heard@;
        let stopped = self.is_stopped();
        let ghost h1 = self.heard@;
        if stopped {
            self.raise_stop();
            proof {
                assert forall|w: Worker, o: Signals| continues(o, self.heard@) implies #[trigger] run::poll(
                    env_of(*old(self), o),
                    tree_of(w, *old(self)),
                ) == (true, tree_of(w, *self)) by {
                    reveal(run::poll);
                    assert(o.flags[h0.flags.len() as int] == h1.flags[h0.flags.len() as int]);
                }
            }
            return true;
        }
        let late = match self.tm.hard() {
            Some(h) => self.read_clock() >= h as u128,
            None => false,
        };
        let ghost h2 = self.heard@;
        let spent = self.cfg.limits.nodes > 0 && self.nodes >= self.cfg.limits.nodes;
        if late || spent {
            self.raise_stop();
            proof {
                assert forall|w: Worker, o: Signals| continues(o, self.heard@) implies #[trigger] run::poll(
                    env_of(*old(self), o),
                    tree_of(w, *old(self)),
                ) == (true, tree_of(w, *self)) by {
                    reveal(run::poll);
                    assert(o.flags[h0.flags.len() as int] == h2.flags[h0.flags.len() as int]);
                    if old(self).tm.hard_ms() is Some {
                        assert(o.times[h0.times.len() as int] == h2.times[h0.times.len() as int]);
                    }
                }
            }
            return true;
        }
        if self.cfg.display.go_pretty && self.nodes % NODE_CHECK_INTERVAL == 0 {
            let now: u128 = self.read_clock();
            if now > self.last_print && now - self.last_print > PRINT_UPDATE_MS {
                self.last_print = now;
                self.print_realtime();
            }
        }
        let ghost h3 = self.heard@;
        proof {
            assert forall|w: Worker, o: Signals| continues(o, self.heard@) implies #[trigger] run::poll(
                env_of(*old(self), o),
                tree_of(w, *old(self)),
            ) == (false, tree_of(w, *self)) by {
                reveal(run::poll);
                assert(o.flags[h0.flags.len() as int] == h3.flags[h0.flags.len() as int]);
                if old(self).tm.hard_ms() is Some {
                    assert(o.times[h0.times.len() as int] == h3.times[h0.times.len() as int]);
                }
                if self.cfg.display.go_pretty && self.nodes as int % 2048 == 0 {
                    assert(o.times[h2.times.len() as int] == h3.times[h2.times.len() as int]);
                    if h3.times.len() > h2.times.len() + 1 {
                        assert(o.times[h2.times.len() as int + 1] == h3.times[h2.times.len() as int + 1]);
                    }
                }
            }
        }
        false
    }

    // ──────── Speaking ────────

    fn past_results(&self) -> (v: Vec<PastResult>)
        ensures
            v@ == self.pv_history@,
    {
        let mut v: Vec<PastResult> = Vec::new();
        let mut i: usize = 0;
        while i < self.pv_history.len()
            invariant
                i <= self.pv_history.len(),
                v@ == self.pv_history@.take(i as int),
            decreases self.pv_history.len() - i,
        {
            v.push(self.pv_history[i]);
            proof {
                assert(self.pv_history@.take(i + 1) =~= self.pv_history@.take(i as int).push(
                    self.pv_history@[i as int],
                ));
            }
            i = i + 1;
        }
        proof {
            assert(self.pv_history@.take(i as int) =~= self.pv_history@);
        }
        v
    }

    /// Hands a report to the console.
    pub(crate) fn say(&mut self, what: Report)
        ensures
            old(self).wf() ==> final(self).wf(),
            only_spoke(*old(self), *final(self)),
            C::handed(old(self).console, final(self).console, what@),
            final(self).said@ == old(self).said@.push(what@),
    {
        let ghost word = what@;
        self.console.report(what);
        proof {
            if old(self).wf() {
                lemma_relays(self.told@, self.said@, old(self).console, self.console, word);
            }
        }
        self.said = Ghost(self.said@.push(word));
        self.told = Ghost(self.told@.push(self.console));
    }

    /// What an info line shows, `ms` milliseconds into the search; less than one counts as one.
    pub fn info_data(&self, depth: i32, score: i32, pv: &Line, ms: u128) -> (d: SearchInfoData)
        requires
            self.wf(),
        ensures
            d@ == report::info(
                *self.cfg,
                self.root_pos@,
                report::past_of(self.pv_history@),
                depth,
                score,
                pv@,
                self.sel_depth,
                self.nodes,
                self.tt@,
                ms,
            ),
    {
        let time_ms: u128 = if ms > 0 {
            ms
        } else {
            1
        };
        SearchInfoData {
            depth,
            sel_depth: self.sel_depth,
            score,
            nodes: self.nodes,
            nps: report::nodes_per_second(self.nodes, time_ms),
            time_ms,
            hashfull: self.tt.hashfull(),
            pv: *pv,
            show_wdl: self.cfg.display.show_wdl,
            material: self.root_pos.material_count(),
            stm: self.root_pos.stm.as_usize(),
            history: self.past_results(),
            board: self.root_pos,
            use_ansi: self.cfg.display.use_ansi,
        }
    }

    /// Reports a finished iteration, unless the search is silent.
    pub(crate) fn print_info(&mut self, depth: i32, score: i32, pv: &Line)
        requires
            old(self).wf(),
        ensures
            final(self).wf(),
            unmoved(*old(self), *final(self)),
            old(self).cfg.limits.silent ==> final(self).heard == old(self).heard && final(self).said
                == old(self).said,
            !old(self).cfg.limits.silent ==> {
                &&& final(self).heard@ == with_time(old(self).heard@, final(self).heard@.times.last())
                &&& final(self).said@ == old(self).said@.push(
                    run::iteration_report(
                        env_of(*old(self), final(self).heard@),
                        depth,
                        score,
                        pv@,
                        old(self).sel_depth,
                        old(self).nodes,
                        old(self).tt@,
                        final(self).heard@.times.last(),
                    ),
                )
            },
            continues(final(self).heard@, old(self).heard@),
    {
        if self.cfg.limits.silent {
            return;
        }
        let ms: u128 = self.read_clock();
        let data = self.info_data(depth, score, pv, ms);
        let full_screen = self.cfg.display.go_pretty && self.cfg.limits.protocol == Protocol::Uci;
        let what = Report::Info {
            data,
            full_screen,
            protocol: self.cfg.limits.protocol,
            pretty: self.cfg.display.pretty_print,
        };
        self.say(what);
    }

    /// Are current moves reported?
    pub fn shows_currmove(&self) -> (r: bool)
        ensures
            r == report::currmove_shown(*self.cfg, self.nodes),
    {
        !self.cfg.limits.silent && !self.cfg.display.go_pretty && self.cfg.limits.protocol == Protocol::Uci
            && self.cfg.display.show_currmove && self.nodes >= CURRMOVE_NODE_THRESHOLD
    }

    /// Reports which root move is being searched.
    pub(crate) fn print_currmove(&mut self, depth: i32, mv: Move, move_number: usize)
        requires
            old(self).wf(),
        ensures
            final(self).wf(),
            only_spoke(*old(self), *final(self)),
            final(self).said@ == run::with_currmove(
                *old(self).cfg,
                old(self).root_pos@,
                old(self).nodes,
                old(self).said@,
                depth,
                mv,
                move_number as int,
            ),
    {
        if !self.shows_currmove() {
            return;
        }
        let what = Report::CurrentMove { depth, mv: mv.to_uci(self.root_pos.is_frc), number: move_number };
        self.say(what);
    }

    /// Updates the full-screen display, unless the search is silent or there is no root move to show.
    fn print_realtime(&mut self)
        requires
            old(self).wf(),
        ensures
            final(self).wf(),
            unmoved(*old(self), *final(self)),
            all_genuine(old(self).cfg.stop, old(self).tm.started(), final(self).heard@),
            old(self).cfg.limits.silent || old(self).root_moves@.len() == 0 ==> final(self).heard == old(self).heard && final(self).said
                == old(self).said,
            !old(self).cfg.limits.silent && old(self).root_moves@.len() > 0 ==> {
                &&& final(self).heard@ == with_time(old(self).heard@, final(self).heard@.times.last())
                &&& final(self).said@ == old(self).said@.push(
                    run::display_report(
                        env_of(*old(self), final(self).heard@),
                        old(self).root_moves@[0]@,
                        old(self).sel_depth,
                        old(self).nodes,
                        old(self).tt@,
                        final(self).heard@.times.last(),
                    ),
                )
            },
            continues(final(self).heard@, old(self).heard@),
    {
        if self.cfg.limits.silent || self.root_moves.len() == 0 {
            return;
        }
        let ms: u128 = self.read_clock();
        let best = self.root_moves[0];
        let data = self.info_data(self.iter_depth, best.score, &best.pv, ms);
        let what = Report::Info {
            data,
            full_screen: true,
            protocol: self.cfg.limits.protocol,
            pretty: self.cfg.display.pretty_print,
        };
        self.say(what);
    }
}

} // verus!
