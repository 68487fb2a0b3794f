//! The state of one line of search, and what happens on entering a node.

use vstd::prelude::*;
use crate::arith;
use crate::board::position::Position;
use crate::engine::eval;
use crate::engine::history;
use crate::engine::movegen;
use crate::engine::play;
use crate::engine::search::line;
use crate::engine::search::line::{RootMove, SearchAborted, StackV};
use crate::engine::search::model as run;
use crate::engine::search::model::{Gate, NodeKind, Signals, NODE_CHECK_INTERVAL};
use crate::engine::search::ply as plies;
use crate::engine::search::report::Console;
use crate::engine::search::searcher;
use crate::engine::search::searcher::{Searcher, Worker};
use crate::engine::tt;
use crate::moves::Move;
use crate::types::{FARTHEST, INF, MATE_BOUND, MAX_PLY};

verus! {

/// Node types: root, principal variation, and all others. Encoding them as types lets the compiler build
/// one variant of the search for each.
pub trait NodeType {
    spec fn kind() -> NodeKind;

    /// The node has an open window.
    fn pv() -> (r: bool)
        ensures
            r == Self::kind().pv(),
    ;

    /// The node is the root.
    fn root() -> (r: bool)
        ensures
            r == Self::kind().root(),
    ;
}

pub struct RootNode;

pub struct PvNode;

pub struct NonPvNode;

impl NodeType for RootNode {
    open spec fn kind() -> NodeKind {
        NodeKind::Root
    }

    fn pv() -> (r: bool) {
        true
    }

    fn root() -> (r: bool) {
        true
    }
}

impl NodeType for PvNode {
    open spec fn kind() -> NodeKind {
        NodeKind::Pv
    }

    fn pv() -> (r: bool) {
        true
    }

    fn root() -> (r: bool) {
        false
    }
}

impl NodeType for NonPvNode {
    open spec fn kind() -> NodeKind {
        NodeKind::NonPv
    }

    fn pv() -> (r: bool) {
        false
    }

    fn root() -> (r: bool) {
        false
    }
}

/// Tables, stack and root moves are in order.
pub open spec fn fit<C: Console>(w: Worker, s: Searcher<C>) -> bool {
    &&& w.history@.wf()
    &&& line::stack_ok(w.stack@)
    &&& s.wf()
}

/// The position is in order, and its move counter leaves room for the longest line.
pub open spec fn placed(pos: Position, ply: int) -> bool {
    &&& pos.wf()
    &&& 0 <= ply <= MAX_PLY
    &&& play::room(pos@, MAX_PLY - ply)
}

/// The same moves in the same places.
pub open spec fn same_moves(a: Seq<RootMove>, b: Seq<RootMove>) -> bool {
    a.len() == b.len() && forall|i: int| 0 <= i < a.len() ==> (#[trigger] a[i]).mv == b[i].mv
}

/// A search below a node leaves the node's position, accumulator and trail as they were, and never counts
/// fewer nodes.
pub open spec fn kept<C: Console>(w0: Worker, s0: Searcher<C>, w1: Worker, s1: Searcher<C>) -> bool {
    &&& fit(w1, s1)
    &&& w1.pos == w0.pos
    &&& w1.accumulator == w0.accumulator
    &&& s1.zobrist_trail@ == s0.zobrist_trail@
    &&& searcher::same_task(s0, s1)
    &&& searcher::continues(s1.heard@, s0.heard@)
    &&& searcher::discreet(s0, s1)
    &&& s0.nodes <= s1.nodes
    &&& same_moves(s0.root_moves@, s1.root_moves@)
}

/// The window is not too far from the scores for the arithmetic on it.
pub open spec fn window_ok(alpha: int, beta: int) -> bool {
    -FARTHEST - 1 <= alpha <= FARTHEST && -FARTHEST <= beta <= FARTHEST + 1
}

/// A window that the other side can look at: both limits have a negative.
pub open spec fn mirrors(alpha: int, beta: int) -> bool {
    i32::MIN < alpha && i32::MIN < beta
}

/// The outcome of a node: its score, or none when the search was aborted.
pub open spec fn outcome(r: Result<i32, SearchAborted>) -> Option<int> {
    match r {
        Ok(v) => Some(v as int),
        Err(_) => None,
    }
}

/// The score of a node is within the limits of windows.
pub open spec fn bounded(r: Result<i32, SearchAborted>) -> bool {
    r matches Ok(v) ==> -FARTHEST <= v <= FARTHEST
}

/// Further away than any evaluation with the margins of delta pruning.
pub const QUIET_MAX: i32 = 400_000;

/// What quiescence gives is not far from the evaluations, unless it gives back an `alpha` that is above them.
pub open spec fn quiet_bounded(r: Result<i32, SearchAborted>, alpha: int) -> bool {
    r matches Ok(v) ==> -QUIET_MAX <= v && (v <= QUIET_MAX || v == alpha)
}

impl Worker {
    /// Fifty move rule, insufficient material, or repetition: an immediate draw.
    ///
    /// Checked before move generation, so a checkmate on exactly the hundredth half-move is scored as a
    /// draw.
    pub fn is_draw(&self, ply: usize, history: &[u64]) -> (r: bool)
        requires
            self.pos.wf(),
        ensures
            r == run::is_drawn(self.pos@, ply as int, history@),
    {
        self.pos.is_fifty_move_draw() || self.pos.is_draw_by_material() || (ply > 0 && self.is_repetition(
            self.pos.hash,
            history,
        ))
    }

    /// Scans the history for a previous occurrence of `key`. Any second occurrence counts: this avoids
    /// searching cycles. The last entry of `history` is the position itself.
    fn is_repetition(&self, key: u64, history: &[u64]) -> (r: bool)
        ensures
            r == run::repeated(key, history@, self.pos.halfmove_clock as int),
    {
        let n: usize = history.len();
        if n < 2 {
            return false;
        }
        let keep: usize = self.pos.halfmove_clock as usize + 1;
        let start: usize = if n > keep {
            n - keep
        } else {
            0
        };
        let mut i: usize = start;
        while i < n - 1
            invariant
                n == history.len(),
                n >= 2,
                start <= i,
                start == if n > self.pos.halfmove_clock as int + 1 {
                    n - (self.pos.halfmove_clock as int + 1)
                } else {
                    0
                },
                forall|j: int| start <= j < i ==> #[trigger] history@[j] != key,
                i <= n,
            decreases n - i,
        {
            if history[i] == key {
                proof {
                    assert(history@[i as int] == key);
                }
                return true;
            }
            i = i + 1;
        }
        false
    }

    /// Counts a node and looks for a draw.
    fn count<C: Console>(&mut self, s: &mut Searcher<C>, ply: usize) -> (gate: Gate)
        requires
            fit(*old(self), *old(s)),
            placed(old(self).pos, ply as int),
        ensures
            kept(*old(self), *old(s), *final(self), *final(s)),
            final(s).heard == old(s).heard,
            final(s).root_moves == old(s).root_moves,
            final(self).history == old(self).history,
            run::counted(searcher::tree_of(*old(self), *old(s)), ply as int) == (
                searcher::tree_of(*final(self), *final(s)),
                gate,
            ),
            gate != Gate::Abort,
            gate == Gate::Open ==> final(self).pos.halfmove_clock < 100,
    {
        proof {
            reveal(run::counted);
        }
        s.nodes = s.nodes.saturating_add(1);
        if self.is_draw(ply, s.zobrist_trail.as_slice()) {
            return Gate::Draw;
        }
        if ply as i32 > s.sel_depth {
            s.sel_depth = ply as i32;
        }
        Gate::Open
    }

    /// Enters a node: forgets its line, looks for signals now and then, counts the node.
    pub(crate) fn enter<C: Console>(&mut self, s: &mut Searcher<C>, ply: usize) -> (gate: Gate)
        requires
            fit(*old(self), *old(s)),
            placed(old(self).pos, ply as int),
        ensures
            kept(*old(self), *old(s), *final(self), *final(s)),
            gate == Gate::Abort ==> final(s).raised@,
            final(s).root_moves == old(s).root_moves,
            final(self).history == old(self).history,
            gate == Gate::Open ==> final(self).pos.halfmove_clock < 100,
            forall|o: Signals|
                searcher::continues(o, final(s).heard@) ==> #[trigger] run::entry(
                    searcher::env_of(*old(s), o),
                    searcher::tree_of(*old(self), *old(s)),
                    ply as int,
                ) == (searcher::tree_of(*final(self), *final(s)), gate),
    {
        let ghost t0 = searcher::tree_of(*self, *s);
        plies::clear_line(&mut self.stack, ply);
        let ghost t1 = searcher::tree_of(*self, *s);
        let ghost w1 = *self;
        proof {
            assert(t1 == run::with_ply(t0, ply as int, StackV { pv: Seq::empty(), ..t0.stack[ply as int] }));
        }
        if s.nodes % NODE_CHECK_INTERVAL == 0 {
            let stop = s.check_signals();
            if stop {
                proof {
                    assert forall|o: Signals| searcher::continues(o, s.heard@) implies #[trigger] run::entry(
                        searcher::env_of(*old(s), o),
                        t0,
                        ply as int,
                    ) == (searcher::tree_of(*self, *s), Gate::Abort) by {
                        reveal(run::entry);
                        assert(run::poll(searcher::env_of(*old(s), o), searcher::tree_of(w1, *old(s))) == (
                            true,
                            searcher::tree_of(w1, *s),
                        ));
                    }
                }
                return Gate::Abort;
            }
            let ghost s2 = *s;
            let gate = self.count(s, ply);
            proof {
                assert forall|o: Signals| searcher::continues(o, s.heard@) implies #[trigger] run::entry(
                    searcher::env_of(*old(s), o),
                    t0,
                    ply as int,
                ) == (searcher::tree_of(*self, *s), gate) by {
                    reveal(run::entry);
                    assert(run::poll(searcher::env_of(*old(s), o), searcher::tree_of(w1, *old(s))) == (
                        false,
                        searcher::tree_of(w1, s2),
                    ));
                }
            }
            return gate;
        }
        let gate = self.count(s, ply);
        proof {
            assert forall|o: Signals| searcher::continues(o, s.heard@) implies #[trigger] run::entry(
                searcher::env_of(*old(s), o),
                t0,
                ply as int,
            ) == (searcher::tree_of(*self, *s), gate) by {
                reveal(run::entry);
            }
        }
        gate
    }

    /// What the transposition table says of the node: the score that decides it, and the move it suggests.
    pub(crate) fn consult<C: Console>(
        &self,
        s: &Searcher<C>,
        pv: bool,
        depth: i32,
        alpha: i32,
        beta: i32,
        ply: usize,
        Ghost(kind): Ghost<NodeKind>,
    ) -> (r: (Option<i32>, Option<Move>))
        requires
            fit(*self, *s),
            placed(self.pos, ply as int),
            pv == kind.pv(),
        ensures
            match run::table_cut(
                searcher::tree_of(*self, *s),
                kind,
                depth as int,
                alpha as int,
                beta as int,
                ply as int,
            ) {
                Some(v) => r.0 matches Some(x) && x == v && -INF <= x <= INF,
                None => r.0 is None,
            },
            r.1 == run::table_move(searcher::tree_of(*self, *s), ply as int),
            r.1 matches Some(mv) ==> movegen::pseudo_legal(self.pos@, mv),
    {
        proof {
            reveal(run::table_cut);
            reveal(run::table_move);
        }
        match s.tt.probe(self.pos.hash, ply) {
            Some((mv, score, depth_stored, bound)) => {
                let pseudo = movegen::is_pseudo_legal(&self.pos, mv);
                let valid = mv.is_null() || pseudo;
                let cut = if valid && !pv && depth_stored >= depth && tt::can_cutoff(bound, score, alpha, beta) {
                    Some(score)
                } else {
                    None
                };
                let hint = if !mv.is_null() && pseudo {
                    Some(mv)
                } else {
                    None
                };
                (cut, hint)
            },
            None => (None, None),
        }
    }

    /// What the transposition table says of a quiescence node.
    pub(crate) fn consult_quiet<C: Console>(
        &self,
        s: &Searcher<C>,
        pv: bool,
        alpha: i32,
        beta: i32,
        ply: usize,
        Ghost(kind): Ghost<NodeKind>,
    ) -> (r: (Option<i32>, Option<Move>))
        requires
            fit(*self, *s),
            placed(self.pos, ply as int),
            pv == kind.pv(),
        ensures
            match run::quiet_table_cut(
                searcher::tree_of(*self, *s),
                kind,
                alpha as int,
                beta as int,
                ply as int,
            ) {
                Some(v) => r.0 matches Some(x) && x == v && -INF <= x <= INF,
                None => r.0 is None,
            },
            r.1 == run::table_move(searcher::tree_of(*self, *s), ply as int),
            r.1 matches Some(mv) ==> movegen::pseudo_legal(self.pos@, mv),
    {
        proof {
            reveal(run::quiet_table_cut);
            reveal(run::table_move);
        }
        match s.tt.probe(self.pos.hash, ply) {
            Some((mv, score, _, bound)) => {
                let cut = if !pv && tt::can_cutoff(bound, score, alpha, beta) {
                    Some(score)
                } else {
                    None
                };
                let hint = if !mv.is_null() && movegen::is_pseudo_legal(&self.pos, mv) {
                    Some(mv)
                } else {
                    None
                };
                (cut, hint)
            },
            None => (None, None),
        }
    }

    /// The static evaluation, corrected by what was learned about the pawn structure.
    pub(crate) fn corrected_eval<C: Console>(&self, s: &Searcher<C>) -> (r: i32)
        requires
            self.history@.wf(),
        ensures
            r == run::corrected_eval(searcher::tree_of(*self, *s)),
            -MATE_BOUND <= r <= MATE_BOUND,
    {
        proof {
            reveal(run::corrected_eval);
        }
        let raw: i32 = eval::evaluate(&self.pos, &self.accumulator);
        let correction: i32 = arith::divide(
            self.history.correction(self.pos.stm, self.pos.pawn_hash),
            history::CORRECTION_SCALE,
        );
        arith::clamp(raw + correction, -MATE_BOUND, MATE_BOUND)
    }

    /// Is the side to move in check?
    pub(crate) fn in_check(&self) -> (r: bool)
        requires
            self.pos.wf(),
        ensures
            r == run::checked(self.pos@),
    {
        self.pos.checkers().is_not_empty()
    }
}

} // verus!
