//! What happens to one move of a node besides searching it.

use vstd::prelude::*;
use crate::arith;
use crate::board::model::PositionV;
use crate::engine::history::ContContext;
use crate::engine::movegen;
use crate::engine::search::line;
use crate::engine::search::line::{Line, MoveResult, RootMove, RootV, StackV, MAX_TRACKED_QUIETS};
use crate::engine::search::model as run;
use crate::engine::search::model::{NodeKind, ResV, Scene};
use crate::engine::search::ply as plies;
use crate::engine::search::report::Console;
use crate::engine::search::searcher;
use crate::engine::search::searcher::{Searcher, Worker};
use crate::engine::search::worker;
use crate::engine::search::worker::NodeType;
use crate::engine::search_params::PARAM_MAX;
use crate::engine::see;
use crate::moves::Move;
use crate::types::{FARTHEST, MAX_DEPTH, MAX_PLY};

verus! {

impl View for MoveResult {
    type V = ResV;

    open spec fn view(&self) -> ResV {
        ResV {
            move_count: self.move_count as int,
            best_eval: self.best_eval as int,
            alpha: self.alpha as int,
            best_move: self.best_move,
        }
    }
}

impl MoveResult {
    pub open spec fn wf(self) -> bool {
        -FARTHEST <= self.best_eval <= FARTHEST && -FARTHEST - 1 <= self.alpha <= FARTHEST
    }
}

/// What the moves of one node have in common.
#[derive(Clone, Copy)]
pub struct NodeScene {
    pub depth: i32,
    pub beta: i32,
    pub ply: usize,
    pub in_check: bool,
    pub static_eval: i32,
    pub pv_move: Option<Move>,
    pub cont: ContContext,
}

impl NodeScene {
    /// The scene of a node of kind `kind`.
    pub open spec fn seen(self, kind: NodeKind) -> Scene {
        Scene {
            kind,
            depth: self.depth as int,
            beta: self.beta as int,
            ply: self.ply as int,
            in_check: self.in_check,
            static_eval: self.static_eval as int,
            pv_move: self.pv_move,
            cont: self.cont,
        }
    }

    pub open spec fn wf(self) -> bool {
        &&& self.ply < MAX_PLY
        &&& 1 <= self.depth <= MAX_DEPTH + 1
        &&& !self.in_check ==> self.depth <= MAX_DEPTH
        &&& -FARTHEST <= self.beta <= FARTHEST + 1
        &&& -100_000 <= self.static_eval <= 100_000
        &&& self.cont.to.wf()
    }
}

pub open spec fn as_place(i: Option<usize>) -> Option<int> {
    match i {
        Some(k) => Some(k as int),
        None => None,
    }
}

/// Notes the score of root move `i`, and its line when it is the best so far.
fn note_root(roots: &mut Vec<RootMove>, i: usize, v: i32, better: bool, mv: Move, tail: &Line, Ghost(p): Ghost<PositionV>)
    requires
        i < old(roots)@.len(),
        old(roots)@[i as int].mv == mv,
        searcher::roots_ok(p, old(roots)@),
        tail.wf(),
        -FARTHEST <= v <= FARTHEST,
    ensures
        searcher::roots_ok(p, final(roots)@),
        worker::same_moves(old(roots)@, final(roots)@),
        line::roots_of(final(roots)@) == line::roots_of(old(roots)@).update(
            i as int,
            (RootV {
                score: v,
                pv: if better {
                    line::joined(mv, tail@)
                } else {
                    old(roots)@[i as int].pv@
                },
                ..old(roots)@[i as int]@
            }),
        ),
{
    proof {
        assert(roots@[i as int].wf());
        assert(movegen::legal(p, roots@[i as int].mv));
    }
    roots[i].score = v;
    if better {
        roots[i].pv.compose(mv, tail);
    }
    proof {
        assert forall|j: int| 0 <= j < roots@.len() implies (#[trigger] roots@[j]).wf() && movegen::legal(
            p,
            roots@[j].mv,
        ) by {
            assert(old(roots)@[j].wf());
        }
        assert forall|j: int| 0 <= j < old(roots)@.len() implies (#[trigger] old(roots)@[j]).mv == roots@[j].mv by {
            assert(roots@[j].wf());
        }
        assert(line::roots_of(roots@) =~= line::roots_of(old(roots)@).update(
            i as int,
            RootV {
                score: v,
                pv: if better {
                    line::joined(mv, tail@)
                } else {
                    old(roots)@[i as int].pv@
                },
                ..old(roots)@[i as int]@
            },
        ));
    }
}

impl Worker {
    /// Records the score of a searched move: for the root move, as the best so far, as the new alpha.
    pub(crate) fn record<N: NodeType, C: Console>(
        &mut self,
        s: &mut Searcher<C>,
        root_idx: Option<usize>,
        mv: Move,
        res: &mut MoveResult,
        v: i32,
        ply: usize,
    )
        requires
            worker::fit(*old(self), *old(s)),
            ply < MAX_PLY,
            root_idx matches Some(i) ==> i < old(s).root_moves@.len() && old(s).root_moves@[i as int].mv == mv,
            old(res).wf(),
            -FARTHEST <= v <= FARTHEST,
        ensures
            worker::kept(*old(self), *old(s), *final(self), *final(s)),
            !N::kind().root() || root_idx is None ==> final(s).root_moves == old(s).root_moves,
            final(res).move_count == old(res).move_count,
            final(s).heard == old(s).heard,
            final(res).wf(),
            run::recorded(
                searcher::tree_of(*old(self), *old(s)),
                N::kind(),
                ply as int,
                as_place(root_idx),
                mv,
                old(res)@,
                v as int,
            ) == (searcher::tree_of(*final(self), *final(s)), final(res)@),
    {
        proof {
            reveal(run::recorded);
        }
        let better = v > res.best_eval;
        if N::root() {
            if let Some(i) = root_idx {
                let tail = self.stack[ply + 1].pv;
                proof {
                    assert(self.stack@[ply + 1].wf());
                }
                note_root(&mut s.root_moves, i, v, better, mv, &tail, Ghost(s.root_pos@));
            }
        }
        if better {
            res.best_eval = v;
            res.best_move = mv;
            if v > res.alpha {
                res.alpha = v;
                plies::adopt_line(&mut self.stack, ply, mv);
            }
        }
    }

    /// Remembers a quiet move, as long as there is room.
    pub(crate) fn track<C: Console>(&mut self, s: &Searcher<C>, ply: usize, mv: Move) -> (appended: bool)
        requires
            worker::fit(*old(self), *s),
            ply < MAX_PLY,
        ensures
            line::stack_ok(final(self).stack@),
            final(self).pos == old(self).pos,
            final(self).accumulator == old(self).accumulator,
            final(self).history == old(self).history,
            appended == run::tracks(searcher::tree_of(*old(self), *s), ply as int, mv),
            searcher::tree_of(*final(self), *s) == run::remembered(
                searcher::tree_of(*old(self), *s),
                ply as int,
                mv,
            ),
    {
        proof {
            reveal(run::remembered);
            assert(self.stack@[ply as int].wf());
        }
        let count: usize = self.stack[ply].quiet_count;
        if mv.is_history_quiet() && count < MAX_TRACKED_QUIETS {
            plies::push_quiet(&mut self.stack, ply, mv);
            true
        } else {
            false
        }
    }

    /// Notes the move that is about to be searched.
    pub(crate) fn note_move<C: Console>(&mut self, s: &Searcher<C>, ply: usize, mv: Move)
        requires
            worker::fit(*old(self), *s),
            old(self).pos.wf(),
            ply < MAX_PLY,
        ensures
            line::stack_ok(final(self).stack@),
            final(self).pos == old(self).pos,
            final(self).accumulator == old(self).accumulator,
            final(self).history == old(self).history,
            searcher::tree_of(*final(self), *s) == run::noted(searcher::tree_of(*old(self), *s), ply as int, mv),
    {
        proof {
            reveal(run::noted);
        }
        let pt = self.pos.piece_at(mv.from());
        plies::set_moved(&mut self.stack, ply, pt, mv.to());
    }

    /// Is a move skipped by futility, late-move or exchange pruning?
    pub(crate) fn is_skipped<C: Console>(
        &self,
        s: &Searcher<C>,
        pv: bool,
        sc: &NodeScene,
        res: &MoveResult,
        mv: Move,
        Ghost(kind): Ghost<NodeKind>,
    ) -> (r: bool)
        requires
            worker::fit(*self, *s),
            self.pos.wf(),
            sc.wf(),
            pv == kind.pv(),
            movegen::pseudo_legal(self.pos@, mv),
        ensures
            r == run::skipped(*s.cfg, self.pos@, sc.seen(kind), res@, mv),
    {
        proof {
            reveal(run::skipped);
        }
        if sc.in_check || pv {
            return false;
        }
        let depth: i32 = sc.depth;
        let quiet = mv.is_quiet();
        let fp: i32 = s.cfg.search_params.fp_margin;
        let lmp: i32 = s.cfg.search_params.lmp_base;
        let sq: i32 = s.cfg.search_params.see_quiet_margin;
        let sca: i32 = s.cfg.search_params.see_capture_margin;
        proof {
            lemma_margin(fp as int, depth as int);
            lemma_margin(sq as int, depth as int);
            lemma_margin(sca as int, depth as int);
            lemma_margin(depth as int, depth as int);
        }
        if quiet && res.move_count >= 1 && depth <= s.cfg.search_params.fp_depth && sc.static_eval + fp * depth
            <= res.alpha {
            return true;
        }
        if quiet && depth <= s.cfg.search_params.lmp_depth && (lmp + depth * depth <= 0 || res.move_count >= (lmp
            + depth * depth) as usize) {
            return true;
        }
        if res.move_count >= 1 {
            let margin: i32 = if mv.is_capture() {
                -sca * depth
            } else {
                -sq * depth * depth
            };
            return !see::see_ge(&self.pos, mv, margin);
        }
        false
    }

    /// The late-move reduction of a move.
    pub(crate) fn reduction<C: Console>(
        &self,
        s: &Searcher<C>,
        sc: &NodeScene,
        res: &MoveResult,
        mv: Move,
        Ghost(kind): Ghost<NodeKind>,
    ) -> (r: i32)
        requires
            worker::fit(*self, *s),
            self.pos.wf(),
            sc.wf(),
        ensures
            r == run::reduction_of(*s.cfg, searcher::tree_of(*self, *s), sc.seen(kind), res@, mv),
            0 <= r <= 128,
            r < sc.depth || r == 0,
    {
        proof {
            reveal(run::reduction_of);
        }
        if sc.depth >= 2 && res.move_count >= 1 && mv.is_quiet() && !sc.in_check {
            let mut r: i32 = s.cfg.lmr(sc.depth, res.move_count.saturating_add(1));
            let pt = self.pos.piece_at(mv.from());
            let hist: i32 = self.history.score_quiet(self.pos.stm, pt, mv.from(), mv.to(), sc.cont);
            let killers = self.stack[sc.ply].killers;
            if mv == killers.0 || mv == killers.1 {
                r = r - 1;
            }
            arith::clamp(r - arith::divide(hist, 8192), 0, sc.depth - 1)
        } else {
            0
        }
    }

    /// Learns from a cutoff: rewards the quiet move that caused it, punishes those tried before it.
    pub(crate) fn teach<C: Console>(
        &mut self,
        s: &Searcher<C>,
        sc: &NodeScene,
        mv: Move,
        appended: bool,
        Ghost(kind): Ghost<NodeKind>,
    )
        requires
            worker::fit(*old(self), *s),
            old(self).pos.wf(),
            sc.wf(),
        ensures
            line::stack_ok(final(self).stack@),
            final(self).history@.wf(),
            final(self).pos == old(self).pos,
            final(self).accumulator == old(self).accumulator,
            searcher::tree_of(*final(self), *s) == run::taught(
                searcher::tree_of(*old(self), *s),
                sc.seen(kind),
                mv,
                appended,
            ),
    {
        proof {
            reveal(run::taught);
            lemma_margin(sc.depth as int, sc.depth as int);
            assert(self.stack@[sc.ply as int].wf());
        }
        let ghost t0 = searcher::tree_of(*self, *s);
        let ghost qs = t0.stack[sc.ply as int].quiets;
        let stm = self.pos.stm;
        let bonus: i32 = arith::min(sc.depth * sc.depth, 400);
        let killers = self.stack[sc.ply].killers;
        let count: usize = self.stack[sc.ply].quiet_count;
        if mv.is_history_quiet() {
            let pt = self.pos.piece_at(mv.from());
            self.history.update(stm, pt, mv.from(), mv.to(), sc.cont, bonus);
            if mv != killers.0 {
                plies::set_killers(&mut self.stack, sc.ply, (mv, killers.0));
            }
        }
        proof {
            let s0 = t0.stack[sc.ply as int];
            assert(t0.stack.update(sc.ply as int, StackV { killers: s0.killers, ..s0 }) =~= t0.stack);
        }
        let ghost h1 = self.history@;
        let limit: usize = if appended && count > 0 {
            count - 1
        } else {
            count
        };
        let mut i: usize = 0;
        let ghost w1 = *self;
        proof {
            let here = self.stack@[sc.ply as int];
            assert(here@ == line::stack_of(self.stack@)[sc.ply as int]);
            assert(here.wf());
            assert(here@.quiets.len() == here.quiet_count);
        }
        while i < limit
            invariant
                i <= limit,
                limit <= count,
                count <= MAX_TRACKED_QUIETS,
                sc.wf(),
                self.pos.wf(),
                self.history@.wf(),
                self.pos == w1.pos,
                self.accumulator == w1.accumulator,
                self.stack == w1.stack,
                line::stack_ok(self.stack@),
                stm == self.pos.stm,
                0 <= bonus <= 400,
                qs.len() == count,
                self.stack@[sc.ply as int]@.quiets == qs,
                self.stack@[sc.ply as int].quiet_count == count,
                self.history@ == run::punished(h1, self.pos@, qs, i as int, sc.cont, -bonus as int),
            decreases limit - i,
        {
            let qm = self.stack[sc.ply].quiet_moves[i];
            proof {
                assert(qs[i as int] == qm);
            }
            let pt = self.pos.piece_at(qm.from());
            self.history.update(stm, pt, qm.from(), qm.to(), sc.cont, -bonus);
            i = i + 1;
        }
    }
}

pub proof fn lemma_margin(m: int, d: int)
    requires
        -PARAM_MAX <= m <= PARAM_MAX,
        0 <= d <= 129,
    ensures
        -(PARAM_MAX * 129) <= m * d <= PARAM_MAX * 129,
        -(PARAM_MAX * 129 * 129) <= m * d * d <= PARAM_MAX * 129 * 129,
        -m * d == -(m * d),
        -m * d * d == -(m * d * d),
{
    assert(-(PARAM_MAX * 129) <= m * d <= PARAM_MAX * 129) by (nonlinear_arith)
        requires
            -PARAM_MAX <= m <= PARAM_MAX,
            0 <= d <= 129,
    ;
    let x = m * d;
    assert(-(PARAM_MAX * 129 * 129) <= x * d <= PARAM_MAX * 129 * 129) by (nonlinear_arith)
        requires
            -(PARAM_MAX * 129) <= x <= PARAM_MAX * 129,
            0 <= d <= 129,
    ;
    assert(-m * d == -(m * d)) by (nonlinear_arith);
    assert(-m * d * d == -(m * d * d)) by (nonlinear_arith);
}

} // verus!
