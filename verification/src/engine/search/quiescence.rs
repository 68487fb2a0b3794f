//! Quiescence search: positions are judged only after captures are resolved.

use vstd::prelude::*;
use crate::arith;
use crate::bits;
use crate::board::model;
use crate::engine::eval;
use crate::engine::movegen;
use crate::engine::movepicker;
use crate::engine::movepicker::{MovePicker, PickerV};
use crate::engine::play;
use crate::engine::search::config::SearchConfig;
use crate::engine::search::line::SearchAborted;
use crate::engine::search::model as run;
use crate::engine::search::model::{Gate, NodeKind, QuietTurn, QuietV, Signals};
use crate::engine::search::report::Console;
use crate::engine::search::searcher;
use crate::engine::search::searcher::{Searcher, Worker};
use crate::engine::search::worker;
use crate::engine::search::worker::{NodeType, QUIET_MAX};
use crate::engine::search_params::PARAM_MAX;
use crate::engine::see;
use crate::engine::tt::{BOUND_EXACT, BOUND_LOWER, BOUND_UPPER};
use crate::moves::Move;
use crate::types::{Color, PieceType, INF, MATE, MAX_PLY};

verus! {

/// What a quiescence node has found so far.
#[derive(Clone, Copy)]
pub struct QuietState {
    pub best_eval: i32,
    pub best_move: Move,
    pub made: bool,
    pub alpha: i32,
}

impl View for QuietState {
    type V = QuietV;

    open spec fn view(&self) -> QuietV {
        QuietV {
            best_eval: self.best_eval as int,
            best_move: self.best_move,
            made: self.made,
            alpha: self.alpha as int,
        }
    }
}

impl QuietState {
    pub open spec fn wf(self) -> bool {
        -QUIET_MAX <= self.best_eval <= QUIET_MAX && i32::MIN < self.alpha
    }
}

/// The kind of bound that a best score is.
pub(crate) fn bound_for(best: i32, alpha: i32, beta: i32) -> (b: u8)
    ensures
        b == run::bound_of(best as int, alpha as int, beta as int),
{
    if best >= beta {
        BOUND_LOWER
    } else if best > alpha {
        BOUND_EXACT
    } else {
        BOUND_UPPER
    }
}

/// The value of the most valuable piece of `opp` that can be captured.
fn best_capturable(w: &Worker, cfg: &SearchConfig, opp: Color) -> (r: i32)
    requires
        w.pos.wf(),
        cfg.wf(),
    ensures
        r == run::priciest(*cfg, w.pos@.board, opp, 4),
        -PARAM_MAX <= r <= PARAM_MAX,
{
    let types: [PieceType; 5] = [
        PieceType::Pawn,
        PieceType::Knight,
        PieceType::Bishop,
        PieceType::Rook,
        PieceType::Queen,
    ];
    let ghost b = w.pos@.board;
    let mut k: usize = 5;
    while k > 0
        invariant
            k <= 5,
            w.pos.wf(),
            cfg.wf(),
            b == w.pos@.board,
            forall|j: int| 0 <= j < 5 ==> #[trigger] types[j].idx() == j && types[j] != PieceType::Empty,
            run::priciest(*cfg, b, opp, 4) == run::priciest(*cfg, b, opp, k - 1),
        decreases k,
    {
        let pt = types[k - 1];
        proof {
            assert(types[k - 1].idx() == k - 1);
        }
        let some = w.pos.pieces(pt, opp);
        let there = some.is_not_empty();
        proof {
            bits::lemma_member_ops();
            assert(pt.idx() == k - 1);
            if there {
                let i = choose|i: int| #[trigger] some.on(i);
                assert(some.on(i));
                assert(b[i] == model::man(pt, opp));
            }
            if exists|i: int|
                0 <= i < 64 && (#[trigger] b[i] matches Some(p) && p.color == opp && p.pt.idx() == k - 1) {
                let i = choose|i: int|
                    0 <= i < 64 && (#[trigger] b[i] matches Some(p) && p.color == opp && p.pt.idx() == k - 1);
                assert(b[i] == model::man(pt, opp));
                assert(some.on(i));
            }
        }
        if there {
            return cfg.mvvlva_v[k - 1];
        }
        k = k - 1;
    }
    0
}

impl Worker {
    /// Stands pat: what a quiescence node starts from, or the score that already decides it.
    fn stand_pat<C: Console>(&self, s: &Searcher<C>, in_check: bool, alpha: i32, beta: i32) -> (r: Result<
        QuietState,
        i32,
    >)
        requires
            worker::fit(*self, *s),
            self.pos.wf(),
            worker::mirrors(alpha as int, beta as int),
            in_check == run::checked(self.pos@),
        ensures
            match run::stand_pat(*s.cfg, searcher::tree_of(*self, *s), alpha as int, beta as int) {
                Ok(q) => r matches Ok(x) && x@ == q && x.wf(),
                Err(v) => r matches Err(x) && x == v && worker::quiet_bounded(Ok(x), alpha as int),
            },
    {
        proof {
            reveal(run::stand_pat);
        }
        if in_check {
            return Ok(QuietState { best_eval: -INF, best_move: Move::null(), made: false, alpha });
        }
        let static_eval: i32 = self.corrected_eval(s);
        if static_eval >= beta {
            return Err(static_eval);
        }
        let capturable: i32 = best_capturable(self, s.cfg, self.pos.stm.opposite());
        if static_eval + capturable + s.cfg.search_params.delta_margin < alpha {
            return Err(alpha);
        }
        Ok(
            QuietState {
                best_eval: static_eval,
                best_move: Move::null(),
                made: false,
                alpha: arith::max(alpha, static_eval),
            },
        )
    }

    /// Searches one capture. True when the node is finished.
    fn quiet_try<N: NodeType, C: Console>(
        &mut self,
        s: &mut Searcher<C>,
        mv: Move,
        q: &mut QuietState,
        beta: i32,
        ply: usize,
        in_check: bool,
    ) -> (r: Result<bool, SearchAborted>)
        requires
            worker::fit(*old(self), *old(s)),
            worker::placed(old(self).pos, ply as int),
            ply < MAX_PLY,
            old(q).wf(),
            worker::mirrors(old(q).alpha as int, beta as int),
            in_check == run::checked(old(self).pos@),
            movegen::pseudo_legal(old(self).pos@, mv),
        ensures
            worker::kept(*old(self), *old(s), *final(self), *final(s)),
            r is Err ==> final(s).raised@,
            final(s).root_moves == old(s).root_moves,
            final(self).history == old(self).history,
            final(q).wf(),
            forall|o: Signals|
                searcher::continues(o, final(s).heard@) ==> #[trigger] run::quiet_step(
                    searcher::env_of(*old(s), o),
                    searcher::tree_of(*old(self), *old(s)),
                    N::kind(),
                    beta as int,
                    ply as int,
                    old(q)@,
                    mv,
                ) == match r {
                    Err(_) => QuietTurn::Stop(searcher::tree_of(*final(self), *final(s)), None),
                    Ok(true) => QuietTurn::Stop(searcher::tree_of(*final(self), *final(s)), Some(final(q)@)),
                    Ok(false) => QuietTurn::More(searcher::tree_of(*final(self), *final(s)), final(q)@),
                },
        decreases 257 - ply, 1int,
    {
        let ghost t0 = searcher::tree_of(*self, *s);
        let ghost w0 = *self;
        let ghost s0 = *s;
        let ghost q0 = q@;
        if !movegen::is_legal(&self.pos, mv) || (!in_check && !see::see_ge(&self.pos, mv, 0)) {
            proof {
                reveal(run::quiet_node);
                reveal(run::quiet_loop);
                reveal(run::quiet_step);
            }
            return Ok(false);
        }
        let saved = self.accumulator;
        let ghost before = self.pos;
        let undo = play::play(&mut self.pos, mv, &mut self.accumulator);
        s.zobrist_trail.push(self.pos.hash);
        let ghost t1 = searcher::tree_of(*self, *s);
        let ghost s1 = *s;
        proof {
            assert(t1 == run::descended(t0, mv));
        }
        let result = self.qsearch::<N, C>(s, -beta, -q.alpha, ply + 1);
        let ghost t2 = searcher::tree_of(*self, *s);
        s.zobrist_trail.pop();
        play::take_back(&mut self.pos, mv, &undo, Ghost(before));
        self.accumulator = saved;
        let ghost t3 = searcher::tree_of(*self, *s);
        proof {
            assert(s.zobrist_trail@ =~= s0.zobrist_trail@);
            assert(t3 == run::returned(t2, t0));
            assert(worker::kept(w0, s0, *self, *s));
        }
        let out = match result {
            Err(_) => Err(SearchAborted),
            Ok(v) => {
                let score: i32 = -v;
                q.made = true;
                let mut done = false;
                if score > q.best_eval {
                    q.best_eval = score;
                    q.best_move = mv;
                    if score > q.alpha {
                        if score >= beta {
                            done = true;
                        } else {
                            q.alpha = score;
                        }
                    }
                }
                Ok(done)
            },
        };
        proof {
            assert forall|o: Signals| searcher::continues(o, s.heard@) implies #[trigger] run::quiet_step(
                searcher::env_of(s0, o),
                t0,
                N::kind(),
                beta as int,
                ply as int,
                q0,
                mv,
            ) == match out {
                Err(_) => QuietTurn::Stop(t3, None),
                Ok(true) => QuietTurn::Stop(t3, Some(q@)),
                Ok(false) => QuietTurn::More(t3, q@),
            } by {
                reveal(run::quiet_node);
                reveal(run::quiet_loop);
                reveal(run::quiet_step);
                assert(searcher::env_of(s1, o) == searcher::env_of(s0, o));
                assert(run::quiet_node(
                    searcher::env_of(s1, o),
                    t1,
                    N::kind(),
                    -beta as int,
                    -q0.alpha,
                    ply + 1,
                ) == (t2, worker::outcome(result)));
            }
        }
        out
    }

    /// Searches the captures of a node.
    fn quiet_moves<N: NodeType, C: Console>(
        &mut self,
        s: &mut Searcher<C>,
        picker: &mut MovePicker,
        q: &mut QuietState,
        beta: i32,
        ply: usize,
        in_check: bool,
    ) -> (r: Result<(), SearchAborted>)
        requires
            worker::fit(*old(self), *old(s)),
            worker::placed(old(self).pos, ply as int),
            ply < MAX_PLY,
            old(q).wf(),
            worker::mirrors(old(q).alpha as int, beta as int),
            in_check == run::checked(old(self).pos@),
            old(picker)@.serves(old(self).pos@),
        ensures
            worker::kept(*old(self), *old(s), *final(self), *final(s)),
            r is Err ==> final(s).raised@,
            final(s).root_moves == old(s).root_moves,
            final(self).history == old(self).history,
            final(q).wf(),
            forall|o: Signals|
                searcher::continues(o, final(s).heard@) ==> #[trigger] run::quiet_loop(
                    searcher::env_of(*old(s), o),
                    searcher::tree_of(*old(self), *old(s)),
                    N::kind(),
                    beta as int,
                    ply as int,
                    old(q)@,
                    old(picker)@,
                ) == (
                    searcher::tree_of(*final(self), *final(s)),
                    match r {
                        Ok(_) => Some(final(q)@),
                        Err(_) => None,
                    },
                ),
        decreases 257 - ply, 2int,
    {
        let ghost t0 = searcher::tree_of(*self, *s);
        let ghost w0 = *self;
        let ghost s0 = *s;
        let ghost q0 = q@;
        let ghost pk0 = picker@;
        loop
            invariant
                worker::fit(*self, *s),
                worker::kept(w0, s0, *self, *s),
                s.root_moves == s0.root_moves,
                self.history == w0.history,
                worker::placed(self.pos, ply as int),
                ply < MAX_PLY,
                q.wf(),
                worker::mirrors(q.alpha as int, beta as int),
                in_check == run::checked(self.pos@),
                picker@.serves(self.pos@),
                w0 == *old(self),
                s0 == *old(s),
                q0 == old(q)@,
                pk0 == old(picker)@,
                t0 == searcher::tree_of(w0, s0),
                forall|o: Signals|
                    searcher::continues(o, s.heard@) ==> #[trigger] run::quiet_loop(
                        searcher::env_of(s0, o),
                        t0,
                        N::kind(),
                        beta as int,
                        ply as int,
                        q0,
                        pk0,
                    ) == run::quiet_loop(
                        searcher::env_of(s0, o),
                        searcher::tree_of(*self, *s),
                        N::kind(),
                        beta as int,
                        ply as int,
                        q@,
                        picker@,
                    ),
            decreases 8 - picker@.stage, picker@.list.len(),
        {
            let ghost t1 = searcher::tree_of(*self, *s);
            let ghost s1 = *s;
            let ghost q1 = q@;
            let ghost pk1 = picker@;
            proof {
                movepicker::lemma_pick_advances(pk1, t1.pos, t1.hist);
            }
            let mv = match picker.next(&self.pos, &self.history) {
                Some(mv) => mv,
                None => {
                    proof {
                        assert forall|o: Signals| searcher::continues(o, s.heard@) implies #[trigger] run::quiet_loop(
                            searcher::env_of(s0, o),
                            t0,
                            N::kind(),
                            beta as int,
                            ply as int,
                            q0,
                            pk0,
                        ) == (t1, Some(q1)) by {
                            reveal(run::quiet_node);
                            reveal(run::quiet_loop);
                            reveal(run::quiet_step);
                            assert(run::quiet_loop(
                                searcher::env_of(s0, o),
                                t1,
                                N::kind(),
                                beta as int,
                                ply as int,
                                q1,
                                pk1,
                            ) == (t1, Some(q1)));
                        }
                    }
                    return Ok(());
                },
            };
            let step = self.quiet_try::<N, C>(s, mv, q, beta, ply, in_check);
            let ghost t2 = searcher::tree_of(*self, *s);
            proof {
                assert forall|o: Signals| searcher::continues(o, s.heard@) implies #[trigger] run::quiet_loop(
                    searcher::env_of(s0, o),
                    t0,
                    N::kind(),
                    beta as int,
                    ply as int,
                    q0,
                    pk0,
                ) == match step {
                    Err(_) => (t2, None),
                    Ok(true) => (t2, Some(q@)),
                    Ok(false) => run::quiet_loop(
                        searcher::env_of(s0, o),
                        t2,
                        N::kind(),
                        beta as int,
                        ply as int,
                        q@,
                        picker@,
                    ),
                } by {
                    searcher::lemma_continues(o, s.heard@, s1.heard@);
                    assert(searcher::env_of(s1, o) == searcher::env_of(s0, o));
                    let env = searcher::env_of(s0, o);
                    lemma_quiet_loop(env, t1, N::kind(), beta as int, ply as int, q1, pk1);
                    assert(run::quiet_step(env, t1, N::kind(), beta as int, ply as int, q1, mv) == match step {
                        Err(_) => QuietTurn::Stop(t2, None),
                        Ok(true) => QuietTurn::Stop(t2, Some(q@)),
                        Ok(false) => QuietTurn::More(t2, q@),
                    });
                }
            }
            match step {
                Err(e) => {
                    return Err(e);
                },
                Ok(done) => {
                    if done {
                        return Ok(());
                    }
                },
            }
        }
    }

    /// Quiescence search of a node.
    pub(crate) fn qsearch<N: NodeType, C: Console>(
        &mut self,
        s: &mut Searcher<C>,
        alpha: i32,
        beta: i32,
        ply: usize,
    ) -> (r: Result<i32, SearchAborted>)
        requires
            worker::fit(*old(self), *old(s)),
            worker::placed(old(self).pos, ply as int),
            worker::mirrors(alpha as int, beta as int),
        ensures
            worker::kept(*old(self), *old(s), *final(self), *final(s)),
            r is Err ==> final(s).raised@,
            final(s).root_moves == old(s).root_moves,
            final(self).history == old(self).history,
            worker::quiet_bounded(r, alpha as int),
            forall|o: Signals|
                searcher::continues(o, final(s).heard@) ==> #[trigger] run::quiet_node(
                    searcher::env_of(*old(s), o),
                    searcher::tree_of(*old(self), *old(s)),
                    N::kind(),
                    alpha as int,
                    beta as int,
                    ply as int,
                ) == (searcher::tree_of(*final(self), *final(s)), worker::outcome(r)),
        decreases 257 - ply, 3int,
    {
        let ghost t0 = searcher::tree_of(*self, *s);
        let ghost s0 = *s;
        let gate = self.enter(s, ply);
        let ghost t1 = searcher::tree_of(*self, *s);
        let ghost s1 = *s;
        let early: Option<Result<i32, SearchAborted>> = match gate {
            Gate::Abort => Some(Err(SearchAborted)),
            Gate::Draw => Some(Ok(0)),
            Gate::Open => if ply >= MAX_PLY {
                Some(Ok(eval::evaluate(&self.pos, &self.accumulator)))
            } else {
                None
            },
        };
        if let Some(r) = early {
            proof {
                assert forall|o: Signals| searcher::continues(o, s.heard@) implies #[trigger] run::quiet_node(
                    searcher::env_of(s0, o),
                    t0,
                    N::kind(),
                    alpha as int,
                    beta as int,
                    ply as int,
                ) == (t1, worker::outcome(r)) by {
                    reveal(run::quiet_node);
                    reveal(run::quiet_loop);
                    reveal(run::quiet_step);
                    assert(run::entry(searcher::env_of(s0, o), t0, ply as int) == (t1, gate));
                }
            }
            return r;
        }
        let (cut, hint) = self.consult_quiet(s, N::pv(), alpha, beta, ply, Ghost(N::kind()));
        if let Some(v) = cut {
            proof {
                assert forall|o: Signals| searcher::continues(o, s.heard@) implies #[trigger] run::quiet_node(
                    searcher::env_of(s0, o),
                    t0,
                    N::kind(),
                    alpha as int,
                    beta as int,
                    ply as int,
                ) == (t1, Some(v as int)) by {
                    reveal(run::quiet_node);
                    reveal(run::quiet_loop);
                    reveal(run::quiet_step);
                    assert(run::entry(searcher::env_of(s0, o), t0, ply as int) == (t1, gate));
                }
            }
            return Ok(v);
        }
        let in_check = self.in_check();
        let mut q = match self.stand_pat(s, in_check, alpha, beta) {
            Ok(q) => q,
            Err(v) => {
                proof {
                    assert forall|o: Signals| searcher::continues(o, s.heard@) implies #[trigger] run::quiet_node(
                        searcher::env_of(s0, o),
                        t0,
                        N::kind(),
                        alpha as int,
                        beta as int,
                        ply as int,
                    ) == (t1, Some(v as int)) by {
                        reveal(run::quiet_node);
                        reveal(run::quiet_loop);
                        reveal(run::quiet_step);
                        assert(run::entry(searcher::env_of(s0, o), t0, ply as int) == (t1, gate));
                    }
                }
                return Ok(v);
            },
        };
        let ghost q1 = q@;
        let mut picker = MovePicker::new_qsearch(hint, s.cfg, in_check);
        let ghost pk = picker@;
        let end = self.quiet_moves::<N, C>(s, &mut picker, &mut q, beta, ply, in_check);
        let ghost t2 = searcher::tree_of(*self, *s);
        let ghost s2 = *s;
        let ghost q2 = q@;
        let r: Result<i32, SearchAborted> = match end {
            Err(e) => Err(e),
            Ok(_) => Ok(self.quiet_end(s, q, alpha, beta, ply, in_check)),
        };
        let ghost t3 = searcher::tree_of(*self, *s);
        proof {
            assert forall|o: Signals| searcher::continues(o, s.heard@) implies #[trigger] run::quiet_node(
                searcher::env_of(s0, o),
                t0,
                N::kind(),
                alpha as int,
                beta as int,
                ply as int,
            ) == (t3, worker::outcome(r)) by {
                reveal(run::quiet_node);
                reveal(run::quiet_loop);
                reveal(run::quiet_step);
                searcher::lemma_continues(o, s2.heard@, s1.heard@);
                assert(run::entry(searcher::env_of(s0, o), t0, ply as int) == (t1, gate));
                assert(searcher::env_of(s1, o) == searcher::env_of(s0, o));
                assert(run::quiet_loop(
                    searcher::env_of(s1, o),
                    t1,
                    N::kind(),
                    beta as int,
                    ply as int,
                    q1,
                    pk,
                ) == (
                    t2,
                    match end {
                        Ok(_) => Some(q2),
                        Err(_) => None,
                    },
                ));
            }
        }
        r
    }

    /// Ends a quiescence node: mate, or the best score, which is stored.
    fn quiet_end<C: Console>(
        &mut self,
        s: &mut Searcher<C>,
        q: QuietState,
        alpha: i32,
        beta: i32,
        ply: usize,
        in_check: bool,
    ) -> (v: i32)
        requires
            worker::fit(*old(self), *old(s)),
            worker::placed(old(self).pos, ply as int),
            q.wf(),
            in_check == run::checked(old(self).pos@),
        ensures
            worker::kept(*old(self), *old(s), *final(self), *final(s)),
            final(s).root_moves == old(s).root_moves,
            final(self).history == old(self).history,
            final(s).heard == old(s).heard,
            -QUIET_MAX <= v <= QUIET_MAX,
            run::quiet_conclude(
                searcher::tree_of(*old(self), *old(s)),
                q@,
                alpha as int,
                beta as int,
                ply as int,
            ) == (searcher::tree_of(*final(self), *final(s)), Some(v as int)),
    {
        proof {
            reveal(run::quiet_conclude);
        }
        if in_check && !q.made {
            return -MATE + ply as i32;
        }
        s.tt.store_qs(self.pos.hash, ply, q.best_eval, q.best_move, bound_for(q.best_eval, alpha, beta));
        q.best_eval
    }
}

proof fn lemma_quiet_loop(
    env: run::Env,
    t: run::Tree,
    kind: NodeKind,
    beta: int,
    ply: int,
    q: QuietV,
    pk: PickerV,
)
    requires
        ply < 256,
    ensures
        run::quiet_loop(env, t, kind, beta, ply, q, pk) == match movepicker::pick(pk, t.pos, t.hist) {
            (None, _) => (t, Some(q)),
            (Some(mv), next) => match run::quiet_step(env, t, kind, beta, ply, q, mv) {
                QuietTurn::Stop(t2, r) => (t2, r),
                QuietTurn::More(t2, q2) => run::quiet_loop(env, t2, kind, beta, ply, q2, next),
            },
        },
{
    reveal(run::quiet_node);
    reveal(run::quiet_loop);
    reveal(run::quiet_step);
}

} // verus!
