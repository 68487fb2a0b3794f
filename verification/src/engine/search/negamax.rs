//! The main search: negamax with alpha-beta pruning.

use vstd::prelude::*;
use crate::arith;
use crate::engine::eval;
use crate::engine::history::ContContext;
use crate::engine::movegen;
use crate::engine::movepicker;
use crate::engine::movepicker::MovePicker;
use crate::engine::play;
use crate::engine::search::candidate;
use crate::engine::search::candidate::NodeScene;
use crate::engine::search::line::{MoveResult, SearchAborted, StackV};
use crate::engine::search::model as run;
use crate::engine::search::model::{Gate, NodeKind, ResV, Signals, Step, Tree, Turn};
use crate::engine::search::ply as plies;
use crate::engine::search::quiescence;
use crate::engine::search::report::Console;
use crate::engine::search::searcher;
use crate::engine::search::searcher::{Searcher, Worker};
use crate::engine::search::worker;
use crate::engine::search::worker::{NodeType, NonPvNode, PvNode};
use crate::engine::tt;
use crate::engine::tt::SCORE_NONE;
use crate::moves::Move;
use crate::types::{PieceType, Square, FARTHEST, INF, MATE, MATE_BOUND, MAX_DEPTH, MAX_PLY};

verus! {

/// The depths that a node can be searched to. From 0 down it is quiescence that judges the node.
pub open spec fn depth_ok(depth: int) -> bool {
    depth <= MAX_DEPTH
}

/// A node of this kind may be searched here: the root only at the root position.
pub open spec fn kind_ok<C: Console>(kind: NodeKind, w: Worker, s: Searcher<C>) -> bool {
    kind.root() ==> w.pos == s.root_pos
}

impl Worker {
    /// Principal variation search: full window for the first move, zero-width scout for the rest,
    /// re-search on a surprise. The move has been made already.
    #[verifier::rlimit(40)]
    fn pvs<N: NodeType, C: Console>(
        &mut self,
        s: &mut Searcher<C>,
        depth: i32,
        alpha: i32,
        beta: i32,
        ply: usize,
        is_first: bool,
        is_pv_move: bool,
        reduction: i32,
    ) -> (r: Result<i32, SearchAborted>)
        requires
            worker::fit(*old(self), *old(s)),
            ply < MAX_PLY,
            worker::placed(old(self).pos, ply + 1),
            worker::window_ok(alpha as int, beta as int),
            1 <= depth <= MAX_DEPTH + 1,
            -128 <= reduction <= 128,
            depth - 1 - reduction <= MAX_DEPTH,
        ensures
            worker::kept(*old(self), *old(s), *final(self), *final(s)),
            r is Err ==> final(s).raised@,
            final(s).root_moves == old(s).root_moves,
            worker::bounded(r),
            forall|o: Signals|
                searcher::continues(o, final(s).heard@) ==> #[trigger] run::scout(
                    searcher::env_of(*old(s), o),
                    searcher::tree_of(*old(self), *old(s)),
                    N::kind(),
                    depth as int,
                    alpha as int,
                    beta as int,
                    ply as int,
                    is_first,
                    is_pv_move,
                    reduction as int,
                ) == (searcher::tree_of(*final(self), *final(s)), worker::outcome(r)),
        decreases 257 - ply, 3int,
    {
        let ghost t0 = searcher::tree_of(*self, *s);
        let ghost s0 = *s;
        let next_pv = if N::pv() && is_pv_move {
            s.prev_pv.get(ply + 1)
        } else {
            None
        };
        if is_first {
            let first = self.full_window::<N, C>(s, depth - 1, -beta, -alpha, ply + 1, next_pv);
            let r = match first {
                Ok(v) => Ok(-v),
                Err(e) => Err(e),
            };
            proof {
                let t1 = searcher::tree_of(*self, *s);
                assert forall|o: Signals| searcher::continues(o, s.heard@) implies #[trigger] run::scout(
                    searcher::env_of(s0, o),
                    t0,
                    N::kind(),
                    depth as int,
                    alpha as int,
                    beta as int,
                    ply as int,
                    is_first,
                    is_pv_move,
                    reduction as int,
                ) == (t1, worker::outcome(r)) by {
                    reveal(run::scout);
                    reveal(run::node);
                    assert(run::node(
                        searcher::env_of(s0, o),
                        t0,
                        N::kind().child(),
                        depth - 1,
                        -beta as int,
                        -alpha as int,
                        ply + 1,
                        next_pv,
                    ) == (t1, worker::outcome(first)));
                }
            }
            return r;
        }
        let r1 = self.negamax::<NonPvNode, C>(s, depth - 1 - reduction, -alpha - 1, -alpha, ply + 1, None);
        let ghost t1 = searcher::tree_of(*self, *s);
        let ghost s1 = *s;
        let deeper = match r1 {
            Ok(v) => -v > alpha && reduction > 0,
            Err(_) => false,
        };
        let r2 = if deeper {
            self.negamax::<NonPvNode, C>(s, depth - 1, -alpha - 1, -alpha, ply + 1, None)
        } else {
            r1
        };
        let ghost t2 = searcher::tree_of(*self, *s);
        let ghost s2 = *s;
        let wider = match r2 {
            Ok(v) => -v > alpha && -v < beta,
            Err(_) => false,
        };
        let r3 = if wider {
            self.full_window::<N, C>(s, depth - 1, -beta, -alpha, ply + 1, next_pv)
        } else {
            r2
        };
        let ghost t3 = searcher::tree_of(*self, *s);
        let r = match r3 {
            Ok(v) => Ok(-v),
            Err(e) => Err(e),
        };
        proof {
            assert(searcher::continues(s2.heard@, s1.heard@));
            assert(searcher::continues(s.heard@, s2.heard@));
            assert forall|o: Signals| searcher::continues(o, s.heard@) implies #[trigger] run::scout(
                searcher::env_of(s0, o),
                t0,
                N::kind(),
                depth as int,
                alpha as int,
                beta as int,
                ply as int,
                is_first,
                is_pv_move,
                reduction as int,
            ) == (t3, worker::outcome(r)) by {
                reveal(run::scout);
                reveal(run::node);
                searcher::lemma_continues(o, s.heard@, s2.heard@);
                searcher::lemma_continues(o, s2.heard@, s1.heard@);
                let env = searcher::env_of(s0, o);
                assert(searcher::env_of(s1, o) == env);
                assert(searcher::env_of(s2, o) == env);
                assert(run::node(
                    env,
                    t0,
                    NodeKind::NonPv,
                    depth - 1 - reduction,
                    -alpha - 1,
                    -alpha as int,
                    ply + 1,
                    None,
                ) == (t1, worker::outcome(r1)));
                if deeper {
                    assert(run::node(
                        env,
                        t1,
                        NodeKind::NonPv,
                        depth - 1,
                        -alpha - 1,
                        -alpha as int,
                        ply + 1,
                        None,
                    ) == (t2, worker::outcome(r2)));
                }
                if wider {
                    assert(run::node(
                        env,
                        t2,
                        N::kind().child(),
                        depth - 1,
                        -beta as int,
                        -alpha as int,
                        ply + 1,
                        next_pv,
                    ) == (t3, worker::outcome(r3)));
                }
            }
        }
        r
    }

    /// Searches a child with the full window: on the principal variation if its parent is.
    fn full_window<N: NodeType, C: Console>(
        &mut self,
        s: &mut Searcher<C>,
        depth: i32,
        alpha: i32,
        beta: i32,
        ply: usize,
        pv_move: Option<Move>,
    ) -> (r: Result<i32, SearchAborted>)
        requires
            worker::fit(*old(self), *old(s)),
            worker::placed(old(self).pos, ply as int),
            worker::window_ok(alpha as int, beta as int),
            depth_ok(depth as int),
        ensures
            worker::kept(*old(self), *old(s), *final(self), *final(s)),
            r is Err ==> final(s).raised@,
            final(s).root_moves == old(s).root_moves,
            worker::bounded(r),
            forall|o: Signals|
                searcher::continues(o, final(s).heard@) ==> #[trigger] run::node(
                    searcher::env_of(*old(s), o),
                    searcher::tree_of(*old(self), *old(s)),
                    N::kind().child(),
                    depth as int,
                    alpha as int,
                    beta as int,
                    ply as int,
                    pv_move,
                ) == (searcher::tree_of(*final(self), *final(s)), worker::outcome(r)),
        decreases 257 - ply, 11int,
    {
        if N::pv() {
            self.negamax::<PvNode, C>(s, depth, alpha, beta, ply, pv_move)
        } else {
            self.negamax::<NonPvNode, C>(s, depth, alpha, beta, ply, pv_move)
        }
    }

    /// Reports the root move that is about to be searched.
    fn mention<N: NodeType, C: Console>(&self, s: &mut Searcher<C>, depth: i32, mv: Move, number: usize)
        requires
            worker::fit(*self, *old(s)),
        ensures
            worker::fit(*self, *final(s)),
            searcher::only_spoke(*old(s), *final(s)),
            searcher::discreet(*old(s), *final(s)),
            forall|t: Searcher<C>, o: Signals|
                searcher::same_task(t, *old(s)) ==> #[trigger] run::mentioned(
                    searcher::env_of(t, o),
                    searcher::tree_of(*self, *old(s)),
                    N::kind(),
                    depth as int,
                    mv,
                    number as int,
                ) == searcher::tree_of(*self, *final(s)),
    {
        proof {
            reveal(run::mentioned);
        }
        if N::root() {
            s.print_currmove(depth, mv, number);
        }
    }

    /// Makes a move, searches it and takes it back. The heartbeat of alpha-beta.
    fn search_move<N: NodeType, C: Console>(
        &mut self,
        s: &mut Searcher<C>,
        mv: Move,
        depth: i32,
        res: &mut MoveResult,
        beta: i32,
        ply: usize,
        root_idx: Option<usize>,
        is_pv_move: bool,
        reduction: i32,
    ) -> (r: Result<(), SearchAborted>)
        requires
            worker::fit(*old(self), *old(s)),
            ply < MAX_PLY,
            worker::placed(old(self).pos, ply as int),
            movegen::pseudo_legal(old(self).pos@, mv),
            old(res).wf(),
            worker::window_ok(old(res).alpha as int, beta as int),
            1 <= depth <= MAX_DEPTH + 1,
            -128 <= reduction <= 128,
            depth - 1 - reduction <= MAX_DEPTH,
            root_idx matches Some(i) ==> i < old(s).root_moves@.len() && old(s).root_moves@[i as int].mv == mv,
        ensures
            worker::kept(*old(self), *old(s), *final(self), *final(s)),
            r is Err ==> final(s).raised@,
            r is Err ==> final(res)@ == (ResV {
                move_count: run::next_number(old(res)@.move_count),
                ..old(res)@
            }),
            r is Ok ==> final(res)@.move_count == run::next_number(old(res)@.move_count),
            r is Err || !N::kind().root() || root_idx is None ==> final(s).root_moves == old(s).root_moves,
            final(res).wf(),
            forall|o: Signals|
                searcher::continues(o, final(s).heard@) ==> #[trigger] run::tried(
                    searcher::env_of(*old(s), o),
                    searcher::tree_of(*old(self), *old(s)),
                    N::kind(),
                    mv,
                    depth as int,
                    old(res)@,
                    beta as int,
                    ply as int,
                    candidate::as_place(root_idx),
                    is_pv_move,
                    reduction as int,
                ) == (
                    searcher::tree_of(*final(self), *final(s)),
                    match r {
                        Ok(_) => Some(final(res)@),
                        Err(_) => None,
                    },
                ),
        decreases 257 - ply, 4int,
    {
        let ghost t0 = searcher::tree_of(*self, *s);
        let ghost w0 = *self;
        let ghost s0 = *s;
        let ghost res0 = res@;
        let saved = self.accumulator;
        let ghost before = self.pos;
        let undo = play::play(&mut self.pos, mv, &mut self.accumulator);
        let eased: i32 = if self.in_check() {
            arith::max(reduction - 1, 0)
        } else {
            reduction
        };
        res.move_count = res.move_count.saturating_add(1);
        let ghost res1 = res@;
        s.zobrist_trail.push(self.pos.hash);
        let ghost td = searcher::tree_of(*self, *s);
        proof {
            assert(td == run::descended(t0, mv));
        }
        self.mention::<N, C>(s, depth, mv, res.move_count);
        let ghost t1 = searcher::tree_of(*self, *s);
        let ghost s1 = *s;
        let is_first = res.move_count == 1;
        proof {
            assert(res1 == ResV { move_count: run::next_number(res0.move_count), ..res0 });
        }
        let result = self.pvs::<N, C>(s, depth, res.alpha, beta, ply, is_first, is_pv_move, eased);
        let ghost t2 = searcher::tree_of(*self, *s);
        s.zobrist_trail.pop();
        play::take_back(&mut self.pos, mv, &undo, Ghost(before));
        self.accumulator = saved;
        let ghost t3 = searcher::tree_of(*self, *s);
        proof {
            assert(s.zobrist_trail@ =~= s0.zobrist_trail@);
            assert(t3 == run::returned(t2, t0));
            assert(worker::kept(w0, s0, *self, *s));
        }
        let r = match result {
            Err(e) => Err(e),
            Ok(v) => {
                self.record::<N, C>(s, root_idx, mv, res, v, ply);
                Ok(())
            },
        };
        let ghost t4 = searcher::tree_of(*self, *s);
        proof {
            assert forall|o: Signals| searcher::continues(o, s.heard@) implies #[trigger] run::tried(
                searcher::env_of(s0, o),
                t0,
                N::kind(),
                mv,
                depth as int,
                res0,
                beta as int,
                ply as int,
                candidate::as_place(root_idx),
                is_pv_move,
                reduction as int,
            ) == (
                t4,
                match r {
                    Ok(_) => Some(res@),
                    Err(_) => None,
                },
            ) by {
                reveal(run::tried);
                reveal(run::scout);
                assert(searcher::env_of(s1, o) == searcher::env_of(s0, o));
                assert(run::mentioned(
                    searcher::env_of(s0, o),
                    td,
                    N::kind(),
                    depth as int,
                    mv,
                    res1.move_count,
                ) == t1);
                assert(run::scout(
                    searcher::env_of(s1, o),
                    t1,
                    N::kind(),
                    depth as int,
                    res0.alpha,
                    beta as int,
                    ply as int,
                    is_first,
                    is_pv_move,
                    eased as int,
                ) == (t2, worker::outcome(result)));
            }
        }
        r
    }

    /// Searches the root moves in their order.
    fn search_root<N: NodeType, C: Console>(&mut self, s: &mut Searcher<C>, sc: &NodeScene, res: &mut MoveResult) -> (r: Result<
        (),
        SearchAborted,
    >)
        requires
            worker::fit(*old(self), *old(s)),
            sc.wf(),
            worker::placed(old(self).pos, sc.ply as int),
            old(self).pos == old(s).root_pos,
            old(res).wf(),
            worker::window_ok(old(res).alpha as int, sc.beta as int),
        ensures
            worker::kept(*old(self), *old(s), *final(self), *final(s)),
            r is Err ==> final(s).raised@,
            final(res).wf(),
            forall|o: Signals|
                searcher::continues(o, final(s).heard@) ==> #[trigger] run::root_loop(
                    searcher::env_of(*old(s), o),
                    searcher::tree_of(*old(self), *old(s)),
                    sc.seen(N::kind()),
                    old(res)@,
                    0,
                ) == (
                    searcher::tree_of(*final(self), *final(s)),
                    match r {
                        Ok(_) => Some(final(res)@),
                        Err(_) => None,
                    },
                ),
        decreases 257 - sc.ply, 6int,
    {
        let ghost t0 = searcher::tree_of(*self, *s);
        let ghost w0 = *self;
        let ghost s0 = *s;
        let ghost res0 = res@;
        let ghost scene = sc.seen(N::kind());
        let mut i: usize = 0;
        proof {
            assert(worker::kept(w0, s0, *self, *s));
        }
        while i < s.root_moves.len()
            invariant
                i <= s.root_moves.len(),
                worker::fit(*self, *s),
                worker::kept(w0, s0, *self, *s),
                sc.wf(),
                worker::placed(self.pos, sc.ply as int),
                self.pos == s.root_pos,
                res.wf(),
                worker::window_ok(res.alpha as int, sc.beta as int),
                w0 == *old(self),
                s0 == *old(s),
                res0 == old(res)@,
                scene == sc.seen(N::kind()),
                t0 == searcher::tree_of(w0, s0),
                forall|o: Signals|
                    searcher::continues(o, s.heard@) ==> #[trigger] run::root_loop(
                        searcher::env_of(s0, o),
                        t0,
                        scene,
                        res0,
                        0,
                    ) == run::root_loop(
                        searcher::env_of(s0, o),
                        searcher::tree_of(*self, *s),
                        scene,
                        res@,
                        i as int,
                    ),
            decreases s.root_moves.len() - i,
        {
            let ghost t1 = searcher::tree_of(*self, *s);
            let ghost s1 = *s;
            let ghost res1 = res@;
            let mv = s.root_moves[i].mv;
            proof {
                assert(s.root_moves@[i as int].wf());
                assert(movegen::pseudo_legal(s.root_pos@, s.root_moves@[i as int].mv));
            }
            let reduction: i32 = if sc.depth >= 2 && i >= 1 && mv.is_quiet() && !sc.in_check {
                s.cfg.lmr(sc.depth, i + 1)
            } else {
                0
            };
            let step = self.search_move::<N, C>(
                s,
                mv,
                sc.depth,
                res,
                sc.beta,
                sc.ply,
                Some(i),
                sc.pv_move == Some(mv),
                reduction,
            );
            let ghost t2 = searcher::tree_of(*self, *s);
            let cut = res.alpha >= sc.beta;
            proof {
                assert(t2.roots.len() == t1.roots.len());
                assert forall|o: Signals| searcher::continues(o, s.heard@) implies #[trigger] run::root_loop(
                    searcher::env_of(s0, o),
                    t0,
                    scene,
                    res0,
                    0,
                ) == match step {
                    Err(_) => (t2, None),
                    Ok(_) => if cut {
                        (t2, Some(res@))
                    } else {
                        run::root_loop(searcher::env_of(s0, o), t2, scene, res@, i + 1)
                    },
                } by {
                    searcher::lemma_continues(o, s.heard@, s1.heard@);
                    let env = searcher::env_of(s0, o);
                    assert(searcher::env_of(s1, o) == env);
                    assert(run::root_loop(env, t0, scene, res0, 0) == run::root_loop(env, t1, scene, res1, i as int));
                    assert(run::tried(
                        env,
                        t1,
                        scene.kind,
                        mv,
                        scene.depth,
                        res1,
                        scene.beta,
                        scene.ply,
                        Some(i as int),
                        scene.pv_move == Some(mv),
                        reduction as int,
                    ) == (
                        t2,
                        match step {
                            Ok(_) => Some(res@),
                            Err(_) => None,
                        },
                    ));
                    reveal(run::root_loop);
                    reveal(run::tried);
                }
            }
            match step {
                Err(e) => {
                    return Err(e);
                },
                Ok(_) => {},
            }
            if cut {
                return Ok(());
            }
            i = i + 1;
        }
        proof {
            let t1 = searcher::tree_of(*self, *s);
            assert forall|o: Signals| searcher::continues(o, s.heard@) implies #[trigger] run::root_loop(
                searcher::env_of(s0, o),
                t0,
                scene,
                res0,
                0,
            ) == (t1, Some(res@)) by {
                let env = searcher::env_of(s0, o);
                assert(run::root_loop(env, t0, scene, res0, 0) == run::root_loop(env, t1, scene, res@, i as int));
                reveal(run::root_loop);
                reveal(run::tried);
            }
        }
        Ok(())
    }

    /// Searches one move of an interior node, unless it is illegal or pruned. True when the node is finished.
    fn try_candidate<N: NodeType, C: Console>(
        &mut self,
        s: &mut Searcher<C>,
        sc: &NodeScene,
        res: &mut MoveResult,
        mv: Move,
    ) -> (r: Result<bool, SearchAborted>)
        requires
            worker::fit(*old(self), *old(s)),
            sc.wf(),
            worker::placed(old(self).pos, sc.ply as int),
            old(res).wf(),
            worker::window_ok(old(res).alpha as int, sc.beta as int),
            movegen::pseudo_legal(old(self).pos@, mv),
        ensures
            worker::kept(*old(self), *old(s), *final(self), *final(s)),
            r is Err ==> final(s).raised@,
            final(s).root_moves == old(s).root_moves,
            final(res).wf(),
            forall|o: Signals|
                searcher::continues(o, final(s).heard@) ==> #[trigger] run::move_step(
                    searcher::env_of(*old(s), o),
                    searcher::tree_of(*old(self), *old(s)),
                    sc.seen(N::kind()),
                    old(res)@,
                    mv,
                ) == match r {
                    Err(_) => Turn::Stop(searcher::tree_of(*final(self), *final(s)), None),
                    Ok(true) => Turn::Stop(searcher::tree_of(*final(self), *final(s)), Some(final(res)@)),
                    Ok(false) => Turn::More(searcher::tree_of(*final(self), *final(s)), final(res)@),
                },
        decreases 257 - sc.ply, 5int,
    {
        let ghost t0 = searcher::tree_of(*self, *s);
        let ghost w0 = *self;
        let ghost s0 = *s;
        let ghost res0 = res@;
        let ghost scene = sc.seen(N::kind());
        if !movegen::is_legal(&self.pos, mv) {
            proof {
                reveal(run::move_step);
            }
            return Ok(false);
        }
        let appended = self.track(s, sc.ply, mv);
        if self.is_skipped(s, N::pv(), sc, res, mv, Ghost(N::kind())) {
            proof {
                reveal(run::move_step);
            }
            return Ok(false);
        }
        let reduction: i32 = self.reduction(s, sc, res, mv, Ghost(N::kind()));
        self.note_move(s, sc.ply, mv);
        let ghost t2 = searcher::tree_of(*self, *s);
        proof {
            assert(worker::kept(w0, s0, *self, *s));
        }
        let step = self.search_move::<N, C>(
            s,
            mv,
            sc.depth,
            res,
            sc.beta,
            sc.ply,
            None,
            sc.pv_move == Some(mv),
            reduction,
        );
        let ghost t3 = searcher::tree_of(*self, *s);
        let cut = res.alpha >= sc.beta;
        let r: Result<bool, SearchAborted> = match step {
            Err(e) => Err(e),
            Ok(_) => {
                if cut {
                    self.teach(s, sc, mv, appended, Ghost(N::kind()));
                }
                Ok(cut)
            },
        };
        let ghost t4 = searcher::tree_of(*self, *s);
        proof {
            assert forall|o: Signals| searcher::continues(o, s.heard@) implies #[trigger] run::move_step(
                searcher::env_of(s0, o),
                t0,
                scene,
                res0,
                mv,
            ) == match r {
                Err(_) => Turn::Stop(t4, None),
                Ok(true) => Turn::Stop(t4, Some(res@)),
                Ok(false) => Turn::More(t4, res@),
            } by {
                reveal(run::move_step);
                reveal(run::tried);
                assert(run::tried(
                    searcher::env_of(s0, o),
                    t2,
                    scene.kind,
                    mv,
                    scene.depth,
                    res0,
                    scene.beta,
                    scene.ply,
                    None,
                    scene.pv_move == Some(mv),
                    reduction as int,
                ) == (
                    t3,
                    match step {
                        Ok(_) => Some(res@),
                        Err(_) => None,
                    },
                ));
            }
        }
        r
    }

    /// Searches the moves of an interior node in the picker's order.
    fn search_interior<N: NodeType, C: Console>(
        &mut self,
        s: &mut Searcher<C>,
        sc: &NodeScene,
        res: &mut MoveResult,
        picker: &mut MovePicker,
    ) -> (r: Result<(), SearchAborted>)
        requires
            worker::fit(*old(self), *old(s)),
            sc.wf(),
            worker::placed(old(self).pos, sc.ply as int),
            old(res).wf(),
            worker::window_ok(old(res).alpha as int, sc.beta as int),
            old(picker)@.serves(old(self).pos@),
        ensures
            worker::kept(*old(self), *old(s), *final(self), *final(s)),
            r is Err ==> final(s).raised@,
            final(s).root_moves == old(s).root_moves,
            final(res).wf(),
            forall|o: Signals|
                searcher::continues(o, final(s).heard@) ==> #[trigger] run::move_loop(
                    searcher::env_of(*old(s), o),
                    searcher::tree_of(*old(self), *old(s)),
                    sc.seen(N::kind()),
                    old(res)@,
                    old(picker)@,
                ) == (
                    searcher::tree_of(*final(self), *final(s)),
                    match r {
                        Ok(_) => Some(final(res)@),
                        Err(_) => None,
                    },
                ),
        decreases 257 - sc.ply, 6int,
    {
        let ghost t0 = searcher::tree_of(*self, *s);
        let ghost w0 = *self;
        let ghost s0 = *s;
        let ghost res0 = res@;
        let ghost pk0 = picker@;
        let ghost scene = sc.seen(N::kind());
        loop
            invariant
                worker::fit(*self, *s),
                worker::kept(w0, s0, *self, *s),
                s.root_moves == s0.root_moves,
                sc.wf(),
                worker::placed(self.pos, sc.ply as int),
                res.wf(),
                worker::window_ok(res.alpha as int, sc.beta as int),
                picker@.serves(self.pos@),
                w0 == *old(self),
                s0 == *old(s),
                res0 == old(res)@,
                pk0 == old(picker)@,
                scene == sc.seen(N::kind()),
                t0 == searcher::tree_of(w0, s0),
                forall|o: Signals|
                    searcher::continues(o, s.heard@) ==> #[trigger] run::move_loop(
                        searcher::env_of(s0, o),
                        t0,
                        scene,
                        res0,
                        pk0,
                    ) == run::move_loop(
                        searcher::env_of(s0, o),
                        searcher::tree_of(*self, *s),
                        scene,
                        res@,
                        picker@,
                    ),
            decreases 8 - picker@.stage, picker@.list.len(),
        {
            let ghost t1 = searcher::tree_of(*self, *s);
            let ghost s1 = *s;
            let ghost res1 = res@;
            let ghost pk1 = picker@;
            proof {
                movepicker::lemma_pick_advances(pk1, t1.pos, t1.hist);
            }
            let mv = match picker.next(&self.pos, &self.history) {
                Some(mv) => mv,
                None => {
                    proof {
                        assert forall|o: Signals| searcher::continues(o, s.heard@) implies #[trigger] run::move_loop(
                            searcher::env_of(s0, o),
                            t0,
                            scene,
                            res0,
                            pk0,
                        ) == (t1, Some(res1)) by {
                            let env = searcher::env_of(s0, o);
                            assert(run::move_loop(env, t0, scene, res0, pk0) == run::move_loop(
                                env,
                                t1,
                                scene,
                                res1,
                                pk1,
                            ));
                            lemma_move_loop(env, t1, scene, res1, pk1);
                        }
                    }
                    return Ok(());
                },
            };
            let step = self.try_candidate::<N, C>(s, sc, res, mv);
            let ghost t2 = searcher::tree_of(*self, *s);
            proof {
                assert forall|o: Signals| searcher::continues(o, s.heard@) implies #[trigger] run::move_loop(
                    searcher::env_of(s0, o),
                    t0,
                    scene,
                    res0,
                    pk0,
                ) == match step {
                    Err(_) => (t2, None),
                    Ok(true) => (t2, Some(res@)),
                    Ok(false) => run::move_loop(searcher::env_of(s0, o), t2, scene, res@, picker@),
                } by {
                    searcher::lemma_continues(o, s.heard@, s1.heard@);
                    let env = searcher::env_of(s0, o);
                    assert(searcher::env_of(s1, o) == env);
                    assert(run::move_loop(env, t0, scene, res0, pk0) == run::move_loop(env, t1, scene, res1, pk1));
                    lemma_move_loop(env, t1, scene, res1, pk1);
                    assert(run::move_step(env, t1, scene, res1, mv) == match step {
                        Err(_) => Turn::Stop(t2, None),
                        Ok(true) => Turn::Stop(t2, Some(res@)),
                        Ok(false) => Turn::More(t2, res@),
                    });
                }
            }
            match step {
                Err(e) => {
                    return Err(e);
                },
                Ok(done) => {
                    if done {
                        return Ok(());
                    }
                },
            }
        }
    }

    /// Searches all moves of a node.
    fn search_all<N: NodeType, C: Console>(
        &mut self,
        s: &mut Searcher<C>,
        sc: &NodeScene,
        alpha: i32,
        hash_move: Option<Move>,
    ) -> (r: Result<MoveResult, SearchAborted>)
        requires
            worker::fit(*old(self), *old(s)),
            sc.wf(),
            worker::placed(old(self).pos, sc.ply as int),
            kind_ok(N::kind(), *old(self), *old(s)),
            worker::window_ok(alpha as int, sc.beta as int),
            hash_move matches Some(mv) ==> movegen::pseudo_legal(old(self).pos@, mv),
        ensures
            worker::kept(*old(self), *old(s), *final(self), *final(s)),
            r is Err ==> final(s).raised@,
            !N::kind().root() ==> final(s).root_moves == old(s).root_moves,
            r matches Ok(x) ==> x.wf(),
            forall|o: Signals|
                searcher::continues(o, final(s).heard@) ==> #[trigger] run::all_moves(
                    searcher::env_of(*old(s), o),
                    searcher::tree_of(*old(self), *old(s)),
                    sc.seen(N::kind()),
                    alpha as int,
                    hash_move,
                ) == (
                    searcher::tree_of(*final(self), *final(s)),
                    match r {
                        Ok(x) => Some(x@),
                        Err(_) => None,
                    },
                ),
        decreases 257 - sc.ply, 7int,
    {
        let ghost t0 = searcher::tree_of(*self, *s);
        let ghost s0 = *s;
        let ghost scene = sc.seen(N::kind());
        let mut res = MoveResult { move_count: 0, best_eval: -INF, alpha, best_move: Move::null() };
        proof {
            assert(res@ == run::no_result(alpha as int));
        }
        if N::root() {
            let end = self.search_root::<N, C>(s, sc, &mut res);
            let ghost t1 = searcher::tree_of(*self, *s);
            let r = match end {
                Ok(_) => Ok(res),
                Err(e) => Err(e),
            };
            proof {
                assert forall|o: Signals| searcher::continues(o, s.heard@) implies #[trigger] run::all_moves(
                    searcher::env_of(s0, o),
                    t0,
                    scene,
                    alpha as int,
                    hash_move,
                ) == (
                    t1,
                    match r {
                        Ok(x) => Some(x@),
                        Err(_) => None,
                    },
                ) by {
                    reveal(run::all_moves);
                    reveal(run::root_loop);
                    assert(run::root_loop(
                        searcher::env_of(s0, o),
                        t0,
                        scene,
                        run::no_result(alpha as int),
                        0,
                    ).0 == t1);
                }
            }
            return r;
        }
        let killers = self.stack[sc.ply].killers;
        plies::clear_quiets(&mut self.stack, sc.ply);
        let ghost t1 = searcher::tree_of(*self, *s);
        let mut picker = MovePicker::new(hash_move, s.cfg, killers, sc.cont);
        let ghost pk = picker@;
        let end = self.search_interior::<N, C>(s, sc, &mut res, &mut picker);
        let ghost t2 = searcher::tree_of(*self, *s);
        let r = match end {
            Ok(_) => Ok(res),
            Err(e) => Err(e),
        };
        proof {
            assert forall|o: Signals| searcher::continues(o, s.heard@) implies #[trigger] run::all_moves(
                searcher::env_of(s0, o),
                t0,
                scene,
                alpha as int,
                hash_move,
            ) == (
                t2,
                match r {
                    Ok(x) => Some(x@),
                    Err(_) => None,
                },
            ) by {
                reveal(run::all_moves);
                reveal(run::move_loop);
                assert(run::move_loop(
                    searcher::env_of(s0, o),
                    t1,
                    scene,
                    run::no_result(alpha as int),
                    pk,
                ).0 == t2);
            }
        }
        r
    }

    /// Razoring: resolves a node far below alpha by quiescence. A result ends the node.
    fn try_razoring<N: NodeType, C: Console>(
        &mut self,
        s: &mut Searcher<C>,
        in_check: bool,
        depth: i32,
        ev: i32,
        alpha: i32,
        beta: i32,
        ply: usize,
    ) -> (r: Option<Result<i32, SearchAborted>>)
        requires
            worker::fit(*old(self), *old(s)),
            worker::placed(old(self).pos, ply as int),
            worker::window_ok(alpha as int, beta as int),
            1 <= depth <= MAX_DEPTH + 1,
            -100_000 <= ev <= 100_000,
        ensures
            worker::kept(*old(self), *old(s), *final(self), *final(s)),
            r matches Some(x) && x is Err ==> final(s).raised@,
            final(s).root_moves == old(s).root_moves,
            r matches Some(x) ==> worker::bounded(x),
            forall|o: Signals|
                searcher::continues(o, final(s).heard@) ==> #[trigger] run::razor_step(
                    searcher::env_of(*old(s), o),
                    searcher::tree_of(*old(self), *old(s)),
                    N::kind(),
                    in_check,
                    depth as int,
                    ev as int,
                    alpha as int,
                    beta as int,
                    ply as int,
                ) == match r {
                    Some(x) => Step::Return(searcher::tree_of(*final(self), *final(s)), worker::outcome(x)),
                    None => Step::Continue(searcher::tree_of(*final(self), *final(s))),
                },
    {
        proof {
            reveal(run::razor_step);
            candidate::lemma_margin(s.cfg.search_params.razoring_margin as int, depth as int);
        }
        if in_check || N::pv() || depth > s.cfg.search_params.razoring_depth || ev
            + s.cfg.search_params.razoring_margin * depth >= alpha {
            return None;
        }
        let result = self.qsearch::<N, C>(s, alpha, beta, ply);
        match result {
            Err(e) => Some(Err(e)),
            Ok(v) => if v <= alpha {
                Some(Ok(v))
            } else {
                None
            },
        }
    }

    /// Null-move pruning: passes the turn, and cuts off if even that beats beta. A result ends the node.
    fn try_null_move<N: NodeType, C: Console>(
        &mut self,
        s: &mut Searcher<C>,
        in_check: bool,
        depth: i32,
        ev: i32,
        beta: i32,
        ply: usize,
    ) -> (r: Option<Result<i32, SearchAborted>>)
        requires
            worker::fit(*old(self), *old(s)),
            ply < MAX_PLY,
            worker::placed(old(self).pos, ply as int),
            old(self).pos.halfmove_clock < 100,
            -FARTHEST <= beta <= FARTHEST + 1,
            1 <= depth <= MAX_DEPTH + 1,
            !in_check ==> depth <= MAX_DEPTH,
            -100_000 <= ev <= 100_000,
        ensures
            worker::kept(*old(self), *old(s), *final(self), *final(s)),
            r matches Some(x) && x is Err ==> final(s).raised@,
            final(s).root_moves == old(s).root_moves,
            r matches Some(x) ==> worker::bounded(x),
            forall|o: Signals|
                searcher::continues(o, final(s).heard@) ==> #[trigger] run::null_step(
                    searcher::env_of(*old(s), o),
                    searcher::tree_of(*old(self), *old(s)),
                    N::kind(),
                    in_check,
                    depth as int,
                    ev as int,
                    beta as int,
                    ply as int,
                ) == match r {
                    Some(x) => Step::Return(searcher::tree_of(*final(self), *final(s)), worker::outcome(x)),
                    None => Step::Continue(searcher::tree_of(*final(self), *final(s))),
                },
        decreases 257 - ply, 7int,
    {
        let ghost t0 = searcher::tree_of(*self, *s);
        let ghost w0 = *self;
        let ghost s0 = *s;
        let was_null = self.stack[ply].is_null;
        if in_check || N::pv() || was_null || ev < beta || !self.pos.has_non_pawn_material(self.pos.stm) {
            proof {
                reveal(run::null_step);
            }
            return None;
        }
        let sp = &s.cfg.search_params;
        proof {
            if sp.nmp_depth_divisor < 0 {
                arith::lemma_negative_quotient_order(depth as int, MAX_DEPTH as int, sp.nmp_depth_divisor as int);
            }
        }
        let eval_r: i32 = arith::min(arith::divide(ev - beta, sp.nmp_eval_divisor), sp.nmp_eval_max);
        let r: i32 = sp.nmp_base_r + arith::divide(depth, sp.nmp_depth_divisor) + eval_r;
        let reduced: i32 = arith::max(depth - r - 1, 0);
        plies::set_moved_pt(&mut self.stack, ply, PieceType::Empty);
        plies::set_null(&mut self.stack, ply + 1, true);
        let ghost before = self.pos;
        let undo = play::pass(&mut self.pos);
        s.zobrist_trail.push(self.pos.hash);
        let ghost t1 = searcher::tree_of(*self, *s);
        let ghost s1 = *s;
        proof {
            assert(t1 == run::passed_turn(t0, ply as int));
            assert(reduced == run::null_depth(*s0.cfg, depth as int, ev as int, beta as int));
        }
        let result = self.negamax::<NonPvNode, C>(s, reduced, -beta, -beta + 1, ply + 1, None);
        let ghost t2 = searcher::tree_of(*self, *s);
        s.zobrist_trail.pop();
        play::take_back_pass(&mut self.pos, &undo, Ghost(before));
        plies::set_null(&mut self.stack, ply + 1, false);
        let ghost t3 = searcher::tree_of(*self, *s);
        proof {
            assert(s.zobrist_trail@ =~= s0.zobrist_trail@);
            assert(t3 == run::returned_from_pass(t2, t0, ply as int));
            assert(worker::kept(w0, s0, *self, *s));
        }
        let out = match result {
            Err(e) => Some(Err(e)),
            Ok(v) => if -v >= beta {
                if -v > MATE_BOUND {
                    Some(Ok(beta))
                } else {
                    Some(Ok(-v))
                }
            } else {
                None
            },
        };
        proof {
            assert forall|o: Signals| searcher::continues(o, s.heard@) implies #[trigger] run::null_step(
                searcher::env_of(s0, o),
                t0,
                N::kind(),
                in_check,
                depth as int,
                ev as int,
                beta as int,
                ply as int,
            ) == match out {
                Some(x) => Step::Return(t3, worker::outcome(x)),
                None => Step::Continue(t3),
            } by {
                reveal(run::null_step);
                reveal(run::node);
                assert(searcher::env_of(s1, o) == searcher::env_of(s0, o));
                assert(run::node(
                    searcher::env_of(s1, o),
                    t1,
                    NodeKind::NonPv,
                    reduced as int,
                    -beta as int,
                    -beta + 1,
                    ply + 1,
                    None,
                ) == (t2, worker::outcome(result)));
            }
        }
        out
    }

    /// Ends a node: mate, stalemate, or the best score, which is stored and compared with the evaluation.
    fn conclude<C: Console>(
        &mut self,
        s: &mut Searcher<C>,
        res: MoveResult,
        depth: i32,
        alpha: i32,
        beta: i32,
        ply: usize,
        in_check: bool,
        raw: i32,
    ) -> (v: i32)
        requires
            worker::fit(*old(self), *old(s)),
            worker::placed(old(self).pos, ply as int),
            res.wf(),
            0 <= depth <= MAX_DEPTH + 1,
            -100_000 <= raw <= 100_000,
        ensures
            worker::kept(*old(self), *old(s), *final(self), *final(s)),
            final(s).root_moves == old(s).root_moves,
            final(s).heard == old(s).heard,
            -FARTHEST <= v <= FARTHEST,
            run::conclude(
                searcher::tree_of(*old(self), *old(s)),
                res@,
                depth as int,
                alpha as int,
                beta as int,
                ply as int,
                in_check,
                raw as int,
            ) == (searcher::tree_of(*final(self), *final(s)), Some(v as int)),
    {
        proof {
            reveal(run::conclude);
        }
        if res.move_count == 0 {
            return if in_check {
                -MATE + ply as i32
            } else {
                0
            };
        }
        let bound: u8 = quiescence::bound_for(res.best_eval, alpha, beta);
        s.tt.store(self.pos.hash, ply, depth, res.best_eval, res.best_move, bound);
        if !in_check && res.best_eval < MATE_BOUND && res.best_eval > -MATE_BOUND {
            self.history.update_correction(self.pos.stm, self.pos.pawn_hash, res.best_eval - raw, depth);
        }
        res.best_eval
    }

    /// Searches a node that the table does not decide.
    #[verifier::rlimit(40)]
    fn expand<N: NodeType, C: Console>(
        &mut self,
        s: &mut Searcher<C>,
        depth: i32,
        alpha: i32,
        beta: i32,
        ply: usize,
        pv_move: Option<Move>,
        hint: Option<Move>,
    ) -> (r: Result<i32, SearchAborted>)
        requires
            worker::fit(*old(self), *old(s)),
            ply < MAX_PLY,
            worker::placed(old(self).pos, ply as int),
            old(self).pos.halfmove_clock < 100,
            kind_ok(N::kind(), *old(self), *old(s)),
            worker::window_ok(alpha as int, beta as int),
            1 <= depth <= MAX_DEPTH,
            hint == run::table_move(searcher::tree_of(*old(self), *old(s)), ply as int),
            hint matches Some(mv) ==> movegen::pseudo_legal(old(self).pos@, mv),
        ensures
            worker::kept(*old(self), *old(s), *final(self), *final(s)),
            r is Err ==> final(s).raised@,
            !N::kind().root() ==> final(s).root_moves == old(s).root_moves,
            worker::bounded(r),
            forall|o: Signals|
                searcher::continues(o, final(s).heard@) ==> #[trigger] run::expanded(
                    searcher::env_of(*old(s), o),
                    searcher::tree_of(*old(self), *old(s)),
                    N::kind(),
                    depth as int,
                    alpha as int,
                    beta as int,
                    ply as int,
                    pv_move,
                ) == (searcher::tree_of(*final(self), *final(s)), worker::outcome(r)),
        decreases 257 - ply, 9int,
    {
        let ghost t0 = searcher::tree_of(*self, *s);
        let ghost s0 = *s;
        let pv = match pv_move {
            Some(mv) => if movegen::is_pseudo_legal(&self.pos, mv) {
                pv_move
            } else {
                None
            },
            None => None,
        };
        let in_check = self.in_check();
        let d: i32 = if in_check {
            depth + 1
        } else {
            depth
        };
        let raw: i32 = if in_check {
            SCORE_NONE
        } else {
            eval::evaluate(&self.pos, &self.accumulator)
        };
        let ev: i32 = if in_check {
            SCORE_NONE
        } else {
            self.corrected_eval(s)
        };
        plies::set_static_eval(&mut self.stack, ply, ev);
        let ghost t1 = searcher::tree_of(*self, *s);
        proof {
            candidate::lemma_margin(s.cfg.search_params.rfp_margin as int, d as int);
        }
        if !in_check && !N::pv() && d <= s.cfg.search_params.rfp_depth && ev - s.cfg.search_params.rfp_margin * d
            >= beta {
            proof {
                reveal(run::expanded);
            }
            return Ok(ev);
        }
        let razored = self.try_razoring::<N, C>(s, in_check, d, ev, alpha, beta, ply);
        let ghost t2 = searcher::tree_of(*self, *s);
        let ghost s2 = *s;
        if let Some(x) = razored {
            proof {
                assert forall|o: Signals| searcher::continues(o, s.heard@) implies #[trigger] run::expanded(
                    searcher::env_of(s0, o),
                    t0,
                    N::kind(),
                    depth as int,
                    alpha as int,
                    beta as int,
                    ply as int,
                    pv_move,
                ) == (t2, worker::outcome(x)) by {
                    reveal(run::expanded);
                    assert(run::razor_step(
                        searcher::env_of(s0, o),
                        t1,
                        N::kind(),
                        in_check,
                        d as int,
                        ev as int,
                        alpha as int,
                        beta as int,
                        ply as int,
                    ) == Step::Return(t2, worker::outcome(x)));
                }
            }
            return x;
        }
        let nulled = self.try_null_move::<N, C>(s, in_check, d, ev, beta, ply);
        let ghost t3 = searcher::tree_of(*self, *s);
        let ghost s3 = *s;
        if let Some(x) = nulled {
            proof {
                assert forall|o: Signals| searcher::continues(o, s.heard@) implies #[trigger] run::expanded(
                    searcher::env_of(s0, o),
                    t0,
                    N::kind(),
                    depth as int,
                    alpha as int,
                    beta as int,
                    ply as int,
                    pv_move,
                ) == (t3, worker::outcome(x)) by {
                    reveal(run::expanded);
                    reveal(run::null_step);
                    searcher::lemma_continues(o, s3.heard@, s2.heard@);
                    let env = searcher::env_of(s0, o);
                    assert(searcher::env_of(s2, o) == env);
                    assert(run::razor_step(
                        env,
                        t1,
                        N::kind(),
                        in_check,
                        d as int,
                        ev as int,
                        alpha as int,
                        beta as int,
                        ply as int,
                    ) == Step::Continue(t2));
                    assert(run::null_step(env, t2, N::kind(), in_check, d as int, ev as int, beta as int, ply as int)
                        == Step::Return(t3, worker::outcome(x)));
                }
            }
            return x;
        }
        let r = self.play_out::<N, C>(s, d, alpha, beta, ply, in_check, raw, ev, pv, hint);
        let ghost t4 = searcher::tree_of(*self, *s);
        proof {
            assert forall|o: Signals| searcher::continues(o, s.heard@) implies #[trigger] run::expanded(
                searcher::env_of(s0, o),
                t0,
                N::kind(),
                depth as int,
                alpha as int,
                beta as int,
                ply as int,
                pv_move,
            ) == (t4, worker::outcome(r)) by {
                searcher::lemma_continues(o, s.heard@, s3.heard@);
                searcher::lemma_continues(o, s3.heard@, s2.heard@);
                let env = searcher::env_of(s0, o);
                assert(searcher::env_of(s2, o) == env);
                assert(searcher::env_of(s3, o) == env);
                assert(run::razor_step(
                    env,
                    t1,
                    N::kind(),
                    in_check,
                    d as int,
                    ev as int,
                    alpha as int,
                    beta as int,
                    ply as int,
                ) == Step::Continue(t2));
                assert(run::null_step(env, t2, N::kind(), in_check, d as int, ev as int, beta as int, ply as int)
                    == Step::Continue(t3));
                assert(run::played_out(
                    env,
                    t3,
                    N::kind(),
                    d as int,
                    alpha as int,
                    beta as int,
                    ply as int,
                    in_check,
                    raw as int,
                    ev as int,
                    pv,
                    hint,
                ) == (t4, worker::outcome(r)));
                lemma_expanded(
                    env,
                    t0,
                    N::kind(),
                    depth as int,
                    alpha as int,
                    beta as int,
                    ply as int,
                    pv_move,
                    t1,
                    t2,
                    t3,
                    d as int,
                    raw as int,
                    ev as int,
                );
            }
        }
        r
    }

    /// Searches the moves of a node that was not pruned.
    fn play_out<N: NodeType, C: Console>(
        &mut self,
        s: &mut Searcher<C>,
        depth: i32,
        alpha: i32,
        beta: i32,
        ply: usize,
        in_check: bool,
        raw: i32,
        ev: i32,
        pv: Option<Move>,
        hint: Option<Move>,
    ) -> (r: Result<i32, SearchAborted>)
        requires
            worker::fit(*old(self), *old(s)),
            ply < MAX_PLY,
            worker::placed(old(self).pos, ply as int),
            kind_ok(N::kind(), *old(self), *old(s)),
            worker::window_ok(alpha as int, beta as int),
            1 <= depth <= MAX_DEPTH + 1,
            !in_check ==> depth <= MAX_DEPTH,
            -100_000 <= raw <= 100_000,
            -100_000 <= ev <= 100_000,
            pv matches Some(mv) ==> movegen::pseudo_legal(old(self).pos@, mv),
            hint matches Some(mv) ==> movegen::pseudo_legal(old(self).pos@, mv),
        ensures
            worker::kept(*old(self), *old(s), *final(self), *final(s)),
            r is Err ==> final(s).raised@,
            !N::kind().root() ==> final(s).root_moves == old(s).root_moves,
            worker::bounded(r),
            forall|o: Signals|
                searcher::continues(o, final(s).heard@) ==> #[trigger] run::played_out(
                    searcher::env_of(*old(s), o),
                    searcher::tree_of(*old(self), *old(s)),
                    N::kind(),
                    depth as int,
                    alpha as int,
                    beta as int,
                    ply as int,
                    in_check,
                    raw as int,
                    ev as int,
                    pv,
                    hint,
                ) == (searcher::tree_of(*final(self), *final(s)), worker::outcome(r)),
        decreases 257 - ply, 8int,
    {
        let ghost t0 = searcher::tree_of(*self, *s);
        let ghost s0 = *s;
        let d: i32 = if depth >= 4 && hint.is_none() {
            depth - 1
        } else {
            depth
        };
        let cont = if ply > 0 {
            proof {
                assert(self.stack@[ply - 1].wf());
            }
            ContContext { pt: self.stack[ply - 1].moved_pt, to: self.stack[ply - 1].moved_to }
        } else {
            ContContext { pt: PieceType::Empty, to: Square(0) }
        };
        let hash_move = if hint.is_some() {
            hint
        } else {
            pv
        };
        let sc = NodeScene { depth: d, beta, ply, in_check, static_eval: ev, pv_move: pv, cont };
        let end = self.search_all::<N, C>(s, &sc, alpha, hash_move);
        let ghost t1 = searcher::tree_of(*self, *s);
        let r: Result<i32, SearchAborted> = match end {
            Err(e) => Err(e),
            Ok(res) => Ok(self.conclude(s, res, d, alpha, beta, ply, in_check, raw)),
        };
        let ghost t2 = searcher::tree_of(*self, *s);
        proof {
            assert forall|o: Signals| searcher::continues(o, s.heard@) implies #[trigger] run::played_out(
                searcher::env_of(s0, o),
                t0,
                N::kind(),
                depth as int,
                alpha as int,
                beta as int,
                ply as int,
                in_check,
                raw as int,
                ev as int,
                pv,
                hint,
            ) == (t2, worker::outcome(r)) by {
                reveal(run::played_out);
                reveal(run::all_moves);
                let env = searcher::env_of(s0, o);
                assert(sc.seen(N::kind()).cont == run::context(t0, ply as int));
                assert(run::all_moves(env, t0, sc.seen(N::kind()), alpha as int, hash_move) == (
                    t1,
                    match end {
                        Ok(x) => Some(x@),
                        Err(_) => None,
                    },
                ));
            }
        }
        r
    }

    /// Negamax with alpha-beta pruning. Chess is zero-sum: the score is maximized from the side to move's
    /// point of view at every node, and negated on the way up the tree.
    ///
    /// Whatever happens, the position, the accumulator and the trail are afterwards what they were before.
    pub(crate) fn negamax<N: NodeType, C: Console>(
        &mut self,
        s: &mut Searcher<C>,
        depth: i32,
        alpha: i32,
        beta: i32,
        ply: usize,
        pv_move: Option<Move>,
    ) -> (r: Result<i32, SearchAborted>)
        requires
            worker::fit(*old(self), *old(s)),
            worker::placed(old(self).pos, ply as int),
            kind_ok(N::kind(), *old(self), *old(s)),
            worker::window_ok(alpha as int, beta as int),
            depth_ok(depth as int),
        ensures
            worker::kept(*old(self), *old(s), *final(self), *final(s)),
            r is Err ==> final(s).raised@,
            !N::kind().root() ==> final(s).root_moves == old(s).root_moves,
            worker::bounded(r),
            forall|o: Signals|
                searcher::continues(o, final(s).heard@) ==> #[trigger] run::node(
                    searcher::env_of(*old(s), o),
                    searcher::tree_of(*old(self), *old(s)),
                    N::kind(),
                    depth as int,
                    alpha as int,
                    beta as int,
                    ply as int,
                    pv_move,
                ) == (searcher::tree_of(*final(self), *final(s)), worker::outcome(r)),
        decreases 257 - ply, 10int,
    {
        let ghost t0 = searcher::tree_of(*self, *s);
        let ghost s0 = *s;
        let gate = self.enter(s, ply);
        let ghost t1 = searcher::tree_of(*self, *s);
        let ghost s1 = *s;
        let mut hint: Option<Move> = None;
        let early: Option<Result<i32, SearchAborted>> = match gate {
            Gate::Abort => Some(Err(SearchAborted)),
            Gate::Draw => Some(Ok(0)),
            Gate::Open => if depth <= 0 {
                None
            } else if ply >= MAX_PLY {
                Some(Ok(eval::evaluate(&self.pos, &self.accumulator)))
            } else {
                let (cut, mv) = self.consult(s, N::pv(), depth, alpha, beta, ply, Ghost(N::kind()));
                hint = mv;
                match cut {
                    Some(v) => Some(Ok(v)),
                    None => None,
                }
            },
        };
        if let Some(r) = early {
            proof {
                assert forall|o: Signals| searcher::continues(o, s.heard@) implies #[trigger] run::node(
                    searcher::env_of(s0, o),
                    t0,
                    N::kind(),
                    depth as int,
                    alpha as int,
                    beta as int,
                    ply as int,
                    pv_move,
                ) == (t1, worker::outcome(r)) by {
                    reveal(run::node);
                    assert(run::entry(searcher::env_of(s0, o), t0, ply as int) == (t1, gate));
                }
            }
            return r;
        }
        let r = if depth <= 0 {
            self.qsearch::<N, C>(s, alpha, beta, ply)
        } else {
            self.expand::<N, C>(s, depth, alpha, beta, ply, pv_move, hint)
        };
        let ghost t2 = searcher::tree_of(*self, *s);
        proof {
            assert forall|o: Signals| searcher::continues(o, s.heard@) implies #[trigger] run::node(
                searcher::env_of(s0, o),
                t0,
                N::kind(),
                depth as int,
                alpha as int,
                beta as int,
                ply as int,
                pv_move,
            ) == (t2, worker::outcome(r)) by {
                reveal(run::node);
                reveal(run::expanded);
                searcher::lemma_continues(o, s.heard@, s1.heard@);
                let env = searcher::env_of(s0, o);
                assert(searcher::env_of(s1, o) == env);
                assert(run::entry(env, t0, ply as int) == (t1, gate));
                if depth <= 0 {
                    assert(run::quiet_node(env, t1, N::kind(), alpha as int, beta as int, ply as int) == (
                        t2,
                        worker::outcome(r),
                    ));
                } else {
                    assert(run::expanded(
                        env,
                        t1,
                        N::kind(),
                        depth as int,
                        alpha as int,
                        beta as int,
                        ply as int,
                        pv_move,
                    ) == (t2, worker::outcome(r)));
                }
            }
        }
        r
    }
}

proof fn lemma_expanded(
    env: run::Env,
    t: Tree,
    kind: NodeKind,
    depth: int,
    alpha: int,
    beta: int,
    ply: int,
    pv_move: Option<Move>,
    t1: Tree,
    t2: Tree,
    t3: Tree,
    d: int,
    raw: int,
    ev: int,
)
    requires
        ply < 256,
        d == if run::checked(t.pos) {
            depth + 1
        } else {
            depth
        },
        raw == if run::checked(t.pos) {
            SCORE_NONE as int
        } else {
            eval::score_of(t.acc, t.pos.stm)
        },
        ev == if run::checked(t.pos) {
            SCORE_NONE as int
        } else {
            run::corrected_eval(t)
        },
        t1 == run::with_ply(t, ply, (StackV { static_eval: ev as i32, ..t.stack[ply] })),
        !run::futile_to_play_on(env.cfg, kind, run::checked(t.pos), d, ev, beta),
        run::razor_step(env, t1, kind, run::checked(t.pos), d, ev, alpha, beta, ply) == Step::Continue(t2),
        run::null_step(env, t2, kind, run::checked(t.pos), d, ev, beta, ply) == Step::Continue(t3),
    ensures
        run::expanded(env, t, kind, depth, alpha, beta, ply, pv_move) == run::played_out(
            env,
            t3,
            kind,
            d,
            alpha,
            beta,
            ply,
            run::checked(t.pos),
            raw,
            ev,
            run::playable_hint(t.pos, pv_move),
            run::table_move(t, ply),
        ),
{
    reveal(run::expanded);
    reveal(run::null_step);
    reveal(run::played_out);
}

proof fn lemma_move_loop(env: run::Env, t: Tree, sc: run::Scene, res: ResV, pk: movepicker::PickerV)
    requires
        sc.ply < 256,
    ensures
        run::move_loop(env, t, sc, res, pk) == match movepicker::pick(pk, t.pos, t.hist) {
            (None, _) => (t, Some(res)),
            (Some(mv), next) => match run::move_step(env, t, sc, res, mv) {
                Turn::Stop(t2, r) => (t2, r),
                Turn::More(t2, res2) => run::move_loop(env, t2, sc, res2, next),
            },
        },
{
    reveal(run::move_loop);
    reveal(run::move_step);
}

} // verus!
