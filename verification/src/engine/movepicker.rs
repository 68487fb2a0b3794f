//! Staged move ordering: hash move, captures, killers, quiet moves.

use vstd::prelude::*;
use crate::board::model;
use crate::board::model::PositionV;
use crate::board::position::Position;
use crate::engine::history::{ContContext, History, HistoryV};
use crate::engine::movegen;
use crate::engine::search::config::SearchConfig;
use crate::engine::search_params::PARAM_MAX;
use crate::moves::Move;
use crate::types::{PieceType, Square};

verus! {

/// A move and what it is expected to be worth.
#[derive(Clone, Copy, PartialEq, Eq, Debug, Structural)]
pub struct Scored {
    pub mv: Move,
    pub score: i32,
}

/// The hash move is next.
pub const STAGE_HASH: u8 = 0;

/// The tactical moves have to be listed.
pub const STAGE_LIST_TACTICAL: u8 = 1;

/// The tactical moves are handed out.
pub const STAGE_TACTICAL: u8 = 2;

/// The first killer is next.
pub const STAGE_KILLER_ONE: u8 = 3;

/// The second killer is next.
pub const STAGE_KILLER_TWO: u8 = 4;

/// The quiet moves have to be listed.
pub const STAGE_LIST_QUIET: u8 = 5;

/// The quiet moves are handed out.
pub const STAGE_QUIET: u8 = 6;

/// Nothing is left.
pub const STAGE_DONE: u8 = 7;

/// How far a picker has come.
pub struct PickerV {
    pub hash_move: Option<Move>,
    pub killers: (Move, Move),
    pub cont: ContContext,
    pub victims: Seq<i32>,
    pub attackers: Seq<i32>,
    /// Only captures and queen promotions are wanted.
    pub noisy_only: bool,
    pub stage: u8,
    pub list: Seq<Scored>,
}

/// A capture or a promotion.
pub open spec fn tactical(mv: Move) -> bool {
    mv.captures() || mv.promoted() is Some
}

/// The move belongs to the tactical list.
pub open spec fn wanted(noisy_only: bool, mv: Move) -> bool {
    if noisy_only {
        mv.captures() || mv.promoted() == Some(PieceType::Queen)
    } else {
        tactical(mv)
    }
}

/// Most valuable victim first, least valuable attacker first, promotions by the new piece.
pub open spec fn tactical_score(pk: PickerV, p: PositionV, mv: Move) -> int {
    let victim = if model::takes_ep(p.board, mv) {
        PieceType::Pawn
    } else {
        model::taken(p.board, mv)
    };
    let promotion = match mv.promoted() {
        Some(pt) => pk.victims[pt.idx()] as int,
        None => 0,
    };
    pk.victims[victim.idx()] - pk.attackers[model::type_at(p.board, mv.src()).idx()] + promotion
}

pub open spec fn quiet_score(pk: PickerV, p: PositionV, h: HistoryV, mv: Move) -> int {
    h.quiet_score(p.stm, model::type_at(p.board, mv.src()), mv.src(), mv.dst(), pk.cont)
}

/// The wanted tactical moves among the first `n` of `ms`, with their scores.
pub open spec fn tactical_upto(pk: PickerV, p: PositionV, ms: Seq<Move>, n: int) -> Seq<Scored>
    decreases n,
{
    if n <= 0 {
        Seq::empty()
    } else if wanted(pk.noisy_only, ms[n - 1]) {
        tactical_upto(pk, p, ms, n - 1).push(
            Scored { mv: ms[n - 1], score: tactical_score(pk, p, ms[n - 1]) as i32 },
        )
    } else {
        tactical_upto(pk, p, ms, n - 1)
    }
}

/// The quiet moves among the first `n` of `ms`, with their scores.
pub open spec fn quiet_upto(pk: PickerV, p: PositionV, h: HistoryV, ms: Seq<Move>, n: int) -> Seq<Scored>
    decreases n,
{
    if n <= 0 {
        Seq::empty()
    } else if !tactical(ms[n - 1]) {
        quiet_upto(pk, p, h, ms, n - 1).push(
            Scored { mv: ms[n - 1], score: quiet_score(pk, p, h, ms[n - 1]) as i32 },
        )
    } else {
        quiet_upto(pk, p, h, ms, n - 1)
    }
}

/// The place of the first highest score among the first `n` of a list.
pub open spec fn top_upto(list: Seq<Scored>, n: int) -> int
    decreases n,
{
    if n <= 1 {
        0
    } else {
        let best = top_upto(list, n - 1);
        if list[n - 1].score > list[best].score {
            n - 1
        } else {
            best
        }
    }
}

/// The place of the first highest score of a list.
pub open spec fn top(list: Seq<Scored>) -> int {
    top_upto(list, list.len() as int)
}

/// A killer that is handed out ahead of the quiet moves.
pub open spec fn usable(pk: PickerV, p: PositionV, mv: Move) -> bool {
    mv.0 != 0 && !tactical(mv) && movegen::pseudo_legal(p, mv) && pk.hash_move != Some(mv)
}

/// The move was handed out before the quiet moves.
pub open spec fn already_given(pk: PickerV, mv: Move) -> bool {
    pk.hash_move == Some(mv) || pk.killers.0 == mv || pk.killers.1 == mv
}

/// The next move, and how far the picker has come then.
pub open spec fn pick(pk: PickerV, p: PositionV, h: HistoryV) -> (Option<Move>, PickerV)
    decreases 8 - pk.stage, pk.list.len(),
{
    let ms = movegen::pseudo_moves(p);
    if pk.stage == STAGE_HASH {
        let next = PickerV { stage: STAGE_LIST_TACTICAL, ..pk };
        if pk.hash_move is Some {
            (pk.hash_move, next)
        } else {
            pick(next, p, h)
        }
    } else if pk.stage == STAGE_LIST_TACTICAL {
        pick(PickerV { stage: STAGE_TACTICAL, list: tactical_upto(pk, p, ms, ms.len() as int), ..pk }, p, h)
    } else if pk.stage == STAGE_TACTICAL {
        if pk.list.len() == 0 {
            let stage = if pk.noisy_only {
                STAGE_DONE
            } else {
                STAGE_KILLER_ONE
            };
            pick(PickerV { stage, ..pk }, p, h)
        } else {
            let i = top(pk.list);
            let mv = pk.list[i].mv;
            proof {
                lemma_top(pk.list, pk.list.len() as int);
            }
            let next = PickerV { list: pk.list.remove(i), ..pk };
            if pk.hash_move == Some(mv) {
                pick(next, p, h)
            } else {
                (Some(mv), next)
            }
        }
    } else if pk.stage == STAGE_KILLER_ONE {
        let next = PickerV { stage: STAGE_KILLER_TWO, ..pk };
        if usable(pk, p, pk.killers.0) {
            (Some(pk.killers.0), next)
        } else {
            pick(next, p, h)
        }
    } else if pk.stage == STAGE_KILLER_TWO {
        let next = PickerV { stage: STAGE_LIST_QUIET, ..pk };
        if usable(pk, p, pk.killers.1) && pk.killers.1 != pk.killers.0 {
            (Some(pk.killers.1), next)
        } else {
            pick(next, p, h)
        }
    } else if pk.stage == STAGE_LIST_QUIET {
        pick(PickerV { stage: STAGE_QUIET, list: quiet_upto(pk, p, h, ms, ms.len() as int), ..pk }, p, h)
    } else if pk.stage == STAGE_QUIET {
        if pk.list.len() == 0 {
            (None, PickerV { stage: STAGE_DONE, ..pk })
        } else {
            let i = top(pk.list);
            let mv = pk.list[i].mv;
            proof {
                lemma_top(pk.list, pk.list.len() as int);
            }
            let next = PickerV { list: pk.list.remove(i), ..pk };
            if already_given(pk, mv) {
                pick(next, p, h)
            } else {
                (Some(mv), next)
            }
        }
    } else {
        (None, pk)
    }
}

pub proof fn lemma_top(list: Seq<Scored>, n: int)
    requires
        0 <= n <= list.len(),
    ensures
        n > 0 ==> 0 <= top_upto(list, n) < n,
        forall|j: int| 0 <= j < n ==> (#[trigger] list[j]).score <= list[top_upto(list, n)].score,
    decreases n,
{
    if n > 1 {
        lemma_top(list, n - 1);
    }
}

/// Each pick brings a picker nearer to its end.
pub proof fn lemma_pick_advances(pk: PickerV, p: PositionV, h: HistoryV)
    ensures
        pick(pk, p, h).0 is Some ==> pk.stage <= pick(pk, p, h).1.stage <= STAGE_DONE,
        pick(pk, p, h).0 is Some && pick(pk, p, h).1.stage == pk.stage ==> pick(pk, p, h).1.list.len()
            < pk.list.len(),
    decreases 8 - pk.stage, pk.list.len(),
{
    let ms = movegen::pseudo_moves(p);
    if pk.stage == STAGE_HASH {
        lemma_pick_advances(PickerV { stage: STAGE_LIST_TACTICAL, ..pk }, p, h);
    } else if pk.stage == STAGE_LIST_TACTICAL {
        lemma_pick_advances(
            PickerV { stage: STAGE_TACTICAL, list: tactical_upto(pk, p, ms, ms.len() as int), ..pk },
            p,
            h,
        );
    } else if pk.stage == STAGE_TACTICAL {
        if pk.list.len() == 0 {
            lemma_pick_advances(PickerV { stage: STAGE_DONE, ..pk }, p, h);
            lemma_pick_advances(PickerV { stage: STAGE_KILLER_ONE, ..pk }, p, h);
        } else {
            lemma_top(pk.list, pk.list.len() as int);
            lemma_pick_advances(PickerV { list: pk.list.remove(top(pk.list)), ..pk }, p, h);
        }
    } else if pk.stage == STAGE_KILLER_ONE {
        lemma_pick_advances(PickerV { stage: STAGE_KILLER_TWO, ..pk }, p, h);
    } else if pk.stage == STAGE_KILLER_TWO {
        lemma_pick_advances(PickerV { stage: STAGE_LIST_QUIET, ..pk }, p, h);
    } else if pk.stage == STAGE_LIST_QUIET {
        lemma_pick_advances(
            PickerV { stage: STAGE_QUIET, list: quiet_upto(pk, p, h, ms, ms.len() as int), ..pk },
            p,
            h,
        );
    } else if pk.stage == STAGE_QUIET {
        if pk.list.len() > 0 {
            lemma_top(pk.list, pk.list.len() as int);
            lemma_pick_advances(PickerV { list: pk.list.remove(top(pk.list)), ..pk }, p, h);
        }
    }
}

pub struct MovePicker {
    hash_move: Option<Move>,
    killers: (Move, Move),
    cont: ContContext,
    victims: [i32; 8],
    attackers: [i32; 8],
    noisy_only: bool,
    stage: u8,
    list: Vec<Scored>,
}

impl View for MovePicker {
    type V = PickerV;

    closed spec fn view(&self) -> PickerV {
        PickerV {
            hash_move: self.hash_move,
            killers: self.killers,
            cont: self.cont,
            victims: self.victims@,
            attackers: self.attackers@,
            noisy_only: self.noisy_only,
            stage: self.stage,
            list: self.list@,
        }
    }
}

pub open spec fn table_in_range(t: Seq<i32>) -> bool {
    t.len() == 8 && forall|i: int| 0 <= i < 8 ==> -PARAM_MAX <= #[trigger] t[i] <= PARAM_MAX
}

impl PickerV {
    /// The picker serves position `p`: what it still hands out is pseudo-legal there.
    pub open spec fn serves(self, p: PositionV) -> bool {
        &&& self.stage <= STAGE_DONE
        &&& table_in_range(self.victims)
        &&& table_in_range(self.attackers)
        &&& self.cont.to.wf()
        &&& self.hash_move matches Some(m) ==> movegen::pseudo_legal(p, m)
        &&& forall|i: int| 0 <= i < self.list.len() ==> movegen::pseudo_legal(p, (#[trigger] self.list[i]).mv)
    }
}

/// A fresh picker.
pub open spec fn fresh(
    hash_move: Option<Move>,
    killers: (Move, Move),
    cont: ContContext,
    victims: Seq<i32>,
    attackers: Seq<i32>,
    noisy_only: bool,
) -> PickerV {
    PickerV { hash_move, killers, cont, victims, attackers, noisy_only, stage: STAGE_HASH, list: Seq::empty() }
}

fn best_place(list: &Vec<Scored>) -> (i: usize)
    requires
        list.len() > 0,
    ensures
        i == top(list@),
        i < list.len(),
{
    let mut best: usize = 0;
    let mut n: usize = 1;
    while n < list.len()
        invariant
            1 <= n <= list.len(),
            best < n,
            best == top_upto(list@, n as int),
        decreases list.len() - n,
    {
        if list[n].score > list[best].score {
            best = n;
        }
        n = n + 1;
    }
    best
}

impl MovePicker {
    /// A picker for an interior node of the main search.
    pub fn new(hash_move: Option<Move>, cfg: &SearchConfig, killers: (Move, Move), cont: ContContext) -> (pk: MovePicker)
        requires
            cfg.wf(),
        ensures
            pk@ == fresh(hash_move, killers, cont, cfg.mvvlva_v@, cfg.mvvlva_a@, false),
            table_in_range(pk@.victims),
            table_in_range(pk@.attackers),
    {
        let pk = MovePicker {
            hash_move,
            killers,
            cont,
            victims: cfg.mvvlva_v,
            attackers: cfg.mvvlva_a,
            noisy_only: false,
            stage: STAGE_HASH,
            list: Vec::new(),
        };
        proof {
            assert(pk@.list =~= Seq::empty());
        }
        pk
    }

    /// A picker for the quiescence search: captures and queen promotions, or everything when in check.
    pub fn new_qsearch(hash_move: Option<Move>, cfg: &SearchConfig, in_check: bool) -> (pk: MovePicker)
        requires
            cfg.wf(),
        ensures
            pk@ == fresh(
                hash_move,
                (Move(0), Move(0)),
                (ContContext { pt: PieceType::Empty, to: Square(0) }),
                cfg.mvvlva_v@,
                cfg.mvvlva_a@,
                !in_check,
            ),
            table_in_range(pk@.victims),
            table_in_range(pk@.attackers),
    {
        let pk = MovePicker {
            hash_move,
            killers: (Move(0), Move(0)),
            cont: ContContext { pt: PieceType::Empty, to: Square(0) },
            victims: cfg.mvvlva_v,
            attackers: cfg.mvvlva_a,
            noisy_only: !in_check,
            stage: STAGE_HASH,
            list: Vec::new(),
        };
        proof {
            assert(pk@.list =~= Seq::empty());
        }
        pk
    }

    fn score_tactical(&self, pos: &Position, mv: Move) -> (r: i32)
        requires
            pos.wf(),
            table_in_range(self@.victims),
            table_in_range(self@.attackers),
        ensures
            r == tactical_score(self@, pos@, mv),
    {
        let there = if mv.is_castling() {
            PieceType::Empty
        } else {
            pos.piece_at(mv.to())
        };
        let victim = if there == PieceType::Empty && mv.is_en_passant() {
            PieceType::Pawn
        } else {
            there
        };
        let attacker = pos.piece_at(mv.from());
        let ghost vs = self@.victims;
        let ghost ats = self@.attackers;
        proof {
            assert(-PARAM_MAX <= vs[victim.idx()] <= PARAM_MAX);
            assert(-PARAM_MAX <= ats[attacker.idx()] <= PARAM_MAX);
        }
        let promotion: i32 = match mv.promo() {
            Some(pt) => {
                proof {
                    assert(-PARAM_MAX <= vs[pt.idx()] <= PARAM_MAX);
                }
                self.victims[pt.as_usize()]
            },
            None => 0,
        };
        self.victims[victim.as_usize()] - self.attackers[attacker.as_usize()] + promotion
    }

    fn list_tactical(&mut self, pos: &Position)
        requires
            pos.wf(),
            old(self)@.serves(pos@),
        ensures
            final(self)@ == (PickerV {
                stage: STAGE_TACTICAL,
                list: tactical_upto(
                    old(self)@,
                    pos@,
                    movegen::pseudo_moves(pos@),
                    movegen::pseudo_moves(pos@).len() as int,
                ),
                ..old(self)@
            }),
            final(self)@.serves(pos@),
    {
        let ms = movegen::gen_pseudo_moves(pos);
        let ghost pk = self@;
        let mut list: Vec<Scored> = Vec::new();
        let mut i: usize = 0;
        proof {
            movegen::law_pseudo_moves_exact(pos@);
        }
        while i < ms.len()
            invariant
                i <= ms.len(),
                pos.wf(),
                self@ == pk,
                pk.serves(pos@),
                ms@ == movegen::pseudo_moves(pos@),
                forall|mv: Move| ms@.contains(mv) <==> #[trigger] movegen::pseudo_legal(pos@, mv),
                list@ == tactical_upto(pk, pos@, ms@, i as int),
                forall|j: int| 0 <= j < list.len() ==> movegen::pseudo_legal(pos@, (#[trigger] list@[j]).mv),
            decreases ms.len() - i,
        {
            let mv = ms[i];
            proof {
                assert(ms@.contains(mv));
            }
            let take = if self.noisy_only {
                mv.is_capture() || mv.promo() == Some(PieceType::Queen)
            } else {
                mv.is_tactical()
            };
            if take {
                let score: i32 = self.score_tactical(pos, mv);
                list.push(Scored { mv, score });
            }
            i = i + 1;
        }
        self.list = list;
        self.stage = STAGE_TACTICAL;
    }

    fn list_quiet(&mut self, pos: &Position, hist: &History)
        requires
            pos.wf(),
            hist@.wf(),
            old(self)@.serves(pos@),
        ensures
            final(self)@ == (PickerV {
                stage: STAGE_QUIET,
                list: quiet_upto(
                    old(self)@,
                    pos@,
                    hist@,
                    movegen::pseudo_moves(pos@),
                    movegen::pseudo_moves(pos@).len() as int,
                ),
                ..old(self)@
            }),
            final(self)@.serves(pos@),
    {
        let ms = movegen::gen_pseudo_moves(pos);
        let ghost pk = self@;
        let mut list: Vec<Scored> = Vec::new();
        let mut i: usize = 0;
        proof {
            movegen::law_pseudo_moves_exact(pos@);
        }
        while i < ms.len()
            invariant
                i <= ms.len(),
                pos.wf(),
                hist@.wf(),
                self@ == pk,
                pk.serves(pos@),
                ms@ == movegen::pseudo_moves(pos@),
                forall|mv: Move| ms@.contains(mv) <==> #[trigger] movegen::pseudo_legal(pos@, mv),
                list@ == quiet_upto(pk, pos@, hist@, ms@, i as int),
                forall|j: int| 0 <= j < list.len() ==> movegen::pseudo_legal(pos@, (#[trigger] list@[j]).mv),
            decreases ms.len() - i,
        {
            let mv = ms[i];
            proof {
                assert(ms@.contains(mv));
            }
            if mv.is_quiet() {
                let score: i32 = hist.score_quiet(pos.stm, pos.piece_at(mv.from()), mv.from(), mv.to(), self.cont);
                list.push(Scored { mv, score });
            }
            i = i + 1;
        }
        self.list = list;
        self.stage = STAGE_QUIET;
    }

    fn is_usable(&self, pos: &Position, mv: Move) -> (r: bool)
        requires
            pos.wf(),
        ensures
            r == usable(self@, pos@, mv),
    {
        !mv.is_null() && mv.is_quiet() && movegen::is_pseudo_legal(pos, mv) && self.hash_move != Some(mv)
    }

    fn take_top(&mut self, Ghost(p): Ghost<PositionV>) -> (mv: Move)
        requires
            old(self)@.list.len() > 0,
            old(self)@.serves(p),
        ensures
            mv == old(self)@.list[top(old(self)@.list)].mv,
            movegen::pseudo_legal(p, mv),
            final(self)@ == (PickerV { list: old(self)@.list.remove(top(old(self)@.list)), ..old(self)@ }),
            final(self)@.list.len() == old(self)@.list.len() - 1,
            final(self)@.serves(p),
    {
        let i: usize = best_place(&self.list);
        let ghost before = self@.list;
        proof {
            assert(movegen::pseudo_legal(p, before[i as int].mv));
        }
        let best = self.list.remove(i);
        proof {
            assert forall|j: int| 0 <= j < self@.list.len() implies movegen::pseudo_legal(
                p,
                (#[trigger] self@.list[j]).mv,
            ) by {
                if j < i {
                    assert(self@.list[j] == before[j]);
                } else {
                    assert(self@.list[j] == before[j + 1]);
                }
            }
        }
        best.mv
    }

    /// The next move to try, best first within each stage.
    pub fn next(&mut self, pos: &Position, hist: &History) -> (r: Option<Move>)
        requires
            pos.wf(),
            hist@.wf(),
            old(self)@.serves(pos@),
        ensures
            (r, final(self)@) == pick(old(self)@, pos@, hist@),
            final(self)@.serves(pos@),
            r matches Some(mv) ==> movegen::pseudo_legal(pos@, mv),
    {
        let ghost want = pick(self@, pos@, hist@);
        if self.stage == STAGE_HASH {
            self.stage = STAGE_LIST_TACTICAL;
            if self.hash_move.is_some() {
                return self.hash_move;
            }
        }
        proof {
            assert(want == pick(self@, pos@, hist@));
        }
        if self.stage == STAGE_LIST_TACTICAL {
            self.list_tactical(pos);
        }
        proof {
            assert(want == pick(self@, pos@, hist@));
        }
        if self.stage == STAGE_TACTICAL {
            while self.list.len() > 0
                invariant
                    pos.wf(),
                    self@.serves(pos@),
                    self@.stage == STAGE_TACTICAL,
                    want == pick(old(self)@, pos@, hist@),
                    want == pick(self@, pos@, hist@),
                decreases self.list.len(),
            {
                let mv = self.take_top(Ghost(pos@));
                if self.hash_move != Some(mv) {
                    return Some(mv);
                }
            }
            self.stage = if self.noisy_only {
                STAGE_DONE
            } else {
                STAGE_KILLER_ONE
            };
        }
        proof {
            assert(want == pick(self@, pos@, hist@));
        }
        if self.stage == STAGE_KILLER_ONE {
            let mv = self.killers.0;
            let good = self.is_usable(pos, mv);
            self.stage = STAGE_KILLER_TWO;
            if good {
                return Some(mv);
            }
        }
        proof {
            assert(want == pick(self@, pos@, hist@));
        }
        if self.stage == STAGE_KILLER_TWO {
            let mv = self.killers.1;
            let good = self.is_usable(pos, mv) && mv != self.killers.0;
            self.stage = STAGE_LIST_QUIET;
            if good {
                return Some(mv);
            }
        }
        proof {
            assert(want == pick(self@, pos@, hist@));
        }
        if self.stage == STAGE_LIST_QUIET {
            self.list_quiet(pos, hist);
        }
        proof {
            assert(want == pick(self@, pos@, hist@));
        }
        if self.stage == STAGE_QUIET {
            while self.list.len() > 0
                invariant
                    pos.wf(),
                    self@.serves(pos@),
                    self@.stage == STAGE_QUIET,
                    want == pick(old(self)@, pos@, hist@),
                    want == pick(self@, pos@, hist@),
                decreases self.list.len(),
            {
                let mv = self.take_top(Ghost(pos@));
                if self.hash_move != Some(mv) && self.killers.0 != mv && self.killers.1 != mv {
                    return Some(mv);
                }
            }
            self.stage = STAGE_DONE;
        }
        proof {
            assert(want == (None::<Move>, self@));
        }
        None
    }
}

} // verus!
