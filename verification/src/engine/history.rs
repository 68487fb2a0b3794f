//! What the search has learned: which quiet moves cut off, and how wrong the evaluation is.

use vstd::prelude::*;
use crate::arith;
use crate::types::{Color, PieceType, Square};

verus! {

/// No history score leaves the range from minus this bound to this bound.
pub const GRAVITY: i32 = 16_384;

/// Corrections are kept in units of one part of this scale.
pub const CORRECTION_SCALE: i32 = 256;

/// No correction leaves the range from minus this bound to this bound.
pub const CORRECTION_LIMIT: i32 = 16_384;

/// Pawn structures are told apart by their hash modulo this number.
pub const CORRECTION_SLOTS: u64 = 16_384;

/// The move that led to a position: the piece that moved, and where it went.
#[derive(Clone, Copy, PartialEq, Eq, Debug, Structural)]
pub struct ContContext {
    pub pt: PieceType,
    pub to: Square,
}

impl Default for ContContext {
    fn default() -> (c: Self)
        ensures
            c == (ContContext { pt: PieceType::Empty, to: Square(0) }),
    {
        ContContext { pt: PieceType::Empty, to: Square(0) }
    }
}

/// The contents of the three tables.
pub struct HistoryV {
    /// Scores by side, origin and destination.
    pub main: Seq<i16>,
    /// Scores by previous move and by the move's piece and destination.
    pub cont: Seq<i16>,
    /// Corrections of the evaluation by side and pawn structure.
    pub corr: Seq<i32>,
}

#[derive(Debug)]
pub struct History {
    main: Vec<i16>,
    cont: Vec<i16>,
    corr: Vec<i32>,
}

impl View for History {
    type V = HistoryV;

    closed spec fn view(&self) -> HistoryV {
        HistoryV { main: self.main@, cont: self.cont@, corr: self.corr@ }
    }
}

pub open spec fn main_slot(stm: Color, from: int, to: int) -> int {
    (stm.idx() * 64 + from) * 64 + to
}

pub open spec fn cont_slot(cont: ContContext, pt: PieceType, to: int) -> int {
    ((cont.pt.idx() * 64 + cont.to.0) * 7 + pt.idx()) * 64 + to
}

pub open spec fn corr_slot(stm: Color, key: u64) -> int {
    stm.idx() * 16384 + key as int % 16384
}

/// A score pulled toward the bound that the bonus points to, the more slowly the closer it is.
pub open spec fn pulled(v: int, bonus: int) -> int {
    v + bonus - arith::quot(v * arith::magnitude(bonus), GRAVITY as int)
}

/// The bonus, cut down to the bound.
pub open spec fn capped(bonus: int) -> int {
    arith::clamped(bonus, -GRAVITY as int, GRAVITY as int)
}

/// A correction drawn toward `diff`, by as many parts of the scale as `depth` allows.
pub open spec fn drawn(old: int, diff: int, depth: int) -> int {
    let w = arith::clamped(depth + 1, 1, 16);
    arith::clamped(
        arith::quot(old * (256 - w) + diff * 256 * w, 256),
        -CORRECTION_LIMIT as int,
        CORRECTION_LIMIT as int,
    )
}

impl HistoryV {
    /// Table sizes are right and every entry is within its bound.
    pub open spec fn wf(self) -> bool {
        &&& self.main.len() == 8192
        &&& self.cont.len() == 200_704
        &&& self.corr.len() == 32_768
        &&& forall|i: int| 0 <= i < 8192 ==> -GRAVITY <= #[trigger] self.main[i] <= GRAVITY
        &&& forall|i: int| 0 <= i < 200_704 ==> -GRAVITY <= #[trigger] self.cont[i] <= GRAVITY
        &&& forall|i: int| 0 <= i < 32_768 ==> -CORRECTION_LIMIT <= #[trigger] self.corr[i] <= CORRECTION_LIMIT
    }

    /// The score of a quiet move.
    pub open spec fn quiet_score(self, stm: Color, pt: PieceType, from: int, to: int, cont: ContContext) -> int {
        self.main[main_slot(stm, from, to)] + self.cont[cont_slot(cont, pt, to)]
    }

    /// The tables after a bonus for a quiet move.
    pub open spec fn rewarded(
        self,
        stm: Color,
        pt: PieceType,
        from: int,
        to: int,
        cont: ContContext,
        bonus: int,
    ) -> HistoryV {
        let (i, j) = (main_slot(stm, from, to), cont_slot(cont, pt, to));
        HistoryV {
            main: self.main.update(i, pulled(self.main[i] as int, capped(bonus)) as i16),
            cont: self.cont.update(j, pulled(self.cont[j] as int, capped(bonus)) as i16),
            corr: self.corr,
        }
    }

    /// The tables after the search found the evaluation to be off by `diff`.
    pub open spec fn corrected(self, stm: Color, key: u64, diff: int, depth: int) -> HistoryV {
        let i = corr_slot(stm, key);
        HistoryV { corr: self.corr.update(i, drawn(self.corr[i] as int, diff, depth) as i32), ..self }
    }
}

/// Tables of zeros.
pub open spec fn blank() -> HistoryV {
    HistoryV {
        main: Seq::new(8192, |i: int| 0),
        cont: Seq::new(200_704, |i: int| 0),
        corr: Seq::new(32_768, |i: int| 0),
    }
}

proof fn lemma_floor(x: int, m: int, t: int)
    by (nonlinear_arith)
    requires
        m > 0,
        t * m <= x,
    ensures
        x / m >= t,
{
}

proof fn lemma_ceiling(x: int, m: int, t: int)
    by (nonlinear_arith)
    requires
        m > 0,
        x <= t * m,
    ensures
        x / m <= t,
{
}

/// No bonus drives a history score beyond its bound.
pub proof fn law_gravity_bound(v: int, bonus: int)
    requires
        -GRAVITY <= v <= GRAVITY,
        -GRAVITY <= bonus <= GRAVITY,
    ensures
        -GRAVITY <= pulled(v, bonus) <= GRAVITY,
{
    let m: int = 16384;
    let a = arith::magnitude(v);
    let b = arith::magnitude(bonus);
    assert((m - a) * (m - b) >= 0) by (nonlinear_arith)
        requires
            a <= m,
            b <= m,
    ;
    assert((m - a) * (m - b) == m * m - m * a - m * b + a * b) by (nonlinear_arith);
    assert((a + b - m) * m == m * a + m * b - m * m) by (nonlinear_arith);
    assert(0 <= a * b <= a * m) by (nonlinear_arith)
        requires
            0 <= a,
            0 <= b <= m,
    ;
    lemma_floor(a * b, m, a + b - m);
    lemma_floor(a * b, m, 0);
    lemma_ceiling(a * b, m, a);
    if v >= 0 {
        assert(v * b == a * b);
    } else {
        assert(v * b == -(a * b)) by (nonlinear_arith)
            requires
                v == -a,
        ;
    }
}

fn pull(v: i16, bonus: i32) -> (r: i16)
    requires
        -GRAVITY <= v <= GRAVITY,
        -GRAVITY <= bonus <= GRAVITY,
    ensures
        r == pulled(v as int, bonus as int),
        -GRAVITY <= r <= GRAVITY,
{
    let x: i32 = v as i32;
    let weight: i32 = if bonus >= 0 {
        bonus
    } else {
        -bonus
    };
    proof {
        law_gravity_bound(v as int, bonus as int);
        assert(-16384 * 16384 <= x * weight <= 16384 * 16384) by (nonlinear_arith)
            requires
                -16384 <= x <= 16384,
                0 <= weight <= 16384,
        ;
    }
    let drag: i32 = arith::divide(x * weight, GRAVITY);
    (x + bonus - drag) as i16
}

fn zeros16(n: usize) -> (v: Vec<i16>)
    ensures
        v@ == Seq::new(n as nat, |i: int| 0i16),
{
    let mut v: Vec<i16> = Vec::new();
    while v.len() < n
        invariant
            v.len() <= n,
            forall|i: int| 0 <= i < v.len() ==> v@[i] == 0,
        decreases n - v.len(),
    {
        v.push(0);
    }
    proof {
        assert(v@ =~= Seq::new(n as nat, |i: int| 0i16));
    }
    v
}

fn zeros32(n: usize) -> (v: Vec<i32>)
    ensures
        v@ == Seq::new(n as nat, |i: int| 0i32),
{
    let mut v: Vec<i32> = Vec::new();
    while v.len() < n
        invariant
            v.len() <= n,
            forall|i: int| 0 <= i < v.len() ==> v@[i] == 0,
        decreases n - v.len(),
    {
        v.push(0);
    }
    proof {
        assert(v@ =~= Seq::new(n as nat, |i: int| 0i32));
    }
    v
}

impl Clone for History {
    fn clone(&self) -> (r: Self)
        ensures
            r@ == self@,
    {
        let r = History { main: self.main.clone(), cont: self.cont.clone(), corr: self.corr.clone() };
        proof {
            assert(r.main@ =~= self.main@);
            assert(r.cont@ =~= self.cont@);
            assert(r.corr@ =~= self.corr@);
        }
        r
    }
}

impl History {
    /// Tables in which nothing has been learned yet.
    pub fn new() -> (h: History)
        ensures
            h@ == blank(),
            h@.wf(),
    {
        History { main: zeros16(8192), cont: zeros16(200_704), corr: zeros32(32_768) }
    }

    /// Forgets everything.
    pub fn clear(&mut self)
        ensures
            final(self)@ == blank(),
            final(self)@.wf(),
    {
        *self = History::new();
    }

    /// Rewards a quiet move, or punishes it with a negative bonus.
    pub fn update(&mut self, stm: Color, pt: PieceType, from: Square, to: Square, cont: ContContext, bonus: i32)
        requires
            old(self)@.wf(),
            from.wf(),
            to.wf(),
            cont.to.wf(),
        ensures
            final(self)@.wf(),
            final(self)@ == old(self)@.rewarded(stm, pt, from.0 as int, to.0 as int, cont, bonus as int),
    {
        let b: i32 = arith::clamp(bonus, -GRAVITY, GRAVITY);
        let i: usize = (stm.as_usize() * 64 + from.0 as usize) * 64 + to.0 as usize;
        let j: usize = ((cont.pt.as_usize() * 64 + cont.to.0 as usize) * 7 + pt.as_usize()) * 64 + to.0 as usize;
        let x: i16 = self.main[i];
        let y: i16 = self.cont[j];
        proof {
            assert(x == self@.main[i as int]);
            assert(y == self@.cont[j as int]);
        }
        self.main[i] = pull(x, b);
        self.cont[j] = pull(y, b);
    }

    /// The combined score of a quiet move.
    pub fn score_quiet(&self, stm: Color, pt: PieceType, from: Square, to: Square, cont: ContContext) -> (r: i32)
        requires
            self@.wf(),
            from.wf(),
            to.wf(),
            cont.to.wf(),
        ensures
            r == self@.quiet_score(stm, pt, from.0 as int, to.0 as int, cont),
            -2 * GRAVITY <= r <= 2 * GRAVITY,
    {
        let i: usize = (stm.as_usize() * 64 + from.0 as usize) * 64 + to.0 as usize;
        let j: usize = ((cont.pt.as_usize() * 64 + cont.to.0 as usize) * 7 + pt.as_usize()) * 64 + to.0 as usize;
        proof {
            assert(self.main[i as int] == self@.main[i as int]);
            assert(self.cont[j as int] == self@.cont[j as int]);
        }
        self.main[i] as i32 + self.cont[j] as i32
    }

    /// The correction for a pawn structure, in parts of the scale.
    pub fn correction(&self, stm: Color, key: u64) -> (r: i32)
        requires
            self@.wf(),
        ensures
            r == self@.corr[corr_slot(stm, key)],
            -CORRECTION_LIMIT <= r <= CORRECTION_LIMIT,
    {
        let i: usize = stm.as_usize() * 16384 + (key % CORRECTION_SLOTS) as usize;
        proof {
            assert(self.corr[i as int] == self@.corr[i as int]);
        }
        self.corr[i]
    }

    /// Records that the evaluation of a pawn structure was off by `diff`.
    pub fn update_correction(&mut self, stm: Color, key: u64, diff: i32, depth: i32)
        requires
            old(self)@.wf(),
            -200_000 <= diff <= 200_000,
            -1000 <= depth <= 1000,
        ensures
            final(self)@.wf(),
            final(self)@ == old(self)@.corrected(stm, key, diff as int, depth as int),
    {
        let i: usize = stm.as_usize() * 16384 + (key % CORRECTION_SLOTS) as usize;
        let w: i32 = arith::clamp(depth + 1, 1, 16);
        let x: i32 = self.corr[i];
        proof {
            assert(x == self@.corr[i as int]);
            assert(-16384 * 256 <= x * (256 - w) <= 16384 * 256) by (nonlinear_arith)
                requires
                    -16384 <= x <= 16384,
                    1 <= w <= 16,
            ;
            assert(-200_000 * 256 * 16 <= diff * 256 * w <= 200_000 * 256 * 16) by (nonlinear_arith)
                requires
                    -200_000 <= diff <= 200_000,
                    1 <= w <= 16,
            ;
        }
        let sum: i32 = x * (256 - w) + diff * 256 * w;
        let y: i32 = arith::clamp(arith::divide(sum, 256), -CORRECTION_LIMIT, CORRECTION_LIMIT);
        self.corr[i] = y;
    }
}

} // verus!
