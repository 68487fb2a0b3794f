//! Principal variations, root moves and the per-ply stack.

use vstd::prelude::*;
use crate::engine::tt::SCORE_NONE;
use crate::moves::Move;
use crate::types::{PieceType, Square, FARTHEST, INF, MAX_PLY};

verus! {

/// The predicted best play for both sides.
#[derive(Clone, Copy, Debug)]
pub struct Line {
    pub moves: [Move; MAX_PLY],
    pub len: usize,
}

impl View for Line {
    type V = Seq<Move>;

    open spec fn view(&self) -> Seq<Move> {
        self.moves@.take(self.len as int)
    }
}

/// `mv` followed by `tail`, cut off at the longest line.
pub open spec fn joined(mv: Move, tail: Seq<Move>) -> Seq<Move> {
    seq![mv] + if tail.len() > MAX_PLY - 1 {
        tail.take(MAX_PLY - 1)
    } else {
        tail
    }
}

/// The line of a root move is empty or begins with it.
pub open spec fn own_line(r: RootV) -> bool {
    r.pv.len() > 0 ==> r.pv[0] == r.mv
}

/// The line of every root move is its own.
pub open spec fn own_lines(v: Seq<RootV>) -> bool {
    forall|i: int| 0 <= i < v.len() ==> own_line(#[trigger] v[i])
}

/// The move at place `i` of a line, if the line is that long.
pub open spec fn move_at(line: Seq<Move>, i: int) -> Option<Move> {
    if i < line.len() {
        Some(line[i])
    } else {
        None
    }
}

impl Line {
    pub open spec fn wf(self) -> bool {
        self.len <= MAX_PLY
    }

    pub fn new() -> (line: Line)
        ensures
            line.wf(),
            line.len == 0,
            line.moves@ == Seq::new(MAX_PLY as nat, |i: int| Move(0)),
            line@ == Seq::<Move>::empty(),
    {
        let blank = Move(0);
        let mut moves: [Move; MAX_PLY] = [blank; MAX_PLY];
        let mut i: usize = 0;
        while i < MAX_PLY
            invariant
                i <= MAX_PLY,
                blank == Move(0),
                forall|j: int| 0 <= j < i ==> moves[j] == blank,
            decreases MAX_PLY - i,
        {
            moves[i] = blank;
            i = i + 1;
        }
        let line = Line { moves, len: 0 };
        proof {
            assert(line.moves@ =~= Seq::new(MAX_PLY as nat, |i: int| Move(0)));
            assert(line@ =~= Seq::<Move>::empty());
        }
        line
    }

    /// Prepend `mv` to `tail`, forming a complete line.
    pub fn compose(&mut self, mv: Move, tail: &Line)
        requires
            tail.wf(),
        ensures
            final(self).wf(),
            final(self)@ == joined(mv, tail@),
    {
        let n: usize = if tail.len < MAX_PLY - 1 {
            tail.len
        } else {
            MAX_PLY - 1
        };
        self.moves[0] = mv;
        let mut i: usize = 0;
        while i < n
            invariant
                i <= n,
                n < MAX_PLY,
                self.moves[0] == mv,
                forall|j: int| 0 <= j < i ==> self.moves[j + 1] == tail.moves[j],
            decreases n - i,
        {
            self.moves[i + 1] = tail.moves[i];
            i = i + 1;
        }
        self.len = 1 + n;
        proof {
            let want = joined(mv, tail@);
            assert(self@.len() == want.len());
            assert forall|j: int| 0 <= j < self@.len() implies self@[j] == want[j] by {
                if j > 0 {
                    assert(self.moves[(j - 1) + 1] == tail.moves[j - 1]);
                }
            }
            assert(self@ =~= want);
        }
    }

    /// The move at place `idx`, if the line is that long.
    pub fn get(&self, idx: usize) -> (r: Option<Move>)
        requires
            self.wf(),
        ensures
            r == move_at(self@, idx as int),
    {
        if idx < self.len {
            Some(self.moves[idx])
        } else {
            None
        }
    }

    /// Forgets the line.
    pub fn clear(&mut self)
        ensures
            final(self).wf(),
            final(self)@ == Seq::<Move>::empty(),
    {
        self.len = 0;
        proof {
            assert(self@ =~= Seq::<Move>::empty());
        }
    }
}

impl Default for Line {
    fn default() -> (line: Self)
        ensures
            line.wf(),
            line@ == Seq::<Move>::empty(),
    {
        Line::new()
    }
}

/// A legal move at the root with its best known score.
///
/// After each iteration these are sorted by score, so that the strongest move is searched first next
/// time.
#[derive(Clone, Copy, Debug)]
pub struct RootMove {
    pub mv: Move,
    pub score: i32,
    pub pv: Line,
}

pub struct RootV {
    pub mv: Move,
    pub score: i32,
    pub pv: Seq<Move>,
}

impl View for RootMove {
    type V = RootV;

    open spec fn view(&self) -> RootV {
        RootV { mv: self.mv, score: self.score, pv: self.pv@ }
    }
}

/// A root move that has not been searched yet.
pub open spec fn unsearched(mv: Move) -> RootV {
    RootV { mv, score: (-INF) as i32, pv: Seq::empty() }
}

impl RootMove {
    pub open spec fn wf(self) -> bool {
        self.pv.wf() && -FARTHEST <= self.score <= FARTHEST && own_line(self@)
    }

    pub fn new(mv: Move) -> (rm: RootMove)
        ensures
            rm.wf(),
            rm@ == unsearched(mv),
    {
        RootMove { mv, score: -INF, pv: Line::new() }
    }
}

/// The contents of a list of root moves.
pub open spec fn roots_of(v: Seq<RootMove>) -> Seq<RootV> {
    Seq::new(v.len(), |i: int| v[i]@)
}

/// How many quiet moves of a node are remembered.
pub const MAX_TRACKED_QUIETS: usize = 256;

/// Per-ply scratch data.
#[derive(Clone, Copy, Debug)]
pub struct Stack {
    pub pv: Line,
    pub quiet_moves: [Move; MAX_TRACKED_QUIETS],
    pub quiet_count: usize,
    pub killers: (Move, Move),
    pub moved_pt: PieceType,
    pub moved_to: Square,
    pub static_eval: i32,
    pub is_null: bool,
}

#[verifier::ext_equal]
pub struct StackV {
    pub pv: Seq<Move>,
    pub quiets: Seq<Move>,
    pub killers: (Move, Move),
    pub moved_pt: PieceType,
    pub moved_to: Square,
    pub static_eval: i32,
    pub is_null: bool,
}

impl View for Stack {
    type V = StackV;

    open spec fn view(&self) -> StackV {
        StackV {
            pv: self.pv@,
            quiets: self.quiet_moves@.take(self.quiet_count as int),
            killers: self.killers,
            moved_pt: self.moved_pt,
            moved_to: self.moved_to,
            static_eval: self.static_eval,
            is_null: self.is_null,
        }
    }
}

/// The scratch data of a ply that was not visited yet.
pub open spec fn blank_ply() -> StackV {
    StackV {
        pv: Seq::empty(),
        quiets: Seq::empty(),
        killers: (Move(0), Move(0)),
        moved_pt: PieceType::Empty,
        moved_to: Square(0),
        static_eval: SCORE_NONE,
        is_null: false,
    }
}

impl Stack {
    pub open spec fn wf(self) -> bool {
        self.pv.wf() && self.quiet_count <= MAX_TRACKED_QUIETS && self.moved_to.wf()
    }
}

impl Default for Stack {
    fn default() -> (s: Self)
        ensures
            s.wf(),
            s@ == blank_ply(),
    {
        let s = Stack {
            pv: Line::new(),
            quiet_moves: [Move(0); MAX_TRACKED_QUIETS],
            quiet_count: 0,
            killers: (Move(0), Move(0)),
            moved_pt: PieceType::Empty,
            moved_to: Square(0),
            static_eval: SCORE_NONE,
            is_null: false,
        };
        proof {
            assert(s@.quiets =~= Seq::<Move>::empty());
        }
        s
    }
}

/// The contents of the per-ply stack.
pub open spec fn stack_of(v: Seq<Stack>) -> Seq<StackV> {
    Seq::new(v.len(), |i: int| v[i]@)
}

/// Every ply's scratch data is in order.
pub open spec fn stack_ok(v: Seq<Stack>) -> bool {
    v.len() == MAX_PLY + 1 && forall|i: int| 0 <= i < v.len() ==> (#[trigger] v[i]).wf()
}

/// Move execution result: counts, value and best move so far.
#[derive(Clone, Copy, Debug)]
pub struct MoveResult {
    pub move_count: usize,
    pub best_eval: i32,
    pub alpha: i32,
    pub best_move: Move,
}

/// Search was cut short: time, node limit or stop signal.
#[derive(Clone, Copy, Debug)]
pub struct SearchAborted;

} // verus!
