//! The transposition table: results of earlier searches, by position hash.

use vstd::prelude::*;
use crate::moves::Move;
use crate::types::{FARTHEST, INF, MATE_BOUND};

verus! {

/// The entry is empty.
pub const BOUND_NONE: u8 = 0;

/// The true score is at most the stored one.
pub const BOUND_UPPER: u8 = 1;

/// The true score is at least the stored one.
pub const BOUND_LOWER: u8 = 2;

/// The stored score is the true one.
pub const BOUND_EXACT: u8 = 3;

/// Stands for "no score".
pub const SCORE_NONE: i32 = 60_000;

#[derive(Clone, Copy, PartialEq, Eq, Debug, Structural)]
pub struct Entry {
    pub key: u64,
    pub mv: Move,
    pub score: i32,
    pub depth: i32,
    pub bound: u8,
}

pub open spec fn vacant() -> Entry {
    Entry { key: 0, mv: Move(0), score: 0, depth: 0, bound: BOUND_NONE }
}

#[derive(Debug)]
pub struct TranspositionTable {
    entries: Vec<Entry>,
}

impl View for TranspositionTable {
    type V = Seq<Entry>;

    closed spec fn view(&self) -> Seq<Entry> {
        self.entries@
    }
}

/// The scores in the table leave room for the distance of a mate.
pub open spec fn table_ok(t: Seq<Entry>) -> bool {
    &&& t.len() > 0
    &&& t.len() <= usize::MAX
    &&& forall|i: int| 0 <= i < t.len() ==> -FARTHEST - 256 <= #[trigger] t[i].score <= FARTHEST + 256
}

/// The slot of a key.
pub open spec fn slot(t: Seq<Entry>, key: u64) -> int {
    key as int % t.len() as int
}

/// A score as it is stored: mates count from the node, not from the root.
pub open spec fn from_root(score: int, ply: int) -> int {
    if score > MATE_BOUND {
        score + ply
    } else if score < -MATE_BOUND {
        score - ply
    } else {
        score
    }
}

/// A stored score as the node at `ply` sees it.
pub open spec fn from_node(score: int, ply: int) -> int {
    let s = if score > MATE_BOUND {
        score - ply
    } else if score < -MATE_BOUND {
        score + ply
    } else {
        score
    };
    if s > INF {
        INF as int
    } else if s < -INF {
        -INF as int
    } else {
        s
    }
}

/// What the table knows of a position: move, score, depth and bound.
pub open spec fn lookup(t: Seq<Entry>, key: u64, ply: int) -> Option<(Move, i32, i32, u8)> {
    let e = t[slot(t, key)];
    if e.bound != BOUND_NONE && e.key == key {
        Some((e.mv, from_node(e.score as int, ply) as i32, e.depth, e.bound))
    } else {
        None
    }
}

/// The move that an entry keeps: the new one, or the one already known for the position.
pub open spec fn kept_move(e: Entry, key: u64, mv: Move) -> Move {
    if mv.0 == 0 && e.bound != BOUND_NONE && e.key == key {
        e.mv
    } else {
        mv
    }
}

/// The table after a result was stored.
pub open spec fn stored(t: Seq<Entry>, key: u64, ply: int, depth: int, score: int, mv: Move, bound: u8) -> Seq<
    Entry,
> {
    let i = slot(t, key);
    t.update(
        i,
        Entry {
            key,
            mv: kept_move(t[i], key, mv),
            score: from_root(score, ply) as i32,
            depth: depth as i32,
            bound,
        },
    )
}

/// The table after a quiescence result was stored: an entry of the same position from a real search stays.
pub open spec fn stored_qs(t: Seq<Entry>, key: u64, ply: int, score: int, mv: Move, bound: u8) -> Seq<Entry> {
    let e = t[slot(t, key)];
    if e.bound != BOUND_NONE && e.key == key && e.depth > 0 {
        t
    } else {
        stored(t, key, ply, 0, score, mv, bound)
    }
}

/// The stored result decides a node with this window.
pub open spec fn cuts(bound: u8, score: int, alpha: int, beta: int) -> bool {
    ||| bound == BOUND_EXACT
    ||| bound == BOUND_LOWER && score >= beta
    ||| bound == BOUND_UPPER && score <= alpha
}

/// How many of the first `n` entries are in use.
pub open spec fn used(t: Seq<Entry>, n: int) -> int
    decreases n,
{
    if n <= 0 {
        0
    } else {
        used(t, n - 1) + if t[n - 1].bound != BOUND_NONE {
            1int
        } else {
            0int
        }
    }
}

/// How full the table is, in thousandths of its first thousand entries.
pub open spec fn fullness(t: Seq<Entry>) -> int {
    if t.len() >= 1000 {
        used(t, 1000)
    } else {
        used(t, t.len() as int) * 1000 / t.len() as int
    }
}

/// Reading a position right after its result was stored gives that result back.
pub proof fn law_read_back(t: Seq<Entry>, key: u64, ply: int, depth: int, score: int, mv: Move, bound: u8)
    requires
        table_ok(t),
        0 <= ply <= 256,
        -INF <= score <= INF,
        i32::MIN <= depth <= i32::MAX,
        bound != BOUND_NONE,
    ensures
        lookup(stored(t, key, ply, depth, score, mv, bound), key, ply) == Some(
            (kept_move(t[slot(t, key)], key, mv), score as i32, depth as i32, bound),
        ),
        table_ok(stored(t, key, ply, depth, score, mv, bound)),
{
}

/// Storing a result leaves every other slot alone.
pub proof fn law_other_slots_stay(t: Seq<Entry>, key: u64, other: u64, ply: int, depth: int, score: int, mv: Move, bound: u8)
    requires
        table_ok(t),
        slot(t, key) != slot(t, other),
    ensures
        lookup(stored(t, key, ply, depth, score, mv, bound), other, ply) == lookup(t, other, ply),
{
}

/// Does a stored result decide a node with the window from `alpha` to `beta`?
pub fn can_cutoff(bound: u8, score: i32, alpha: i32, beta: i32) -> (r: bool)
    ensures
        r == cuts(bound, score as int, alpha as int, beta as int),
{
    bound == BOUND_EXACT || (bound == BOUND_LOWER && score >= beta) || (bound == BOUND_UPPER && score <= alpha)
}

impl TranspositionTable {
    /// An empty table of `size` entries.
    pub fn new(size: usize) -> (t: TranspositionTable)
        requires
            size > 0,
        ensures
            t@ == Seq::new(size as nat, |i: int| vacant()),
            table_ok(t@),
    {
        let mut entries: Vec<Entry> = Vec::new();
        while entries.len() < size
            invariant
                entries.len() <= size,
                forall|i: int| 0 <= i < entries.len() ==> entries@[i] == vacant(),
            decreases size - entries.len(),
        {
            entries.push(Entry { key: 0, mv: Move(0), score: 0, depth: 0, bound: BOUND_NONE });
        }
        proof {
            assert(entries@ =~= Seq::new(size as nat, |i: int| vacant()));
        }
        TranspositionTable { entries }
    }

    fn index(&self, key: u64) -> (i: usize)
        requires
            table_ok(self@),
        ensures
            i == slot(self@, key),
            i < self@.len(),
    {
        (key % self.entries.len() as u64) as usize
    }

    /// What the table knows of the position with hash `key`, as seen from `ply`.
    pub fn probe(&self, key: u64, ply: usize) -> (r: Option<(Move, i32, i32, u8)>)
        requires
            table_ok(self@),
            ply <= 256,
        ensures
            r == lookup(self@, key, ply as int),
            r matches Some(e) ==> -INF <= e.1 <= INF,
    {
        let e = self.entries[self.index(key)];
        if e.bound == BOUND_NONE || e.key != key {
            return None;
        }
        let p: i32 = ply as i32;
        let s: i32 = if e.score > MATE_BOUND {
            e.score - p
        } else if e.score < -MATE_BOUND {
            e.score + p
        } else {
            e.score
        };
        let score: i32 = if s > INF {
            INF
        } else if s < -INF {
            -INF
        } else {
            s
        };
        Some((e.mv, score, e.depth, e.bound))
    }

    /// Stores a search result.
    pub fn store(&mut self, key: u64, ply: usize, depth: i32, score: i32, mv: Move, bound: u8)
        requires
            table_ok(old(self)@),
            ply <= 256,
            -FARTHEST <= score <= FARTHEST,
        ensures
            final(self)@ == stored(old(self)@, key, ply as int, depth as int, score as int, mv, bound),
            table_ok(final(self)@),
    {
        let i: usize = self.index(key);
        let e = self.entries[i];
        let keep = if mv.is_null() && e.bound != BOUND_NONE && e.key == key {
            e.mv
        } else {
            mv
        };
        let p: i32 = ply as i32;
        let s: i32 = if score > MATE_BOUND {
            score + p
        } else if score < -MATE_BOUND {
            score - p
        } else {
            score
        };
        self.entries[i] = Entry { key, mv: keep, score: s, depth, bound };
    }

    /// Stores a quiescence result, unless a real search of the position is already stored.
    pub fn store_qs(&mut self, key: u64, ply: usize, score: i32, mv: Move, bound: u8)
        requires
            table_ok(old(self)@),
            ply <= 256,
            -FARTHEST <= score <= FARTHEST,
        ensures
            final(self)@ == stored_qs(old(self)@, key, ply as int, score as int, mv, bound),
            table_ok(final(self)@),
    {
        let e = self.entries[self.index(key)];
        if e.bound != BOUND_NONE && e.key == key && e.depth > 0 {
            return;
        }
        self.store(key, ply, 0, score, mv, bound);
    }

    /// How full the table is, in thousandths of its first thousand entries.
    pub fn hashfull(&self) -> (r: u32)
        requires
            table_ok(self@),
        ensures
            r == fullness(self@),
    {
        let n: usize = if self.entries.len() < 1000 {
            self.entries.len()
        } else {
            1000
        };
        let mut count: usize = 0;
        let mut i: usize = 0;
        while i < n
            invariant
                i <= n,
                n <= 1000,
                n <= self.entries.len(),
                count == used(self@, i as int),
                count <= i,
            decreases n - i,
        {
            if self.entries[i].bound != BOUND_NONE {
                count = count + 1;
            }
            i = i + 1;
        }
        ((count * 1000) / n) as u32
    }

    /// Empties the table.
    pub fn clear(&mut self)
        requires
            table_ok(old(self)@),
        ensures
            final(self)@ == Seq::new(old(self)@.len(), |i: int| vacant()),
            table_ok(final(self)@),
    {
        let n: usize = self.entries.len();
        *self = TranspositionTable::new(n);
    }
}

} // verus!
