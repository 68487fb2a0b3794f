//! Time management: how long to think.

use vstd::prelude::*;
use crate::engine::clock;
use crate::engine::search::config::Limits;
use crate::types::Color;
use std::time::Instant;

verus! {

/// Time and increment of the side to move, in milliseconds.
pub open spec fn own_clock(l: Limits, stm: Color) -> (u64, u64) {
    match stm {
        Color::White => (l.wtime, l.winc),
        Color::Black => (l.btime, l.binc),
    }
}

/// `a - b`, but at least 1.
pub open spec fn remainder(a: int, b: int) -> int {
    if a - b >= 1 {
        a - b
    } else {
        1
    }
}

pub open spec fn lesser(a: int, b: int) -> int {
    if a <= b {
        a
    } else {
        b
    }
}

/// How many moves the remaining time has to last for: as announced, else the more the fuller the board.
pub open spec fn moves_left(l: Limits, phase: int) -> int {
    if l.movestogo > 0 {
        lesser(l.movestogo as int, 50)
    } else {
        20 + phase
    }
}

/// Soft and hard limit in milliseconds; `None` when there is no limit.
///
/// A fixed time per move is both. Else the soft limit is an even share of the time left plus three
/// quarters of the increment, the hard limit four times that, and neither more than four fifths of the
/// time left.
pub open spec fn budget(l: Limits, stm: Color, overhead: int, phase: int) -> Option<(int, int)> {
    let (time, inc) = own_clock(l, stm);
    if l.movetime > 0 {
        Some((remainder(l.movetime as int, overhead), remainder(l.movetime as int, overhead)))
    } else if l.infinite || time == 0 {
        None
    } else {
        let left = remainder(time as int, overhead);
        let share = left / moves_left(l, phase) + inc as int / 4 * 3;
        let cap = left - left / 5;
        Some((lesser(share, cap), lesser(4 * share, cap)))
    }
}

pub struct TimeManager {
    start: Instant,
    soft: Option<u64>,
    hard: Option<u64>,
}

impl TimeManager {
    /// When the clock started.
    pub closed spec fn started(self) -> Instant {
        self.start
    }

    /// The soft limit, if there is one.
    pub closed spec fn soft_ms(self) -> Option<u64> {
        self.soft
    }

    /// The hard limit, if there is one.
    pub closed spec fn hard_ms(self) -> Option<u64> {
        self.hard
    }

    /// The limits for a search with the clock started at `start_time`.
    pub fn new(limits: &Limits, start_time: Instant, stm: Color, overhead: u64, phase: i32) -> (tm: TimeManager)
        requires
            0 <= phase <= 24,
        ensures
            tm.started() == start_time,
            match budget(*limits, stm, overhead as int, phase as int) {
                Some(b) => tm.soft_ms() matches Some(s) && s == b.0 && (tm.hard_ms() matches Some(h) && h == b.1),
                None => tm.soft_ms() is None && tm.hard_ms() is None,
            },
    {
        let (time, inc) = match stm {
            Color::White => (limits.wtime, limits.winc),
            Color::Black => (limits.btime, limits.binc),
        };
        if limits.movetime > 0 {
            let ms: u64 = spare(limits.movetime, overhead);
            return TimeManager { start: start_time, soft: Some(ms), hard: Some(ms) };
        }
        if limits.infinite || time == 0 {
            return TimeManager { start: start_time, soft: None, hard: None };
        }
        let left: u64 = spare(time, overhead);
        let moves: u64 = if limits.movestogo > 0 {
            if limits.movestogo <= 50 {
                limits.movestogo
            } else {
                50
            }
        } else {
            20 + phase as u64
        };
        proof {
            assert(left as int / moves as int <= left) by (nonlinear_arith)
                requires
                    moves >= 1,
                    left >= 0,
            ;
        }
        let share: u128 = (left / moves) as u128 + (inc / 4 * 3) as u128;
        let cap: u64 = left - left / 5;
        let soft: u64 = if share <= cap as u128 {
            share as u64
        } else {
            cap
        };
        let hard: u64 = if 4 * share <= cap as u128 {
            (4 * share) as u64
        } else {
            cap
        };
        TimeManager { start: start_time, soft: Some(soft), hard: Some(hard) }
    }

    /// Milliseconds since the clock started.
    pub fn elapsed(&self) -> (ms: u128)
        ensures
            clock::clock_reads(self.started(), ms),
    {
        clock::millis_since(&self.start)
    }

    /// The hard limit in milliseconds, if there is one.
    pub fn hard(&self) -> (r: Option<u64>)
        ensures
            r == self.hard_ms(),
    {
        self.hard
    }

    /// The soft limit in milliseconds; the largest number when there is none.
    pub fn soft_limit(&self) -> (ms: u64)
        ensures
            ms == match self.soft_ms() {
                Some(s) => s,
                None => u64::MAX,
            },
    {
        match self.soft {
            Some(s) => s,
            None => u64::MAX,
        }
    }

    /// The hard limit in milliseconds; the largest number when there is none.
    pub fn hard_limit(&self) -> (ms: u64)
        ensures
            ms == match self.hard_ms() {
                Some(h) => h,
                None => u64::MAX,
            },
    {
        match self.hard {
            Some(h) => h,
            None => u64::MAX,
        }
    }
}

fn spare(a: u64, b: u64) -> (r: u64)
    ensures
        r == remainder(a as int, b as int),
{
    if a > b {
        a - b
    } else {
        1
    }
}

} // verus!
