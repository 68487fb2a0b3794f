//! What a search is asked to do.

use vstd::prelude::*;
use crate::engine::search_params::SearchParams;
use crate::moves::Move;
use crate::types::{PieceType, MAX_DEPTH, MAX_PLY};
use std::sync::atomic::AtomicBool;
use std::sync::Arc;
use std::time::Instant;

verus! {

/// The language that results are announced in.
#[derive(Clone, Copy, PartialEq, Eq, Debug, Structural)]
pub enum Protocol {
    Uci,
    XBoard,
}

/// Display configuration for search output.
#[derive(Clone, Copy, PartialEq, Eq, Debug, Structural)]
pub struct SearchDisplay {
    pub show_wdl: bool,
    pub go_pretty: bool,
    pub pretty_print: bool,
    pub show_currmove: bool,
    pub use_ansi: bool,
}

pub open spec fn plain_display() -> SearchDisplay {
    SearchDisplay { show_wdl: false, go_pretty: false, pretty_print: false, show_currmove: false, use_ansi: false }
}

impl SearchDisplay {
    /// Nothing optional is shown.
    pub fn silent() -> (d: SearchDisplay)
        ensures
            d == plain_display(),
    {
        SearchDisplay { show_wdl: false, go_pretty: false, pretty_print: false, show_currmove: false, use_ansi: false }
    }

    /// Current moves are shown, and ANSI sequences are used.
    pub fn standard() -> (d: SearchDisplay)
        ensures
            d == (SearchDisplay { show_currmove: true, use_ansi: true, ..plain_display() }),
    {
        SearchDisplay { show_wdl: false, go_pretty: false, pretty_print: false, show_currmove: true, use_ansi: true }
    }
}

impl Default for SearchDisplay {
    fn default() -> (d: Self)
        ensures
            d == plain_display(),
    {
        SearchDisplay::silent()
    }
}

/// Limits of one search. Zero means "no limit".
#[derive(Debug)]
pub struct Limits {
    pub wtime: u64,
    pub btime: u64,
    pub winc: u64,
    pub binc: u64,
    pub movestogo: u64,
    pub movetime: u64,
    pub depth: i32,
    pub nodes: u64,
    pub softnodes: u64,
    pub infinite: bool,
    pub silent: bool,
    pub protocol: Protocol,
    pub mate: Option<i32>,
    pub perft: Option<u8>,
    pub searchmoves: Vec<Move>,
}

impl Limits {
    /// The depth stays within the reduction table, and twice the mate distance within its type.
    pub open spec fn wf(self) -> bool {
        &&& self.depth <= MAX_DEPTH
        &&& self.mate matches Some(m) ==> i32::MIN <= 2 * m <= i32::MAX
    }
}

impl Limits {
    /// Are the limits in range?
    pub fn is_valid(&self) -> (r: bool)
        ensures
            r == self.wf(),
    {
        let mate_fits = match self.mate {
            Some(m) => -0x4000_0000 <= m && m <= 0x3fff_ffff,
            None => true,
        };
        self.depth <= MAX_DEPTH && mate_fits
    }
}

/// The same limits: every field, and the same moves to search.
pub open spec fn same_limits(a: Limits, b: Limits) -> bool {
    &&& a.wtime == b.wtime && a.btime == b.btime && a.winc == b.winc && a.binc == b.binc
    &&& a.movestogo == b.movestogo && a.movetime == b.movetime && a.depth == b.depth
    &&& a.nodes == b.nodes && a.softnodes == b.softnodes && a.infinite == b.infinite && a.silent == b.silent
    &&& a.protocol == b.protocol && a.mate == b.mate && a.perft == b.perft
    &&& a.searchmoves@ == b.searchmoves@
}

impl Clone for Limits {
    fn clone(&self) -> (l: Self)
        ensures
            same_limits(*self, l),
    {
        let searchmoves = self.searchmoves.clone();
        proof {
            assert(searchmoves@ =~= self.searchmoves@);
        }
        Limits {
            wtime: self.wtime,
            btime: self.btime,
            winc: self.winc,
            binc: self.binc,
            movestogo: self.movestogo,
            movetime: self.movetime,
            depth: self.depth,
            nodes: self.nodes,
            softnodes: self.softnodes,
            infinite: self.infinite,
            silent: self.silent,
            protocol: self.protocol,
            mate: self.mate,
            perft: self.perft,
            searchmoves,
        }
    }
}

impl Default for Limits {
    fn default() -> (l: Self)
        ensures
            l.wf(),
            l.wtime == 0 && l.btime == 0 && l.winc == 0 && l.binc == 0,
            l.movestogo == 0 && l.movetime == 0 && l.depth == 0 && l.nodes == 0 && l.softnodes == 0,
            !l.infinite && !l.silent && l.protocol == Protocol::Uci,
            l.mate is None && l.perft is None,
            l.searchmoves@.len() == 0,
    {
        Limits {
            wtime: 0,
            btime: 0,
            winc: 0,
            binc: 0,
            movestogo: 0,
            movetime: 0,
            depth: 0,
            nodes: 0,
            softnodes: 0,
            infinite: false,
            silent: false,
            protocol: Protocol::Uci,
            mate: None,
            perft: None,
            searchmoves: Vec::new(),
        }
    }
}

pub struct SearchConfig {
    pub limits: Limits,
    pub start_time: Instant,
    pub stop: Arc<AtomicBool>,
    pub display: SearchDisplay,
    pub search_params: SearchParams,
    pub overhead: u64,
    /// Victim values, by piece type.
    pub mvvlva_v: [i32; 8],
    /// Attacker penalties, by piece type.
    pub mvvlva_a: [i32; 8],
    /// Late-move reductions: one row of `MAX_PLY + 1` move numbers per depth.
    pub lmr_table: Vec<i8>,
}

impl Clone for SearchConfig {
    fn clone(&self) -> (cfg: Self)
        ensures
            same_limits(self.limits, cfg.limits),
            cfg.start_time == self.start_time,
            cfg.stop == self.stop,
            cfg.display == self.display,
            cfg.search_params == self.search_params,
            cfg.overhead == self.overhead,
            cfg.mvvlva_v == self.mvvlva_v,
            cfg.mvvlva_a == self.mvvlva_a,
            cfg.lmr_table@ == self.lmr_table@,
            self.wf() ==> cfg.wf(),
    {
        let lmr_table = self.lmr_table.clone();
        proof {
            assert(lmr_table@ =~= self.lmr_table@);
        }
        SearchConfig {
            limits: self.limits.clone(),
            start_time: self.start_time,
            stop: self.stop.clone(),
            display: self.display,
            search_params: self.search_params,
            overhead: self.overhead,
            mvvlva_v: self.mvvlva_v,
            mvvlva_a: self.mvvlva_a,
            lmr_table,
        }
    }
}

/// Number of entries of the reduction table: a row of 257 move numbers for each depth from 0 to 128.
pub const LMR_SIZE: usize = 33_153;

/// A reduction table has an entry for every depth and move number. No entry is so far below 0 that it would
/// deepen the search of a move beyond the greatest depth.
pub open spec fn lmr_ok(t: Seq<i8>) -> bool {
    t.len() == LMR_SIZE && forall|i: int| 0 <= i < t.len() ==> #[trigger] t[i] >= i / 257 - 129
}

/// Is this a reduction table?
pub fn is_lmr_table(t: &Vec<i8>) -> (r: bool)
    ensures
        r == lmr_ok(t@),
{
    if t.len() != LMR_SIZE {
        return false;
    }
    let mut i: usize = 0;
    while i < t.len()
        invariant
            i <= t.len(),
            t.len() == LMR_SIZE,
            forall|j: int| 0 <= j < i ==> #[trigger] t@[j] >= j / 257 - 129,
        decreases t.len() - i,
    {
        if (t[i] as i32) < (i / 257) as i32 - 129 {
            proof {
                assert(t@[i as int] < i as int / 257 - 129);
            }
            return false;
        }
        i = i + 1;
    }
    true
}

/// The victim values, by piece type.
pub open spec fn victims(sp: SearchParams) -> Seq<i32> {
    seq![
        sp.mvvlva_v_pawn,
        sp.mvvlva_v_knight,
        sp.mvvlva_v_bishop,
        sp.mvvlva_v_rook,
        sp.mvvlva_v_queen,
        sp.mvvlva_v_king,
        0,
        0,
    ]
}

/// The attacker penalties, by piece type.
pub open spec fn attackers(sp: SearchParams) -> Seq<i32> {
    seq![
        sp.mvvlva_a_pawn,
        sp.mvvlva_a_knight,
        sp.mvvlva_a_bishop,
        sp.mvvlva_a_rook,
        sp.mvvlva_a_queen,
        sp.mvvlva_a_king,
        0,
        0,
    ]
}

impl SearchConfig {
    /// Limits and parameters are in range, and the tables belong to the parameters.
    pub open spec fn wf(self) -> bool {
        &&& self.limits.wf()
        &&& self.search_params.wf()
        &&& self.mvvlva_v@ == victims(self.search_params)
        &&& self.mvvlva_a@ == attackers(self.search_params)
        &&& lmr_ok(self.lmr_table@)
    }

    /// The reduction for a depth and a move number; numbers beyond the table count as its last.
    pub open spec fn reduction(self, depth: int, number: int) -> int {
        let m = if number > MAX_PLY {
            MAX_PLY as int
        } else {
            number
        };
        self.lmr_table@[depth * 257 + m] as int
    }

    /// A configuration with the standard display settings. `lmr_table` holds the late-move reductions.
    pub fn new(
        limits: Limits,
        start_time: Instant,
        stop: Arc<AtomicBool>,
        overhead: u64,
        search_params: SearchParams,
        lmr_table: Vec<i8>,
    ) -> (cfg: SearchConfig)
        requires
            limits.wf(),
            search_params.wf(),
            lmr_ok(lmr_table@),
        ensures
            cfg.wf(),
            cfg.limits == limits,
            cfg.start_time == start_time,
            cfg.stop == stop,
            cfg.overhead == overhead,
            cfg.search_params == search_params,
            cfg.lmr_table == lmr_table,
            cfg.display == (SearchDisplay { show_currmove: true, use_ansi: true, ..plain_display() }),
    {
        SearchConfig::new_full(
            limits,
            start_time,
            stop,
            overhead,
            SearchDisplay::standard(),
            search_params,
            lmr_table,
        )
    }

    /// Full constructor, with the display settings.
    pub fn new_full(
        limits: Limits,
        start_time: Instant,
        stop: Arc<AtomicBool>,
        overhead: u64,
        display: SearchDisplay,
        search_params: SearchParams,
        lmr_table: Vec<i8>,
    ) -> (cfg: SearchConfig)
        requires
            limits.wf(),
            search_params.wf(),
            lmr_ok(lmr_table@),
        ensures
            cfg.wf(),
            cfg.limits == limits,
            cfg.start_time == start_time,
            cfg.stop == stop,
            cfg.overhead == overhead,
            cfg.search_params == search_params,
            cfg.lmr_table == lmr_table,
            cfg.display == display,
    {
        let (mvvlva_v, mvvlva_a) = SearchConfig::build_mvvlva(&search_params);
        SearchConfig {
            limits,
            start_time,
            stop,
            display,
            search_params,
            overhead,
            mvvlva_v,
            mvvlva_a,
            lmr_table,
        }
    }

    /// Capture ordering from the parameters: most valuable victim first, least valuable attacker first.
    fn build_mvvlva(sp: &SearchParams) -> (t: ([i32; 8], [i32; 8]))
        ensures
            t.0@ == victims(*sp),
            t.1@ == attackers(*sp),
    {
        let mut v: [i32; 8] = [0; 8];
        let mut a: [i32; 8] = [0; 8];
        v[PieceType::Pawn.as_usize()] = sp.mvvlva_v_pawn;
        a[PieceType::Pawn.as_usize()] = sp.mvvlva_a_pawn;
        v[PieceType::Knight.as_usize()] = sp.mvvlva_v_knight;
        a[PieceType::Knight.as_usize()] = sp.mvvlva_a_knight;
        v[PieceType::Bishop.as_usize()] = sp.mvvlva_v_bishop;
        a[PieceType::Bishop.as_usize()] = sp.mvvlva_a_bishop;
        v[PieceType::Rook.as_usize()] = sp.mvvlva_v_rook;
        a[PieceType::Rook.as_usize()] = sp.mvvlva_a_rook;
        v[PieceType::Queen.as_usize()] = sp.mvvlva_v_queen;
        a[PieceType::Queen.as_usize()] = sp.mvvlva_a_queen;
        v[PieceType::King.as_usize()] = sp.mvvlva_v_king;
        a[PieceType::King.as_usize()] = sp.mvvlva_a_king;
        proof {
            assert(v@ =~= victims(*sp));
            assert(a@ =~= attackers(*sp));
        }
        (v, a)
    }

    /// The late-move reduction for a depth and a move number.
    pub fn lmr(&self, depth: i32, number: usize) -> (r: i32)
        requires
            self.wf(),
            0 <= depth <= MAX_DEPTH,
        ensures
            r == self.reduction(depth as int, number as int),
            depth - 129 <= r <= 127,
    {
        let m: usize = if number > MAX_PLY {
            MAX_PLY
        } else {
            number
        };
        let i: usize = depth as usize * 257 + m;
        proof {
            assert(self.lmr_table@[i as int] >= i as int / 257 - 129);
            assert(i as int / 257 == depth);
        }
        self.lmr_table[i] as i32
    }
}

} // verus!
