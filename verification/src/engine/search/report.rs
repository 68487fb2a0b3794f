//! What a search has to say.

use vstd::prelude::*;
use crate::board::model::PositionV;
use crate::board::position::Position;
use crate::board::queries;
use crate::engine::search::config::{Protocol, SearchConfig};
use crate::engine::search::line::Line;
use crate::engine::tt;
use crate::engine::tt::Entry;
use crate::moves::Move;

verus! {

/// A past result: when it was reached, its line and its score.
pub type PastResult = (u128, Line, i32);

/// Everything that an info line can show.
pub struct SearchInfoData {
    pub depth: i32,
    pub sel_depth: i32,
    pub score: i32,
    pub nodes: u64,
    pub nps: u64,
    pub time_ms: u128,
    pub hashfull: u32,
    pub pv: Line,
    pub show_wdl: bool,
    pub material: u32,
    pub stm: usize,
    pub history: Vec<PastResult>,
    pub board: Position,
    pub use_ansi: bool,
}

/// One thing to say.
pub enum Report {
    /// The screen is to be cleared.
    ClearScreen,
    /// The result of a count of move sequences.
    NodesSearched(u64),
    /// None of the moves asked for is legal.
    NoMatchingMove,
    /// There is no move to play.
    NoMove,
    /// The state of the search, for the full-screen display or as a line.
    Info { data: SearchInfoData, full_screen: bool, protocol: Protocol, pretty: bool },
    /// The root move that is being searched.
    CurrentMove { depth: i32, mv: String, number: usize },
    /// The move to play.
    BestMove { protocol: Protocol, mv: String },
}

// ──────── What the reports mean ────────

/// The abstract value of a past result.
pub type PastV = (u128, Seq<Move>, i32);

pub open spec fn past_of(s: Seq<PastResult>) -> Seq<PastV> {
    Seq::new(s.len(), |i: int| (s[i].0, s[i].1@, s[i].2))
}

/// The abstract value of what an info line shows.
pub struct InfoV {
    pub depth: i32,
    pub sel_depth: i32,
    pub score: i32,
    pub nodes: u64,
    pub nps: int,
    pub time_ms: u128,
    pub hashfull: int,
    pub pv: Seq<Move>,
    pub show_wdl: bool,
    pub material: int,
    pub stm: int,
    pub history: Seq<PastV>,
    pub board: PositionV,
    pub use_ansi: bool,
}

impl View for SearchInfoData {
    type V = InfoV;

    open spec fn view(&self) -> InfoV {
        InfoV {
            depth: self.depth,
            sel_depth: self.sel_depth,
            score: self.score,
            nodes: self.nodes,
            nps: self.nps as int,
            time_ms: self.time_ms,
            hashfull: self.hashfull as int,
            pv: self.pv@,
            show_wdl: self.show_wdl,
            material: self.material as int,
            stm: self.stm as int,
            history: past_of(self.history@),
            board: self.board@,
            use_ansi: self.use_ansi,
        }
    }
}

/// The abstract value of a report.
pub enum ReportV {
    ClearScreen,
    NodesSearched(int),
    NoMatchingMove,
    NoMove,
    Info { data: InfoV, full_screen: bool, protocol: Protocol, pretty: bool },
    CurrentMove { depth: i32, mv: Seq<char>, number: int },
    BestMove { protocol: Protocol, mv: Seq<char> },
}

impl View for Report {
    type V = ReportV;

    open spec fn view(&self) -> ReportV {
        match *self {
            Report::ClearScreen => ReportV::ClearScreen,
            Report::NodesSearched(n) => ReportV::NodesSearched(n as int),
            Report::NoMatchingMove => ReportV::NoMatchingMove,
            Report::NoMove => ReportV::NoMove,
            Report::Info { data, full_screen, protocol, pretty } => ReportV::Info {
                data: data@,
                full_screen,
                protocol,
                pretty,
            },
            Report::CurrentMove { depth, mv, number } => ReportV::CurrentMove { depth, mv: mv@, number: number as int },
            Report::BestMove { protocol, mv } => ReportV::BestMove { protocol, mv: mv@ },
        }
    }
}

/// What an info line shows, `ms` milliseconds into the search; less than one counts as one.
pub open spec fn info(
    cfg: SearchConfig,
    root: PositionV,
    past: Seq<PastV>,
    depth: i32,
    score: i32,
    pv: Seq<Move>,
    sel: i32,
    nodes: u64,
    table: Seq<Entry>,
    ms: u128,
) -> InfoV {
    let time_ms = if ms > 0 {
        ms
    } else {
        1
    };
    InfoV {
        depth,
        sel_depth: sel,
        score,
        nodes,
        nps: speed(nodes, time_ms),
        time_ms,
        hashfull: tt::fullness(table),
        pv,
        show_wdl: cfg.display.show_wdl,
        material: queries::material(root.board) as int,
        stm: root.stm.idx(),
        history: past,
        board: root,
        use_ansi: cfg.display.use_ansi,
    }
}

/// Minimum node count before current moves are reported: no noise during fast games, progress during long
/// analysis.
pub const CURRMOVE_NODE_THRESHOLD: u64 = 100_000_000;

/// Current moves are reported.
pub open spec fn currmove_shown(cfg: SearchConfig, nodes: u64) -> bool {
    !cfg.limits.silent && !cfg.display.go_pretty && cfg.limits.protocol == Protocol::Uci && cfg.display.show_currmove
        && nodes >= CURRMOVE_NODE_THRESHOLD
}

/// Whoever listens to a search.
pub trait Console: Sized {
    /// The console `before` was handed a report, and became `after`. A console may say more of what becomes of
    /// it.
    open spec fn handed(before: Self, after: Self, what: ReportV) -> bool {
        true
    }

    fn report(&mut self, what: Report)
        ensures
            Self::handed(*old(self), *final(self), what@),
    ;
}

/// Nobody listens.
pub struct Mute;

impl Console for Mute {
    open spec fn handed(before: Mute, after: Mute, what: ReportV) -> bool {
        true
    }

    fn report(&mut self, what: Report) {
    }
}

/// Nodes per second, at most the largest number.
pub open spec fn speed(nodes: u64, ms: u128) -> int {
    let nps = nodes as int * 1000 / ms as int;
    if nps > u64::MAX {
        u64::MAX as int
    } else {
        nps
    }
}

/// Nodes per second of `nodes` searched in `ms` milliseconds.
pub fn nodes_per_second(nodes: u64, ms: u128) -> (r: u64)
    requires
        ms > 0,
    ensures
        r == speed(nodes, ms),
{
    let nps: u128 = (nodes as u128 * 1000) / ms;
    if nps > u64::MAX as u128 {
        u64::MAX
    } else {
        nps as u64
    }
}

} // verus!
