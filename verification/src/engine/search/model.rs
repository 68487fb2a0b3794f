//! What the search computes.
//!
//! The search reads two things from outside: the stop flag and the clock. Everything else is a function of
//! what it starts from. The functions here say which function, whatever the flag and the clock give.

use vstd::prelude::*;
use crate::arith;
use crate::board::model;
use crate::board::model::{Board, PositionV};
use crate::board::queries;
use crate::engine::eval;
use crate::engine::history;
use crate::engine::history::{ContContext, HistoryV};
use crate::engine::movegen;
use crate::engine::movepicker;
use crate::engine::movepicker::PickerV;
use crate::engine::play;
use crate::engine::search::config::{Protocol, SearchConfig};
use crate::engine::search::line;
use crate::engine::search::line::{RootV, StackV, MAX_TRACKED_QUIETS};
use crate::engine::search::report;
use crate::engine::search::report::{PastV, ReportV};
use crate::engine::see;
use crate::engine::tt;
use crate::engine::tt::{Entry, BOUND_EXACT, BOUND_LOWER, BOUND_UPPER, SCORE_NONE};
use crate::moves::Move;
use crate::types::{Color, PieceType, Square, INF, MATE, MATE_BOUND, MAX_PLY};

verus! {

/// How many nodes lie between two looks at the stop flag and the clock.
pub const NODE_CHECK_INTERVAL: u64 = 2048;

/// How many milliseconds lie between two updates of the display.
pub const PRINT_UPDATE_MS: u128 = 25;

/// The context of a node: the root owns the move list, nodes on the principal variation have an open
/// window, all others only answer whether they beat a bound.
#[derive(Clone, Copy, PartialEq, Eq, Debug, Structural)]
pub enum NodeKind {
    Root,
    Pv,
    NonPv,
}

impl NodeKind {
    pub open spec fn pv(self) -> bool {
        self != NodeKind::NonPv
    }

    pub open spec fn root(self) -> bool {
        self == NodeKind::Root
    }

    /// The kind of a child that is searched with the full window.
    pub open spec fn child(self) -> NodeKind {
        match self {
            NodeKind::Root => NodeKind::Pv,
            NodeKind::Pv => NodeKind::Pv,
            NodeKind::NonPv => NodeKind::NonPv,
        }
    }
}

/// What comes from outside, each kind in the order in which it is read.
pub struct Signals {
    /// What each load of the stop flag gives.
    pub flags: Seq<bool>,
    /// What each reading of the clock gives: milliseconds since it started.
    pub times: Seq<u128>,
}

/// What does not change during a search: the configuration, the hard time limit, the root position, the
/// depth of the iteration, the previous iteration's line, the past results, and the signals.
pub struct Env {
    pub cfg: SearchConfig,
    pub hard: Option<u64>,
    pub root: PositionV,
    pub iter_depth: i32,
    pub prev_pv: Seq<Move>,
    pub past: Seq<PastV>,
    pub signals: Signals,
}

/// What changes during a search.
pub struct Tree {
    pub pos: PositionV,
    pub acc: Seq<i16>,
    pub stack: Seq<StackV>,
    pub hist: HistoryV,
    pub roots: Seq<RootV>,
    /// Hashes of the game so far and of the line that leads here.
    pub trail: Seq<u64>,
    pub nodes: u64,
    /// Deepest ply reached.
    pub sel: i32,
    /// When the display was last updated.
    pub printed: u128,
    pub table: Seq<Entry>,
    /// How often the stop flag has been loaded.
    pub looks: int,
    /// How often the clock has been read.
    pub reads: int,
    /// The reports made.
    pub said: Seq<ReportV>,
    /// The search has raised the stop flag.
    pub raised: bool,
}

/// What the move loop has found so far.
pub struct ResV {
    pub move_count: int,
    pub best_eval: int,
    pub alpha: int,
    pub best_move: Move,
}

/// What the quiescence loop has found so far.
pub struct QuietV {
    pub best_eval: int,
    pub best_move: Move,
    /// A move was searched.
    pub made: bool,
    pub alpha: int,
}

/// What the moves of one node have in common.
pub struct Scene {
    pub kind: NodeKind,
    pub depth: int,
    pub beta: int,
    pub ply: int,
    pub in_check: bool,
    pub static_eval: int,
    pub pv_move: Option<Move>,
    pub cont: ContContext,
}

/// A step that may end its node: with a score, or aborted.
pub enum Step {
    Return(Tree, Option<int>),
    Continue(Tree),
}

/// One turn of the move loop.
pub enum Turn {
    Stop(Tree, Option<ResV>),
    More(Tree, ResV),
}

/// One turn of the quiescence loop.
pub enum QuietTurn {
    Stop(Tree, Option<QuietV>),
    More(Tree, QuietV),
}

/// What happens on entering a node.
#[derive(Clone, Copy, PartialEq, Eq, Debug, Structural)]
pub enum Gate {
    /// The search is to stop.
    Abort,
    /// The position is a draw.
    Draw,
    /// The node is searched.
    Open,
}

/// The display is due for an update.
pub open spec fn display_due(printed: u128, now: u128) -> bool {
    now - printed > PRINT_UPDATE_MS
}

/// The report of a finished iteration.
pub open spec fn iteration_report(
    env: Env,
    depth: i32,
    score: i32,
    pv: Seq<Move>,
    sel: i32,
    nodes: u64,
    table: Seq<Entry>,
    ms: u128,
) -> ReportV {
    ReportV::Info {
        data: report::info(env.cfg, env.root, env.past, depth, score, pv, sel, nodes, table, ms),
        full_screen: env.cfg.display.go_pretty && env.cfg.limits.protocol == Protocol::Uci,
        protocol: env.cfg.limits.protocol,
        pretty: env.cfg.display.pretty_print,
    }
}

/// The report that updates the full-screen display; `best` is the first root move.
pub open spec fn display_report(env: Env, best: RootV, sel: i32, nodes: u64, table: Seq<Entry>, ms: u128) -> ReportV {
    ReportV::Info {
        data: report::info(
            env.cfg,
            env.root,
            env.past,
            env.iter_depth,
            best.score,
            best.pv,
            sel,
            nodes,
            table,
            ms,
        ),
        full_screen: true,
        protocol: env.cfg.limits.protocol,
        pretty: env.cfg.display.pretty_print,
    }
}

/// The reports with one more for the root move that is being searched, if such moves are reported.
pub open spec fn with_currmove(
    cfg: SearchConfig,
    root: PositionV,
    nodes: u64,
    said: Seq<ReportV>,
    depth: i32,
    mv: Move,
    number: int,
) -> Seq<ReportV> {
    if report::currmove_shown(cfg, nodes) {
        said.push(ReportV::CurrentMove { depth, mv: mv.uci(root.is_frc), number })
    } else {
        said
    }
}

/// The periodic look at the stop flag, the hard time limit and the node limit; and an update of the
/// display. True when the search is to stop; the stop flag is raised, so that everyone else stops as well.
#[verifier::opaque]
pub open spec fn poll(env: Env, t: Tree) -> (bool, Tree) {
    let limits = env.cfg.limits;
    let t1 = Tree { looks: t.looks + 1, ..t };
    let t2 = if env.hard is Some {
        Tree { reads: t.reads + 1, ..t1 }
    } else {
        t1
    };
    if env.signals.flags[t.looks] {
        (true, Tree { raised: true, ..t1 })
    } else if env.hard matches Some(h) && env.signals.times[t.reads] >= h {
        (true, Tree { raised: true, ..t2 })
    } else if limits.nodes > 0 && t.nodes >= limits.nodes {
        (true, Tree { raised: true, ..t2 })
    } else if env.cfg.display.go_pretty && t.nodes as int % 2048 == 0 {
        let now = env.signals.times[t2.reads];
        if display_due(t.printed, now) {
            if limits.silent || t.roots.len() == 0 {
                (false, Tree { printed: now, reads: t2.reads + 1, ..t2 })
            } else {
                let ms = env.signals.times[t2.reads + 1];
                let update = display_report(env, t.roots[0], t.sel, t.nodes, t.table, ms);
                (false, Tree { printed: now, reads: t2.reads + 2, said: t.said.push(update), ..t2 })
            }
        } else {
            (false, Tree { reads: t2.reads + 1, ..t2 })
        }
    } else {
        (false, t2)
    }
}

// ──────── Entering a node ────────

/// The hash occurred before among the last `clock + 1` entries of the trail, whose last is the
/// position itself.
pub open spec fn repeated(key: u64, trail: Seq<u64>, clock: int) -> bool {
    let start = if trail.len() > clock + 1 {
        trail.len() - (clock + 1)
    } else {
        0
    };
    exists|i: int| start <= i <= trail.len() - 2 && #[trigger] trail[i] == key
}

/// Fifty moves without progress, too little material, or, below the root, a repetition.
pub open spec fn is_drawn(p: PositionV, ply: int, trail: Seq<u64>) -> bool {
    ||| p.halfmove_clock >= 100
    ||| queries::dead_material(p.board)
    ||| ply > 0 && repeated(p.hash, trail, p.halfmove_clock as int)
}

/// One more, up to the counter's limit.
pub open spec fn one_more(n: u64) -> u64 {
    if n == u64::MAX {
        n
    } else {
        (n + 1) as u64
    }
}

/// The tree with the scratch data of `ply` changed.
pub open spec fn with_ply(t: Tree, ply: int, s: StackV) -> Tree {
    Tree { stack: t.stack.update(ply, s), ..t }
}

/// A node is counted and looked at for a draw.
#[verifier::opaque]
pub open spec fn counted(t: Tree, ply: int) -> (Tree, Gate) {
    let t1 = Tree { nodes: one_more(t.nodes), ..t };
    if is_drawn(t.pos, ply, t.trail) {
        (t1, Gate::Draw)
    } else if ply > t.sel {
        (Tree { sel: ply as i32, ..t1 }, Gate::Open)
    } else {
        (t1, Gate::Open)
    }
}

/// Entering a node: its line is forgotten, signals are read now and then, the node is counted.
#[verifier::opaque]
pub open spec fn entry(env: Env, t: Tree, ply: int) -> (Tree, Gate) {
    let t1 = with_ply(t, ply, StackV { pv: Seq::empty(), ..t.stack[ply] });
    if t.nodes as int % 2048 == 0 {
        let (stop, t2) = poll(env, t1);
        if stop {
            (t2, Gate::Abort)
        } else {
            counted(t2, ply)
        }
    } else {
        counted(t1, ply)
    }
}

// ──────── Judging a node ────────

pub open spec fn checked(p: PositionV) -> bool {
    model::in_check(p.board, p.stm)
}

/// The score that the transposition table decides the node with, if it does.
#[verifier::opaque]
pub open spec fn table_cut(t: Tree, kind: NodeKind, depth: int, alpha: int, beta: int, ply: int) -> Option<int> {
    match tt::lookup(t.table, t.pos.hash, ply) {
        Some((mv, score, stored_depth, bound)) => {
            let valid = mv.0 == 0 || movegen::pseudo_legal(t.pos, mv);
            if valid && !kind.pv() && stored_depth >= depth && tt::cuts(bound, score as int, alpha, beta) {
                Some(score as int)
            } else {
                None
            }
        },
        None => None,
    }
}

/// The move that the transposition table suggests.
#[verifier::opaque]
pub open spec fn table_move(t: Tree, ply: int) -> Option<Move> {
    match tt::lookup(t.table, t.pos.hash, ply) {
        Some((mv, _, _, _)) => if mv.0 != 0 && movegen::pseudo_legal(t.pos, mv) {
            Some(mv)
        } else {
            None
        },
        None => None,
    }
}

/// A suggested move, unless it cannot be played.
pub open spec fn playable_hint(p: PositionV, hint: Option<Move>) -> Option<Move> {
    match hint {
        Some(mv) => if movegen::pseudo_legal(p, mv) {
            hint
        } else {
            None
        },
        None => None,
    }
}

pub open spec fn first_of(a: Option<Move>, b: Option<Move>) -> Option<Move> {
    if a is Some {
        a
    } else {
        b
    }
}

/// The static evaluation, nudged by what was learned about the pawn structure.
#[verifier::opaque]
pub open spec fn corrected_eval(t: Tree) -> int {
    let raw = eval::score_of(t.acc, t.pos.stm);
    let nudge = arith::quot(
        t.hist.corr[history::corr_slot(t.pos.stm, t.pos.pawn_hash)] as int,
        history::CORRECTION_SCALE as int,
    );
    arith::clamped(raw + nudge, -MATE_BOUND as int, MATE_BOUND as int)
}

/// Reverse futility pruning: the position is so good that a margin below it still beats beta.
pub open spec fn futile_to_play_on(cfg: SearchConfig, kind: NodeKind, in_check: bool, depth: int, ev: int, beta: int) -> bool {
    !in_check && !kind.pv() && depth <= cfg.search_params.rfp_depth && ev - cfg.search_params.rfp_margin * depth
        >= beta
}

/// Razoring: the position is so bad that a margin above it is still below alpha.
pub open spec fn razor_due(cfg: SearchConfig, kind: NodeKind, in_check: bool, depth: int, ev: int, alpha: int) -> bool {
    !in_check && !kind.pv() && depth <= cfg.search_params.razoring_depth && ev + cfg.search_params.razoring_margin
        * depth < alpha
}

/// `c` has a piece other than pawns and its king.
pub open spec fn has_pieces(b: Board, c: Color) -> bool {
    exists|i: int|
        0 <= i < 64 && (#[trigger] b[i] matches Some(p) && p.color == c && p.pt != PieceType::Pawn && p.pt
            != PieceType::King)
}

/// Null-move pruning: the position is good enough to try passing the turn.
pub open spec fn null_due(t: Tree, kind: NodeKind, in_check: bool, ev: int, beta: int, ply: int) -> bool {
    !in_check && !kind.pv() && !t.stack[ply].is_null && ev >= beta && has_pieces(t.pos.board, t.pos.stm)
}

/// The depth of the search behind a pass.
pub open spec fn null_depth(cfg: SearchConfig, depth: int, ev: int, beta: int) -> int {
    let sp = cfg.search_params;
    let eval_r = arith::smaller(arith::quot(ev - beta, sp.nmp_eval_divisor as int), sp.nmp_eval_max as int);
    let r = sp.nmp_base_r + arith::quot(depth, sp.nmp_depth_divisor as int) + eval_r;
    arith::larger(depth - r - 1, 0)
}

/// The piece that moved last, and where it went.
pub open spec fn context(t: Tree, ply: int) -> ContContext {
    if ply > 0 {
        ContContext { pt: t.stack[ply - 1].moved_pt, to: t.stack[ply - 1].moved_to }
    } else {
        ContContext { pt: PieceType::Empty, to: Square(0) }
    }
}

/// Internal iterative reduction: without a table move the depth is one less.
pub open spec fn reduced_without_hint(depth: int, hint: Option<Move>) -> int {
    if depth >= 4 && hint is None {
        depth - 1
    } else {
        depth
    }
}

/// One more, up to the counter's limit.
pub open spec fn next_number(n: int) -> int {
    if n >= usize::MAX {
        n
    } else {
        n + 1
    }
}

/// Nothing has been searched yet.
pub open spec fn no_result(alpha: int) -> ResV {
    ResV { move_count: 0, best_eval: -INF as int, alpha, best_move: Move(0) }
}

/// The kind of bound that a best score is.
pub open spec fn bound_of(best: int, alpha: int, beta: int) -> u8 {
    if best >= beta {
        BOUND_LOWER
    } else if best > alpha {
        BOUND_EXACT
    } else {
        BOUND_UPPER
    }
}

/// The end of a node: mate or stalemate without a legal move; else the best score, which is stored and
/// compared with the static evaluation.
#[verifier::opaque]
pub open spec fn conclude(t: Tree, res: ResV, depth: int, alpha: int, beta: int, ply: int, in_check: bool, raw: int) -> (
    Tree,
    Option<int>,
) {
    if res.move_count == 0 {
        (
            t,
            Some(
                if in_check {
                    -MATE + ply
                } else {
                    0
                },
            ),
        )
    } else {
        let table = tt::stored(
            t.table,
            t.pos.hash,
            ply,
            depth,
            res.best_eval,
            res.best_move,
            bound_of(res.best_eval, alpha, beta),
        );
        let hist = if !in_check && arith::magnitude(res.best_eval) < MATE_BOUND {
            t.hist.corrected(t.pos.stm, t.pos.pawn_hash, res.best_eval - raw, depth)
        } else {
            t.hist
        };
        (Tree { table, hist, ..t }, Some(res.best_eval))
    }
}

// ──────── One move of a node ────────

/// The quiet move is remembered, as long as there is room.
pub open spec fn tracks(t: Tree, ply: int, mv: Move) -> bool {
    mv.kind() <= 1 && t.stack[ply].quiets.len() < MAX_TRACKED_QUIETS
}

#[verifier::opaque]
pub open spec fn remembered(t: Tree, ply: int, mv: Move) -> Tree {
    if tracks(t, ply, mv) {
        with_ply(t, ply, StackV { quiets: t.stack[ply].quiets.push(mv), ..t.stack[ply] })
    } else {
        t
    }
}

/// Futility, late-move and exchange pruning: the move is skipped.
#[verifier::opaque]
pub open spec fn skipped(cfg: SearchConfig, p: PositionV, sc: Scene, res: ResV, mv: Move) -> bool {
    let sp = cfg.search_params;
    let quiet = !movepicker::tactical(mv);
    let margin = if mv.captures() {
        -sp.see_capture_margin * sc.depth
    } else {
        -sp.see_quiet_margin * sc.depth * sc.depth
    };
    !sc.in_check && !sc.kind.pv() && {
        ||| quiet && res.move_count >= 1 && sc.depth <= sp.fp_depth && sc.static_eval + sp.fp_margin * sc.depth
            <= res.alpha
        ||| quiet && sc.depth <= sp.lmp_depth && res.move_count >= sp.lmp_base + sc.depth * sc.depth
        ||| res.move_count >= 1 && see::balance(p, mv) < margin
    }
}

/// The late-move reduction of a move: none for first moves, tactical moves and evasions; less for killers
/// and for moves with a good history.
#[verifier::opaque]
pub open spec fn reduction_of(cfg: SearchConfig, t: Tree, sc: Scene, res: ResV, mv: Move) -> int {
    if sc.depth >= 2 && res.move_count >= 1 && !movepicker::tactical(mv) && !sc.in_check {
        let base = cfg.reduction(sc.depth, res.move_count + 1);
        let killers = t.stack[sc.ply].killers;
        let r = if mv == killers.0 || mv == killers.1 {
            base - 1
        } else {
            base
        };
        let score = t.hist.quiet_score(
            t.pos.stm,
            model::type_at(t.pos.board, mv.src()),
            mv.src(),
            mv.dst(),
            sc.cont,
        );
        arith::clamped(r - arith::quot(score, 8192), 0, sc.depth - 1)
    } else {
        0
    }
}

/// The reduction of a root move, by its place in the list.
pub open spec fn root_reduction(cfg: SearchConfig, depth: int, in_check: bool, i: int, mv: Move) -> int {
    if depth >= 2 && i >= 1 && !movepicker::tactical(mv) && !in_check {
        cfg.reduction(depth, i + 1)
    } else {
        0
    }
}

/// The move that is about to be searched is noted for the node behind it.
#[verifier::opaque]
pub open spec fn noted(t: Tree, ply: int, mv: Move) -> Tree {
    with_ply(
        t,
        ply,
        StackV {
            moved_pt: model::type_at(t.pos.board, mv.src()),
            moved_to: Square(mv.dst() as u8),
            ..t.stack[ply]
        },
    )
}

/// The tree behind `mv`.
pub open spec fn descended(t: Tree, mv: Move) -> Tree {
    let p = play::after(t.pos, mv);
    Tree { pos: p, acc: play::acc_after(t.acc, t.pos, mv), trail: t.trail.push(p.hash), ..t }
}

/// At the root, the move that is about to be searched is reported.
#[verifier::opaque]
pub open spec fn mentioned(env: Env, t: Tree, kind: NodeKind, depth: int, mv: Move, number: int) -> Tree {
    if kind.root() {
        Tree { said: with_currmove(env.cfg, env.root, t.nodes, t.said, depth as i32, mv, number), ..t }
    } else {
        t
    }
}

/// Back from behind a move: position, accumulator and trail are those of `t` again.
pub open spec fn returned(u: Tree, t: Tree) -> Tree {
    Tree { pos: t.pos, acc: t.acc, trail: t.trail, ..u }
}

/// A reduction is one less for a move that gives check.
pub open spec fn eased(p: PositionV, reduction: int) -> int {
    if checked(p) {
        arith::larger(reduction - 1, 0)
    } else {
        reduction
    }
}

/// The score `v` of `mv` is recorded: for the root move, as the best so far, as the new alpha and line.
#[verifier::opaque]
pub open spec fn recorded(t: Tree, kind: NodeKind, ply: int, root_idx: Option<int>, mv: Move, res: ResV, v: int) -> (
    Tree,
    ResV,
) {
    let line = line::joined(mv, t.stack[ply + 1].pv);
    let better = v > res.best_eval;
    let roots = match root_idx {
        Some(i) => if kind.root() {
            t.roots.update(
                i,
                RootV {
                    score: v as i32,
                    pv: if better {
                        line
                    } else {
                        t.roots[i].pv
                    },
                    ..t.roots[i]
                },
            )
        } else {
            t.roots
        },
        None => t.roots,
    };
    let t1 = Tree { roots, ..t };
    if better && v > res.alpha {
        (
            with_ply(t1, ply, StackV { pv: line, ..t1.stack[ply] }),
            ResV { best_eval: v, best_move: mv, alpha: v, ..res },
        )
    } else if better {
        (t1, ResV { best_eval: v, best_move: mv, ..res })
    } else {
        (t1, res)
    }
}

/// History after a bonus for the first `n` of the quiet moves `qs`.
pub open spec fn punished(h: HistoryV, p: PositionV, qs: Seq<Move>, n: int, cont: ContContext, bonus: int) -> HistoryV
    decreases n,
{
    if n <= 0 {
        h
    } else {
        let q = qs[n - 1];
        punished(h, p, qs, n - 1, cont, bonus).rewarded(
            p.stm,
            model::type_at(p.board, q.src()),
            q.src(),
            q.dst(),
            cont,
            bonus,
        )
    }
}

/// What a cutoff teaches: a quiet move that caused it is rewarded and becomes a killer, the quiet moves
/// tried before it are punished.
#[verifier::opaque]
pub open spec fn taught(t: Tree, sc: Scene, mv: Move, appended: bool) -> Tree {
    let s = t.stack[sc.ply];
    let bonus = arith::smaller(sc.depth * sc.depth, 400);
    let quiet = mv.kind() <= 1;
    let h1 = if quiet {
        t.hist.rewarded(t.pos.stm, model::type_at(t.pos.board, mv.src()), mv.src(), mv.dst(), sc.cont, bonus)
    } else {
        t.hist
    };
    let killers = if quiet && mv != s.killers.0 {
        (mv, s.killers.0)
    } else {
        s.killers
    };
    let n = if appended && s.quiets.len() > 0 {
        s.quiets.len() - 1
    } else {
        s.quiets.len() as int
    };
    Tree {
        hist: punished(h1, t.pos, s.quiets, n, sc.cont, -bonus),
        ..with_ply(t, sc.ply, StackV { killers, ..s })
    }
}

// ──────── Quiescence ────────

/// The value of the most valuable piece of `c` that can be captured, from type number `k` down.
pub open spec fn priciest(cfg: SearchConfig, b: Board, c: Color, k: int) -> int
    decreases k + 1,
{
    if k < 0 {
        0
    } else if exists|i: int| 0 <= i < 64 && (#[trigger] b[i] matches Some(p) && p.color == c && p.pt.idx() == k) {
        cfg.mvvlva_v@[k] as int
    } else {
        priciest(cfg, b, c, k - 1)
    }
}

/// The score that the transposition table decides a quiescence node with, if it does.
#[verifier::opaque]
pub open spec fn quiet_table_cut(t: Tree, kind: NodeKind, alpha: int, beta: int, ply: int) -> Option<int> {
    match tt::lookup(t.table, t.pos.hash, ply) {
        Some((_, score, _, bound)) => if !kind.pv() && tt::cuts(bound, score as int, alpha, beta) {
            Some(score as int)
        } else {
            None
        },
        None => None,
    }
}

/// Standing pat: what a quiescence node starts from, or the score that already decides it. In check there
/// is no standing pat.
#[verifier::opaque]
pub open spec fn stand_pat(cfg: SearchConfig, t: Tree, alpha: int, beta: int) -> Result<QuietV, int> {
    if checked(t.pos) {
        Ok(QuietV { best_eval: -INF as int, best_move: Move(0), made: false, alpha })
    } else {
        let ev = corrected_eval(t);
        if ev >= beta {
            Err(ev)
        } else if ev + priciest(cfg, t.pos.board, t.pos.stm.other(), 4) + cfg.search_params.delta_margin < alpha {
            Err(alpha)
        } else {
            Ok(QuietV { best_eval: ev, best_move: Move(0), made: false, alpha: arith::larger(alpha, ev) })
        }
    }
}

/// The end of a quiescence node.
#[verifier::opaque]
pub open spec fn quiet_conclude(t: Tree, q: QuietV, alpha: int, beta: int, ply: int) -> (Tree, Option<int>) {
    if checked(t.pos) && !q.made {
        (t, Some(-MATE + ply))
    } else {
        (
            Tree {
                table: tt::stored_qs(
                    t.table,
                    t.pos.hash,
                    ply,
                    q.best_eval,
                    q.best_move,
                    bound_of(q.best_eval, alpha, beta),
                ),
                ..t
            },
            Some(q.best_eval),
        )
    }
}

/// The score `v` of a capture is recorded.
pub open spec fn quiet_recorded(t: Tree, q: QuietV, beta: int, mv: Move, v: int) -> QuietTurn {
    let q1 = QuietV { made: true, ..q };
    if v > q.best_eval {
        let q2 = QuietV { best_eval: v, best_move: mv, ..q1 };
        if v > q.alpha && v >= beta {
            QuietTurn::Stop(t, Some(q2))
        } else if v > q.alpha {
            QuietTurn::More(t, QuietV { alpha: v, ..q2 })
        } else {
            QuietTurn::More(t, q2)
        }
    } else {
        QuietTurn::More(t, q1)
    }
}

/// Quiescence search: a node is judged only once its captures are resolved.
#[verifier::opaque]
pub open spec fn quiet_node(env: Env, t: Tree, kind: NodeKind, alpha: int, beta: int, ply: int) -> (
    Tree,
    Option<int>,
)
    decreases 257 - ply, 3int, 0int, 0int,
    when ply <= 256
{
    let (t1, gate) = entry(env, t, ply);
    match gate {
        Gate::Abort => (t1, None),
        Gate::Draw => (t1, Some(0)),
        Gate::Open => if ply >= MAX_PLY {
            (t1, Some(eval::score_of(t1.acc, t1.pos.stm)))
        } else if quiet_table_cut(t1, kind, alpha, beta, ply) is Some {
            (t1, quiet_table_cut(t1, kind, alpha, beta, ply))
        } else {
            match stand_pat(env.cfg, t1, alpha, beta) {
                Err(v) => (t1, Some(v)),
                Ok(q) => {
                    let pk = movepicker::fresh(
                        table_move(t1, ply),
                        (Move(0), Move(0)),
                        (ContContext { pt: PieceType::Empty, to: Square(0) }),
                        env.cfg.mvvlva_v@,
                        env.cfg.mvvlva_a@,
                        !checked(t1.pos),
                    );
                    let (t2, r) = quiet_loop(env, t1, kind, beta, ply, q, pk);
                    match r {
                        None => (t2, None),
                        Some(q2) => quiet_conclude(t2, q2, alpha, beta, ply),
                    }
                },
            }
        },
    }
}

/// One capture of a quiescence node.
#[verifier::opaque]
pub open spec fn quiet_step(env: Env, t: Tree, kind: NodeKind, beta: int, ply: int, q: QuietV, mv: Move) -> QuietTurn
    decreases 257 - ply, 1int, 0int, 0int,
    when ply < 256
{
    if !movegen::legal(t.pos, mv) || (!checked(t.pos) && see::balance(t.pos, mv) < 0) {
        QuietTurn::More(t, q)
    } else {
        let (t1, r) = quiet_node(env, descended(t, mv), kind, -beta, -q.alpha, ply + 1);
        match r {
            None => QuietTurn::Stop(returned(t1, t), None),
            Some(v) => quiet_recorded(returned(t1, t), q, beta, mv, -v),
        }
    }
}

/// The captures of a quiescence node, in the picker's order.
#[verifier::opaque]
pub open spec fn quiet_loop(env: Env, t: Tree, kind: NodeKind, beta: int, ply: int, q: QuietV, pk: PickerV) -> (
    Tree,
    Option<QuietV>,
)
    decreases 257 - ply, 2int, 8 - pk.stage, pk.list.len(),
    when ply < 256
{
    proof {
        movepicker::lemma_pick_advances(pk, t.pos, t.hist);
    }
    match movepicker::pick(pk, t.pos, t.hist) {
        (None, _) => (t, Some(q)),
        (Some(mv), next) => match quiet_step(env, t, kind, beta, ply, q, mv) {
            QuietTurn::Stop(t2, r) => (t2, r),
            QuietTurn::More(t2, q2) => quiet_loop(env, t2, kind, beta, ply, q2, next),
        },
    }
}

// ──────── The main search ────────

/// Razoring: a node far below alpha is resolved by quiescence, unless that comes out above alpha.
#[verifier::opaque]
pub open spec fn razor_step(
    env: Env,
    t: Tree,
    kind: NodeKind,
    in_check: bool,
    depth: int,
    ev: int,
    alpha: int,
    beta: int,
    ply: int,
) -> Step {
    if razor_due(env.cfg, kind, in_check, depth, ev, alpha) {
        let (t1, r) = quiet_node(env, t, kind, alpha, beta, ply);
        match r {
            None => Step::Return(t1, None),
            Some(v) => if v <= alpha {
                Step::Return(t1, r)
            } else {
                Step::Continue(t1)
            },
        }
    } else {
        Step::Continue(t)
    }
}

/// The tree behind a pass.
pub open spec fn passed_turn(t: Tree, ply: int) -> Tree {
    let p = play::after_pass(t.pos);
    let s = t.stack.update(ply, StackV { moved_pt: PieceType::Empty, ..t.stack[ply] });
    Tree {
        pos: p,
        trail: t.trail.push(p.hash),
        stack: s.update(ply + 1, StackV { is_null: true, ..s[ply + 1] }),
        ..t
    }
}

/// Back from behind a pass.
pub open spec fn returned_from_pass(u: Tree, t: Tree, ply: int) -> Tree {
    Tree {
        pos: t.pos,
        trail: t.trail,
        ..with_ply(u, ply + 1, StackV { is_null: false, ..u.stack[ply + 1] })
    }
}

/// Null-move pruning: when even passing the turn beats beta, the node is cut off.
#[verifier::opaque]
pub open spec fn null_step(
    env: Env,
    t: Tree,
    kind: NodeKind,
    in_check: bool,
    depth: int,
    ev: int,
    beta: int,
    ply: int,
) -> Step
    decreases 257 - ply, 7int, 0int, 0int,
    when ply < 256
{
    if null_due(t, kind, in_check, ev, beta, ply) {
        let (t1, r) = node(
            env,
            passed_turn(t, ply),
            NodeKind::NonPv,
            null_depth(env.cfg, depth, ev, beta),
            -beta,
            -beta + 1,
            ply + 1,
            None,
        );
        let t2 = returned_from_pass(t1, t, ply);
        match r {
            None => Step::Return(t2, None),
            Some(v) => if -v >= beta {
                Step::Return(
                    t2,
                    Some(
                        if -v > MATE_BOUND {
                            beta
                        } else {
                            -v
                        },
                    ),
                )
            } else {
                Step::Continue(t2)
            },
        }
    } else {
        Step::Continue(t)
    }
}

/// Principal variation search: the full window for the first move, a scout with a window of one for the
/// others, and a second look at those that surprise.
#[verifier::opaque]
pub open spec fn scout(
    env: Env,
    t: Tree,
    kind: NodeKind,
    depth: int,
    alpha: int,
    beta: int,
    ply: int,
    is_first: bool,
    is_pv_move: bool,
    reduction: int,
) -> (Tree, Option<int>)
    decreases 257 - ply, 3int, 0int, 0int,
    when ply < 256
{
    let next_pv = if kind.pv() && is_pv_move {
        line::move_at(env.prev_pv, ply + 1)
    } else {
        None
    };
    if is_first {
        let (t1, r) = node(env, t, kind.child(), depth - 1, -beta, -alpha, ply + 1, next_pv);
        (t1, negated(r))
    } else {
        let (t1, r1) = node(env, t, NodeKind::NonPv, depth - 1 - reduction, -alpha - 1, -alpha, ply + 1, None);
        let (t2, r2) = if r1 matches Some(v) && -v > alpha && reduction > 0 {
            node(env, t1, NodeKind::NonPv, depth - 1, -alpha - 1, -alpha, ply + 1, None)
        } else {
            (t1, r1)
        };
        let (t3, r3) = if r2 matches Some(v) && -v > alpha && -v < beta {
            node(env, t2, kind.child(), depth - 1, -beta, -alpha, ply + 1, next_pv)
        } else {
            (t2, r2)
        };
        (t3, negated(r3))
    }
}

pub open spec fn negated(r: Option<int>) -> Option<int> {
    match r {
        Some(v) => Some(-v),
        None => None,
    }
}

/// A move is made, searched and taken back, and its score recorded.
#[verifier::opaque]
pub open spec fn tried(
    env: Env,
    t: Tree,
    kind: NodeKind,
    mv: Move,
    depth: int,
    res: ResV,
    beta: int,
    ply: int,
    root_idx: Option<int>,
    is_pv_move: bool,
    reduction: int,
) -> (Tree, Option<ResV>)
    decreases 257 - ply, 4int, 0int, 0int,
    when ply < 256
{
    let res1 = ResV { move_count: next_number(res.move_count), ..res };
    let t1 = mentioned(env, descended(t, mv), kind, depth, mv, res1.move_count);
    let (t2, r) = scout(
        env,
        t1,
        kind,
        depth,
        res.alpha,
        beta,
        ply,
        res1.move_count == 1,
        is_pv_move,
        eased(t1.pos, reduction),
    );
    let t3 = returned(t2, t);
    match r {
        None => (t3, None),
        Some(v) => {
            let (t4, res2) = recorded(t3, kind, ply, root_idx, mv, res1, v);
            (t4, Some(res2))
        },
    }
}

/// The root moves from place `i` on. The list keeps its length.
#[verifier::opaque]
pub open spec fn root_loop(env: Env, t: Tree, sc: Scene, res: ResV, i: int) -> (Tree, Option<ResV>)
    decreases 257 - sc.ply, 6int, t.roots.len() - i, 0int,
    when sc.ply < 256
{
    if i >= t.roots.len() {
        (t, Some(res))
    } else {
        let mv = t.roots[i].mv;
        let (t1, r) = tried(
            env,
            t,
            sc.kind,
            mv,
            sc.depth,
            res,
            sc.beta,
            sc.ply,
            Some(i),
            sc.pv_move == Some(mv),
            root_reduction(env.cfg, sc.depth, sc.in_check, i, mv),
        );
        match r {
            None => (t1, None),
            Some(res1) => if res1.alpha >= sc.beta || t1.roots.len() != t.roots.len() {
                (t1, Some(res1))
            } else {
                root_loop(env, t1, sc, res1, i + 1)
            },
        }
    }
}

/// One move of an interior node.
#[verifier::opaque]
pub open spec fn move_step(env: Env, t: Tree, sc: Scene, res: ResV, mv: Move) -> Turn
    decreases 257 - sc.ply, 5int, 0int, 0int,
    when sc.ply < 256
{
    let t1 = remembered(t, sc.ply, mv);
    if !movegen::legal(t.pos, mv) {
        Turn::More(t, res)
    } else if skipped(env.cfg, t.pos, sc, res, mv) {
        Turn::More(t1, res)
    } else {
        let (t2, r) = tried(
            env,
            noted(t1, sc.ply, mv),
            sc.kind,
            mv,
            sc.depth,
            res,
            sc.beta,
            sc.ply,
            None,
            sc.pv_move == Some(mv),
            reduction_of(env.cfg, t1, sc, res, mv),
        );
        match r {
            None => Turn::Stop(t2, None),
            Some(res1) => if res1.alpha >= sc.beta {
                Turn::Stop(taught(t2, sc, mv, tracks(t, sc.ply, mv)), r)
            } else {
                Turn::More(t2, res1)
            },
        }
    }
}

/// The moves of an interior node, in the picker's order.
#[verifier::opaque]
pub open spec fn move_loop(env: Env, t: Tree, sc: Scene, res: ResV, pk: PickerV) -> (Tree, Option<ResV>)
    decreases 257 - sc.ply, 6int, 8 - pk.stage, pk.list.len(),
    when sc.ply < 256
{
    proof {
        movepicker::lemma_pick_advances(pk, t.pos, t.hist);
    }
    match movepicker::pick(pk, t.pos, t.hist) {
        (None, _) => (t, Some(res)),
        (Some(mv), next) => match move_step(env, t, sc, res, mv) {
            Turn::Stop(t2, r) => (t2, r),
            Turn::More(t2, res2) => move_loop(env, t2, sc, res2, next),
        },
    }
}

/// All moves of a node.
#[verifier::opaque]
pub open spec fn all_moves(env: Env, t: Tree, sc: Scene, alpha: int, hash_move: Option<Move>) -> (
    Tree,
    Option<ResV>,
)
    decreases 257 - sc.ply, 7int, 0int, 0int,
    when sc.ply < 256
{
    if sc.kind.root() {
        root_loop(env, t, sc, no_result(alpha), 0)
    } else {
        let t1 = with_ply(t, sc.ply, StackV { quiets: Seq::empty(), ..t.stack[sc.ply] });
        let pk = movepicker::fresh(
            hash_move,
            t.stack[sc.ply].killers,
            sc.cont,
            env.cfg.mvvlva_v@,
            env.cfg.mvvlva_a@,
            false,
        );
        move_loop(env, t1, sc, no_result(alpha), pk)
    }
}

/// A node that was not pruned: its moves are searched.
#[verifier::opaque]
pub open spec fn played_out(
    env: Env,
    t: Tree,
    kind: NodeKind,
    depth: int,
    alpha: int,
    beta: int,
    ply: int,
    in_check: bool,
    raw: int,
    ev: int,
    pv: Option<Move>,
    hint: Option<Move>,
) -> (Tree, Option<int>)
    decreases 257 - ply, 8int, 0int, 0int,
    when ply < 256
{
    let d = reduced_without_hint(depth, hint);
    let sc = Scene {
        kind,
        depth: d,
        beta,
        ply,
        in_check,
        static_eval: ev,
        pv_move: pv,
        cont: context(t, ply),
    };
    let (t1, r) = all_moves(env, t, sc, alpha, first_of(hint, pv));
    match r {
        None => (t1, None),
        Some(res) => conclude(t1, res, d, alpha, beta, ply, in_check, raw),
    }
}

/// A node whose result is not in the table: it is judged statically, pruned if possible, and else its
/// moves are searched. A check extends the search by one ply.
#[verifier::opaque]
pub open spec fn expanded(
    env: Env,
    t: Tree,
    kind: NodeKind,
    depth: int,
    alpha: int,
    beta: int,
    ply: int,
    pv_move: Option<Move>,
) -> (Tree, Option<int>)
    decreases 257 - ply, 9int, 0int, 0int,
    when ply < 256
{
    let hint = table_move(t, ply);
    let pv = playable_hint(t.pos, pv_move);
    let chk = checked(t.pos);
    let d = if chk {
        depth + 1
    } else {
        depth
    };
    let raw = if chk {
        SCORE_NONE as int
    } else {
        eval::score_of(t.acc, t.pos.stm)
    };
    let ev = if chk {
        SCORE_NONE as int
    } else {
        corrected_eval(t)
    };
    let t1 = with_ply(t, ply, StackV { static_eval: ev as i32, ..t.stack[ply] });
    if futile_to_play_on(env.cfg, kind, chk, d, ev, beta) {
        (t1, Some(ev))
    } else {
        match razor_step(env, t1, kind, chk, d, ev, alpha, beta, ply) {
            Step::Return(t2, r) => (t2, r),
            Step::Continue(t2) => match null_step(env, t2, kind, chk, d, ev, beta, ply) {
                Step::Return(t3, r) => (t3, r),
                Step::Continue(t3) => played_out(env, t3, kind, d, alpha, beta, ply, chk, raw, ev, pv, hint),
            },
        }
    }
}

/// Negamax with alpha-beta pruning: the tree after the node and its score, or none when aborted.
#[verifier::opaque]
pub open spec fn node(
    env: Env,
    t: Tree,
    kind: NodeKind,
    depth: int,
    alpha: int,
    beta: int,
    ply: int,
    pv_move: Option<Move>,
) -> (Tree, Option<int>)
    decreases 257 - ply, 10int, 0int, 0int,
    when ply <= 256
{
    let (t1, gate) = entry(env, t, ply);
    match gate {
        Gate::Abort => (t1, None),
        Gate::Draw => (t1, Some(0)),
        Gate::Open => if depth <= 0 {
            quiet_node(env, t1, kind, alpha, beta, ply)
        } else if ply >= MAX_PLY {
            (t1, Some(eval::score_of(t1.acc, t1.pos.stm)))
        } else if table_cut(t1, kind, depth, alpha, beta, ply) is Some {
            (t1, table_cut(t1, kind, depth, alpha, beta, ply))
        } else {
            expanded(env, t1, kind, depth, alpha, beta, ply, pv_move)
        },
    }
}

} // verus!
