//! Searching.

use soul::board::{Position, STARTPOS};
use soul::engine::history::History;
use soul::engine::movegen::gen_legal_moves;
use soul::engine::search::config::LMR_SIZE;
use soul::engine::search::{
    Console, Limits, Line, Mute, Protocol, Report, RootMove, SearchConfig, SearchDisplay, Searcher, Stack, Worker,
};
use soul::engine::search_params::SearchParams;
use soul::engine::tt::TranspositionTable;
use soul::moves::Move;
use soul::types::{Square, INF, MATE, MATE_BOUND};
use std::sync::atomic::{AtomicBool, Ordering};
use std::sync::Arc;
use std::time::Instant;

fn reductions() -> Vec<i8> {
    let mut table = vec![0i8; LMR_SIZE];
    for d in 1..=128usize {
        for m in 1..=256usize {
            table[d * 257 + m] = (0.75 + (d as f64).ln() * (m as f64).ln() / 2.25).floor() as i8;
        }
    }
    table
}

fn config(limits: Limits, stop: bool, display: SearchDisplay) -> SearchConfig {
    SearchConfig::new_full(
        limits,
        Instant::now(),
        Arc::new(AtomicBool::new(stop)),
        0,
        display,
        SearchParams::default(),
        reductions(),
    )
}

fn depth(d: i32) -> Limits {
    Limits { depth: d, ..Limits::default() }
}

/// Writes down what it is told.
struct Recorder(Vec<String>);

impl Console for Recorder {
    fn report(&mut self, what: Report) {
        let line = match what {
            Report::ClearScreen => "clear".to_string(),
            Report::NodesSearched(n) => format!("nodes {n}"),
            Report::NoMatchingMove => "no match".to_string(),
            Report::NoMove => "none".to_string(),
            Report::Info { data, full_screen, .. } => {
                format!("info {} {} {} {full_screen}", data.depth, data.score, data.pv.len)
            }
            Report::CurrentMove { mv, .. } => format!("current {mv}"),
            Report::BestMove { protocol, mv } => match protocol {
                Protocol::Uci => format!("bestmove {mv}"),
                Protocol::XBoard => format!("move {mv}"),
            },
        };
        self.0.push(line);
    }
}

fn run(fen: &str, limits: Limits) -> (Option<Move>, Option<i32>, u64) {
    let cfg = config(limits, false, SearchDisplay::silent());
    let pos = Position::from_fen(fen);
    let mut s = Searcher::new(&cfg, &pos, &[], History::new(), TranspositionTable::new(1 << 16), Mute);
    s.iterative_deepening();
    assert_eq!(s.root_pos.as_fen(), pos.as_fen());
    assert_eq!(s.zobrist_trail, vec![pos.hash]);
    (s.best_move(), s.best_score(), s.nodes)
}

#[test]
fn finds_mate_in_one() {
    let (mv, score, _) = run("6k1/5ppp/8/8/8/8/5PPP/3R2K1 w - - 0 1", depth(3));
    assert_eq!(mv.map(|m| m.to_uci(false)), Some("d1d8".to_string()));
    assert_eq!(score, Some(MATE - 1));
}

#[test]
fn finds_mate_in_two() {
    let (mv, score, _) = run("7k/8/8/8/8/8/1R6/R6K w - - 0 1", depth(5));
    assert_eq!(score, Some(MATE - 3));
    assert!(mv.is_some());
}

#[test]
fn sees_being_mated() {
    // Any move of Black's king is answered by mate.
    let (_, score, _) = run("k7/8/1K6/8/8/8/8/7R b - - 0 1", depth(4));
    assert_eq!(score, Some(-MATE + 2));
}

#[test]
fn takes_the_hanging_queen() {
    let (mv, score, _) = run("4k3/8/8/3q4/4P3/8/8/4K3 w - - 0 1", depth(4));
    assert_eq!(mv.map(|m| m.to_uci(false)), Some("e4d5".to_string()));
    assert!(score.unwrap_or(0) > 0);
}

#[test]
fn a_drawn_root_is_searched_until_stopped() {
    for fen in ["4k3/8/8/8/8/8/8/4KN2 w - - 0 1", "4k3/8/8/8/8/8/8/4KR2 w - - 100 60"] {
        // A node at a time; the limit is noticed at the next look at the signals.
        let limits = Limits { nodes: 3000, ..Limits::default() };
        let cfg = config(limits, false, SearchDisplay::default());
        let pos = Position::from_fen(fen);
        let first = gen_legal_moves(&pos)[0];
        let mut s =
            Searcher::new(&cfg, &pos, &[], History::new(), TranspositionTable::new(64), Recorder(Vec::new()));
        s.iterative_deepening();
        assert_eq!((s.best_score(), s.best_move(), s.nodes), (Some(-INF), Some(first), 4096));
        assert!(cfg.stop.load(std::sync::atomic::Ordering::Relaxed));
        assert!(s.pv_history.is_empty());
        assert_eq!(s.console.0, vec![format!("bestmove {}", first.to_uci(false))]);
    }
}

#[test]
fn fifty_moves_without_progress_are_a_draw() {
    let (_, score, _) = run("4k3/8/8/8/8/8/8/4KR2 w - - 99 60", depth(2));
    assert_eq!(score, Some(0));
}

#[test]
fn a_quiet_evasion_at_the_horizon_is_no_mate() {
    // The rook checks on a8; Black's only answers are quiet king moves.
    let pos = Position::from_fen("7k/8/8/8/8/8/8/R6K w - - 0 1");
    let check = gen_legal_moves(&pos).into_iter().find(|m| m.to_uci(false) == "a1a8");
    assert!(check.is_some());
    let limits = Limits { searchmoves: check.into_iter().collect(), ..depth(1) };
    let (_, score, _) = run("7k/8/8/8/8/8/8/R6K w - - 0 1", limits);
    assert!(score.unwrap_or(MATE) < MATE_BOUND);
}

#[test]
fn the_move_counter_has_room_for_the_longest_line() {
    let (mv, score, _) = run("6k1/5ppp/8/8/8/8/5PPP/3R2K1 w - - 0 65407", depth(3));
    assert_eq!(mv.map(|m| m.to_uci(false)), Some("d1d8".to_string()));
    assert_eq!(score, Some(MATE - 1));
    let (_, score, _) = run("k7/8/1K6/8/8/8/8/7R b - - 0 65407", depth(4));
    assert_eq!(score, Some(-MATE + 2));
}

#[test]
fn negative_parameters_are_searched_with() {
    let params = SearchParams {
        rfp_margin: -80,
        razoring_margin: -250,
        nmp_base_r: 32,
        nmp_depth_divisor: -4,
        nmp_eval_max: -1,
        fp_margin: -110,
        see_quiet_margin: -20,
        see_capture_margin: -100,
        delta_margin: -200,
        mvvlva_v_queen: -900,
        mvvlva_a_queen: -9,
        ..SearchParams::default()
    };
    assert!(params.is_valid());
    let cfg = SearchConfig::new_full(
        depth(4),
        Instant::now(),
        Arc::new(AtomicBool::new(false)),
        0,
        SearchDisplay::silent(),
        params,
        vec![-1i8; LMR_SIZE],
    );
    let pos = Position::from_fen("6k1/5ppp/8/8/8/8/5PPP/3R2K1 w - - 0 1");
    let mut s = Searcher::new(&cfg, &pos, &[], History::new(), TranspositionTable::new(1 << 12), Mute);
    s.iterative_deepening();
    assert_eq!(s.best_move().map(|m| m.to_uci(false)), Some("d1d8".to_string()));
    assert_eq!(s.best_score(), Some(MATE - 1));
}

#[test]
fn the_announced_move_is_the_first_root_move() {
    for d in 1..=5 {
        let cfg = config(depth(d), false, SearchDisplay::default());
        let pos = Position::from_fen(STARTPOS);
        let mut s = Searcher::new(
            &cfg,
            &pos,
            &[],
            History::new(),
            TranspositionTable::new(1 << 12),
            Recorder(Vec::new()),
        );
        s.iterative_deepening();
        let first = s.root_moves[0].mv;
        assert_eq!(s.prev_pv.get(0), Some(first));
        assert_eq!(s.console.0.last(), Some(&format!("bestmove {}", first.to_uci(false))));
        for rm in &s.root_moves {
            assert!(rm.pv.len == 0 || rm.pv.get(0) == Some(rm.mv));
        }
    }
}

#[test]
fn no_root_move_means_no_result() {
    let (mv, score, nodes) = run("7k/5K2/6Q1/8/8/8/8/8 b - - 0 1", depth(3));
    assert_eq!((mv, score, nodes), (None, None, 0));
}

#[test]
fn searchmoves_restrict_the_root() {
    let pos = Position::from_fen(STARTPOS);
    let a = gen_legal_moves(&pos)[3];
    let limits = Limits { searchmoves: vec![a], ..depth(2) };
    let (mv, _, _) = run(STARTPOS, limits);
    assert_eq!(mv, Some(a));
}

#[test]
fn reports_an_unmatched_searchmoves_list() {
    let limits = Limits { searchmoves: vec![Move::null()], ..depth(2) };
    let cfg = config(limits, false, SearchDisplay::silent());
    let pos = Position::from_fen(STARTPOS);
    let mut s = Searcher::new(&cfg, &pos, &[], History::new(), TranspositionTable::new(64), Recorder(Vec::new()));
    s.iterative_deepening();
    assert_eq!(s.console.0, vec!["no match".to_string(), "none".to_string()]);
    assert_eq!(s.best_move(), None);
}

#[test]
fn perft_is_reported() {
    let limits = Limits { perft: Some(2), ..Limits::default() };
    let cfg = config(limits, false, SearchDisplay::silent());
    let pos = Position::from_fen(STARTPOS);
    let mut s = Searcher::new(&cfg, &pos, &[], History::new(), TranspositionTable::new(64), Recorder(Vec::new()));
    s.iterative_deepening();
    assert_eq!(s.console.0, vec!["nodes 400".to_string()]);
    assert_eq!(s.root_moves.len(), 20);
}

#[test]
fn every_iteration_is_reported() {
    let cfg = config(depth(3), false, SearchDisplay::standard());
    let pos = Position::from_fen("6k1/5ppp/8/8/8/8/5PPP/3R2K1 w - - 0 1");
    let mut s = Searcher::new(&cfg, &pos, &[], History::new(), TranspositionTable::new(1024), Recorder(Vec::new()));
    s.iterative_deepening();
    let said = &s.console.0;
    assert_eq!(said.len(), 4);
    for d in 1..=3 {
        assert!(said[d - 1].starts_with(&format!("info {d} ")));
        assert!(said[d - 1].ends_with(" false"));
    }
    assert_eq!(said[2], format!("info 3 {} 1 false", MATE - 1));
    assert_eq!(said[3], "bestmove d1d8");
    assert_eq!(s.pv_history.len(), 3);
    assert_eq!(s.prev_score, MATE - 1);
    assert_eq!(s.chosen_move().to_uci(false), "d1d8");
}

#[test]
fn xboard_and_silence() {
    let limits = Limits { protocol: Protocol::XBoard, ..depth(1) };
    let cfg = config(limits, false, SearchDisplay::silent());
    let pos = Position::from_fen("6k1/5ppp/8/8/8/8/5PPP/3R2K1 w - - 0 1");
    let mut s = Searcher::new(&cfg, &pos, &[], History::new(), TranspositionTable::new(64), Recorder(Vec::new()));
    s.iterative_deepening();
    assert_eq!(s.console.0.last().map(|x| x.starts_with("move ")), Some(true));

    let limits = Limits { silent: true, ..depth(2) };
    let cfg = config(limits, false, SearchDisplay::silent());
    let mut s = Searcher::new(&cfg, &pos, &[], History::new(), TranspositionTable::new(64), Recorder(Vec::new()));
    s.iterative_deepening();
    assert!(s.console.0.is_empty());
}

#[test]
fn full_screen_display() {
    let display = SearchDisplay { go_pretty: true, ..SearchDisplay::silent() };
    let cfg = config(depth(2), false, display);
    let pos = Position::from_fen(STARTPOS);
    let mut s = Searcher::new(&cfg, &pos, &[], History::new(), TranspositionTable::new(1024), Recorder(Vec::new()));
    s.iterative_deepening();
    assert_eq!(s.console.0[0], "clear");
    assert!(s.console.0[1].ends_with(" true"));
}

#[test]
fn a_raised_stop_flag_ends_the_search_at_once() {
    let cfg = config(depth(5), true, SearchDisplay::silent());
    let pos = Position::from_fen(STARTPOS);
    let mut s = Searcher::new(&cfg, &pos, &[], History::new(), TranspositionTable::new(64), Recorder(Vec::new()));
    s.iterative_deepening();
    assert_eq!(s.nodes, 0);
    assert_eq!(s.best_move(), Some(gen_legal_moves(&pos)[0]));
    assert_eq!(s.best_score(), Some(-INF));
    assert_eq!(s.console.0.len(), 1);
    assert!(cfg.stop.load(Ordering::Acquire));
}

#[test]
fn the_node_limit_stops_the_search() {
    let limits = Limits { nodes: 3000, ..Limits::default() };
    let cfg = config(limits, false, SearchDisplay::silent());
    let pos = Position::from_fen(STARTPOS);
    let mut s = Searcher::new(&cfg, &pos, &[], History::new(), TranspositionTable::new(1 << 14), Mute);
    s.iterative_deepening();
    // Signals are looked for every 2048 nodes.
    assert_eq!(s.nodes, 4096);
    assert!(cfg.stop.load(Ordering::Acquire));
    assert_eq!(s.root_pos.as_fen(), STARTPOS);
    assert_eq!(s.zobrist_trail, vec![pos.hash]);
}

#[test]
fn the_soft_node_limit_stops_between_iterations() {
    let limits = Limits { softnodes: 1, ..Limits::default() };
    let cfg = config(limits, false, SearchDisplay::silent());
    let pos = Position::from_fen(STARTPOS);
    let mut s = Searcher::new(&cfg, &pos, &[], History::new(), TranspositionTable::new(64), Mute);
    s.iterative_deepening();
    assert_eq!(s.iter_depth, 2);
    assert_eq!(s.pv_history.len(), 1);
}

#[test]
fn mate_limit_sets_the_depth() {
    let limits = Limits { mate: Some(1), depth: 9, ..Limits::default() };
    let cfg = config(limits, false, SearchDisplay::silent());
    let pos = Position::from_fen("6k1/5ppp/8/8/8/8/5PPP/3R2K1 w - - 0 1");
    let mut s = Searcher::new(&cfg, &pos, &[], History::new(), TranspositionTable::new(1024), Mute);
    s.iterative_deepening();
    assert_eq!(s.iter_depth, 2);
    assert_eq!(s.best_score(), Some(MATE - 1));
}

#[test]
fn root_moves_are_sorted_by_score() {
    let cfg = config(depth(4), false, SearchDisplay::silent());
    let pos = Position::from_fen("r1bqkbnr/pppp1ppp/2n5/4p3/2B1P3/5Q2/PPPP1PPP/RNB1K1NR w KQkq - 0 1");
    let mut s = Searcher::new(&cfg, &pos, &[], History::new(), TranspositionTable::new(1 << 16), Mute);
    s.iterative_deepening();
    assert_eq!(s.best_move().map(|m| m.to_uci(false)), Some("f3f7".to_string()));
    for w in s.root_moves.windows(2) {
        assert!(w[0].score >= w[1].score);
    }
    assert_eq!(s.root_moves.len(), gen_legal_moves(&pos).len());
}

#[test]
fn a_searcher_can_be_used_again() {
    let cfg = config(depth(2), false, SearchDisplay::silent());
    let first = Position::from_fen(STARTPOS);
    let second = Position::from_fen("6k1/5ppp/8/8/8/8/5PPP/3R2K1 w - - 5 1");
    let mut s = Searcher::new(&cfg, &first, &[], History::new(), TranspositionTable::new(1024), Mute);
    let learned = s.iterative_deepening();
    s.reset(&cfg, &second, &[1, 2, 3, 4, 5, 6, 7], learned);
    assert_eq!(s.nodes, 0);
    assert_eq!(s.zobrist_trail, vec![3, 4, 5, 6, 7, second.hash]);
    s.iterative_deepening();
    assert_eq!(s.best_move().map(|m| m.to_uci(false)), Some("d1d8".to_string()));
}

#[test]
fn trail_keeps_what_can_repeat() {
    let cfg = config(depth(1), false, SearchDisplay::silent());
    let pos = Position::from_fen("4k3/8/8/8/8/8/8/R3K3 w - - 2 9");
    let s = Searcher::new(&cfg, &pos, &[10, 11, 12], History::new(), TranspositionTable::new(64), Mute);
    assert_eq!(s.zobrist_trail, vec![11, 12, pos.hash]);
    let s = Searcher::new(&cfg, &pos, &[10], History::new(), TranspositionTable::new(64), Mute);
    assert_eq!(s.zobrist_trail, vec![10, pos.hash]);
}

#[test]
fn info_data_counts() {
    let cfg = config(depth(1), false, SearchDisplay::silent());
    let pos = Position::from_fen(STARTPOS);
    let mut s = Searcher::new(&cfg, &pos, &[], History::new(), TranspositionTable::new(64), Mute);
    s.nodes = 5000;
    let d = s.info_data(7, -12, &Line::new(), 250);
    assert_eq!((d.depth, d.score, d.nodes, d.nps, d.time_ms), (7, -12, 5000, 20_000, 250));
    assert_eq!((d.material, d.stm, d.hashfull), (78, 0, 0));
    assert_eq!(s.info_data(7, -12, &Line::new(), 0).time_ms, 1);
    assert!(!s.shows_currmove());
}

#[test]
fn lines_are_composed() {
    let a = Move::new(Square(12), Square(28), Move::DOUBLE_PUSH);
    let b = Move::new(Square(52), Square(36), Move::DOUBLE_PUSH);
    let mut tail = Line::new();
    assert_eq!(tail.get(0), None);
    assert!(tail.moves.iter().all(|m| *m == Move::null()));
    tail.compose(b, &Line::new());
    let mut line = Line::default();
    line.compose(a, &tail);
    assert_eq!(line.len, 2);
    assert_eq!(line.get(0), Some(a));
    assert_eq!(line.get(1), Some(b));
    assert_eq!(line.get(2), None);
    for _ in 0..300 {
        let whole = line;
        line.compose(a, &whole);
    }
    assert_eq!(line.len, 256);
    line.clear();
    assert_eq!(line.len, 0);
}

#[test]
fn draws_by_repetition_material_and_clock() {
    let worker = |fen: &str| {
        let pos = Position::from_fen(fen);
        Worker { accumulator: pos.get_initial_accumulator(), pos, stack: Vec::new(), history: History::new() }
    };
    let w = worker("4k3/8/8/8/8/8/8/R3K3 w - - 4 9");
    let h = w.pos.hash;
    assert!(w.is_draw(1, &[h, 1, 2, 3, h]));
    assert!(!w.is_draw(0, &[h, 1, 2, 3, h]));
    assert!(!w.is_draw(1, &[h, 9, 1, 2, 3, 4, h]));
    assert!(!w.is_draw(1, &[h]));
    assert!(worker("4k3/8/8/8/8/8/8/R3K3 w - - 100 80").is_draw(0, &[]));
    assert!(worker("4k3/8/8/8/8/8/8/B3K3 w - - 0 1").is_draw(0, &[]));
}

#[test]
fn scratch_data_starts_blank() {
    let s = Stack::default();
    assert_eq!((s.pv.len, s.quiet_count, s.is_null), (0, 0, false));
    assert_eq!(s.killers, (Move::null(), Move::null()));
    let rm = RootMove::new(Move::null());
    assert_eq!((rm.score, rm.pv.len), (-INF, 0));
}

#[test]
fn a_silent_search_says_nothing() {
    let limits = Limits { silent: true, ..depth(3) };
    let cfg = config(limits, false, SearchDisplay::standard());
    let pos = Position::from_fen(STARTPOS);
    let mut s = Searcher::new(&cfg, &pos, &[], History::new(), TranspositionTable::new(1024), Recorder(Vec::new()));
    s.iterative_deepening();
    assert!(s.console.0.is_empty());
    assert_eq!(s.iter_depth, 3);
}

#[test]
fn no_root_move_is_lost() {
    let cfg = config(depth(4), false, SearchDisplay::silent());
    let pos = Position::from_fen("r3k2r/p1ppqpb1/bn2pnp1/3PN3/1p2P3/2N2Q1p/PPPBBPPP/R3K2R w KQkq - 0 1");
    let mut s = Searcher::new(&cfg, &pos, &[], History::new(), TranspositionTable::new(1 << 16), Mute);
    s.iterative_deepening();
    let mut before: Vec<String> = gen_legal_moves(&pos).iter().map(|m| m.to_uci(false)).collect();
    let mut after: Vec<String> = s.root_moves.iter().map(|r| r.mv.to_uci(false)).collect();
    before.sort();
    after.sort();
    assert_eq!(before, after);
}

#[test]
fn an_aborted_iteration_does_not_sort() {
    let limits = Limits { nodes: 1, ..Limits::default() };
    let cfg = config(limits, false, SearchDisplay::silent());
    let pos = Position::from_fen(STARTPOS);
    let mut s = Searcher::new(&cfg, &pos, &[], History::new(), TranspositionTable::new(1024), Mute);
    s.iterative_deepening();
    // The first iteration is completed; the look between iterations sees that the nodes are used up.
    assert_eq!(s.pv_history.len(), 1);
    assert_eq!(s.iter_depth, 2);
    for w in s.root_moves.windows(2) {
        assert!(w[0].score >= w[1].score);
    }
    assert!(cfg.stop.load(Ordering::Acquire));
}

#[test]
fn time_stops_the_search() {
    let limits = Limits { movetime: 30, ..Limits::default() };
    let cfg = config(limits, false, SearchDisplay::silent());
    let pos = Position::from_fen(STARTPOS);
    let mut s = Searcher::new(&cfg, &pos, &[], History::new(), TranspositionTable::new(1 << 12), Mute);
    s.iterative_deepening();
    assert!(s.tm.elapsed() >= 15);
    assert!(s.best_move().is_some());
}

#[test]
fn stalemate_is_worth_nothing() {
    // Taking the pawn on a7 stalemates; every other move keeps winning.
    let (_, score, _) = run("k7/P7/K7/8/8/8/8/8 b - - 0 1", depth(2));
    assert_eq!(score, None);
    let pos = Position::from_fen("k7/P7/2K5/8/8/8/8/8 w - - 0 1");
    let stalemating = gen_legal_moves(&pos).into_iter().find(|m| m.to_uci(false) == "c6b6");
    assert!(stalemating.is_some());
    let limits = Limits { searchmoves: stalemating.into_iter().collect(), ..depth(3) };
    let (_, score, _) = run("k7/P7/2K5/8/8/8/8/8 w - - 0 1", limits);
    assert_eq!(score, Some(0));
}

#[test]
fn a_repetition_is_a_draw() {
    // The rook has shuttled once; going back again repeats the position.
    let mut pos = Position::from_fen("7k/8/8/8/8/8/8/R5K1 w - - 0 1");
    let mut acc = pos.get_initial_accumulator();
    let mut game = Vec::new();
    for mv in ["a1a2", "h8g8", "a2a1", "g8h8"] {
        game.push(pos.hash);
        let m = gen_legal_moves(&pos).into_iter().find(|m| m.to_uci(false) == mv).unwrap_or(Move::null());
        pos.make_move(m, &mut acc);
    }
    game.push(pos.hash);
    assert!(!pos.is_threefold_repetition(&game));
    let w = Worker { accumulator: acc, pos, stack: Vec::new(), history: History::new() };
    assert!(w.is_draw(1, &game));
    assert!(!w.is_draw(0, &game));
}

#[test]
fn a_stale_illegal_move_is_not_announced() {
    let first = Position::from_fen("k7/8/8/8/8/8/4R3/4K3 w - - 0 1");
    let shift = gen_legal_moves(&first).into_iter().filter(|m| m.to_uci(false) == "e2a2").collect::<Vec<Move>>();
    let only = Limits { searchmoves: shift, ..depth(1) };
    let cfg = config(only, false, SearchDisplay::silent());
    let mut s = Searcher::new(&cfg, &first, &[], History::new(), TranspositionTable::new(64), Recorder(Vec::new()));
    let learned = s.iterative_deepening();
    assert_eq!(s.prev_pv.get(0).map(|m| m.to_uci(false)), Some("e2a2".to_string()));
    // Here the rook is pinned, and the search is stopped before it begins.
    let second = Position::from_fen("k3r3/8/8/8/8/8/4R3/4K3 w - - 0 1");
    let stopped = config(depth(3), true, SearchDisplay::silent());
    s.reset(&stopped, &second, &[], learned);
    s.iterative_deepening();
    assert!(gen_legal_moves(&second).contains(&s.chosen_move()));
    assert_eq!(s.console.0.last(), Some(&format!("bestmove {}", gen_legal_moves(&second)[0].to_uci(false))));
}

#[test]
fn an_undisturbed_search_ends_sorted() {
    let cfg = config(depth(3), false, SearchDisplay::silent());
    let pos = Position::from_fen(STARTPOS);
    let mut s = Searcher::new(&cfg, &pos, &[], History::new(), TranspositionTable::new(1 << 14), Mute);
    s.iterative_deepening();
    assert!(!cfg.stop.load(Ordering::Acquire));
    for w in s.root_moves.windows(2) {
        assert!(w[0].score >= w[1].score);
    }
    assert_eq!(s.prev_score, s.root_moves[0].score);
    assert_eq!(s.prev_pv.get(0), s.root_moves[0].pv.get(0));
    assert_eq!(s.pv_history.len(), 3);
}
