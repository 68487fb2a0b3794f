//! Moves, exchanges, tables and clocks.

use soul::arith::{clamp, divide};
use soul::board::{Position, STARTPOS};
use soul::engine::eval::evaluate;
use soul::engine::history::{ContContext, History};
use soul::engine::movegen::{gen_legal_moves, gen_pseudo_moves, is_legal, is_pseudo_legal};
use soul::engine::movepicker::MovePicker;
use soul::engine::perft::perft;
use soul::engine::search::config::{is_lmr_table, LMR_SIZE};
use soul::engine::search::{Limits, SearchConfig, SearchDisplay};
use soul::engine::search_params::SearchParams;
use soul::engine::see::see_ge;
use soul::engine::tm::TimeManager;
use soul::engine::tt::{can_cutoff, TranspositionTable, BOUND_EXACT, BOUND_LOWER, BOUND_NONE, BOUND_UPPER};
use soul::moves::Move;
use soul::text::{parse_number, string_of};
use soul::types::{Bitboard, Color, PieceType, Square};
use std::sync::atomic::AtomicBool;
use std::sync::Arc;
use std::time::Instant;

fn config() -> SearchConfig {
    SearchConfig::new_full(
        Limits::default(),
        Instant::now(),
        Arc::new(AtomicBool::new(false)),
        10,
        SearchDisplay::silent(),
        SearchParams::default(),
        vec![0i8; LMR_SIZE],
    )
}

fn uci(pos: &Position, mv: &str) -> Move {
    for m in gen_legal_moves(pos) {
        if m.to_uci(pos.is_frc) == mv {
            return m;
        }
    }
    panic!("{mv} is not legal");
}

#[test]
fn numbers_round_toward_zero() {
    assert_eq!(divide(7, 2), 3);
    assert_eq!(divide(-7, 2), -3);
    assert_eq!(clamp(9, 0, 5), 5);
    assert_eq!(clamp(-9, 0, 5), 0);
}

#[test]
fn numbers_are_parsed_like_unsigned_integers() {
    let chars = |s: &str| s.chars().collect::<Vec<char>>();
    assert_eq!(parse_number(&chars("255"), 255), Some(255));
    assert_eq!(parse_number(&chars("256"), 255), None);
    assert_eq!(parse_number(&chars("+0042"), 255), Some(42));
    assert_eq!(parse_number(&chars("+"), 255), None);
    assert_eq!(parse_number(&chars("-1"), 255), None);
    assert_eq!(string_of(&chars("abc")), "abc");
}

#[test]
fn bitboards() {
    let mut b = Bitboard::empty();
    assert!(b.is_empty());
    assert_eq!(b.lsb(), Square(64));
    b.set_bit(Square(5));
    b.set_bit(Square(63));
    assert_eq!(b.popcount(), 2);
    assert_eq!(b.lsb(), Square(5));
    b.clear_bit(Square(5));
    assert_eq!(b.lsb(), Square(63));
    assert!(!b.check_bit(Square(5)));
}

#[test]
fn pseudo_legal_and_legal_moves() {
    let pos = Position::from_fen("4r2k/8/8/8/8/8/4N3/4K3 w - - 0 1");
    let pinned = Move::new(Square(12), Square(22), Move::QUIET);
    assert!(is_pseudo_legal(&pos, pinned));
    assert!(!is_legal(&pos, pinned));
    assert!(gen_pseudo_moves(&pos).contains(&pinned));
    assert!(!gen_legal_moves(&pos).contains(&pinned));
    // The kind of the move has to fit.
    assert!(!is_pseudo_legal(&pos, Move::new(Square(12), Square(22), Move::CAPTURE)));
    assert!(!is_pseudo_legal(&pos, Move::null()));
}

#[test]
fn legal_moves_are_distinct() {
    let pos = Position::from_fen("r3k2r/p1ppqpb1/bn2pnp1/3PN3/1p2P3/2N2Q1p/PPPBBPPP/R3K2R w KQkq - 0 1");
    let moves = gen_legal_moves(&pos);
    assert_eq!(moves.len(), 48);
    for (i, a) in moves.iter().enumerate() {
        assert!(!moves[..i].contains(a));
        assert!(is_pseudo_legal(&pos, *a) && is_legal(&pos, *a));
    }
}

#[test]
fn castling_with_unusual_rooks() {
    // Black's rook guards the square that the king goes to.
    let mut guarded = Position::from_fen("1r2k1r1/8/8/8/8/8/8/1R2K1R1 w GBgb - 0 1");
    guarded.is_frc = true;
    assert!(!gen_legal_moves(&guarded).iter().any(|m| m.to_uci(true) == "e1g1"));

    let mut pos = Position::from_fen("4k3/8/8/8/8/8/8/1R2K1R1 w GB - 0 1");
    pos.is_frc = true;
    let short = uci(&pos, "e1g1");
    assert!(short.is_castling());
    let mut acc = pos.get_initial_accumulator();
    let undo = pos.make_move(short, &mut acc);
    assert_eq!(pos.piece_at(Square(6)), PieceType::King);
    assert_eq!(pos.piece_at(Square(5)), PieceType::Rook);
    assert_eq!(pos.piece_at(Square(4)), PieceType::Empty);
    assert_eq!(pos.hash, pos.calc_zobrist());
    assert_eq!(acc.to_array(), pos.get_initial_accumulator().to_array());
    pos.unmake_move(short, &undo);
    assert_eq!(pos.as_fen(), "4k3/8/8/8/8/8/8/1R2K1R1 w GB - 0 1");
}

#[test]
fn null_move_and_back() {
    let mut pos = Position::from_fen("4k3/8/8/8/3pP3/8/8/4K3 b - e3 4 9");
    let before = pos.as_fen();
    let hash = pos.hash;
    let undo = pos.make_null_move();
    assert_eq!(pos.stm, Color::White);
    assert_eq!(pos.en_passant, None);
    assert_eq!(pos.halfmove_clock, 5);
    assert_eq!(pos.hash, pos.calc_zobrist());
    assert_ne!(pos.hash, hash);
    pos.unmake_null_move(&undo);
    assert_eq!(pos.as_fen(), before);
    assert_eq!(pos.hash, hash);
}

#[test]
fn perft_counts_and_restores() {
    let mut pos = Position::from_fen(STARTPOS);
    let mut acc = pos.get_initial_accumulator();
    assert_eq!(perft(&mut pos, 0, &mut acc), 1);
    assert_eq!(perft(&mut pos, 1, &mut acc), 20);
    assert_eq!(perft(&mut pos, 3, &mut acc), 8902);
    assert_eq!(pos.as_fen(), STARTPOS);
    assert_eq!(acc.to_array(), pos.get_initial_accumulator().to_array());
}

#[test]
fn exchanges() {
    // Pawn takes knight, defended by a pawn: 320 - 100.
    let pos = Position::from_fen("4k3/8/2p5/3n4/4P3/8/8/4K3 w - - 0 1");
    let mv = uci(&pos, "e4d5");
    assert!(see_ge(&pos, mv, 220));
    assert!(!see_ge(&pos, mv, 221));
    // Queen takes a defended pawn: 100 - 900.
    let pos = Position::from_fen("4k3/8/2p5/3p4/8/8/3Q4/4K3 w - - 0 1");
    let mv = uci(&pos, "d2d5");
    assert!(see_ge(&pos, mv, -800));
    assert!(!see_ge(&pos, mv, -799));
    // A second rook behind the first recaptures: the defender does not take back.
    let pos = Position::from_fen("3rk3/8/8/3p4/8/8/3R4/3RK3 w - - 0 1");
    let mv = uci(&pos, "d2d5");
    assert!(see_ge(&pos, mv, 100));
    // Castling exchanges nothing.
    let pos = Position::from_fen("4k3/8/8/8/8/8/8/4K2R w K - 0 1");
    let mv = uci(&pos, "e1g1");
    assert!(see_ge(&pos, mv, 0));
    assert!(!see_ge(&pos, mv, 1));
}

#[test]
fn evaluation_is_negated_for_the_other_side() {
    let w = Position::from_fen("4k3/8/8/8/8/8/Q7/4K3 w - - 0 1");
    let mut b = w;
    b.stm = Color::Black;
    let acc = w.get_initial_accumulator();
    assert!(evaluate(&w, &acc) > 800);
    assert_eq!(evaluate(&w, &acc), -evaluate(&b, &acc));
}

#[test]
fn mirrored_positions_score_the_same() {
    let a = Position::from_fen("r1bqkb1r/pppp1ppp/2n2n2/4p3/2B1P3/5N2/PPPP1PPP/RNBQK2R w KQkq - 4 4");
    let b = Position::from_fen("rnbqk2r/pppp1ppp/5n2/2b1p3/4P3/2N2N2/PPPP1PPP/R1BQKB1R b KQkq - 4 4");
    assert_eq!(
        evaluate(&a, &a.get_initial_accumulator()),
        evaluate(&b, &b.get_initial_accumulator())
    );
}

#[test]
fn table_gives_back_what_was_stored() {
    let mut t = TranspositionTable::new(64);
    let mv = Move::new(Square(12), Square(28), Move::DOUBLE_PUSH);
    assert_eq!(t.probe(77, 3), None);
    t.store(77, 3, 5, 123, mv, BOUND_EXACT);
    assert_eq!(t.probe(77, 3), Some((mv, 123, 5, BOUND_EXACT)));
    assert_eq!(t.probe(77 + 64, 3), None);
    // Mate scores count from the node.
    t.store(78, 4, 5, 48_990, mv, BOUND_LOWER);
    assert_eq!(t.probe(78, 4), Some((mv, 48_990, 5, BOUND_LOWER)));
    assert_eq!(t.probe(78, 6), Some((mv, 48_988, 5, BOUND_LOWER)));
    // A known move is kept when a result comes without one.
    t.store(77, 3, 6, 50, Move::null(), BOUND_UPPER);
    assert_eq!(t.probe(77, 3), Some((mv, 50, 6, BOUND_UPPER)));
    // A quiescence result does not replace a deeper one.
    t.store_qs(77, 3, 1, Move::null(), BOUND_EXACT);
    assert_eq!(t.probe(77, 3), Some((mv, 50, 6, BOUND_UPPER)));
    t.store_qs(80, 3, 1, mv, BOUND_EXACT);
    assert_eq!(t.probe(80, 3), Some((mv, 1, 0, BOUND_EXACT)));
    assert_eq!(t.hashfull(), 3 * 1000 / 64);
    t.clear();
    assert_eq!(t.probe(77, 3), None);
    assert_eq!(t.hashfull(), 0);
}

#[test]
fn table_cutoffs() {
    assert!(can_cutoff(BOUND_EXACT, 0, 10, 20));
    assert!(can_cutoff(BOUND_LOWER, 20, 10, 20));
    assert!(!can_cutoff(BOUND_LOWER, 19, 10, 20));
    assert!(can_cutoff(BOUND_UPPER, 10, 10, 20));
    assert!(!can_cutoff(BOUND_UPPER, 11, 10, 20));
    assert!(!can_cutoff(BOUND_NONE, 11, 10, 20));
}

#[test]
fn history_scores_and_corrections() {
    let mut h = History::new();
    let c = ContContext { pt: PieceType::Pawn, to: Square(36) };
    h.update(Color::Black, PieceType::Knight, Square(57), Square(42), c, 400);
    assert_eq!(h.score_quiet(Color::Black, PieceType::Knight, Square(57), Square(42), c), 800);
    assert_eq!(h.score_quiet(Color::White, PieceType::Knight, Square(57), Square(42), c), 400);
    assert_eq!(
        h.score_quiet(Color::Black, PieceType::Knight, Square(57), Square(42), ContContext::default()),
        400
    );
    // The second bonus counts for less: 400 + 400 - 400 * 400 / 16384.
    h.update(Color::Black, PieceType::Knight, Square(57), Square(42), c, 400);
    assert_eq!(h.score_quiet(Color::Black, PieceType::Knight, Square(57), Square(42), c), 2 * 791);

    assert_eq!(h.correction(Color::White, 99), 0);
    h.update_correction(Color::White, 99, 10, 3);
    assert_eq!(h.correction(Color::White, 99), 40);
    assert_eq!(h.correction(Color::White, 99 + 16_384), 40);
    assert_eq!(h.correction(Color::Black, 99), 0);
    let copy = h.clone();
    assert_eq!(copy.correction(Color::White, 99), 40);
    h.update_correction(Color::White, 99, -90_000, 100);
    assert_eq!(h.correction(Color::White, 99), -16_384);
}

#[test]
fn picker_hands_out_every_move_once() {
    let cfg = config();
    let hist = History::new();
    let pos = Position::from_fen("r3k2r/p1ppqpb1/bn2pnp1/3PN3/1p2P3/2N2Q1p/PPPBBPPP/R3K2R w KQkq - 0 1");
    let hash = uci(&pos, "a2a4");
    let killer = uci(&pos, "d2h6");
    let mut picker = MovePicker::new(Some(hash), &cfg, (killer, Move::null()), ContContext::default());
    let mut given = Vec::new();
    while let Some(mv) = picker.next(&pos, &hist) {
        assert!(!given.contains(&mv));
        given.push(mv);
    }
    assert_eq!(given[0], hash);
    let mut all = gen_pseudo_moves(&pos);
    assert_eq!(given.len(), all.len());
    all.retain(|m| !given.contains(m));
    assert!(all.is_empty());
    // Captures come before the killer, the killer before other quiet moves.
    let at = given.iter().position(|m| *m == killer);
    let captures = given.iter().filter(|m| m.is_tactical()).count();
    assert_eq!(at, Some(1 + captures));
    // The most valuable victim first.
    assert_eq!(given[1].to_uci(false), "e2a6");
}

#[test]
fn quiescence_picker_hands_out_captures() {
    let cfg = config();
    let hist = History::new();
    let pos = Position::from_fen("3rk3/P7/8/8/8/8/8/4K2R w K - 0 1");
    let mut picker = MovePicker::new_qsearch(None, &cfg, false);
    let mut given = Vec::new();
    while let Some(mv) = picker.next(&pos, &hist) {
        given.push(mv.to_uci(false));
    }
    assert_eq!(given, vec!["a7a8q".to_string()]);
    let mut picker = MovePicker::new_qsearch(None, &cfg, true);
    let mut count = 0;
    while picker.next(&pos, &hist).is_some() {
        count += 1;
    }
    assert_eq!(count, gen_pseudo_moves(&pos).len());
}

#[test]
fn time_budgets() {
    let now = Instant::now();
    let fixed = Limits { movetime: 500, ..Limits::default() };
    let tm = TimeManager::new(&fixed, now, Color::White, 20, 24);
    assert_eq!((tm.soft_limit(), tm.hard_limit()), (480, 480));
    let none = Limits::default();
    let tm = TimeManager::new(&none, now, Color::White, 20, 24);
    assert_eq!((tm.soft_limit(), tm.hard_limit()), (u64::MAX, u64::MAX));
    assert_eq!(tm.hard(), None);
    // (10020 - 20) / 10 + 400 / 4 * 3
    let clock = Limits { btime: 10_020, binc: 400, movestogo: 10, ..Limits::default() };
    let tm = TimeManager::new(&clock, now, Color::Black, 20, 24);
    assert_eq!((tm.soft_limit(), tm.hard_limit()), (1300, 5200));
    assert_eq!(tm.hard(), Some(5200));
    // Neither limit is more than four fifths of the time left.
    let last = Limits { wtime: 120, movestogo: 1, ..Limits::default() };
    let tm = TimeManager::new(&last, now, Color::White, 20, 24);
    assert_eq!((tm.soft_limit(), tm.hard_limit()), (80, 80));
}

#[test]
fn parameters_and_limits_are_checked() {
    assert!(SearchParams::default().is_valid());
    assert!(!SearchParams { nmp_depth_divisor: 0, ..SearchParams::default() }.is_valid());
    assert!(SearchParams { see_quiet_margin: 129_000, ..SearchParams::default() }.is_valid());
    assert!(!SearchParams { see_quiet_margin: 129_001, ..SearchParams::default() }.is_valid());
    assert!(SearchParams { see_quiet_margin: -129_000, ..SearchParams::default() }.is_valid());
    assert!(SearchParams { rfp_margin: -1, lmp_base: -9, fp_depth: i32::MIN, ..SearchParams::default() }.is_valid());
    assert!(!SearchParams { asp_initial: -1, ..SearchParams::default() }.is_valid());
    assert!(!SearchParams { nmp_eval_divisor: -1, ..SearchParams::default() }.is_valid());
    assert!(SearchParams { nmp_base_r: -1, ..SearchParams::default() }.is_valid());
    assert!(!SearchParams { nmp_base_r: -2, ..SearchParams::default() }.is_valid());
    // 128 / -4 is -32.
    assert!(SearchParams { nmp_base_r: 31, nmp_depth_divisor: -4, ..SearchParams::default() }.is_valid());
    assert!(!SearchParams { nmp_base_r: 30, nmp_depth_divisor: -4, ..SearchParams::default() }.is_valid());
    assert!(Limits::default().is_valid());
    assert!(!Limits { depth: 129, ..Limits::default() }.is_valid());
    assert!(!Limits { mate: Some(i32::MAX), ..Limits::default() }.is_valid());
    assert!(is_lmr_table(&vec![0i8; LMR_SIZE]));
    assert!(!is_lmr_table(&vec![0i8; 5]));
    assert!(is_lmr_table(&vec![-1i8; LMR_SIZE]));
    assert!(!is_lmr_table(&vec![-2i8; LMR_SIZE]));
}

#[test]
fn configuration_tables() {
    let cfg = config();
    assert_eq!(cfg.mvvlva_v, [100, 320, 330, 500, 900, 0, 0, 0]);
    assert_eq!(cfg.mvvlva_a, [1, 3, 3, 5, 9, 10, 0, 0]);
    let plain = SearchConfig::new(
        Limits::default(),
        Instant::now(),
        Arc::new(AtomicBool::new(false)),
        0,
        SearchParams::default(),
        (0..LMR_SIZE).map(|i| (i % 100) as i8).collect(),
    );
    assert!(plain.display.show_currmove && plain.display.use_ansi && !plain.display.go_pretty);
    assert_eq!(plain.lmr(2, 3), ((2 * 257 + 3) % 100) as i32);
    assert_eq!(plain.lmr(2, 1000), ((2 * 257 + 256) % 100) as i32);
}

#[test]
fn attack_queries() {
    let pos = Position::from_fen("4r2k/8/8/8/1b6/2N5/4P3/4K3 w - - 0 1");
    // e2 shields the king from e8, c3 from b4.
    assert_eq!(pos.king_blockers().popcount(), 2);
    assert!(pos.king_blockers().check_bit(Square(12)) && pos.king_blockers().check_bit(Square(18)));
    assert_eq!(pos.pinned_pieces(Color::Black).popcount(), 0);
    // The pawn on e2 attacks d3 and f3.
    let hit = pos.pawn_attacks(Color::White);
    assert_eq!(hit.popcount(), 2);
    assert!(hit.check_bit(Square(19)) && hit.check_bit(Square(21)));
    let on_c3 = pos.get_attackers_on(Square(18), Color::Black);
    assert_eq!((on_c3.popcount(), on_c3.lsb()), (1, Square(25)));
    assert_eq!(pos.get_attackers_on(Square(18), Color::White).popcount(), 0);
    assert_eq!((pos.piece_count(PieceType::Knight), pos.piece_count(PieceType::King)), (1, 2));
    assert_eq!(pos.piece_count(PieceType::Empty), 0);
    assert_eq!(pos.material_count(), 1 + 3 + 3 + 5);
}

#[test]
fn pawns_on_the_edge_attack_one_square() {
    let pos = Position::from_fen("4k3/7p/8/8/8/8/P7/4K3 w - - 0 1");
    assert_eq!(pos.pawn_attacks(Color::White).lsb(), Square(17));
    assert_eq!(pos.pawn_attacks(Color::White).popcount(), 1);
    assert_eq!(pos.pawn_attacks(Color::Black).lsb(), Square(46));
    assert_eq!(pos.pawn_attacks(Color::Black).popcount(), 1);
}

/// Plays every line of `depth` moves and looks at each position on the way.
fn walk(pos: &mut Position, depth: usize) {
    let fen = pos.as_fen();
    let again = Position::from_fen(&fen);
    assert_eq!(again.as_fen(), fen);
    assert_eq!((again.hash, again.pawn_hash), (pos.hash, pos.pawn_hash));
    if depth == 0 {
        return;
    }
    let mut acc = pos.get_initial_accumulator();
    for mv in gen_legal_moves(pos) {
        let before = (pos.castling_rights, pos.hash);
        let saved = acc;
        let undo = pos.make_move(mv, &mut acc);
        assert_eq!(pos.castling_rights & !before.0, 0);
        assert_eq!((pos.hash, pos.pawn_hash), (pos.calc_zobrist(), pos.calc_pawn_hash()));
        assert_eq!(acc.to_array(), pos.get_initial_accumulator().to_array());
        if let Some(sq) = pos.en_passant {
            assert!(pos.can_capture_ep(sq, pos.stm));
        }
        walk(pos, depth - 1);
        pos.unmake_move(mv, &undo);
        acc = saved;
        assert_eq!((pos.castling_rights, pos.hash), before);
        assert_eq!(pos.as_fen(), fen);
    }
}

#[test]
fn play_keeps_positions_of_a_game() {
    let mut pos = Position::from_fen("r3k2r/p1ppqpb1/bn2pnp1/3PN3/1p2P3/2N2Q1p/PPPBBPPP/R3K2R w KQkq - 0 1");
    walk(&mut pos, 2);
    let mut pos = Position::from_fen("8/2p5/3p4/KP5r/1R3p1k/8/4P1P1/8 w - - 0 1");
    walk(&mut pos, 3);
    let mut pos = Position::from_fen("n1n5/PPPk4/8/8/8/8/4Kppp/5N1N b - - 0 1");
    walk(&mut pos, 2);
}

#[test]
fn taking_the_rook_takes_the_right() {
    let mut pos = Position::from_fen("r3k2r/8/8/8/8/8/8/R3K2R b KQkq - 0 1");
    let mut acc = pos.get_initial_accumulator();
    let mv = uci(&pos, "h8h1");
    pos.make_move(mv, &mut acc);
    assert_eq!(pos.as_fen(), "r3k3/8/8/8/8/8/8/R3K2r w Qq - 0 2");
}

#[test]
fn castling_may_not_uncover_a_check() {
    // Once the rook has left b1, the rook on a1 attacks c1.
    let mut pos = Position::from_fen("4k3/8/8/8/8/8/8/rRK5 w B - 0 1");
    pos.is_frc = true;
    let data = [4u8, 0, 2, 3];
    let path = [4u8, 3, 2];
    assert!(!pos.is_castle_legal(pos.occ, Square(2), Square(1), &data, &path, Bitboard(0x0e), Color::Black));
    assert!(!gen_pseudo_moves(&pos).iter().any(|m| m.is_castling()));
    // Without that rook castling is fine.
    let mut pos = Position::from_fen("4k3/8/8/8/8/8/8/1RK5 w B - 0 1");
    pos.is_frc = true;
    assert!(pos.is_castle_legal(pos.occ, Square(2), Square(1), &data, &path, Bitboard(0x0e), Color::Black));
    assert!(gen_legal_moves(&pos).iter().any(|m| m.is_castling()));
}

#[test]
fn configurations_can_be_cloned() {
    let cfg = config();
    let copy = cfg.clone();
    assert_eq!(copy.mvvlva_v, cfg.mvvlva_v);
    assert_eq!(copy.lmr_table, cfg.lmr_table);
    assert_eq!(copy.limits.searchmoves, cfg.limits.searchmoves);
    assert_eq!(copy.start_time, cfg.start_time);
    assert!(Arc::ptr_eq(&copy.stop, &cfg.stop));
}
