//! Reading and writing positions.

use soul::board::fen::parse_en_passant;
use soul::board::{Fen, Position, Tokens, STARTPOS};
use soul::error::FenError;
use soul::types::{Color, PieceType, Square};
use soul::zobrist::key_piece;

fn rejected(fen: &str) -> FenError {
    match Position::try_from_fen(fen) {
        Ok(_) => panic!("accepted: {fen}"),
        Err(e) => e,
    }
}

#[test]
fn empty_text_is_rejected() {
    assert_eq!(rejected(""), FenError::Empty);
    assert_eq!(rejected("  \t "), FenError::Empty);
}

#[test]
fn side_to_move_is_needed() {
    assert_eq!(rejected("4k3/8/8/8/8/8/8/4K3"), FenError::MissingStm);
    assert_eq!(rejected("4k3/8/8/8/8/8/8/4K3 x"), FenError::InvalidStm { stm: "x".to_string() });
}

#[test]
fn placement_errors() {
    assert_eq!(rejected("8/8 w"), FenError::InvalidRankWidth { rank: 6, width: 8 });
    assert_eq!(rejected("7/8/8/8/8/8/8/8 w"), FenError::InvalidRankWidth { rank: 7, width: 7 });
    assert_eq!(rejected("8/8/8/8/8/8/8/8/8 w"), FenError::TooManyRanks { rank: 0, count: 9 });
    assert_eq!(rejected("88/8/8/8/8/8/8/8 w"), FenError::FileOverflow { rank: 7, file: 16 });
    assert_eq!(rejected("9/8/8/8/8/8/8/8 w"), FenError::InvalidPiece { ch: '9', rank: 7, file: 0 });
    assert_eq!(rejected("8/3x4/8/8/8/8/8/8 w"), FenError::InvalidPiece { ch: 'x', rank: 6, file: 3 });
    assert_eq!(rejected("rnbqkbnrr/8/8/8/8/8/8/8 w"), FenError::SquareOutOfBounds { square: 64 });
}

#[test]
fn kings_pawns_and_checks() {
    assert_eq!(rejected("4k3/8/8/8/8/8/8/8 w - - 0 1"), FenError::MissingKing { color: "white" });
    assert_eq!(rejected("8/8/8/8/8/8/8/4K3 w - - 0 1"), FenError::MissingKing { color: "black" });
    assert_eq!(rejected("4k3/8/8/8/8/8/8/3KK3 w - - 0 1"), FenError::MissingKing { color: "white" });
    assert_eq!(
        rejected("4k3/8/8/8/8/8/8/P3K3 w - - 0 1"),
        FenError::InvalidPiece { ch: 'P', rank: 0, file: 0 }
    );
    assert_eq!(
        rejected("4k2p/8/8/8/8/8/8/4K3 w - - 0 1"),
        FenError::InvalidPiece { ch: 'p', rank: 7, file: 7 }
    );
    assert_eq!(rejected("4k3/8/8/8/8/8/8/4RK2 w - - 0 1"), FenError::IllegalCheck);
}

#[test]
fn en_passant_field() {
    // A field that names no en passant square counts as absent.
    for field in ["e4", "zz", "e33", "3e", "e"] {
        let fen = format!("4k3/8/8/8/8/8/8/4K3 w - {field} 7 9");
        let pos = Position::from_fen(&fen);
        assert_eq!(pos.as_fen(), "4k3/8/8/8/8/8/8/4K3 w - - 7 9");
    }
    let mut pos = Position::from_fen("4k3/8/8/8/3pP3/8/8/4K3 b - - 0 1");
    assert_eq!(
        parse_en_passant(&mut pos, &"zz".chars().collect()),
        Err(FenError::InvalidEnPassant { square: "zz".to_string() })
    );
    assert_eq!(pos.en_passant, None);
    assert_eq!(parse_en_passant(&mut pos, &"e3".chars().collect()), Ok(()));
    assert_eq!(pos.en_passant, Some(Square(20)));
    // A square on which no pawn can capture is dropped.
    let pos = Position::from_fen("4k3/8/8/8/4P3/8/8/4K3 b - e3 0 1");
    assert_eq!(pos.en_passant, None);
    let pos = Position::from_fen("4k3/8/8/8/3pP3/8/8/4K3 b - e3 0 1");
    assert_eq!(pos.en_passant, Some(Square(20)));
    // The capture would leave the king in check along the rank.
    let pos = Position::from_fen("8/8/8/8/k2pP2R/8/8/4K3 b - e3 0 1");
    assert_eq!(pos.en_passant, None);
}

#[test]
fn castling_field() {
    assert_eq!(
        rejected("4k3/8/8/8/8/8/8/4K3 w A - 0 1"),
        FenError::InvalidCastlingRights { sq: "a1".to_string() }
    );
    // Plain letters without a rook grant nothing.
    assert_eq!(Position::from_fen("4k3/8/8/8/8/8/8/4K3 w KQkq - 0 1").castling_rights, 0);
    let pos = Position::from_fen("1r2k1r1/8/8/8/8/8/8/1R2K1R1 w GBgb - 0 1");
    assert_eq!(pos.castling_rights, 15);
    assert_eq!(pos.castling_rooks, [Square(6), Square(1), Square(62), Square(57)]);
}

#[test]
fn shredder_notation_is_written_for_unusual_rooks() {
    let mut pos = Position::from_fen("1r2k1r1/8/8/8/8/8/8/1R2K1R1 w KQkq - 3 7");
    assert_eq!(pos.as_fen(), "1r2k1r1/8/8/8/8/8/8/1R2K1R1 w KQkq - 3 7");
    pos.is_frc = true;
    assert_eq!(pos.as_fen(), "1r2k1r1/8/8/8/8/8/8/1R2K1R1 w GBgb - 3 7");
    let mut usual = Position::from_fen(STARTPOS);
    usual.is_frc = true;
    assert_eq!(usual.as_fen(), STARTPOS);
}

#[test]
fn written_positions_are_exact() {
    for fen in [
        STARTPOS,
        "r3k2r/p1ppqpb1/bn2pnp1/3PN3/1p2P3/2N2Q1p/PPPBBPPP/R3K2R w KQkq - 0 1",
        "8/2p5/3p4/KP5r/1R3p1k/8/4P1P1/8 b - - 12 345",
        "4k3/8/8/3Pp3/8/8/8/4K3 w - e6 255 65535",
    ] {
        assert_eq!(Position::from_fen(fen).as_fen(), fen);
        assert_eq!(Fen(&Position::from_fen(fen)).to_text(), fen);
    }
}

#[test]
fn an_inner_rook_named_by_its_file_does_not_survive_plain_letters() {
    let pos = Position::from_fen("4k3/8/8/8/8/8/8/4KR1R w F - 0 1");
    assert_eq!(pos.castling_rooks[0], Square(5));
    let again = Position::from_fen(&pos.as_fen());
    assert_eq!(again.castling_rooks[0], Square(7));
}

#[test]
fn malformed_clocks_get_their_defaults() {
    let pos = Position::from_fen("4k3/8/8/8/8/8/8/4K3 w - - x 300000");
    assert_eq!((pos.halfmove_clock, pos.fullmove_number), (0, 1));
    let pos = Position::from_fen("4k3/8/8/8/8/8/8/4K3 w - - 256 +7");
    assert_eq!((pos.halfmove_clock, pos.fullmove_number), (0, 7));
    let pos = Position::from_fen("4k3/8/8/8/8/8/8/4K3 b");
    assert_eq!((pos.halfmove_clock, pos.fullmove_number), (0, 1));
    assert_eq!(pos.stm, Color::Black);
}

#[test]
fn reading_stops_before_the_moves() {
    let mut tokens = Tokens::split("4k3/8/8/8/8/8/8/4K3 w - - moves e1e2 e8e7");
    assert!(Position::try_from_tokens(&mut tokens).is_ok());
    assert_eq!(tokens.next_word(), Some("moves".to_string()));
    assert_eq!(tokens.next_word(), Some("e1e2".to_string()));

    let mut tokens = Tokens::split("4k3/8/8/8/8/8/8/4K3 w - - 5 6 moves e1e2");
    let pos = match Position::try_from_tokens(&mut tokens) {
        Ok(pos) => pos,
        Err(_) => panic!("rejected"),
    };
    assert_eq!((pos.halfmove_clock, pos.fullmove_number), (5, 6));
    assert_eq!(tokens.next_word(), Some("moves".to_string()));
}

#[test]
fn diagram_shows_board_and_facts() {
    let pos = Position::from_fen(STARTPOS);
    let text = pos.pretty_print();
    let lines: Vec<&str> = text.lines().collect();
    assert_eq!(lines[0], "   +------------------------+");
    assert_eq!(lines[1], format!(" 8 | r  n  b  q  k  b  n  r | FEN: {STARTPOS}"));
    assert_eq!(lines[2], format!(" 7 | p  p  p  p  p  p  p  p | Zobrist Hash: 0x{:016x}", pos.hash));
    assert_eq!(lines[3], " 6 | .  .  .  .  .  .  .  . | Castle Rights: KQkq");
    assert_eq!(lines[4], " 5 | .  .  .  .  .  .  .  . | Side To Move: White");
    assert_eq!(lines[5], " 4 | .  .  .  .  .  .  .  . | En Passant: -");
    assert_eq!(lines[6], " 3 | .  .  .  .  .  .  .  . | Half Moves: 0");
    assert_eq!(lines[7], " 2 | P  P  P  P  P  P  P  P | In Check: false");
    assert_eq!(lines[8], " 1 | R  N  B  Q  K  B  N  R | Static eval: +0.00");
    assert_eq!(lines[9], "   +------------------------+");
    assert_eq!(lines[10], "     a  b  c  d  e  f  g  h");
    assert!(text.ends_with("h\n\n"));
}

#[test]
fn diagram_of_a_checked_king_and_unusual_rooks() {
    let mut pos = Position::from_fen("4k3/8/8/8/8/8/4r3/4K3 w - - 9 1");
    let text = pos.pretty_print();
    assert!(text.contains("| In Check: true\n"));
    assert!(text.contains("| Castle Rights: -\n"));
    assert!(text.contains("| Half Moves: 9\n"));
    assert!(text.contains("| Static eval: -5."));
    pos.is_frc = true;
    assert!(pos.pretty_print().contains(" | Castling Rooks: a1 a1 a1 a1\n"));
}

#[test]
fn new_position_is_empty() {
    let pos = Position::new();
    assert_eq!(pos.occ.popcount(), 0);
    assert_eq!(pos.stm, Color::White);
    assert_eq!(pos.piece_at(Square(0)), PieceType::Empty);
    assert_eq!(pos.hash, pos.calc_zobrist());
    assert_eq!(pos.as_fen(), "8/8/8/8/8/8/8/8 w - - 0 1");
}

#[test]
fn castling_letters_look_on_their_own_side_of_the_king() {
    let pos = Position::from_fen("4k3/8/8/8/8/8/8/R3K3 w K - 0 1");
    assert_eq!(pos.castling_rights, 0);
    let pos = Position::from_fen("4k2r/8/8/8/8/8/8/4K3 w q - 0 1");
    assert_eq!(pos.castling_rights, 0);
    // The outermost of two rooks.
    let pos = Position::from_fen("4k3/8/8/8/8/8/8/RR2KRR1 w KQ - 0 1");
    assert_eq!(pos.castling_rights, 3);
    assert_eq!((pos.castling_rooks[0], pos.castling_rooks[1]), (Square(6), Square(0)));
}

#[test]
fn placing_and_taking_pieces_keeps_the_hash() {
    let mut pos = Position::new();
    pos.add_piece(Square(4), PieceType::King, Color::White);
    assert_eq!(pos.piece_at(Square(4)), PieceType::King);
    assert_eq!(pos.occ.0, 1 << 4);
    assert_eq!(pos.hash, key_piece(PieceType::King, Color::White, Square(4)));
    assert_eq!(pos.hash, pos.calc_zobrist());
    pos.add_piece(Square(60), PieceType::King, Color::Black);
    assert_eq!(pos.hash, pos.calc_zobrist());
    pos.remove_piece(Square(4), PieceType::King, Color::White);
    assert_eq!(pos.hash, pos.calc_zobrist());
    assert_eq!(pos.hash, key_piece(PieceType::King, Color::Black, Square(60)));
}
