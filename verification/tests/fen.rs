use chess_core::boardb::{BoardB, Piece, NO_EN_PASSANT};
use chess_core::castle::Castle;
use chess_core::fen::{chars_of, piece_of_letter, placement_letters_known, FenError};
use chess_core::pieces::{PieceType, Side};

const START: &str = "rnbqkbnr/pppppppp/8/8/8/8/PPPPPPPP/RNBQKBNR w KQkq - 0 1";

fn error_of(fen: &str) -> FenError {
    assert!(placement_letters_known(fen));
    match BoardB::from_fen(fen) {
        Ok(_) => panic!("accepted {}", fen),
        Err(e) => e,
    }
}

#[test]
fn starting_description_is_the_starting_position() {
    assert!(placement_letters_known(START));
    let (b, turn) = BoardB::from_fen(START).unwrap();
    let start = BoardB::with_starting_pos();
    assert_eq!(turn, Side::White);
    assert_eq!(b.board, start.board);
    assert_eq!(b.kings, (4, 60));
    assert_eq!(b.white_castle, Castle::new());
    assert_eq!(b.black_castle, Castle::new());
    assert_eq!(b.en_passant, NO_EN_PASSANT);
}

#[test]
fn first_rank_of_the_text_is_the_eighth_rank() {
    let (b, turn) = BoardB::from_fen("k7/8/8/8/8/8/8/7K b - - 12 40").unwrap();
    assert_eq!(turn, Side::Black);
    assert_eq!(b.get_piece_at_pos(56), Some(Piece::new(PieceType::King, Side::Black)));
    assert_eq!(b.get_piece_at_pos(7), Some(Piece::new(PieceType::King, Side::White)));
    assert_eq!(b.kings, (7, 56));
    assert_eq!(b.white_castle, Castle::forbid());
    assert_eq!(b.black_castle, Castle::forbid());
}

#[test]
fn digits_skip_squares_and_short_ranks_are_accepted() {
    let (b, _) = BoardB::from_fen("2q/01p0/8/8/8/8/8/3K w - - 0 1").unwrap();
    assert_eq!(b.get_piece_at_pos(58), Some(Piece::new(PieceType::Queen, Side::Black)));
    assert_eq!(b.get_piece_at_pos(49), Some(Piece::new(PieceType::Pawn, Side::Black)));
    assert_eq!(b.get_piece_at_pos(3), Some(Piece::new(PieceType::King, Side::White)));
    assert_eq!(b.board.iter().filter(|p| p.is_some()).count(), 3);
}

#[test]
fn castling_rights_are_read_letter_by_letter() {
    let (b, _) = BoardB::from_fen("4k3/8/8/8/8/8/8/4K3 w Kq - 0 1").unwrap();
    assert_eq!(b.white_castle, Castle { short: true, long: false });
    assert_eq!(b.black_castle, Castle { short: false, long: true });
    assert_eq!(Castle::from_fen("-"), Ok((Castle::forbid(), Castle::forbid())));
    assert_eq!(Castle::from_fen(""), Ok((Castle::forbid(), Castle::forbid())));
    assert_eq!(Castle::from_fen("KQkq"), Ok((Castle::new(), Castle::new())));
    assert_eq!(
        Castle::from_fen("qQ"),
        Ok((Castle { short: false, long: true }, Castle { short: false, long: true }))
    );
    assert_eq!(Castle::from_fen("KQx"), Err(FenError::Castle));
    assert_eq!(Castle::from_fen("--"), Err(FenError::Castle));
    assert_eq!(Castle::from_fen("K-"), Err(FenError::Castle));
}

#[test]
fn en_passant_target_is_the_pawn_behind_the_named_square() {
    let (b, _) = BoardB::from_fen("4k3/8/8/8/4P3/8/8/4K3 b - e3 0 1").unwrap();
    assert_eq!(b.en_passant, 28);
    let (b, _) = BoardB::from_fen("4k3/8/8/3p4/8/8/8/4K3 w - d6 0 1").unwrap();
    assert_eq!(b.en_passant, 35);
    let (b, _) = BoardB::from_fen("4k3/8/8/8/8/8/8/4K3 b - a1 0 1").unwrap();
    assert_eq!(b.en_passant, 8);
    let (b, _) = BoardB::from_fen("4k3/8/8/8/8/8/8/4K3 w - h8 0 1").unwrap();
    assert_eq!(b.en_passant, 55);
}

#[test]
fn position_read_after_a_double_push_allows_the_capture() {
    let (b, turn) = BoardB::from_fen("4k3/8/8/8/3pP3/8/8/4K3 b - e3 0 1").unwrap();
    assert!(b.is_sound(turn));
    assert_eq!(b.valid_moves_for_piece(27, false), (1 << 19) | (1 << 20));
}

#[test]
fn unknown_character_in_the_placement_is_a_pieces_error() {
    assert_eq!(error_of("4k3/8/8/8/8/8/8/4K2+ w - - 0 1"), FenError::Pieces);
    assert_eq!(error_of("9/8/8/8/8/8/8/4K3 w - - 0 1"), FenError::Pieces);
    assert_eq!(error_of("4k3/8/8/8/8/8/8/4K3\t w - - 0 1"), FenError::Pieces);
}

#[test]
fn piece_off_the_board_is_a_cursor_error() {
    assert_eq!(error_of("8/8/8/8/8/8/8/8/K w - - 0 1"), FenError::Cursor);
    assert_eq!(error_of("8k/8/8/8/8/8/8/4K3 w - - 0 1"), FenError::Cursor);
    assert_eq!(error_of("ppppppppp/8/8/8/8/8/8/4K3 w - - 0 1"), FenError::Cursor);
}

#[test]
fn first_rejected_character_decides_the_error() {
    assert_eq!(error_of("8k+/8/8/8/8/8/8/4K3 w - - 0 1"), FenError::Cursor);
    assert_eq!(error_of("+8k/8/8/8/8/8/8/4K3 w - - 0 1"), FenError::Pieces);
}

#[test]
fn missing_or_wrong_side_to_move_is_a_turn_error() {
    assert_eq!(error_of("4k3/8/8/8/8/8/8/4K3"), FenError::Turn);
    assert_eq!(error_of("4k3/8/8/8/8/8/8/4K3 x - - 0 1"), FenError::Turn);
    assert_eq!(error_of("4k3/8/8/8/8/8/8/4K3 W - - 0 1"), FenError::Turn);
    assert_eq!(error_of("4k3/8/8/8/8/8/8/4K3  w - - 0 1"), FenError::Turn);
    assert_eq!(error_of(""), FenError::Turn);
}

#[test]
fn missing_castling_rights_are_a_missing_section() {
    assert_eq!(error_of("4k3/8/8/8/8/8/8/4K3 w"), FenError::MissingSection(1));
}

#[test]
fn foreign_character_in_the_castling_rights_is_a_castle_error() {
    assert_eq!(error_of("4k3/8/8/8/8/8/8/4K3 w KQx - 0 1"), FenError::Castle);
}

#[test]
fn missing_or_wrong_en_passant_target_is_an_en_passant_error() {
    assert_eq!(error_of("4k3/8/8/8/8/8/8/4K3 w -"), FenError::EnPassant);
    assert_eq!(error_of("4k3/8/8/8/8/8/8/4K3 w - e9 0 1"), FenError::EnPassant);
    assert_eq!(error_of("4k3/8/8/8/8/8/8/4K3 w - i3 0 1"), FenError::EnPassant);
    assert_eq!(error_of("4k3/8/8/8/8/8/8/4K3 w - e0 0 1"), FenError::EnPassant);
    assert_eq!(error_of("4k3/8/8/8/8/8/8/4K3 w - e 0 1"), FenError::EnPassant);
    assert_eq!(error_of("4k3/8/8/8/8/8/8/4K3 w - e33 0 1"), FenError::EnPassant);
    assert_eq!(error_of("4k3/8/8/8/8/8/8/4K3 w -  0 1"), FenError::EnPassant);
    assert_eq!(error_of("4k3/8/8/8/8/8/8/4K3 b - h8 0 1"), FenError::EnPassant);
    assert_eq!(error_of("4k3/8/8/8/8/8/8/4K3 w - a1 0 1"), FenError::EnPassant);
}

#[test]
fn missing_or_wrong_move_counters_are_their_own_errors() {
    assert_eq!(error_of("4k3/8/8/8/8/8/8/4K3 w - -"), FenError::HalfMoves);
    assert_eq!(error_of("4k3/8/8/8/8/8/8/4K3 w - - x 1"), FenError::HalfMoves);
    assert_eq!(error_of("4k3/8/8/8/8/8/8/4K3 w - - 0"), FenError::FullMoves);
    assert_eq!(error_of("4k3/8/8/8/8/8/8/4K3 w - - 0 1a"), FenError::FullMoves);
    assert_eq!(error_of("4k3/8/8/8/8/8/8/4K3 w - - 0 "), FenError::FullMoves);
}

#[test]
fn anything_after_the_last_field_is_a_cursor_error() {
    assert_eq!(error_of("4k3/8/8/8/8/8/8/4K3 w - - 0 1 "), FenError::Cursor);
    assert_eq!(error_of("4k3/8/8/8/8/8/8/4K3 w - - 0 1 extra"), FenError::Cursor);
}

#[test]
fn letters_that_stand_for_no_piece_are_found() {
    assert!(placement_letters_known(START));
    assert!(placement_letters_known("8/8 and then anything xyz"));
    assert!(!placement_letters_known("4k3/8/8/8/8/8/8/4X3 w - - 0 1"));
    assert!(!placement_letters_known("4k3/8/8/8/8/8/8/4a3"));
    assert_eq!(piece_of_letter('Q'), Some(Piece::new(PieceType::Queen, Side::White)));
    assert_eq!(piece_of_letter('n'), Some(Piece::new(PieceType::Knight, Side::Black)));
    assert_eq!(piece_of_letter('x'), None);
    assert_eq!(piece_of_letter('1'), None);
    assert_eq!(chars_of("a/ü"), vec!['a', '/', 'ü']);
}

#[test]
fn written_placement_reads_back_square_for_square() {
    for fen in [
        START,
        "r3k2r/8/8/8/8/8/8/R3K2R w KQkq - 0 1",
        "8/8/8/8/8/8/8/8 w - - 0 1",
        "k6K/1p4P1/2n2N2/3bB3/3Qq3/2R2r2/1P4p1/7n b - - 3 9",
        "pppppppp/pppppppp/pppppppp/pppppppp/PPPPPPPP/PPPPPPPP/PPPPPPPP/PPPPPPPP w - - 0 1",
    ] {
        let (b, _) = BoardB::from_fen(fen).unwrap();
        let text = b.placement();
        assert_eq!(text, fen.split(' ').next().unwrap());
        let again = format!("{} w - - 0 1", text);
        let (c, _) = BoardB::from_fen(&again).unwrap();
        assert_eq!(b.board, c.board);
    }
}

#[test]
fn written_placement_counts_runs_of_empty_squares() {
    assert_eq!(BoardB::with_starting_pos().placement(), "rnbqkbnr/pppppppp/8/8/8/8/PPPPPPPP/RNBQKBNR");
    let (b, _) = BoardB::from_fen("2q/01p0/8/8/8/8/8/3K w - - 0 1").unwrap();
    assert_eq!(b.placement(), "2q5/1p6/8/8/8/8/8/3K4");
}
