use chess_core::boardb::Piece;
use chess_core::dtos::{GameInfo, Move};
use chess_core::fen::FenError;
use chess_core::gameb::{GameB, GameState, PlayerType};
use chess_core::pieces::{PieceType, Side};

fn mask(squares: &[u8]) -> u64 {
    let mut m = 0u64;
    for s in squares {
        m |= 1u64 << s;
    }
    m
}

#[test]
fn opening_double_push_sets_the_en_passant_target() {
    let mut game = GameB::versus();
    assert!(game.make_move(12, 28));
    assert_eq!(game.board.get_piece_at_pos(12), None);
    assert_eq!(game.board.get_piece_at_pos(28), Some(Piece::new(PieceType::Pawn, Side::White)));
    assert_eq!(game.board.en_passant, 28);
    assert_eq!(game.turn, Side::Black);
    assert_eq!(game.last_move, Some((12, 28)));
    assert_eq!(game.state, GameState::Running);
    assert_eq!(game.possible_moves.len(), 10);
    assert_eq!(game.check, (false, false));
    assert!(game.captured_pieces.is_empty());
}

#[test]
fn scholars_mate_is_won_by_white() {
    let mut game = GameB::versus();
    for (from, to) in [(12, 28), (52, 36), (5, 26), (57, 42), (3, 39), (62, 45)] {
        assert!(game.make_move(from, to));
        assert_eq!(game.state, GameState::Running);
    }
    assert!(game.make_move(39, 53));
    assert_eq!(game.state, GameState::Winner(Side::White));
    assert!(game.possible_moves.is_empty());
    assert_eq!(game.check, (false, true));
    assert_eq!(game.turn, Side::Black);
    assert_eq!(game.captured_pieces, vec![Piece::new(PieceType::Pawn, Side::Black)]);
}

#[test]
fn fools_mate_is_won_by_black() {
    let mut game = GameB::versus();
    for (from, to) in [(13, 21), (52, 36), (14, 30)] {
        assert!(game.make_move(from, to));
    }
    assert!(game.make_move(59, 31));
    assert_eq!(game.state, GameState::Winner(Side::Black));
    assert_eq!(game.check, (true, false));
    assert!(game.possible_moves.is_empty());
}

#[test]
fn side_without_moves_that_is_not_in_check_draws() {
    let mut game =
        GameB::from_fen(PlayerType::Me, PlayerType::Me, "7k/8/6K1/5Q2/8/8/8/8 w - - 0 1", false)
            .unwrap();
    assert_eq!(game.state, GameState::Running);
    assert!(game.make_move(37, 53));
    assert_eq!(game.state, GameState::Draw);
    assert_eq!(game.check, (false, false));
    assert!(game.possible_moves.is_empty());
}

#[test]
fn finished_game_rejects_every_move() {
    let mut game = GameB::versus();
    for (from, to) in [(13, 21), (52, 36), (14, 30), (59, 31)] {
        assert!(game.make_move(from, to));
    }
    let board = game.board.board;
    assert!(!game.make_move(4, 13));
    assert!(!game.make_move(8, 16));
    assert_eq!(game.board.board, board);
    assert_eq!(game.state, GameState::Winner(Side::Black));
    assert_eq!(game.turn, Side::White);
    assert_eq!(game.last_move, Some((59, 31)));
}

#[test]
fn illegal_move_changes_nothing() {
    let mut game = GameB::versus();
    let board = game.board.board;
    let moves = game.possible_moves.clone();
    for (from, to) in [(12, 36), (52, 36), (30, 38), (4, 12), (12, 64), (64, 12), (200, 255), (0, 0)] {
        assert!(!game.make_move(from, to));
    }
    assert_eq!(game.board.board, board);
    assert_eq!(game.possible_moves, moves);
    assert_eq!(game.turn, Side::White);
    assert_eq!(game.last_move, None);
    assert_eq!(game.state, GameState::Running);
}

#[test]
fn captured_pieces_are_recorded_in_order() {
    let mut game = GameB::versus();
    for (from, to) in [(12, 28), (51, 35), (28, 35), (59, 35), (1, 18), (35, 11)] {
        assert!(game.make_move(from, to));
    }
    assert_eq!(
        game.captured_pieces,
        vec![
            Piece::new(PieceType::Pawn, Side::Black),
            Piece::new(PieceType::Pawn, Side::White),
            Piece::new(PieceType::Pawn, Side::White),
        ]
    );
    assert_eq!(game.check, (true, false));
    assert_eq!(game.state, GameState::Running);
    assert_eq!(game.possible_moves.len(), 3);
    assert_eq!(game.possible_moves[&2], 1 << 11);
    assert_eq!(game.possible_moves[&3], 1 << 11);
    assert_eq!(game.possible_moves[&4], 1 << 11);
}

#[test]
fn move_table_after_a_move_is_that_of_the_other_side() {
    let mut game = GameB::versus();
    assert!(game.make_move(12, 28));
    assert_eq!(game.possible_moves[&52], mask(&[44, 36]));
    assert!(!game.possible_moves.contains_key(&11));
    assert!(game.make_move(52, 36));
    assert_eq!(game.possible_moves[&4], mask(&[12]));
    assert_eq!(game.possible_moves[&5], mask(&[12, 19, 26, 33, 40]));
}

#[test]
fn constructors_seat_the_players() {
    let g = GameB::versus();
    assert_eq!((g.white, g.black, g.flipped), (PlayerType::Me, PlayerType::Me, false));
    assert!(g.turn().is_me());
    let g = GameB::remote(true);
    assert_eq!((g.white, g.black, g.flipped), (PlayerType::Remote, PlayerType::Me, true));
    assert!(g.turn().is_remote());
    let g = GameB::remote(false);
    assert_eq!((g.white, g.black, g.flipped), (PlayerType::Me, PlayerType::Remote, false));
    let g = GameB::cpu(3, true);
    assert_eq!((g.white, g.black, g.flipped), (PlayerType::Cpu { depth: 3 }, PlayerType::Me, true));
    assert!(g.turn().is_ai());
    assert!(!g.turn().is_me());
    let g = GameB::cpu(2, false);
    assert_eq!((g.white, g.black, g.flipped), (PlayerType::Me, PlayerType::Cpu { depth: 2 }, false));
    let g = GameB::vcpu(1);
    assert_eq!(
        (g.white, g.black, g.flipped),
        (PlayerType::Cpu { depth: 1 }, PlayerType::Cpu { depth: 1 }, false)
    );
    assert_eq!(g.state, GameState::Running);
    assert_eq!(g.turn, Side::White);
    assert_eq!(g.possible_moves.len(), 10);
}

#[test]
fn turn_mut_changes_the_player_to_move() {
    let mut g = GameB::versus();
    *g.turn_mut() = PlayerType::Cpu { depth: 2 };
    assert_eq!(g.white, PlayerType::Cpu { depth: 2 });
    assert_eq!(g.black, PlayerType::Me);
    g.change_turn();
    *g.turn_mut() = PlayerType::Remote;
    assert_eq!(g.black, PlayerType::Remote);
    assert_eq!(g.white, PlayerType::Cpu { depth: 2 });
    assert_eq!(g.possible_moves.len(), 10);
}

#[test]
fn change_turn_only_hands_the_move_over() {
    let mut g = GameB::cpu(2, false);
    g.change_turn();
    assert_eq!(g.turn, Side::Black);
    assert!(g.turn().is_ai());
    assert_eq!(g.possible_moves.len(), 10);
    g.change_turn();
    assert_eq!(g.turn, Side::White);
    assert!(g.turn().is_me());
}

#[test]
fn game_from_a_description_starts_with_its_side_to_move() {
    let g = GameB::from_fen(
        PlayerType::Me,
        PlayerType::Cpu { depth: 1 },
        "4k3/8/8/8/4r3/8/3P4/4K3 w - - 0 1",
        false,
    )
    .unwrap();
    assert_eq!(g.turn, Side::White);
    assert_eq!(g.check, (true, false));
    assert_eq!(g.state, GameState::Running);
    assert_eq!(g.possible_moves.len(), 1);
    assert_eq!(g.black, PlayerType::Cpu { depth: 1 });
    let e = GameB::from_fen(PlayerType::Me, PlayerType::Me, "4k3/8/8/8/8/8/8/4K3 w", false);
    assert_eq!(e.err(), Some(FenError::MissingSection(1)));
}

#[test]
fn wire_moves_count_files_and_ranks_from_whites_corner() {
    let m = Move::from_squares(12, 28);
    assert_eq!((m.x1, m.y1, m.x2, m.y2), (4, 1, 4, 3));
    assert_eq!(m.squares(), Some((12, 28)));
    assert_eq!(Move { x1: 7, y1: 7, x2: 0, y2: 0 }.squares(), Some((63, 0)));
    assert_eq!(Move { x1: 8, y1: 0, x2: 0, y2: 0 }.squares(), None);
    assert_eq!(Move { x1: 0, y1: -1, x2: 0, y2: 0 }.squares(), None);
    assert_eq!(Move { x1: 0, y1: 0, x2: 0, y2: 8 }.squares(), None);
    assert_eq!(Move { x1: 0, y1: 0, x2: -128, y2: 0 }.squares(), None);
    let info = GameInfo { other_player: String::from("x"), is_black: true };
    assert_eq!(info.my_side(), Side::Black);
    let info = GameInfo { other_player: String::from("x"), is_black: false };
    assert_eq!(info.my_side(), Side::White);
}
