use chess_core::boardb::{BoardB, Piece};
use chess_core::display::{
    atlas_cell, field_square, get_selected_piece, is_secondary_field, next_theme, select,
    square_field,
};
use chess_core::figures::{Figure, FigureType};
use chess_core::gameb::{GameB, GameState};
use chess_core::pieces::{PieceType, Side};

#[test]
fn screen_shows_the_eighth_rank_at_the_top() {
    assert_eq!(field_square(0, 7), 0);
    assert_eq!(field_square(4, 6), 12);
    assert_eq!(field_square(7, 0), 63);
    assert_eq!(square_field(12), (4, 6));
    assert_eq!(square_field(63), (7, 0));
    for s in 0..64u8 {
        let (col, row) = square_field(s);
        assert_eq!(field_square(col, row), s);
    }
}

#[test]
fn click_selects_only_pieces_of_the_side_to_move() {
    let b = BoardB::with_starting_pos();
    let pawn = Piece::new(PieceType::Pawn, Side::White);
    assert_eq!(select(None, 12, Side::White, &b), (Some(12), Some(pawn)));
    assert_eq!(select(None, 12, Side::Black, &b), (None, None));
    assert_eq!(select(None, 30, Side::White, &b), (None, None));
    assert_eq!(select(Some(12), 12, Side::White, &b), (None, None));
    assert_eq!(select(Some(12), 30, Side::White, &b), (Some(12), None));
    assert_eq!(select(Some(12), 11, Side::White, &b), (Some(11), Some(pawn)));
    assert_eq!(select(Some(12), 200, Side::White, &b), (Some(12), None));
    assert_eq!(get_selected_piece(Some(12), &b), Some(pawn));
    assert_eq!(get_selected_piece(Some(30), &b), None);
    assert_eq!(get_selected_piece(None, &b), None);
}

#[test]
fn themes_follow_each_other_in_a_ring() {
    assert_eq!(next_theme(0, 3), 1);
    assert_eq!(next_theme(1, 3), 2);
    assert_eq!(next_theme(2, 3), 0);
    assert_eq!(next_theme(0, 1), 0);
    assert_eq!(next_theme(7, 3), 0);
}

#[test]
fn fields_alternate_in_colour() {
    assert!(!is_secondary_field(0, 0));
    assert!(is_secondary_field(1, 0));
    assert!(is_secondary_field(0, 1));
    assert!(!is_secondary_field(7, 7));
    assert!(is_secondary_field(7, 0));
}

#[test]
fn pictures_lie_in_a_column_for_each_kind() {
    assert_eq!(atlas_cell(PieceType::King, Side::White), (0, 0));
    assert_eq!(atlas_cell(PieceType::Queen, Side::Black), (1, 1));
    assert_eq!(atlas_cell(PieceType::Bishop, Side::White), (2, 0));
    assert_eq!(atlas_cell(PieceType::Rook, Side::Black), (3, 1));
    assert_eq!(atlas_cell(PieceType::Knight, Side::White), (4, 0));
    assert_eq!(atlas_cell(PieceType::Pawn, Side::Black), (5, 1));
}

#[test]
fn figure_holds_what_it_was_made_from() {
    let f = Figure::new(FigureType::Rook, chess_core::figures::Side::Black, 7);
    assert_eq!(f.ty, FigureType::Rook);
    assert_eq!(f.side, chess_core::figures::Side::Black);
    assert_eq!(f.tex_id, 7);
    let p = chess_core::pieces::Piece::new(PieceType::Bishop, Side::White);
    assert_eq!((p.ty, p.side), (PieceType::Bishop, Side::White));
}

#[test]
fn board_text_has_a_line_for_each_rank() {
    let lines = BoardB::with_starting_pos().rows();
    assert_eq!(
        lines,
        vec![
            " br  bn  bb  bq  bk  bb  bn  br ",
            " bp  bp  bp  bp  bp  bp  bp  bp ",
            " --  --  --  --  --  --  --  -- ",
            " --  --  --  --  --  --  --  -- ",
            " --  --  --  --  --  --  --  -- ",
            " --  --  --  --  --  --  --  -- ",
            " wp  wp  wp  wp  wp  wp  wp  wp ",
            " wr  wn  wb  wq  wk  wb  wn  wr ",
        ]
    );
}

#[test]
fn kings_only_board_holds_two_kings() {
    let b = BoardB::gen_kings_pos();
    assert_eq!(b.get_piece_at_pos(4), Some(Piece::new(PieceType::King, Side::White)));
    assert_eq!(b.get_piece_at_pos(60), Some(Piece::new(PieceType::King, Side::Black)));
    assert_eq!(b.board.iter().filter(|p| p.is_some()).count(), 2);
    assert_eq!(b.kings, (4, 60));
    assert_eq!(b.placement(), "4k3/8/8/8/8/8/8/4K3");
    assert_eq!(b.count_material(Side::White), 0);
}

#[test]
fn material_of_one_side_counts_only_its_pieces() {
    let fen = "4k3/8/8/3q4/4P3/8/8/R3K3 w - - 0 1";
    let (b, _) = BoardB::from_fen(fen).unwrap();
    assert_eq!(b.count_material(Side::White), 600);
    assert_eq!(b.count_material(Side::Black), 900);
    assert_eq!(b.evaluate(Side::White), b.count_material(Side::White) - b.count_material(Side::Black));
    let start = BoardB::with_starting_pos();
    assert_eq!(start.count_material(Side::White), 8 * 100 + 2 * 300 + 2 * 300 + 2 * 500 + 900);
}

#[test]
fn game_plays_the_move_that_the_search_chooses() {
    let mut g = GameB::from_fen(
        chess_core::gameb::PlayerType::Cpu { depth: 1 },
        chess_core::gameb::PlayerType::Me,
        "6k1/5ppp/8/8/8/8/8/R3K3 w - - 0 1",
        false,
    )
    .unwrap();
    assert_eq!(g.make_best_move(1), Some((0, 56)));
    assert_eq!(g.state, GameState::Winner(Side::White));
    assert_eq!(g.last_move, Some((0, 56)));
    assert_eq!(g.make_best_move(1), None);
    assert_eq!(g.last_move, Some((0, 56)));
    let mut q = GameB::versus();
    assert_eq!(q.make_best_move(0), Some((1, 16)));
    assert_eq!(q.turn, Side::Black);
}
