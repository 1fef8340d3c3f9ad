use chess_core::bits::{test_bit, with_bit, without_bit, BitMap};
use chess_core::boardb::{BoardB, Piece, Pos, PosTrait, NO_EN_PASSANT};
use chess_core::castle::Castle;
use chess_core::pieces::{PieceType, Side};

fn board(fen: &str) -> BoardB {
    assert!(chess_core::fen::placement_letters_known(fen));
    BoardB::from_fen(fen).unwrap().0
}

fn mask(squares: &[u8]) -> u64 {
    let mut m = 0u64;
    for s in squares {
        m |= 1u64 << s;
    }
    m
}

#[test]
fn side_not_gives_the_other_side() {
    assert_eq!(!Side::White, Side::Black);
    assert_eq!(!Side::Black, Side::White);
    assert_eq!(Side::White.name(), "White");
    assert_eq!(Side::Black.name(), "Black");
}

#[test]
fn bit_helpers_add_test_and_remove_squares() {
    let m = with_bit(with_bit(0, 0), 63);
    assert_eq!(m, 0x8000_0000_0000_0001);
    assert!(test_bit(m, 63));
    assert!(test_bit(m, 0));
    assert!(!test_bit(m, 17));
    assert_eq!(without_bit(m, 63), 1);
    assert_eq!(without_bit(m, 5), m);
    assert_eq!(with_bit(m, 0), m);
}

#[test]
fn ones_lists_every_square_in_ascending_order() {
    assert_eq!(0u64.ones(), Vec::<u8>::new());
    assert_eq!(mask(&[3, 40, 63]).ones(), vec![3, 40, 63]);
    assert_eq!(u64::MAX.ones().len(), 64);
    assert_eq!(u64::MAX.ones()[63], 63);
}

#[test]
fn pos_converts_between_index_and_file_and_rank() {
    let p = Pos::from_i(28);
    assert_eq!((p.x, p.y), (4, 3));
    assert_eq!(Pos::new(4, 3).to_i(), 28);
    assert_eq!(Pos::new(7, 7).to_i(), 63);
    assert_eq!(Pos::new(0, 0).to_i(), 0);
    for i in 0..64u8 {
        assert_eq!(Pos::from_i(i).to_i(), i);
    }
}

#[test]
fn piece_values_are_the_material_table() {
    let v = |ty| Piece::new(ty, Side::White).value();
    assert_eq!(v(PieceType::Pawn), 100);
    assert_eq!(v(PieceType::Knight), 300);
    assert_eq!(v(PieceType::Bishop), 300);
    assert_eq!(v(PieceType::Rook), 500);
    assert_eq!(v(PieceType::Queen), 900);
    assert_eq!(v(PieceType::King), 0);
    assert_eq!(Piece::new(PieceType::Queen, Side::Black).value(), 900);
}

#[test]
fn starting_position_has_white_on_the_low_ranks() {
    let b = BoardB::with_starting_pos();
    let back = [
        PieceType::Rook,
        PieceType::Knight,
        PieceType::Bishop,
        PieceType::Queen,
        PieceType::King,
        PieceType::Bishop,
        PieceType::Knight,
        PieceType::Rook,
    ];
    for x in 0..8u8 {
        assert_eq!(b.get_piece_at_pos(x), Some(Piece::new(back[x as usize], Side::White)));
        assert_eq!(b.get_piece_at_pos(8 + x), Some(Piece::new(PieceType::Pawn, Side::White)));
        assert_eq!(b.get_piece_at_pos(48 + x), Some(Piece::new(PieceType::Pawn, Side::Black)));
        assert_eq!(b.get_piece_at_pos(56 + x), Some(Piece::new(back[x as usize], Side::Black)));
    }
    for i in 16..48u8 {
        assert_eq!(b.get_piece_at_pos(i), None);
        assert!(!b.occupied(i));
    }
    assert_eq!(b.kings, (4, 60));
    assert_eq!(b.find_king(Side::White), 4);
    assert_eq!(b.find_king(Side::Black), 60);
    assert_eq!(b.en_passant, NO_EN_PASSANT);
    assert_eq!(b.white_castle, Castle::new());
    assert_eq!(b.black_castle, Castle::new());
    assert_eq!(b.get_piece_at_pos(64), None);
    assert_eq!(b.get_piece_at_pos(255), None);
}

#[test]
fn set_and_remove_change_one_square() {
    let mut b = BoardB::with_starting_pos();
    b.remove_piece(12);
    assert_eq!(b.get_piece_at_pos(12), None);
    b.set_piece(28, Piece::new(PieceType::Knight, Side::Black));
    assert_eq!(b.get_piece_at_pos(28), Some(Piece::new(PieceType::Knight, Side::Black)));
    assert!(b.occupied(28));
    assert_eq!(b.get_piece_at_pos(11), Some(Piece::new(PieceType::Pawn, Side::White)));
    assert_eq!(b.kings, (4, 60));
}

#[test]
fn pawn_on_start_rank_has_two_one_or_no_forward_moves() {
    let open = board("4k3/8/8/8/8/8/4P3/4K3 w - - 0 1");
    assert_eq!(open.valid_moves_for_piece(12, false), mask(&[20, 28]));
    let second_blocked = board("4k3/8/8/8/4n3/8/4P3/4K3 w - - 0 1");
    assert_eq!(second_blocked.valid_moves_for_piece(12, false), mask(&[20]));
    let first_blocked = board("4k3/8/8/8/8/4n3/4P3/4K3 w - - 0 1");
    assert_eq!(first_blocked.valid_moves_for_piece(12, false), 0);
    let black = board("4k3/4p3/8/8/8/8/8/4K3 b - - 0 1");
    assert_eq!(black.valid_moves_for_piece(52, false), mask(&[44, 36]));
    let black_blocked = board("4k3/4p3/8/4N3/8/8/8/4K3 b - - 0 1");
    assert_eq!(black_blocked.valid_moves_for_piece(52, false), mask(&[44]));
}

#[test]
fn pawn_off_its_start_rank_advances_one_square_and_takes_diagonally() {
    let b = board("4k3/8/8/3n1n2/4P3/8/8/4K3 w - - 0 1");
    assert_eq!(b.valid_moves_for_piece(28, false), mask(&[35, 36, 37]));
    let own = board("4k3/8/8/3N1n2/4P3/8/8/4K3 w - - 0 1");
    assert_eq!(own.valid_moves_for_piece(28, false), mask(&[36, 37]));
    let edge = board("4k3/8/8/6n1/7P/8/8/4K3 w - - 0 1");
    assert_eq!(edge.valid_moves_for_piece(31, false), mask(&[38, 39]));
}

#[test]
fn knight_jumps_to_its_eight_offsets_clipped_to_the_board() {
    let b = board("4k3/8/8/8/3N4/8/8/4K3 w - - 0 1");
    assert_eq!(b.valid_moves_for_piece(27, false), mask(&[10, 12, 17, 21, 33, 37, 42, 44]));
    let corner = board("4k3/8/8/8/8/8/2P5/N3K3 w - - 0 1");
    assert_eq!(corner.valid_moves_for_piece(0, false), mask(&[17]));
}

#[test]
fn sliders_stop_at_the_first_piece_and_take_only_the_other_side() {
    let b = board("4k3/8/8/3p4/8/8/3R2P1/4K3 w - - 0 1");
    assert_eq!(
        b.valid_moves_for_piece(11, false),
        mask(&[3, 8, 9, 10, 12, 13, 19, 27, 35])
    );
    let bishop = board("4k3/8/5p2/8/3B4/8/1P6/4K3 w - - 0 1");
    assert_eq!(
        bishop.valid_moves_for_piece(27, false),
        mask(&[18, 36, 45, 20, 13, 6, 34, 41, 48])
    );
    let queen = board("4k3/8/8/8/8/8/PP6/QP2K3 w - - 0 1");
    assert_eq!(queen.valid_moves_for_piece(0, false), 0);
}

#[test]
fn king_steps_one_square_and_does_not_take_its_own_pieces() {
    let b = board("4k3/8/8/8/8/8/3P4/4K3 w - - 0 1");
    assert_eq!(b.valid_moves_for_piece(4, true), mask(&[3, 5, 12, 13]));
    assert_eq!(b.valid_moves_for_piece(4, false), mask(&[3, 5, 12, 13]));
}

#[test]
fn castling_needs_the_right_an_empty_path_and_no_threat() {
    let both = board("r3k2r/8/8/8/8/8/8/R3K2R w KQkq - 0 1");
    assert_eq!(both.valid_moves_for_piece(4, false), mask(&[2, 3, 5, 6, 11, 12, 13]));
    assert_eq!(both.valid_moves_for_piece(4, true), mask(&[3, 5, 11, 12, 13]));
    assert_eq!(both.valid_moves_for_piece(60, false), mask(&[58, 59, 61, 62, 51, 52, 53]));
    let no_right = board("r3k2r/8/8/8/8/8/8/R3K2R w Qkq - 0 1");
    assert_eq!(no_right.valid_moves_for_piece(4, false), mask(&[2, 3, 5, 11, 12, 13]));
    let blocked = board("r3k2r/8/8/8/8/8/8/R3KB1R w KQkq - 0 1");
    assert_eq!(blocked.valid_moves_for_piece(4, false), mask(&[2, 3, 11, 12, 13]));
    let crossed = board("r3kr2/8/8/8/8/8/8/R3K2R w KQq - 0 1");
    assert_eq!(crossed.valid_moves_for_piece(4, false), mask(&[2, 3, 5, 11, 12, 13]));
    let in_check = board("r3k3/8/8/8/8/8/8/R3r2R w KQq - 0 1");
    assert_eq!(in_check.get_piece_at_pos(4), Some(Piece::new(PieceType::Rook, Side::Black)));
    let checked = board("r3k3/8/8/8/4r3/8/8/R3K2R w KQq - 0 1");
    assert_eq!(checked.valid_moves_for_piece(4, false), mask(&[3, 5, 11, 12, 13]));
}

#[test]
fn castling_moves_the_rook_and_forfeits_both_rights() {
    let mut b = board("r3k2r/8/8/8/8/8/8/R3K2R w KQkq - 0 1");
    assert_eq!(b.make_move(4, 6), None);
    assert_eq!(b.get_piece_at_pos(6), Some(Piece::new(PieceType::King, Side::White)));
    assert_eq!(b.get_piece_at_pos(5), Some(Piece::new(PieceType::Rook, Side::White)));
    assert_eq!(b.get_piece_at_pos(7), None);
    assert_eq!(b.get_piece_at_pos(4), None);
    assert_eq!(b.white_castle, Castle::forbid());
    assert_eq!(b.black_castle, Castle::new());
    assert_eq!(b.kings, (6, 60));
    assert_eq!(b.make_move(60, 58), None);
    assert_eq!(b.get_piece_at_pos(58), Some(Piece::new(PieceType::King, Side::Black)));
    assert_eq!(b.get_piece_at_pos(59), Some(Piece::new(PieceType::Rook, Side::Black)));
    assert_eq!(b.get_piece_at_pos(56), None);
    assert_eq!(b.black_castle, Castle::forbid());
    assert_eq!(b.kings, (6, 58));
}

#[test]
fn moving_a_rook_and_back_forfeits_that_wing_for_good() {
    let mut b = board("r3k2r/8/8/8/8/8/8/R3K2R w KQkq - 0 1");
    b.make_move(7, 15);
    assert_eq!(b.white_castle, Castle { short: false, long: true });
    b.make_move(15, 7);
    assert_eq!(b.white_castle, Castle { short: false, long: true });
    assert_eq!(b.valid_moves_for_piece(4, false), mask(&[2, 3, 5, 11, 12, 13]));
    b.make_move(56, 57);
    assert_eq!(b.black_castle, Castle { short: true, long: false });
    b.make_move(4, 12);
    b.make_move(12, 4);
    assert_eq!(b.white_castle, Castle::forbid());
    assert_eq!(b.valid_moves_for_piece(4, false), mask(&[3, 5, 11, 12, 13]));
}

#[test]
fn double_push_sets_the_target_and_the_next_move_clears_it() {
    let mut b = BoardB::with_starting_pos();
    assert_eq!(b.make_move(12, 28), None);
    assert_eq!(b.en_passant, 28);
    assert_eq!(b.make_move(57, 42), None);
    assert_eq!(b.en_passant, NO_EN_PASSANT);
    b.make_move(8, 16);
    assert_eq!(b.en_passant, NO_EN_PASSANT);
    b.make_move(51, 35);
    assert_eq!(b.en_passant, 35);
    b.make_move(4, 12);
    assert_eq!(b.en_passant, NO_EN_PASSANT);
}

#[test]
fn en_passant_takes_the_pawn_that_passed() {
    let mut b = BoardB::with_starting_pos();
    b.make_move(12, 28);
    b.make_move(48, 40);
    b.make_move(28, 36);
    b.make_move(51, 35);
    assert_eq!(b.en_passant, 35);
    assert_eq!(b.valid_moves_for_piece(36, false), mask(&[43, 44]));
    assert_eq!(b.make_move(36, 43), None);
    assert_eq!(b.get_piece_at_pos(35), None);
    assert_eq!(b.get_piece_at_pos(36), None);
    assert_eq!(b.get_piece_at_pos(43), Some(Piece::new(PieceType::Pawn, Side::White)));
}

#[test]
fn en_passant_lasts_one_ply() {
    let mut b = BoardB::with_starting_pos();
    b.make_move(12, 28);
    b.make_move(48, 40);
    b.make_move(28, 36);
    b.make_move(51, 35);
    b.make_move(8, 16);
    b.make_move(40, 32);
    assert_eq!(b.valid_moves_for_piece(36, false), mask(&[44]));
}

#[test]
fn black_takes_en_passant_downwards() {
    let mut b = board("4k3/8/8/8/3p4/8/4P3/4K3 w - - 0 1");
    b.make_move(12, 28);
    assert_eq!(b.en_passant, 28);
    assert_eq!(b.valid_moves_for_piece(27, false), mask(&[19, 20]));
    b.make_move(27, 20);
    assert_eq!(b.get_piece_at_pos(28), None);
    assert_eq!(b.get_piece_at_pos(20), Some(Piece::new(PieceType::Pawn, Side::Black)));
}

#[test]
fn pawn_reaching_the_last_rank_becomes_a_queen() {
    let mut b = board("1n6/P6p/8/8/8/8/7p/k5NK w - - 0 1");
    assert_eq!(b.make_move(48, 57), Some(Piece::new(PieceType::Knight, Side::Black)));
    assert_eq!(b.get_piece_at_pos(57), Some(Piece::new(PieceType::Queen, Side::White)));
    assert_eq!(b.make_move(15, 6), Some(Piece::new(PieceType::Knight, Side::White)));
    assert_eq!(b.get_piece_at_pos(6), Some(Piece::new(PieceType::Queen, Side::Black)));
}

#[test]
fn make_move_returns_what_stood_on_the_destination() {
    let mut b = board("4k3/8/8/3q4/4P3/8/8/4K3 w - - 0 1");
    assert_eq!(b.make_move(28, 35), Some(Piece::new(PieceType::Queen, Side::Black)));
    assert_eq!(b.get_piece_at_pos(28), None);
    assert_eq!(b.get_piece_at_pos(35), Some(Piece::new(PieceType::Pawn, Side::White)));
    assert_eq!(b.make_move(60, 61), None);
    assert_eq!(b.kings, (4, 61));
}

#[test]
fn space_occupied_looks_at_the_whole_rectangle() {
    let b = BoardB::with_starting_pos();
    assert!(b.space_occupied(Pos::new(0, 0), Pos::new(7, 7)));
    assert!(!b.space_occupied(Pos::new(0, 2), Pos::new(7, 5)));
    assert!(!b.space_occupied(Pos::new(7, 5), Pos::new(0, 2)));
    assert!(b.space_occupied(Pos::new(3, 5), Pos::new(3, 6)));
    assert!(b.xy_on_board(Pos::new(0, 7)));
    assert!(!b.xy_on_board(Pos::new(8, 0)));
    assert!(!b.xy_on_board(Pos::new(0, -1)));
}

#[test]
fn evaluate_is_the_signed_material_sum() {
    let start = BoardB::with_starting_pos();
    assert_eq!(start.evaluate(Side::White), 0);
    assert_eq!(start.evaluate(Side::Black), 0);
    let b = board("4k3/8/8/3q4/4P3/8/8/R3K3 w - - 0 1");
    assert_eq!(b.evaluate(Side::White), 100 + 500 - 900);
    assert_eq!(b.evaluate(Side::Black), 900 - 100 - 500);
    let all = board("rnbqkbnr/8/8/8/8/8/8/4K3 w - - 0 1");
    assert_eq!(all.evaluate(Side::Black), 500 + 300 + 300 + 900 + 300 + 300 + 500);
}

#[test]
fn promotion_to_a_chosen_kind() {
    let start = board("1n6/P6p/8/8/8/8/7p/k5NK w - - 0 1");
    for (asked, got) in [
        (PieceType::Knight, PieceType::Knight),
        (PieceType::Bishop, PieceType::Bishop),
        (PieceType::Rook, PieceType::Rook),
        (PieceType::Queen, PieceType::Queen),
        (PieceType::King, PieceType::Queen),
        (PieceType::Pawn, PieceType::Queen),
    ] {
        let mut b = start;
        assert_eq!(
            b.make_move_as(48, 57, asked),
            Some(Piece::new(PieceType::Knight, Side::Black))
        );
        assert_eq!(b.get_piece_at_pos(57), Some(Piece::new(got, Side::White)));
        assert_eq!(b.get_piece_at_pos(48), None);
        let mut c = start;
        c.make_move_as(15, 6, asked);
        assert_eq!(c.get_piece_at_pos(6), Some(Piece::new(got, Side::Black)));
    }
    let mut plain = BoardB::with_starting_pos();
    let mut asked = BoardB::with_starting_pos();
    plain.make_move(12, 28);
    asked.make_move_as(12, 28, PieceType::Knight);
    assert_eq!(plain.board, asked.board);
    assert_eq!(plain.en_passant, asked.en_passant);
}

#[test]
fn only_an_advance_by_two_ranks_leaves_a_target() {
    let mut b = board("4k3/8/8/8/8/8/4P3/4K3 w - - 0 1");
    b.make_move(12, 36);
    assert_eq!(b.en_passant, NO_EN_PASSANT);
    let mut c = board("4k3/8/8/8/8/8/4P3/4K3 w - - 0 1");
    c.make_move(12, 28);
    assert_eq!(c.en_passant, 28);
    let mut d = board("4k3/4p3/8/8/8/8/8/4K3 b - - 0 1");
    d.make_move(52, 36);
    assert_eq!(d.en_passant, 36);
    d.make_move(36, 12);
    assert_eq!(d.en_passant, NO_EN_PASSANT);
}
