use std::collections::HashMap;

use chess_core::boardb::BoardB;
use chess_core::fen::placement_letters_known;
use chess_core::pieces::Side;

fn board(fen: &str) -> BoardB {
    assert!(placement_letters_known(fen));
    BoardB::from_fen(fen).unwrap().0
}

fn mask(squares: &[u8]) -> u64 {
    let mut m = 0u64;
    for s in squares {
        m |= 1u64 << s;
    }
    m
}

#[test]
fn starting_position_has_twenty_legal_moves() {
    let b = BoardB::with_starting_pos();
    let mut mvs = HashMap::new();
    assert_eq!(b.valid_moves(Side::White, &mut mvs), (20, 20));
    assert_eq!(mvs.len(), 10);
    assert_eq!(mvs[&12], mask(&[20, 28]));
    assert_eq!(mvs[&1], mask(&[16, 18]));
    assert!(!mvs.contains_key(&0));
    assert!(!mvs.contains_key(&4));
    assert!(!mvs.contains_key(&52));
    assert_eq!(b.valid_moves(Side::Black, &mut mvs), (20, 20));
    assert_eq!(mvs[&52], mask(&[44, 36]));
    assert!(!mvs.contains_key(&12));
}

#[test]
fn valid_moves_replaces_what_the_table_held() {
    let b = BoardB::with_starting_pos();
    let mut mvs = HashMap::new();
    mvs.insert(200u8, 7u64);
    mvs.insert(30u8, 1u64);
    b.valid_moves(Side::White, &mut mvs);
    assert!(!mvs.contains_key(&200));
    assert!(!mvs.contains_key(&30));
    assert_eq!(mvs.len(), 10);
}

#[test]
fn pinned_piece_may_not_leave_the_line() {
    let b = board("4k3/8/8/8/4r3/8/4N3/4K3 w - - 0 1");
    assert_eq!(b.valid_moves_for_piece(12, false), mask(&[2, 6, 18, 22, 27, 29]));
    let mut mvs = HashMap::new();
    assert_eq!(b.valid_moves(Side::White, &mut mvs), (10, 4));
    assert!(!mvs.contains_key(&12));
    assert_eq!(mvs[&4], mask(&[3, 5, 11, 13]));
    assert!(b.is_check_after(12, 27, Side::White));
    assert!(!b.is_check_after(4, 3, Side::White));
}

#[test]
fn king_in_check_must_get_out_of_it() {
    let b = board("4k3/8/8/8/4r3/8/3P4/4K3 w - - 0 1");
    let mut mvs = HashMap::new();
    b.valid_moves(Side::White, &mut mvs);
    assert_eq!(mvs.len(), 1);
    assert_eq!(mvs[&4], mask(&[3, 5, 13]));
    assert!(b.is_check(&b.valid_moves_as_array(Side::Black, false, true), Side::White));
    assert!(!b.is_check(&b.valid_moves_as_array(Side::White, false, true), Side::Black));
}

#[test]
fn move_array_holds_the_pieces_in_the_order_of_their_squares() {
    let b = BoardB::with_starting_pos();
    let black = b.valid_moves_as_array(Side::Black, true, true);
    assert_eq!(black, b.valid_moves_as_array(Side::Black, false, false));
    for k in 0..64usize {
        let expected = match k {
            0..=7 => mask(&[40 + k as u8, 32 + k as u8]),
            9 => mask(&[40, 42]),
            14 => mask(&[45, 47]),
            _ => 0,
        };
        assert_eq!(black[k], expected);
    }
    let pieces = b.pieces_indexes_of_side(Side::Black);
    for (k, square) in pieces.iter().enumerate() {
        assert_eq!(black[k], b.valid_moves_for_piece(*square, true));
        assert_eq!(b.pieces_before(Side::Black, *square) as usize, k);
    }
    let kings = BoardB::gen_kings_pos();
    let white = kings.valid_moves_as_array(Side::White, true, true);
    assert_eq!(white[0], mask(&[3, 5, 11, 12, 13]));
    assert_eq!(white[4], 0);
    assert!(white[1..].iter().all(|m| *m == 0));
    let pinned = board("4k3/8/8/8/4r3/8/4N3/4K3 w - - 0 1");
    let raw = pinned.valid_moves_as_array(Side::White, false, true);
    assert_eq!(raw[0], mask(&[3, 5, 11, 13]));
    assert_eq!(raw[1], mask(&[2, 6, 18, 22, 27, 29]));
    assert_eq!(raw[12], 0);
    let filtered = pinned.valid_moves_as_array(Side::White, false, false);
    assert_eq!(filtered[0], mask(&[3, 5, 11, 13]));
    assert_eq!(filtered[1], 0);
}

#[test]
fn pieces_before_counts_one_side_only() {
    let b = board("4k3/8/8/8/4r3/8/3P4/4K3 w - - 0 1");
    assert_eq!(b.pieces_before(Side::White, 0), 0);
    assert_eq!(b.pieces_before(Side::White, 4), 0);
    assert_eq!(b.pieces_before(Side::White, 5), 1);
    assert_eq!(b.pieces_before(Side::White, 11), 1);
    assert_eq!(b.pieces_before(Side::White, 64), 2);
    assert_eq!(b.pieces_before(Side::Black, 28), 0);
    assert_eq!(b.pieces_before(Side::Black, 60), 1);
    assert_eq!(b.pieces_before(Side::Black, 64), 2);
}

#[test]
fn threat_test_gives_the_same_answer_twice() {
    let b = board("4k3/8/8/8/4r3/8/3P4/4K3 w - - 0 1");
    let mvs = b.valid_moves_as_array(Side::Black, true, true);
    for pos in 0..64u8 {
        let first = b.threathens(pos, &mvs);
        let second = b.threathens(pos, &mvs);
        assert_eq!(first, second);
        let file_or_rank = (pos % 8 == 4 || pos / 8 == 3) && pos != 28;
        let by_king = [51, 52, 53, 59, 61].contains(&pos);
        assert_eq!(first, file_or_rank && pos != 60 || by_king);
    }
}

#[test]
fn check_from_a_table_looks_at_every_entry() {
    let b = board("4k3/8/8/8/4r3/8/3P4/4K3 b - - 0 1");
    let mut mvs = HashMap::new();
    b.valid_moves(Side::Black, &mut mvs);
    assert!(b.is_check_from_hm(&mvs, Side::White));
    assert!(!b.is_check_from_hm(&mvs, Side::Black));
    let mut far = HashMap::new();
    far.insert(255u8, 1u64 << 4);
    assert!(b.is_check_from_hm(&far, Side::White));
    far.insert(255u8, 1u64 << 5);
    assert!(!b.is_check_from_hm(&far, Side::White));
}

#[test]
fn pieces_of_a_side_are_listed_in_square_order() {
    let b = board("4k3/8/8/8/4r3/8/3P4/4K3 w - - 0 1");
    assert_eq!(b.pieces_indexes_of_side(Side::White), vec![4, 11]);
    assert_eq!(b.pieces_indexes_of_side(Side::Black), vec![28, 60]);
    let start = BoardB::with_starting_pos();
    assert_eq!(start.pieces_indexes_of_side(Side::White), (0..16).collect::<Vec<u8>>());
    assert_eq!(start.pieces_indexes_of_side(Side::Black), (48..64).collect::<Vec<u8>>());
}

#[test]
fn castling_into_a_pawn_capture_is_not_legal() {
    let b = board("4k3/8/8/8/8/8/7p/4K2R w K - 0 1");
    assert_eq!(b.valid_moves_for_piece(4, false), mask(&[3, 5, 6, 11, 12, 13]));
    let mut mvs = HashMap::new();
    b.valid_moves(Side::White, &mut mvs);
    assert_eq!(mvs[&4], mask(&[3, 5, 11, 12, 13]));
    assert!(b.is_check_after(4, 6, Side::White));
    let pushed = board("4k3/8/8/8/8/8/5p2/4K2R w K - 0 1");
    assert_eq!(pushed.valid_moves_for_piece(4, false), mask(&[3, 5, 11, 12, 13]));
}

#[test]
fn en_passant_that_uncovers_the_king_is_not_legal() {
    let mut b = board("8/8/8/8/k2p3R/8/4P3/4K3 w - - 0 1");
    b.make_move(12, 28);
    assert_eq!(b.valid_moves_for_piece(27, false), mask(&[19, 20]));
    let mut mvs = HashMap::new();
    b.valid_moves(Side::Black, &mut mvs);
    assert_eq!(mvs[&27], mask(&[19]));
}

#[test]
fn positions_of_a_game_are_sound_and_others_are_not() {
    let mut b = BoardB::with_starting_pos();
    assert!(b.is_sound(Side::White));
    assert!(b.is_sound(Side::Black));
    b.make_move(12, 28);
    assert!(b.is_sound(Side::Black));
    assert!(!b.is_sound(Side::White));
    assert!(b.kings_in_place());
    let no_king = board("8/8/8/8/8/8/8/4K3 w - - 0 1");
    assert!(!no_king.is_sound(Side::White));
    assert!(!no_king.kings_in_place());
    let two_kings = board("4k3/8/8/8/8/8/8/K3K3 w - - 0 1");
    assert!(!two_kings.is_sound(Side::White));
    assert!(two_kings.kings_in_place());
    let checked = board("4k3/8/8/8/4R3/8/8/4K3 w - - 0 1");
    assert!(!checked.is_sound(Side::White));
    assert!(checked.is_sound(Side::Black));
    let rights = board("4k3/8/8/8/8/8/8/3K4 w K - 0 1");
    assert!(!rights.is_sound(Side::White));
    let target = board("4k3/8/8/8/8/8/8/4K3 b - e3 0 1");
    assert!(!target.is_sound(Side::Black));
    let passed = board("4k3/8/8/8/4P3/4n3/8/4K3 b - e3 0 1");
    assert!(!passed.is_sound(Side::Black));
    let fine = board("4k3/8/8/8/4P3/8/8/4K3 b - e3 0 1");
    assert!(fine.is_sound(Side::Black));
}

fn count_lines(b: &BoardB, side: Side, depth: u32) -> u64 {
    let mut mvs = HashMap::new();
    let (_, legal) = b.valid_moves(side, &mut mvs);
    if depth == 1 {
        return legal as u64;
    }
    let mut total = 0;
    for (from, mask) in mvs {
        for to in 0..64u8 {
            if mask >> to & 1 == 1 {
                let mut next = *b;
                next.make_move(from, to);
                total += count_lines(&next, !side, depth - 1);
            }
        }
    }
    total
}

#[test]
fn lines_of_play_from_the_start_are_counted_right() {
    let b = BoardB::with_starting_pos();
    assert_eq!(count_lines(&b, Side::White, 1), 20);
    assert_eq!(count_lines(&b, Side::White, 2), 400);
    assert_eq!(count_lines(&b, Side::White, 3), 8902);
}

#[test]
fn lines_of_play_with_castling_and_captures_are_counted_right() {
    let b = board("r3k2r/p1ppqpb1/bn2pnp1/3PN3/1p2P3/2N2Q1p/PPPBBPPP/R3K2R w KQkq - 0 1");
    assert_eq!(count_lines(&b, Side::White, 1), 48);
    assert_eq!(count_lines(&b, Side::White, 2), 2039);
    let endgame = board("8/2p5/3p4/KP5r/1R3p1k/8/4P1P1/8 w - - 0 1");
    assert_eq!(count_lines(&endgame, Side::White, 1), 14);
    assert_eq!(count_lines(&endgame, Side::White, 2), 191);
    assert_eq!(count_lines(&endgame, Side::White, 3), 2812);
}
