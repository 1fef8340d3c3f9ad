use std::collections::HashMap;

use chess_core::bits::BitMap;
use chess_core::boardb::BoardB;
use chess_core::fen::placement_letters_known;
use chess_core::pieces::Side;
use chess_core::search::{best_move, compute_best_move, keep_best, move_list, score_move, LIMIT, MATE};

fn board(fen: &str) -> BoardB {
    assert!(placement_letters_known(fen));
    BoardB::from_fen(fen).unwrap().0
}

fn moves_of(b: &BoardB, side: Side) -> Vec<(u8, u8)> {
    let mut mvs = HashMap::new();
    b.valid_moves(side, &mut mvs);
    let mut all = Vec::new();
    for from in 0..64u8 {
        if let Some(m) = mvs.get(&from) {
            for to in m.ones() {
                all.push((from, to));
            }
        }
    }
    all
}

/// The search without bounds, to hold the pruned one against.
fn plain(b: &BoardB, depth: usize, side: Side) -> i32 {
    let moves = moves_of(b, side);
    if moves.is_empty() {
        let threat = b.valid_moves_as_array(!side, false, true);
        return if b.is_check(&threat, side) { -MATE } else { 0 };
    }
    if depth == 0 {
        return b.evaluate(side);
    }
    let mut best = -LIMIT;
    for (from, to) in moves {
        let mut c = *b;
        c.make_move(from, to);
        best = best.max(-plain(&c, depth - 1, !side));
    }
    best
}

#[test]
fn search_at_depth_zero_takes_the_loose_queen() {
    let b = board("4k3/8/8/3q4/4P3/8/8/4K3 w - - 0 1");
    let (mv, score) = best_move(&b, 0, Side::White).unwrap();
    assert_eq!(mv, (28, 35));
    assert_eq!(score, 100);
    for (from, to) in moves_of(&b, Side::White) {
        if (from, to) != (28, 35) {
            assert_eq!(score_move(&b, from, to, 0, Side::White), -800);
        }
    }
}

#[test]
fn depth_zero_and_depth_one_look_one_move_ahead() {
    let b = board("4k3/8/8/3q4/4P3/8/8/4K3 w - - 0 1");
    assert_eq!(best_move(&b, 0, Side::White), best_move(&b, 1, Side::White));
    assert_eq!(best_move(&b, 1, Side::White), Some(((28, 35), 100)));
}

#[test]
fn deeper_search_sees_the_recapture() {
    let b = board("4k3/8/2p5/3q4/4P3/8/8/4K3 w - - 0 1");
    assert_eq!(best_move(&b, 1, Side::White), Some(((28, 35), 0)));
    assert_eq!(best_move(&b, 2, Side::White), Some(((28, 35), -100)));
    let guarded = board("4k3/8/2p5/3p4/4Q3/8/8/4K3 w - - 0 1");
    assert_eq!(best_move(&guarded, 1, Side::White).unwrap().0, (28, 35));
    assert_ne!(best_move(&guarded, 2, Side::White).unwrap().0, (28, 35));
}

#[test]
fn mate_in_one_is_found_and_scored_as_a_win() {
    let b = board("6k1/5ppp/8/8/8/8/8/R3K3 w - - 0 1");
    assert_eq!(best_move(&b, 0, Side::White), Some(((0, 56), MATE)));
    assert_eq!(best_move(&b, 2, Side::White), Some(((0, 56), MATE)));
    assert_eq!(compute_best_move(b, 1, Side::White, -LIMIT, LIMIT), MATE);
    assert_eq!(compute_best_move(b, 0, Side::White, -LIMIT, LIMIT), 500 - 300);
}

#[test]
fn side_that_cannot_move_has_lost_or_drawn() {
    let mated = board("R5k1/5ppp/8/8/8/8/8/4K3 b - - 0 1");
    assert_eq!(compute_best_move(mated, 3, Side::Black, -LIMIT, LIMIT), -MATE);
    assert_eq!(compute_best_move(mated, 0, Side::Black, -LIMIT, LIMIT), -MATE);
    assert_eq!(best_move(&mated, 3, Side::Black), None);
    let stale = board("7k/5Q2/6K1/8/8/8/8/8 b - - 0 1");
    assert_eq!(compute_best_move(stale, 2, Side::Black, -LIMIT, LIMIT), 0);
    assert_eq!(best_move(&stale, 2, Side::Black), None);
}

#[test]
fn first_of_equal_moves_is_chosen() {
    let b = BoardB::with_starting_pos();
    assert_eq!(best_move(&b, 1, Side::White), Some(((1, 16), 0)));
    assert_eq!(best_move(&b, 1, Side::Black), Some(((48, 32), 0)));
}

#[test]
fn pruned_search_agrees_with_the_plain_one() {
    for fen in [
        "4k3/8/2p5/3q4/4P3/8/8/4K3 w - - 0 1",
        "r3k2r/8/8/8/8/8/8/R3K2R w KQkq - 0 1",
        "4k3/8/8/3pP3/8/8/8/4K3 w - d6 0 1",
        "6k1/5ppp/8/8/8/8/8/R3K3 w - - 0 1",
    ] {
        let b = board(fen);
        for side in [Side::White, Side::Black] {
            for depth in 0..3 {
                assert_eq!(
                    compute_best_move(b, depth, side, -LIMIT, LIMIT),
                    plain(&b, depth, side)
                );
            }
        }
    }
}

#[test]
fn narrow_window_gives_a_bound_on_the_right_side() {
    let b = board("4k3/8/2p5/3q4/4P3/8/8/4K3 w - - 0 1");
    let exact = plain(&b, 2, Side::White);
    assert_eq!(exact, -100);
    let low = compute_best_move(b, 2, Side::White, -50, 50);
    assert!(low <= -50 && exact <= low);
    let high = compute_best_move(b, 2, Side::White, -500, -300);
    assert!(high >= -300 && exact >= high);
    assert_eq!(compute_best_move(b, 2, Side::White, -101, -99), exact);
}

#[test]
fn score_of_a_move_is_the_negated_value_of_what_follows() {
    let b = board("4k3/8/2p5/3q4/4P3/8/8/4K3 w - - 0 1");
    for (from, to) in moves_of(&b, Side::White) {
        let mut c = b;
        c.make_move(from, to);
        for depth in 0..2 {
            assert_eq!(score_move(&b, from, to, depth, Side::White), -plain(&c, depth, Side::Black));
        }
    }
}

#[test]
fn move_list_is_ordered_by_origin_then_destination() {
    let b = BoardB::with_starting_pos();
    let mut mvs = HashMap::new();
    b.valid_moves(Side::White, &mut mvs);
    let list = move_list(&mvs);
    assert_eq!(list.len(), 20);
    assert_eq!(&list[..4], &[(1, 16), (1, 18), (6, 21), (6, 23)]);
    assert_eq!(list[19], (15, 31));
    assert_eq!(list, moves_of(&b, Side::White));
    assert_eq!(move_list(&HashMap::new()), Vec::<(u8, u8)>::new());
    let mut odd = HashMap::new();
    odd.insert(63u8, 1u64 << 63 | 1);
    odd.insert(200u8, 1u64);
    assert_eq!(move_list(&odd), vec![(63, 0), (63, 63)]);
}

#[test]
fn keep_best_prefers_the_first_of_equals() {
    assert_eq!(keep_best(None, (1, 2), -5), Some(((1, 2), -5)));
    assert_eq!(keep_best(Some(((1, 2), -5)), (3, 4), -5), Some(((1, 2), -5)));
    assert_eq!(keep_best(Some(((1, 2), -5)), (3, 4), -4), Some(((3, 4), -4)));
    assert_eq!(keep_best(Some(((1, 2), -5)), (3, 4), -6), Some(((1, 2), -5)));
}

#[test]
fn best_move_is_worth_what_the_position_is_worth() {
    for fen in [
        "4k3/8/2p5/3q4/4P3/8/8/4K3 w - - 0 1",
        "r3k2r/8/8/8/8/8/8/R3K2R w KQkq - 0 1",
        "6k1/5ppp/8/8/8/8/8/R3K3 w - - 0 1",
    ] {
        let b = board(fen);
        for depth in 1..3 {
            let (_, score) = best_move(&b, depth, Side::White).unwrap();
            assert_eq!(score, compute_best_move(b, depth, Side::White, -LIMIT, LIMIT));
        }
    }
}

#[test]
fn bounds_beyond_every_score_give_the_value() {
    let b = board("4k3/8/2p5/3q4/4P3/8/8/4K3 w - - 0 1");
    for depth in 0..3 {
        let exact = plain(&b, depth, Side::White);
        assert_eq!(compute_best_move(b, depth, Side::White, i32::MIN, i32::MAX), exact);
        assert_eq!(compute_best_move(b, depth, Side::White, -LIMIT - 5, LIMIT + 5), exact);
    }
    let above = compute_best_move(b, 2, Side::White, i32::MAX - 1, i32::MAX);
    assert!(plain(&b, 2, Side::White) <= above);
    let below = compute_best_move(b, 2, Side::White, i32::MIN, i32::MIN + 1);
    assert!(plain(&b, 2, Side::White) >= below);
}
