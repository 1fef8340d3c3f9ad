//! Choosing a move: a negamax search over copies of the position, pruned by
//! alpha and beta bounds.

use std::collections::HashMap;
use std::ops::Not;
use vstd::prelude::*;
use crate::bits::{holds, test_bit};
use crate::boardb::{BoardB, Position};
use crate::pieces::Side;

verus! {

/// The score of a position in which the side to move is checkmated, seen by
/// that side; its negation is the score of the side that mates.
pub const MATE: i32 = 1_000_000;

/// A bound that no score reaches.
pub const LIMIT: i32 = 1_000_001;

/// The greater of two numbers.
pub open spec fn max(a: int, b: int) -> int {
    if a >= b {
        a
    } else {
        b
    }
}

/// The value of a position to the side to move, searched `depth` plies deep.
///
/// A side that cannot move has lost (`-MATE`) if it is in check and drawn (0)
/// if not. Otherwise, at depth 0 the value is the material balance, and above
/// it the best of what the legal moves lead to.
pub open spec fn negamax(pos: Position, side: Side, depth: nat) -> int
    decreases depth, 4097int,
{
    if !pos.can_move(side) {
        if pos.in_check(side) {
            -MATE as int
        } else {
            0
        }
    } else if depth == 0 {
        pos.material(side)
    } else {
        best_below(pos, side, depth, 4096)
    }
}

/// The best value, `depth` plies deep, among the legal moves from square
/// `k / 64` to square `k % 64` with `k` below `n`; `-LIMIT` if there is none.
pub open spec fn best_below(pos: Position, side: Side, depth: nat, n: int) -> int
    decreases depth, n,
{
    if n <= 0 || depth == 0 {
        -LIMIT as int
    } else {
        let rest = best_below(pos, side, depth, n - 1);
        if pos.legal(side, (n - 1) / 64, (n - 1) % 64) {
            max(
                rest,
                -negamax(
                    pos.after_move((n - 1) / 64, (n - 1) % 64),
                    side.opposite(),
                    (depth - 1) as nat,
                ),
            )
        } else {
            rest
        }
    }
}

impl Position {
    /// What the move from `from` to `to` is worth to `side`, the position
    /// after it being searched `depth` plies deep.
    pub open spec fn move_value(self, side: Side, from: int, to: int, depth: nat) -> int {
        -negamax(self.after_move(from, to), side.opposite(), depth)
    }

    /// The move from `from` to `to` is the one to choose for `side`, the
    /// positions after the moves being searched `plies` deep: it is legal, no
    /// legal move is worth more, and every legal move that comes before it, by
    /// the square it leaves and then by the square it reaches, is worth less.
    pub open spec fn is_best(self, side: Side, plies: nat, from: int, to: int) -> bool {
        &&& self.legal(side, from, to)
        &&& forall|f: int, t: int| #[trigger]
            self.legal(side, f, t) ==> {
                &&& self.move_value(side, f, t, plies) <= self.move_value(side, from, to, plies)
                &&& 64 * f + t < 64 * from + to ==> self.move_value(side, f, t, plies)
                    < self.move_value(side, from, to, plies)
            }
    }
}

/// How deep the positions after the first move are searched in a search to
/// `depth`: one ply less, and not at all for a depth of 0.
pub open spec fn plies_below(depth: usize) -> nat {
    if depth == 0 {
        0
    } else {
        (depth - 1) as nat
    }
}

/// What a search within the bounds `alpha` and `beta` may return for a
/// position of value `v`: the value itself inside the bounds, and outside them
/// a bound on it from the side on which it lies.
pub open spec fn within(score: int, v: int, alpha: int, beta: int) -> bool {
    &&& score <= alpha ==> v <= score
    &&& score >= beta ==> v >= score
    &&& alpha < score < beta ==> v == score
}

/// No value lies beyond a mate.
pub proof fn lemma_negamax_bounds(pos: Position, side: Side, depth: nat)
    ensures
        -MATE <= negamax(pos, side, depth) <= MATE,
    decreases depth, 4097int,
{
    if !pos.can_move(side) {
    } else if depth == 0 {
        pos.lemma_material_bound(side, 64);
    } else {
        lemma_best_bounds(pos, side, depth, 4096);
        let (from, to) = choose|from: int, to: int| #[trigger] pos.legal(side, from, to);
        lemma_best_covers(pos, side, depth, 4096, from, to);
        lemma_negamax_bounds(pos.after_move(from, to), side.opposite(), (depth - 1) as nat);
    }
}

/// The best value among the first `n` moves lies between the bound that no
/// score reaches and a mate.
pub proof fn lemma_best_bounds(pos: Position, side: Side, depth: nat, n: int)
    ensures
        -LIMIT <= best_below(pos, side, depth, n) <= MATE,
    decreases depth, n,
{
    if n <= 0 || depth == 0 {
    } else {
        lemma_best_bounds(pos, side, depth, n - 1);
        lemma_negamax_bounds(
            pos.after_move((n - 1) / 64, (n - 1) % 64),
            side.opposite(),
            (depth - 1) as nat,
        );
    }
}

/// The best value among the first `n` moves is no less than that of any legal
/// move among them.
pub proof fn lemma_best_covers(pos: Position, side: Side, depth: nat, n: int, from: int, to: int)
    requires
        depth > 0,
        pos.legal(side, from, to),
        64 * from + to < n,
    ensures
        best_below(pos, side, depth, n) >= pos.move_value(side, from, to, (depth - 1) as nat),
    decreases n,
{
    if n - 1 == 64 * from + to {
        assert((n - 1) / 64 == from && (n - 1) % 64 == to);
    } else {
        lemma_best_covers(pos, side, depth, n - 1, from, to);
    }
}

/// The best value among the first `n` moves is that of a legal move among
/// them, unless there is none.
pub proof fn lemma_best_is_some_move(pos: Position, side: Side, depth: nat, n: int) -> (k: int)
    requires
        depth > 0,
        0 <= n,
        best_below(pos, side, depth, n) != -LIMIT,
    ensures
        0 <= k < n,
        pos.legal(side, k / 64, k % 64),
        best_below(pos, side, depth, n) == pos.move_value(
            side,
            k / 64,
            k % 64,
            (depth - 1) as nat,
        ),
    decreases n,
{
    let rest = best_below(pos, side, depth, n - 1);
    if pos.legal(side, (n - 1) / 64, (n - 1) % 64) && best_below(pos, side, depth, n)
        == pos.move_value(side, (n - 1) / 64, (n - 1) % 64, (depth - 1) as nat) {
        n - 1
    } else {
        lemma_best_is_some_move(pos, side, depth, n - 1)
    }
}

/// The move to choose is worth what the position is worth: where a side can
/// move and the search goes at least one ply deep, the value of the position
/// is the value of its best move.
pub proof fn lemma_best_move_is_worth_the_position(
    pos: Position,
    side: Side,
    depth: nat,
    from: int,
    to: int,
)
    requires
        depth > 0,
        pos.is_best(side, (depth - 1) as nat, from, to),
    ensures
        negamax(pos, side, depth) == pos.move_value(side, from, to, (depth - 1) as nat),
{
    assert(pos.can_move(side));
    lemma_best_covers(pos, side, depth, 4096, from, to);
    lemma_negamax_bounds(pos.after_move(from, to), side.opposite(), (depth - 1) as nat);
    let k = lemma_best_is_some_move(pos, side, depth, 4096);
    assert(pos.legal(side, k / 64, k % 64));
}

/// The best value among the first `n` moves grows with `n`.
pub proof fn lemma_best_grows(pos: Position, side: Side, depth: nat, n: int, m: int)
    requires
        n <= m,
    ensures
        best_below(pos, side, depth, n) <= best_below(pos, side, depth, m),
    decreases m - n,
{
    if n < m {
        lemma_best_grows(pos, side, depth, n, m - 1);
        if m <= 0 || depth == 0 {
        } else {
        }
    }
}

/// Whether the table of legal moves `mvs` holds the move from `k / 64` to
/// `k % 64`.
fn listed(mvs: &HashMap<u8, u64>, k: u16) -> (r: bool)
    requires
        k < 4096,
    ensures
        r == (mvs@.contains_key((k / 64) as u8) && holds(mvs@[(k / 64) as u8], (k % 64) as int)),
{
    broadcast use vstd::std_specs::hash::group_hash_axioms;

    let from = (k / 64) as u8;
    let to = (k % 64) as u8;
    match mvs.get(&from) {
        Some(m) => test_bit(*m, to),
        None => false,
    }
}

/// Searches the position `depth` plies deep for the side `turn` within the
/// bounds `alpha` and `beta`, and returns its value if that lies between the
/// bounds, and else a bound on it: a score of `alpha` or less that the value
/// does not exceed, or one of `beta` or more that the value reaches. Bounds
/// beyond `-LIMIT` and `LIMIT` count as those, and between bounds that no
/// score reaches it returns the value.
pub fn compute_best_move(board: BoardB, depth: usize, turn: Side, alpha: i32, beta: i32) -> (score:
    i32)
    requires
        board.wf(),
        alpha < beta,
    ensures
        within(score as int, negamax(board@, turn, depth as nat), alpha as int, beta as int),
        -MATE <= score <= MATE,
        alpha <= -LIMIT && beta >= LIMIT ==> score == negamax(board@, turn, depth as nat),
    decreases depth,
{
    broadcast use vstd::std_specs::hash::group_hash_axioms;

    let low: i32 = if alpha < -LIMIT {
        -LIMIT
    } else if alpha > MATE {
        MATE
    } else {
        alpha
    };
    let high: i32 = if beta > LIMIT {
        LIMIT
    } else if beta < -MATE {
        -MATE
    } else {
        beta
    };
    proof {
        lemma_negamax_bounds(board@, turn, depth as nat);
    }

    let mut mvs: HashMap<u8, u64> = HashMap::with_capacity(16);
    board.valid_moves(turn, &mut mvs);
    proof {
        board@.lemma_empty_move_set(turn, mvs@);
    }
    if mvs.is_empty() {
        let threat = board.valid_moves_as_array(turn.not(), false, true);
        proof {
            board@.lemma_attack_in_array(turn.opposite(), threat@, board@.king(turn) as int);
        }
        return if board.is_check(&threat, turn) {
            -MATE
        } else {
            0
        };
    }
    if depth == 0 {
        return board.evaluate(turn);
    }
    let ghost pos = board@;
    let ghost d = depth as nat;
    let mut best: i32 = -LIMIT;
    let mut a: i32 = low;
    let mut k: u16 = 0;
    while k < 4096
        invariant
            k <= 4096,
            board.wf(),
            pos == board@,
            d == depth as nat,
            depth > 0,
            pos.is_move_set(turn, mvs@),
            pos.can_move(turn),
            alpha < beta,
            alpha < -LIMIT ==> low == -LIMIT,
            alpha > MATE ==> low == MATE,
            -LIMIT <= alpha <= MATE ==> low == alpha,
            beta > LIMIT ==> high == LIMIT,
            beta < -MATE ==> high == -MATE,
            -MATE <= beta <= LIMIT ==> high == beta,
            -MATE <= negamax(pos, turn, d) <= MATE,
            -LIMIT <= low < high <= LIMIT,
            a == max(low as int, best as int),
            best < high,
            best == -LIMIT || -MATE <= best <= MATE,
            best_below(pos, turn, d, k as int) <= best,
            best > low ==> best == best_below(pos, turn, d, k as int),
        decreases 4096 - k,
    {
        let from = (k / 64) as u8;
        let to = (k % 64) as u8;
        proof {
            assert(mvs@.contains_key(from) && holds(mvs@[from], to as int) <==> pos.legal(
                turn,
                from as int,
                to as int,
            ));
        }
        if listed(&mvs, k) {
            let mut b = board;
            b.make_move(from, to);
            let reply = compute_best_move(b, depth - 1, turn.not(), -high, -a);
            let eval = -reply;
            if eval > best {
                best = eval;
            }
            if eval > a {
                a = eval;
            }
            if high <= a {
                proof {
                    lemma_best_grows(pos, turn, d, k + 1, 4096);
                }
                return best;
            }
        }
        k += 1;
    }
    proof {
        let (from, to) = choose|from: int, to: int| #[trigger] pos.legal(turn, from, to);
        lemma_best_covers(pos, turn, d, 4096, from, to);
        lemma_negamax_bounds(pos.after_move(from, to), turn.opposite(), (d - 1) as nat);
    }
    best
}

/// What the move from `from` to `to` is worth to `turn`, the position after
/// it being searched `depth` plies deep.
pub fn score_move(board: &BoardB, from: u8, to: u8, depth: usize, turn: Side) -> (score: i32)
    requires
        board.wf(),
        from < 64,
        to < 64,
        board@.sq(from as int) is Some,
    ensures
        score == board@.move_value(turn, from as int, to as int, depth as nat),
        -MATE <= score <= MATE,
{
    let mut b = *board;
    b.make_move(from, to);
    -compute_best_move(b, depth, turn.not(), -LIMIT, LIMIT)
}

/// The moves of a table, ordered by the square they leave and then by the
/// square they reach.
pub fn move_list(mvs: &HashMap<u8, u64>) -> (v: Vec<(u8, u8)>)
    ensures
        forall|i: int|
            0 <= i < v@.len() ==> {
                &&& (#[trigger] v@[i]).0 < 64
                &&& v@[i].1 < 64
                &&& mvs@.contains_key(v@[i].0)
                &&& holds(mvs@[v@[i].0], v@[i].1 as int)
            },
        forall|f: u8, t: int|
            f < 64 && mvs@.contains_key(f) && #[trigger] holds(mvs@[f], t) ==> exists|i: int|
                0 <= i < v@.len() && v@[i] == (f, t as u8),
        forall|i: int, j: int|
            0 <= i < j < v@.len() ==> 64 * v@[i].0 + v@[i].1 < 64 * v@[j].0 + v@[j].1,
{
    let mut v: Vec<(u8, u8)> = Vec::new();
    let mut k: u16 = 0;
    while k < 4096
        invariant
            k <= 4096,
            forall|i: int|
                0 <= i < v@.len() ==> {
                    &&& (#[trigger] v@[i]).0 < 64
                    &&& v@[i].1 < 64
                    &&& mvs@.contains_key(v@[i].0)
                    &&& holds(mvs@[v@[i].0], v@[i].1 as int)
                    &&& 64 * v@[i].0 + v@[i].1 < k
                },
            forall|f: u8, t: int|
                f < 64 && 64 * f + t < k && mvs@.contains_key(f) && #[trigger] holds(mvs@[f], t)
                    ==> exists|i: int| 0 <= i < v@.len() && v@[i] == (f, t as u8),
            forall|i: int, j: int|
                0 <= i < j < v@.len() ==> 64 * v@[i].0 + v@[i].1 < 64 * v@[j].0 + v@[j].1,
        decreases 4096 - k,
    {
        if listed(mvs, k) {
            let ghost before = v@;
            v.push(((k / 64) as u8, (k % 64) as u8));
            proof {
                assert forall|f: u8, t: int|
                    f < 64 && 64 * f + t < k + 1 && mvs@.contains_key(f) && #[trigger] holds(
                        mvs@[f],
                        t,
                    ) implies exists|i: int| 0 <= i < v@.len() && v@[i] == (f, t as u8) by {
                    if 64 * f + t < k {
                        let i = choose|i: int| 0 <= i < before.len() && before[i] == (f, t as u8);
                        assert(v@[i] == (f, t as u8));
                    } else {
                        assert(v@[before.len() as int] == (f, t as u8));
                    }
                }
            }
        }
        k += 1;
    }
    v
}

/// The better of the best move found so far and a further move with its
/// score: the further one if it is the first or scores strictly higher.
pub fn keep_best(best: Option<((u8, u8), i32)>, mv: (u8, u8), eval: i32) -> (r: Option<
    ((u8, u8), i32),
>)
    ensures
        r == (match best {
            Some((_, score)) if score >= eval => best,
            _ => Some((mv, eval)),
        }),
{
    match best {
        Some((_, score)) => {
            if score >= eval {
                best
            } else {
                Some((mv, eval))
            }
        },
        None => Some((mv, eval)),
    }
}

/// The move of a choice; square 0 to square 0 where nothing is chosen.
pub open spec fn chosen(best: Option<((u8, u8), i32)>) -> (u8, u8) {
    match best {
        Some((mv, _)) => mv,
        None => (0, 0),
    }
}

/// The score of a choice; 0 where nothing is chosen.
pub open spec fn chosen_score(best: Option<((u8, u8), i32)>) -> int {
    match best {
        Some((_, score)) => score as int,
        None => 0,
    }
}

/// The best move for `turn` and its score, or nothing where `turn` has no
/// legal move.
///
/// Each legal move is scored by searching the position after it `depth - 1`
/// plies deep (0 plies for a depth of 0). The move returned is legal, no legal
/// move scores higher, and every legal move before it in the order of
/// `move_list` scores strictly lower.
pub fn best_move(board: &BoardB, depth: usize, turn: Side) -> (r: Option<((u8, u8), i32)>)
    requires
        board.wf(),
    ensures
        match r {
            None => !board@.can_move(turn),
            Some(((from, to), score)) => {
                &&& board@.is_best(turn, plies_below(depth), from as int, to as int)
                &&& score == board@.move_value(
                    turn,
                    from as int,
                    to as int,
                    plies_below(depth),
                )
            },
        },
{
    let mut mvs: HashMap<u8, u64> = HashMap::with_capacity(16);
    board.valid_moves(turn, &mut mvs);
    let list = move_list(&mvs);
    let plies = if depth == 0 {
        0
    } else {
        depth - 1
    };
    let mut best: Option<((u8, u8), i32)> = None;
    let ghost mut at: int = 0;
    let mut i: usize = 0;
    while i < list.len()
        invariant
            i <= list@.len(),
            board.wf(),
            board@.is_move_set(turn, mvs@),
            forall|j: int|
                0 <= j < list@.len() ==> {
                    &&& (#[trigger] list@[j]).0 < 64
                    &&& list@[j].1 < 64
                    &&& mvs@.contains_key(list@[j].0)
                    &&& holds(mvs@[list@[j].0], list@[j].1 as int)
                },
            best is None <==> i == 0,
            best is Some ==> {
                &&& 0 <= at < i
                &&& chosen(best) == list@[at]
                &&& chosen_score(best) == board@.move_value(
                    turn,
                    list@[at].0 as int,
                    list@[at].1 as int,
                    plies as nat,
                )
                &&& forall|j: int|
                    0 <= j < i ==> {
                        &&& board@.move_value(
                            turn,
                            (#[trigger] list@[j]).0 as int,
                            list@[j].1 as int,
                            plies as nat,
                        ) <= chosen_score(best)
                        &&& j < at ==> board@.move_value(
                            turn,
                            list@[j].0 as int,
                            list@[j].1 as int,
                            plies as nat,
                        ) < chosen_score(best)
                    }
            },
        decreases list@.len() - i,
    {
        let mv = list[i];
        assert(board@.legal(turn, mv.0 as int, mv.1 as int));
        let eval = score_move(board, mv.0, mv.1, plies, turn);
        let next = keep_best(best, mv, eval);
        proof {
            if best is None || chosen_score(best) < eval {
                at = i as int;
            }
        }
        best = next;
        i += 1;
    }
    proof {
        match best {
            None => {
                if board@.can_move(turn) {
                    let (f, t) = choose|f: int, t: int| #[trigger] board@.legal(turn, f, t);
                    assert(mvs@.contains_key(f as u8));
                    assert(holds(mvs@[f as u8], t));
                }
            },
            Some(((from, to), score)) => {
                assert(board@.legal(turn, from as int, to as int));
                assert forall|f: int, t: int| #[trigger] board@.legal(turn, f, t) implies {
                    &&& board@.move_value(turn, f, t, plies as nat) <= score
                    &&& 64 * f + t < 64 * from + to ==> board@.move_value(
                        turn,
                        f,
                        t,
                        plies as nat,
                    ) < score
                } by {
                    assert(mvs@.contains_key(f as u8));
                    assert(holds(mvs@[f as u8], t));
                    let j = choose|j: int| 0 <= j < list@.len() && list@[j] == (f as u8, t as u8);
                    assert(list@[j].0 == f && list@[j].1 == t);
                }
            },
        }
    }
    best
}

} // verus!
