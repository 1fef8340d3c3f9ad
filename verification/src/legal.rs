//! Castling, threats and check, and the legal moves of a side: the moves that
//! do not leave the mover's own king in check.

use std::collections::HashMap;
use std::ops::Not;
use vstd::prelude::*;
use crate::bits::{
    count_bits, holds, lemma_count_bits, lemma_empty, lemma_nonzero, test_bit, with_bit,
    without_bit,
};
use crate::boardb::{home_rank, square, BoardB, Pos, PosTrait, Position};
use crate::pieces::{PieceType, Side};

verus! {

impl Position {
    /// Square `j` holds a piece of `side`.
    pub open spec fn side_at(self, side: Side, j: int) -> bool {
        self.sq(j) is Some && self.sq(j)->0.side == side
    }

    /// Some piece of `by` has square `t` among its destinations, castling
    /// aside.
    pub open spec fn threat(self, by: Side, t: int) -> bool {
        exists|j: int| 0 <= j < 64 && self.side_at(by, j) && #[trigger] self.basic_move(j, t)
    }

    /// `side` may castle on the queen's side: it holds the right, the three
    /// squares between king and rook are empty, and no piece of the other side
    /// has the king's square or one of the two it crosses among its
    /// destinations.
    pub open spec fn castle_long(self, side: Side) -> bool {
        let row = home_rank(side);
        &&& self.castle(side).long
        &&& self.at(1, row) is None
        &&& self.at(2, row) is None
        &&& self.at(3, row) is None
        &&& !self.threat(side.opposite(), square(2, row))
        &&& !self.threat(side.opposite(), square(3, row))
        &&& !self.threat(side.opposite(), square(4, row))
    }

    /// `side` may castle on the king's side: it holds the right, the two
    /// squares between king and rook are empty, and no piece of the other side
    /// has the king's square or one of the two it crosses among its
    /// destinations.
    pub open spec fn castle_short(self, side: Side) -> bool {
        let row = home_rank(side);
        &&& self.castle(side).short
        &&& self.at(5, row) is None
        &&& self.at(6, row) is None
        &&& !self.threat(side.opposite(), square(4, row))
        &&& !self.threat(side.opposite(), square(5, row))
        &&& !self.threat(side.opposite(), square(6, row))
    }

    /// Square `to` is one that the king of `side` reaches by castling.
    pub open spec fn castle_move(self, side: Side, to: int) -> bool {
        let row = home_rank(side);
        (to == square(2, row) && self.castle_long(side)) || (to == square(6, row)
            && self.castle_short(side))
    }

    /// The piece on square `from` may move to square `to`, whether or not its
    /// own king is then in check. With `from_castling_check` a king's castling
    /// steps are left out.
    pub open spec fn pseudo_legal(self, from: int, to: int, from_castling_check: bool) -> bool {
        ||| self.basic_move(from, to)
        ||| {
            &&& !from_castling_check
            &&& 0 <= from < 64
            &&& 0 <= to < 64
            &&& self.sq(from) is Some
            &&& self.sq(from)->0.ty == PieceType::King
            &&& self.castle_move(self.sq(from)->0.side, to)
        }
    }

    /// Some piece of `by` may move to square `t`.
    pub open spec fn attacked(self, by: Side, t: int) -> bool {
        exists|j: int|
            0 <= j < 64 && self.side_at(by, j) && #[trigger] self.pseudo_legal(j, t, false)
    }

    /// The cached king square of `side` is attacked by the other side.
    pub open spec fn in_check(self, side: Side) -> bool {
        self.attacked(side.opposite(), self.king(side) as int)
    }

    /// `side` is in check once the piece on `from` has moved to `to`.
    pub open spec fn in_check_after(self, from: int, to: int, side: Side) -> bool {
        self.after_move(from, to).in_check(side)
    }

    /// The move from `from` to `to` is legal for `side`: it moves a piece of
    /// that side as the piece moves, and does not leave the side in check.
    pub open spec fn legal(self, side: Side, from: int, to: int) -> bool {
        &&& 0 <= from < 64
        &&& 0 <= to < 64
        &&& self.side_at(side, from)
        &&& self.pseudo_legal(from, to, false)
        &&& !self.in_check_after(from, to, side)
    }

    /// `side` has at least one legal move.
    pub open spec fn can_move(self, side: Side) -> bool {
        exists|from: int, to: int| #[trigger] self.legal(side, from, to)
    }

    /// The move from square `k / 64` to square `k % 64` is one that a piece of
    /// `side` may make, and with `legal_only` one that does not leave `side` in
    /// check.
    pub open spec fn counted(self, side: Side, k: int, legal_only: bool) -> bool {
        &&& self.side_at(side, k / 64)
        &&& self.pseudo_legal(k / 64, k % 64, false)
        &&& !legal_only || !self.in_check_after(k / 64, k % 64, side)
    }

    /// How many of the moves numbered below `n` are counted.
    pub open spec fn count_moves(self, side: Side, legal_only: bool, n: int) -> nat
        decreases n,
    {
        if n <= 0 {
            0
        } else {
            self.count_moves(side, legal_only, n - 1) + if self.counted(side, n - 1, legal_only) {
                1nat
            } else {
                0nat
            }
        }
    }

    /// `m` is the table of `side`'s legal moves: it has an entry for each
    /// square from which `side` has a legal move, and the entry holds the
    /// destinations of the legal moves from there.
    pub open spec fn is_move_set(self, side: Side, m: Map<u8, u64>) -> bool {
        &&& forall|f: u8| #[trigger]
            m.contains_key(f) <==> exists|t: int| #[trigger] self.legal(side, f as int, t)
        &&& forall|f: u8, t: int|
            m.contains_key(f) && 0 <= t < 64 ==> (#[trigger] holds(m[f], t) <==> self.legal(
                side,
                f as int,
                t,
            ))
    }

    /// The number of squares below `n` that hold a piece of `side`.
    pub open spec fn side_count(self, side: Side, n: int) -> nat
        decreases n,
    {
        if n <= 0 {
            0
        } else {
            self.side_count(side, n - 1) + if self.side_at(side, n - 1) {
                1nat
            } else {
                0nat
            }
        }
    }

    /// The move from `j` to `t` belongs in a table of moves that is filtered
    /// as the two flags say: the piece on `j` may move to `t`, castling aside
    /// with `from_castling_check`, and unless `from_check_test` is set the
    /// move does not leave `side` in check.
    pub open spec fn tabled(
        self,
        side: Side,
        j: int,
        t: int,
        from_castling_check: bool,
        from_check_test: bool,
    ) -> bool {
        &&& self.pseudo_legal(j, t, from_castling_check)
        &&& from_check_test || !self.in_check_after(j, t, side)
    }

    /// The masks in `mvs` are those of the pieces of `side` in the order of
    /// their squares: the destinations of the piece on square `j`, filtered as
    /// the two flags say, are the entry whose index is the number of pieces of
    /// `side` on the squares before `j`, and every entry from the number of
    /// `side`'s pieces on is the empty set.
    pub open spec fn is_move_array(
        self,
        side: Side,
        from_castling_check: bool,
        from_check_test: bool,
        mvs: Seq<u64>,
    ) -> bool {
        &&& mvs.len() == 64
        &&& forall|j: int, t: int|
            0 <= j < 64 && 0 <= t < 64 && self.side_at(side, j) ==> (#[trigger] holds(
                mvs[self.side_count(side, j) as int],
                t,
            ) <==> self.tabled(side, j, t, from_castling_check, from_check_test))
        &&& forall|k: int| self.side_count(side, 64) <= k < 64 ==> #[trigger] mvs[k] == 0
    }

    /// There are no more pieces of a side below a square than squares.
    pub proof fn lemma_side_count_bound(self, side: Side, n: int)
        requires
            0 <= n,
        ensures
            self.side_count(side, n) <= n,
        decreases n,
    {
        if n > 0 {
            self.lemma_side_count_bound(side, n - 1);
        }
    }

    /// A side has no more pieces below `a` than below a later `b`, and fewer
    /// if it has one on `a`.
    pub proof fn lemma_side_count_grows(self, side: Side, a: int, b: int)
        requires
            a <= b,
        ensures
            self.side_count(side, a) <= self.side_count(side, b),
            a < b && self.side_at(side, a) ==> self.side_count(side, a) < self.side_count(side, b),
        decreases b - a,
    {
        if a < b {
            self.lemma_side_count_grows(side, a, b - 1);
        }
    }

    /// The square of the piece of `side` that has `k` pieces of `side` before
    /// it, where `side` has more than `k` pieces below `n`.
    pub proof fn lemma_nth_piece(self, side: Side, k: int, n: int) -> (j: int)
        requires
            0 <= k < self.side_count(side, n),
        ensures
            0 <= j < n,
            self.side_at(side, j),
            self.side_count(side, j) == k,
        decreases n,
    {
        if self.side_at(side, n - 1) && self.side_count(side, n - 1) == k {
            n - 1
        } else {
            self.lemma_nth_piece(side, k, n - 1)
        }
    }
}

/// Some mask of `mvs` holds square `pos`.
pub open spec fn any_holds(mvs: Seq<u64>, pos: int) -> bool {
    exists|j: int| 0 <= j < mvs.len() && #[trigger] holds(mvs[j], pos)
}

impl BoardB {
    /// The squares that hold a piece of `side`, in ascending order.
    pub fn pieces_indexes_of_side(&self, side: Side) -> (v: Vec<u8>)
        ensures
            v@.len() == self@.side_count(side, 64),
            forall|k: int|
                0 <= k < v@.len() ==> {
                    &&& (#[trigger] v@[k]) < 64
                    &&& self@.side_at(side, v@[k] as int)
                    &&& self@.side_count(side, v@[k] as int) == k
                },
            forall|j: int|
                0 <= j < 64 && self@.side_at(side, j) ==> exists|k: int|
                    0 <= k < v@.len() && v@[k] == j,
            forall|a: int, b: int| 0 <= a < b < v@.len() ==> v@[a] < v@[b],
    {
        let mut v: Vec<u8> = Vec::new();
        let mut i: u8 = 0;
        while i < 64
            invariant
                i <= 64,
                v@.len() == self@.side_count(side, i as int),
                forall|k: int|
                    0 <= k < v@.len() ==> {
                        &&& (#[trigger] v@[k]) < i
                        &&& self@.side_at(side, v@[k] as int)
                        &&& self@.side_count(side, v@[k] as int) == k
                    },
                forall|j: int|
                    0 <= j < i && self@.side_at(side, j) ==> exists|k: int|
                        0 <= k < v@.len() && v@[k] == j,
                forall|a: int, b: int| 0 <= a < b < v@.len() ==> v@[a] < v@[b],
            decreases 64 - i,
        {
            let here = match self.board[i as usize] {
                Some(p) => p.side == side,
                None => false,
            };
            if here {
                let ghost old_v = v@;
                v.push(i);
                proof {
                    assert forall|j: int| 0 <= j < i + 1 && self@.side_at(side, j) implies exists|
                        k: int,
                    |
                        0 <= k < v@.len() && v@[k] == j by {
                        if j < i {
                            let k = choose|k: int| 0 <= k < old_v.len() && old_v[k] == j;
                            assert(v@[k] == j);
                        } else {
                            assert(v@[old_v.len() as int] == j);
                        }
                    }
                }
            }
            i += 1;
        }
        v
    }

    /// The number of pieces of `side` on the squares before square `i`: the
    /// index of the piece on `i` in a table of that side's moves.
    pub fn pieces_before(&self, side: Side, i: u8) -> (k: u8)
        requires
            i <= 64,
        ensures
            k == self@.side_count(side, i as int),
            k <= i,
    {
        let mut k: u8 = 0;
        let mut j: u8 = 0;
        while j < i
            invariant
                j <= i <= 64,
                k == self@.side_count(side, j as int),
                k <= j,
            decreases i - j,
        {
            let here = match self.board[j as usize] {
                Some(p) => p.side == side,
                None => false,
            };
            if here {
                k = k + 1;
            }
            j += 1;
        }
        k
    }

    /// Whether some mask of `mvs_for_piece` holds square `pos`.
    pub fn threathens(&self, pos: u8, mvs_for_piece: &[u64; 64]) -> (r: bool)
        requires
            pos < 64,
        ensures
            r == any_holds(mvs_for_piece@, pos as int),
    {
        let mut j: usize = 0;
        while j < 64
            invariant
                j <= 64,
                pos < 64,
                forall|k: int| 0 <= k < j ==> !holds(#[trigger] mvs_for_piece@[k], pos as int),
            decreases 64 - j,
        {
            if test_bit(mvs_for_piece[j], pos) {
                return true;
            }
            j += 1;
        }
        false
    }

    /// Whether some mask of `mvs_for_piece` holds the square of `side`'s king.
    pub fn is_check(&self, mvs_for_piece: &[u64; 64], side: Side) -> (r: bool)
        requires
            self.wf(),
        ensures
            r == any_holds(mvs_for_piece@, self@.king(side) as int),
    {
        self.threathens(self.find_king(side), mvs_for_piece)
    }

    /// Whether some entry of `mvs_for_piece` holds the square of `side`'s
    /// king.
    pub fn is_check_from_hm(&self, mvs_for_piece: &HashMap<u8, u64>, side: Side) -> (r: bool)
        requires
            self.wf(),
        ensures
            r == exists|f: u8| #[trigger]
                mvs_for_piece@.contains_key(f) && holds(
                    mvs_for_piece@[f],
                    self@.king(side) as int,
                ),
    {
        broadcast use vstd::std_specs::hash::group_hash_axioms;

        let king = self.find_king(side);
        let mut f: u8 = 0;
        loop
            invariant
                king == self@.king(side),
                king < 64,
                forall|g: u8|
                    g < f && #[trigger] mvs_for_piece@.contains_key(g) ==> !holds(
                        mvs_for_piece@[g],
                        king as int,
                    ),
            decreases 255 - f,
        {
            if let Some(piece_mvs) = mvs_for_piece.get(&f) {
                if test_bit(*piece_mvs, king) {
                    return true;
                }
            }
            if f == 255 {
                return false;
            }
            f += 1;
        }
    }

    /// Adds to `mask` the squares that the king of `side` reaches by castling,
    /// given in `mvs` the destinations of the other side's pieces, castling
    /// aside.
    fn castle_moves(&self, side: Side, mvs: &[u64; 64], mask: u64) -> (r: u64)
        requires
            self@.is_move_array(side.opposite(), true, true, mvs@),
        ensures
            forall|t: int|
                0 <= t < 64 ==> (holds(r, t) <==> holds(mask, t) || self@.castle_move(side, t)),
    {
        let (y, castle) = match side {
            Side::Black => (7i8, self.black_castle),
            Side::White => (0i8, self.white_castle),
        };
        let mut r = mask;
        proof {
            assert forall|x: int|
                0 <= x < 8 implies (any_holds(mvs@, square(x, y as int)) <==> self@.threat(
                side.opposite(),
                square(x, y as int),
            )) by {
                self@.lemma_threat_in_array(side.opposite(), mvs@, square(x, y as int));
            }
        }
        if castle.long && !self.space_occupied(Pos::new(1, y), Pos::new(3, y)) && !self.threathens(
            Pos::new(2, y).to_i(),
            mvs,
        ) && !self.threathens(Pos::new(3, y).to_i(), mvs) && !self.threathens(
            Pos::new(4, y).to_i(),
            mvs,
        ) {
            assert(self@.at(1, y as int) is None);
            assert(self@.at(2, y as int) is None);
            assert(self@.at(3, y as int) is None);
            r = with_bit(r, Pos::new(2, y).to_i());
        }
        if castle.short && !self.space_occupied(Pos::new(5, y), Pos::new(6, y))
            && !self.threathens(Pos::new(4, y).to_i(), mvs) && !self.threathens(
            Pos::new(5, y).to_i(),
            mvs,
        ) && !self.threathens(Pos::new(6, y).to_i(), mvs) {
            assert(self@.at(5, y as int) is None);
            assert(self@.at(6, y as int) is None);
            r = with_bit(r, Pos::new(6, y).to_i());
        }
        r
    }

    /// The destinations of the piece on square `i`, whether or not a move
    /// there leaves its own king in check.
    ///
    /// A rook, bishop or queen slides along its lines up to the first piece,
    /// which it takes if it is the other side's. A knight and a king step to
    /// their fixed offsets. A pawn advances one square onto an empty square,
    /// two from its starting rank if both are empty, takes diagonally forward
    /// what the other side holds there, and takes the en-passant target beside
    /// it by moving behind it. Unless `from_castling_check` is set, a king also
    /// has its castling steps.
    pub fn valid_moves_for_piece(&self, i: u8, from_castling_check: bool) -> (r: u64)
        requires
            self.wf(),
            i < 64,
            self@.sq(i as int) is Some,
        ensures
            forall|t: int|
                0 <= t < 64 ==> (holds(r, t) <==> self@.pseudo_legal(
                    i as int,
                    t,
                    from_castling_check,
                )),
        decreases
                (if from_castling_check {
                    0int
                } else {
                    2int
                }),
    {
        let piece = self.board[i as usize].unwrap();
        let mut r = self.basic_moves(i);
        if piece.ty == PieceType::King && !from_castling_check {
            let mvs = self.valid_moves_as_array(piece.side.not(), true, true);
            r = self.castle_moves(piece.side, &mvs, r);
        }
        r
    }

    /// Takes out of `mask` the destinations of the piece on `i` that leave
    /// `side` in check, and counts the destinations before and after.
    fn drop_checks(&self, i: u8, side: Side, mask: u64) -> (r: (u64, u8, u8))
        requires
            self.wf(),
            i < 64,
            self@.sq(i as int) is Some,
        ensures
            forall|t: int|
                0 <= t < 64 ==> (#[trigger] holds(r.0, t) <==> holds(mask, t)
                    && !self@.in_check_after(i as int, t, side)),
            r.1 == count_bits(mask, 64),
            r.2 == count_bits(r.0, 64),
        decreases 5int,
    {
        let mut r = mask;
        let mut found: u8 = 0;
        let mut kept: u8 = 0;
        let mut to: u8 = 0;
        while to < 64
            invariant
                to <= 64,
                self.wf(),
                i < 64,
                self@.sq(i as int) is Some,
                forall|t: int|
                    0 <= t < to ==> (holds(r, t) <==> holds(mask, t) && !self@.in_check_after(
                        i as int,
                        t,
                        side,
                    )),
                forall|t: int| to <= t < 64 ==> (holds(r, t) <==> holds(mask, t)),
                found == count_bits(mask, to as int),
                kept == count_bits(r, to as int),
                found <= to,
                kept <= to,
            decreases 64 - to,
        {
            let ghost before = r;
            if test_bit(r, to) {
                found = found + 1;
                if self.is_check_after(i, to, side) {
                    r = without_bit(r, to);
                } else {
                    kept = kept + 1;
                }
            }
            proof {
                lemma_count_bits(before, r, to as int);
            }
            to += 1;
        }
        (r, found, kept)
    }

    /// The destinations of the pieces of `side`, piece by piece in the order
    /// of their squares from the first entry on, and the empty set in every
    /// entry behind them. With `from_castling_check` castling steps are left
    /// out; unless `from_check_test` is set, so are the moves that leave
    /// `side` in check.
    pub fn valid_moves_as_array(
        &self,
        side: Side,
        from_castling_check: bool,
        from_check_test: bool,
    ) -> (mvs: [u64; 64])
        requires
            self.wf(),
        ensures
            self@.is_move_array(side, from_castling_check, from_check_test, mvs@),
        decreases
                (if !from_check_test {
                    6int
                } else if from_castling_check {
                    1int
                } else {
                    3int
                }),
    {
        let mut mvs: [u64; 64] = [0u64; 64];
        let pieces = self.pieces_indexes_of_side(side);
        let mut n: usize = 0;
        proof {
            self@.lemma_side_count_bound(side, 64);
        }
        while n < pieces.len()
            invariant
                n <= pieces@.len() <= 64,
                self.wf(),
                pieces@.len() == self@.side_count(side, 64),
                forall|k: int|
                    0 <= k < pieces@.len() ==> {
                        &&& (#[trigger] pieces@[k]) < 64
                        &&& self@.side_at(side, pieces@[k] as int)
                        &&& self@.side_count(side, pieces@[k] as int) == k
                    },
                forall|k: int, t: int|
                    0 <= k < n && 0 <= t < 64 ==> (#[trigger] holds(mvs@[k], t) <==> self@.tabled(
                        side,
                        pieces@[k] as int,
                        t,
                        from_castling_check,
                        from_check_test,
                    )),
                forall|k: int| n <= k < 64 ==> #[trigger] mvs@[k] == 0,
            decreases pieces@.len() - n,
        {
            let i = pieces[n];
            let mut mv_map = self.valid_moves_for_piece(i, from_castling_check);
            if !from_check_test {
                mv_map = self.drop_checks(i, side, mv_map).0;
            }
            let ghost before = mvs@;
            mvs[n] = mv_map;
            proof {
                assert forall|k: int, t: int| 0 <= k < n + 1 && 0 <= t < 64 implies (
                #[trigger] holds(mvs@[k], t) <==> self@.tabled(
                    side,
                    pieces@[k] as int,
                    t,
                    from_castling_check,
                    from_check_test,
                )) by {
                    if k < n {
                        assert(mvs@[k] == before[k]);
                        assert(holds(before[k], t) <==> self@.tabled(
                            side,
                            pieces@[k] as int,
                            t,
                            from_castling_check,
                            from_check_test,
                        ));
                    }
                }
                assert forall|k: int| n + 1 <= k < 64 implies #[trigger] mvs@[k] == 0 by {
                    assert(mvs@[k] == before[k]);
                }
            }
            n += 1;
        }
        proof {
            assert forall|j: int, t: int|
                0 <= j < 64 && 0 <= t < 64 && self@.side_at(side, j) implies (#[trigger] holds(
                mvs@[self@.side_count(side, j) as int],
                t,
            ) <==> self@.tabled(side, j, t, from_castling_check, from_check_test)) by {
                let k = choose|k: int| 0 <= k < pieces@.len() && pieces@[k] == j;
                assert(self@.side_count(side, pieces@[k] as int) == k);
                assert(holds(mvs@[k], t) <==> self@.tabled(
                    side,
                    pieces@[k] as int,
                    t,
                    from_castling_check,
                    from_check_test,
                ));
            }
        }
        mvs
    }

    /// Whether `side` is in check once the piece on `from` has moved to `to`.
    pub fn is_check_after(&self, from: u8, to: u8, side: Side) -> (r: bool)
        requires
            self.wf(),
            from < 64,
            to < 64,
            self@.sq(from as int) is Some,
        ensures
            r == self@.in_check_after(from as int, to as int, side),
        decreases 4int,
    {
        let mut board = *self;
        board.make_move(from, to);
        let mvs = board.valid_moves_as_array(side.not(), false, true);
        proof {
            board@.lemma_attack_in_array(side.opposite(), mvs@, board@.king(side) as int);
        }
        board.is_check(&mvs, side)
    }

    /// Fills `mvs` with the legal moves of `side`: an entry for each square
    /// from which `side` has a legal move, holding the destinations of the
    /// legal moves from there. Returns how many moves the pieces of `side`
    /// have before those that leave `side` in check are taken out, and how
    /// many after.
    pub fn valid_moves(&self, side: Side, mvs: &mut HashMap<u8, u64>) -> (counts: (u32, u32))
        requires
            self.wf(),
        ensures
            self@.is_move_set(side, final(mvs)@),
            counts.0 == self@.count_moves(side, false, 4096),
            counts.1 == self@.count_moves(side, true, 4096),
    {
        broadcast use vstd::std_specs::hash::group_hash_axioms;

        mvs.clear();
        let mut total_pre: u32 = 0;
        let mut total_post: u32 = 0;
        let mut i: u8 = 0;
        while i < 64
            invariant
                i <= 64,
                self.wf(),
                forall|f: u8| #[trigger]
                    mvs@.contains_key(f) <==> f < i && exists|t: int| #[trigger]
                        self@.legal(side, f as int, t),
                forall|f: u8, t: int|
                    mvs@.contains_key(f) && 0 <= t < 64 ==> (#[trigger] holds(mvs@[f], t)
                        <==> self@.legal(side, f as int, t)),
                total_pre == self@.count_moves(side, false, 64 * i),
                total_post == self@.count_moves(side, true, 64 * i),
                total_pre <= 64 * i,
                total_post <= 64 * i,
            decreases 64 - i,
        {
            let here = match self.board[i as usize] {
                Some(p) => p.side == side,
                None => false,
            };
            if here {
                let all = self.valid_moves_for_piece(i, false);
                let (mv_map, found, kept) = self.drop_checks(i, side, all);
                if mv_map != 0 {
                    mvs.insert(i, mv_map);
                }
                proof {
                    if mv_map == 0 {
                        assert forall|t: int| !self@.legal(side, i as int, t) by {
                            lemma_empty(t);
                        }
                    } else {
                        let t = lemma_nonzero(mv_map);
                        assert(self@.legal(side, i as int, t));
                    }
                    assert forall|t: int| 0 <= t < 64 implies (holds(all, t) <==> self@.counted(
                        side,
                        64 * i + t,
                        false,
                    )) by {
                        assert((64 * i + t) / 64 == i && (64 * i + t) % 64 == t);
                    }
                    assert forall|t: int| 0 <= t < 64 implies (holds(mv_map, t)
                        <==> self@.counted(side, 64 * i + t, true)) by {
                        assert((64 * i + t) / 64 == i && (64 * i + t) % 64 == t);
                    }
                    self@.lemma_count_rank(side, false, i as int, all, 64);
                    self@.lemma_count_rank(side, true, i as int, mv_map, 64);
                    lemma_count_bits(all, all, 64);
                    lemma_count_bits(mv_map, mv_map, 64);
                }
                total_pre = total_pre + found as u32;
                total_post = total_post + kept as u32;
            } else {
                proof {
                    assert forall|t: int| 0 <= t < 64 implies (holds(0, t) <==> self@.counted(
                        side,
                        64 * i + t,
                        false,
                    )) by {
                        assert((64 * i + t) / 64 == i && (64 * i + t) % 64 == t);
                        lemma_empty(t);
                    }
                    assert forall|t: int| 0 <= t < 64 implies (holds(0, t) <==> self@.counted(
                        side,
                        64 * i + t,
                        true,
                    )) by {
                        assert((64 * i + t) / 64 == i && (64 * i + t) % 64 == t);
                        lemma_empty(t);
                    }
                    self@.lemma_count_rank(side, false, i as int, 0, 64);
                    self@.lemma_count_rank(side, true, i as int, 0, 64);
                    lemma_no_bits(64);
                }
            }
            i += 1;
        }
        (total_pre, total_post)
    }
}

/// The empty set holds no squares.
pub proof fn lemma_no_bits(n: int)
    ensures
        count_bits(0, n) == 0,
    decreases n,
{
    if n > 0 {
        lemma_no_bits(n - 1);
        lemma_empty(n - 1);
    }
}

impl Position {
    /// The moves from square `i` that are counted are as many as the squares
    /// of a set that holds their destinations.
    pub proof fn lemma_count_rank(self, side: Side, legal_only: bool, i: int, m: u64, t: int)
        requires
            0 <= i < 64,
            0 <= t <= 64,
            forall|u: int| 0 <= u < t ==> (holds(m, u) <==> self.counted(side, 64 * i + u, legal_only)),
        ensures
            self.count_moves(side, legal_only, 64 * i + t) == self.count_moves(
                side,
                legal_only,
                64 * i,
            ) + count_bits(m, t),
        decreases t,
    {
        if t > 0 {
            self.lemma_count_rank(side, legal_only, i, m, t - 1);
        }
    }

    /// None of the moves numbered below `n` is counted exactly where their
    /// count is zero.
    pub proof fn lemma_count_zero(self, side: Side, legal_only: bool, n: int)
        ensures
            self.count_moves(side, legal_only, n) == 0 <==> forall|k: int|
                0 <= k < n ==> !self.counted(side, k, legal_only),
        decreases n,
    {
        if n > 0 {
            self.lemma_count_zero(side, legal_only, n - 1);
            if self.count_moves(side, legal_only, n) == 0 {
                assert forall|k: int| 0 <= k < n implies !self.counted(side, k, legal_only) by {
                    if k < n - 1 {
                    }
                }
            }
        }
    }

    /// A side can move exactly where the count of its legal moves is not zero.
    pub proof fn lemma_can_move_iff_counted(self, side: Side)
        ensures
            self.can_move(side) <==> self.count_moves(side, true, 4096) > 0,
    {
        self.lemma_count_zero(side, true, 4096);
        if self.can_move(side) {
            let (from, to) = choose|from: int, to: int| #[trigger] self.legal(side, from, to);
            let k = 64 * from + to;
            assert(k / 64 == from && k % 64 == to);
            assert(self.counted(side, k, true));
        }
        if self.count_moves(side, true, 4096) > 0 {
            let k = choose|k: int| 0 <= k < 4096 && self.counted(side, k, true);
            assert(self.legal(side, k / 64, k % 64));
        }
    }

    /// Every entry of a table of moves is the entry of a piece or the empty
    /// set: an entry that holds a square is that of a piece of the side.
    pub proof fn lemma_entry_is_a_piece(
        self,
        side: Side,
        from_castling_check: bool,
        from_check_test: bool,
        mvs: Seq<u64>,
        k: int,
        t: int,
    ) -> (j: int)
        requires
            self.is_move_array(side, from_castling_check, from_check_test, mvs),
            0 <= k < 64,
            holds(mvs[k], t),
        ensures
            0 <= j < 64,
            self.side_at(side, j),
            self.side_count(side, j) == k,
            self.tabled(side, j, t, from_castling_check, from_check_test),
    {
        if k >= self.side_count(side, 64) {
            assert(mvs[k] == 0);
            lemma_empty(t);
        }
        let j = self.lemma_nth_piece(side, k, 64);
        assert(holds(mvs[self.side_count(side, j) as int], t));
        j
    }

    /// A table of the basic moves of `by` holds square `t` exactly where `by`
    /// threatens it.
    pub proof fn lemma_threat_in_array(self, by: Side, mvs: Seq<u64>, t: int)
        requires
            self.is_move_array(by, true, true, mvs),
            0 <= t < 64,
        ensures
            any_holds(mvs, t) <==> self.threat(by, t),
    {
        if any_holds(mvs, t) {
            let k = choose|k: int| 0 <= k < mvs.len() && #[trigger] holds(mvs[k], t);
            let j = self.lemma_entry_is_a_piece(by, true, true, mvs, k, t);
            assert(self.basic_move(j, t));
        }
        if self.threat(by, t) {
            let j = choose|j: int|
                0 <= j < 64 && self.side_at(by, j) && #[trigger] self.basic_move(j, t);
            self.lemma_side_count_grows(by, j, 64);
            self.lemma_side_count_bound(by, 64);
            assert(holds(mvs[self.side_count(by, j) as int], t));
        }
    }

    /// A table of the moves of `by`, castling included, holds square `t`
    /// exactly where `by` attacks it.
    pub proof fn lemma_attack_in_array(self, by: Side, mvs: Seq<u64>, t: int)
        requires
            self.is_move_array(by, false, true, mvs),
            0 <= t < 64,
        ensures
            any_holds(mvs, t) <==> self.attacked(by, t),
    {
        if any_holds(mvs, t) {
            let k = choose|k: int| 0 <= k < mvs.len() && #[trigger] holds(mvs[k], t);
            let j = self.lemma_entry_is_a_piece(by, false, true, mvs, k, t);
            assert(self.pseudo_legal(j, t, false));
        }
        if self.attacked(by, t) {
            let j = choose|j: int|
                0 <= j < 64 && self.side_at(by, j) && #[trigger] self.pseudo_legal(j, t, false);
            self.lemma_side_count_grows(by, j, 64);
            self.lemma_side_count_bound(by, 64);
            assert(holds(mvs[self.side_count(by, j) as int], t));
        }
    }
}

} // verus!
