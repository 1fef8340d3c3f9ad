//! What holds of the rules in every position, stated over the predicates that
//! the contracts use and proved from their definitions.

use vstd::prelude::*;
use crate::bits::{holds, lemma_empty};
use crate::boardb::{forward, home_rank, on_board, pawn_rank, square, Piece, Position, NO_EN_PASSANT};
use crate::legal::any_holds;
use crate::moves::abs;
use crate::pieces::{PieceType, Side};

verus! {

/// Asking twice whether a square is threatened gives one answer: what
/// `threathens` returns depends on nothing but the square and the moves it is
/// given, and it changes neither.
pub proof fn lemma_threat_asked_twice(mvs: Seq<u64>, pos: int, first: bool, second: bool)
    requires
        first == any_holds(mvs, pos),
        second == any_holds(mvs, pos),
    ensures
        first == second,
{
}

impl Position {
    /// `side` has no legal move and is in check.
    pub open spec fn checkmated(self, side: Side) -> bool {
        !self.can_move(side) && self.in_check(side)
    }

    /// `side` has no legal move and is not in check.
    pub open spec fn stalemated(self, side: Side) -> bool {
        !self.can_move(side) && !self.in_check(side)
    }

    /// The table of a side's legal moves has no entry with a destination
    /// exactly where the side is checkmated or stalemated. Such a table has no
    /// entry at all then, since it holds none without a destination.
    pub proof fn lemma_no_moves_iff_mated(self, side: Side, m: Map<u8, u64>)
        requires
            self.is_move_set(side, m),
        ensures
            (forall|f: u8| m.contains_key(f) ==> m[f] == 0) <==> (self.checkmated(side)
                || self.stalemated(side)),
            forall|f: u8| m.contains_key(f) ==> m[f] != 0,
            m.dom() =~= Set::<u8>::empty() <==> (self.checkmated(side) || self.stalemated(side)),
    {
        self.lemma_empty_move_set(side, m);
        assert forall|f: u8| m.contains_key(f) implies m[f] != 0 by {
            let t = choose|t: int| #[trigger] self.legal(side, f as int, t);
            assert(holds(m[f], t));
            lemma_empty(t);
        }
        if self.can_move(side) {
            let (from, to) = choose|from: int, to: int| #[trigger] self.legal(side, from, to);
            assert(m.contains_key(from as u8));
            assert(m[from as u8] != 0);
        } else {
            assert forall|f: u8| m.contains_key(f) implies m[f] == 0 by {
                assert(m.dom().contains(f));
            }
        }
    }

    /// The destinations on its own file of a pawn on its starting rank: the
    /// two squares ahead where both are empty, the first alone where only it
    /// is empty, and none where the first is occupied.
    pub proof fn lemma_pawn_forward_moves(self, side: Side, from: int, to: int, flag: bool)
        requires
            self.squares.len() == 64,
            0 <= from < 64,
            0 <= to < 64,
            from / 8 == pawn_rank(side),
            self.sq(from) == Some(Piece { ty: PieceType::Pawn, side }),
            to % 8 == from % 8,
        ensures
            ({
                let first = from + 8 * forward(side);
                let second = from + 16 * forward(side);
                self.pseudo_legal(from, to, flag) <==> if self.sq(first) is Some {
                    false
                } else if self.sq(second) is Some {
                    to == first
                } else {
                    to == first || to == second
                }
            }),
    {
        let first = from + 8 * forward(side);
        let second = from + 16 * forward(side);
        let fx = from % 8;
        let fy = from / 8;
        assert(self.at(fx, fy + forward(side)) == self.sq(first));
        assert(self.at(fx, fy + 2 * forward(side)) == self.sq(second));
        assert(self.at(to % 8, to / 8) == self.sq(to));
        assert(to == first <==> to / 8 == fy + forward(side));
        assert(to == second <==> to / 8 == fy + 2 * forward(side));
    }

    /// With its king on its home square, a side may castle on the king's side
    /// exactly where it holds the right, the two squares between king and rook
    /// are empty, no piece of the other side has the king's square or one of
    /// the two it crosses among its destinations, and the king is not in
    /// check once it has castled.
    pub proof fn lemma_castle_short(self, side: Side)
        requires
            self.squares.len() == 64,
            self.sq(square(4, home_rank(side))) == Some(Piece { ty: PieceType::King, side }),
        ensures
            ({
                let row = home_rank(side);
                self.legal(side, square(4, row), square(6, row)) <==> {
                    &&& self.castle(side).short
                    &&& self.at(5, row) is None
                    &&& self.at(6, row) is None
                    &&& !self.threat(side.opposite(), square(4, row))
                    &&& !self.threat(side.opposite(), square(5, row))
                    &&& !self.threat(side.opposite(), square(6, row))
                    &&& !self.in_check_after(square(4, row), square(6, row), side)
                }
            }),
    {
        let row = home_rank(side);
        let from = square(4, row);
        let to = square(6, row);
        assert(from % 8 == 4 && from / 8 == row);
        assert(to % 8 == 6 && to / 8 == row);
        assert(!self.basic_move(from, to));
    }

    /// With its king on its home square, a side may castle on the queen's
    /// side exactly where it holds the right, the three squares between king
    /// and rook are empty, no piece of the other side has the king's square or
    /// one of the two it crosses among its destinations, and the king is not
    /// in check once it has castled.
    pub proof fn lemma_castle_long(self, side: Side)
        requires
            self.squares.len() == 64,
            self.sq(square(4, home_rank(side))) == Some(Piece { ty: PieceType::King, side }),
        ensures
            ({
                let row = home_rank(side);
                self.legal(side, square(4, row), square(2, row)) <==> {
                    &&& self.castle(side).long
                    &&& self.at(1, row) is None
                    &&& self.at(2, row) is None
                    &&& self.at(3, row) is None
                    &&& !self.threat(side.opposite(), square(2, row))
                    &&& !self.threat(side.opposite(), square(3, row))
                    &&& !self.threat(side.opposite(), square(4, row))
                    &&& !self.in_check_after(square(4, row), square(2, row), side)
                }
            }),
    {
        let row = home_rank(side);
        let from = square(4, row);
        let to = square(2, row);
        assert(from % 8 == 4 && from / 8 == row);
        assert(to % 8 == 2 && to / 8 == row);
        assert(!self.basic_move(from, to));
    }

    /// A move of the king forfeits both castling rights of its side, a move of
    /// a rook from its corner the right on that wing, and no move gives a
    /// right back.
    pub proof fn lemma_rights_are_forfeited(self, from: int, to: int, side: Side)
        requires
            self.sq(from) is Some,
        ensures
            ({
                let p = self.sq(from)->0;
                let before = self.castle(side);
                let after = self.after_move(from, to).castle(side);
                &&& after.short ==> before.short
                &&& after.long ==> before.long
                &&& p.side == side && p.ty == PieceType::King ==> !after.short && !after.long
                &&& p.side == side && p.ty == PieceType::Rook && from == square(7, home_rank(side))
                    ==> !after.short
                &&& p.side == side && p.ty == PieceType::Rook && from == square(0, home_rank(side))
                    ==> !after.long
            }),
    {
    }

    /// A pawn that is asked to become a queen becomes what it becomes when
    /// nothing is asked, and a move that brings no pawn to the first or the
    /// last rank is the same whatever is asked.
    pub proof fn lemma_queen_is_the_default(self, from: int, to: int, promotion: PieceType)
        requires
            self.squares.len() == 64,
            0 <= from < 64,
            0 <= to < 64,
            self.sq(from) is Some,
        ensures
            self.after_move_as(from, to, PieceType::Queen) == self.after_move(from, to),
            !self.promotes(from, to) ==> self.after_move_as(from, to, promotion) == self.after_move(
                from,
                to,
            ),
    {
        assert(self.after_move_as(from, to, PieceType::Queen).squares =~= self.after_move(
            from,
            to,
        ).squares);
    }

    /// The cached king square of a side follows its king: it holds the king
    /// after any move that neither takes the king nor carries it off as the
    /// rook of a castling step or as the pawn of an en-passant capture.
    pub proof fn lemma_king_stays_cached(self, from: int, to: int, side: Side)
        requires
            self.squares.len() == 64,
            0 <= from < 64,
            0 <= to < 64,
            self.sq(from) is Some,
            self.king_in_place(side),
            to == self.king(side) ==> from == to,
            self.takes_en_passant(from, to) ==> self.en_passant != self.king(side),
            match self.rook_shift(from, to) {
                Some((corner, landing)) => corner != self.king(side) && landing != self.king(side),
                None => true,
            },
        ensures
            self.after_move(from, to).king_in_place(side),
    {
    }

    /// Once a pawn of `side` has advanced two ranks to square `to`, a pawn of
    /// the other side that stands beside it on square `beside` may take it by
    /// moving to the square that it passed over, and does so legally unless
    /// that leaves its own king in check. The pawn that advanced is gone
    /// thereafter.
    pub proof fn lemma_double_push_can_be_taken(self, side: Side, from: int, to: int, beside: int)
        requires
            self.squares.len() == 64,
            0 <= from < 64,
            0 <= to < 64,
            0 <= beside < 64,
            self.sq(from) == Some(Piece { ty: PieceType::Pawn, side }),
            to == from + 16 * forward(side),
            beside / 8 == to / 8,
            abs(beside % 8 - to % 8) == 1,
            self.sq(beside) == Some(Piece { ty: PieceType::Pawn, side: side.opposite() }),
        ensures
            ({
                let after = self.after_move(from, to);
                let passed = from + 8 * forward(side);
                &&& after.en_passant == to
                &&& after.pseudo_legal(beside, passed, false)
                &&& !after.in_check_after(beside, passed, side.opposite()) ==> after.legal(
                    side.opposite(),
                    beside,
                    passed,
                )
                &&& after.after_move(beside, passed).sq(to) is None
            }),
    {
        let after = self.after_move(from, to);
        let passed = from + 8 * forward(side);
        assert(self.is_double_push(from, to));
        assert(after.sq(beside) == self.sq(beside));
        assert(passed % 8 == to % 8);
        assert(passed / 8 == to / 8 + forward(side.opposite()));
        assert(after.en_passant_move(
            side.opposite(),
            beside % 8,
            beside / 8,
            passed % 8,
            passed / 8,
        ));
        assert(after.basic_move(beside, passed));
        assert(after.takes_en_passant(beside, passed));
    }

    /// The en-passant target lasts one move: a move that is no pawn's advance
    /// by two ranks leaves none, so that no pawn takes en passant after it,
    /// and such an advance leaves the square it reaches as the only target.
    pub proof fn lemma_en_passant_lapses(self, from: int, to: int)
        requires
            0 <= to < 64,
        ensures
            self.after_move(from, to).en_passant == (if self.is_double_push(from, to) {
                to as u8
            } else {
                NO_EN_PASSANT
            }),
            !self.is_double_push(from, to) ==> forall|
                side: Side,
                fx: int,
                fy: int,
                tx: int,
                ty: int,
            |
                !#[trigger] self.after_move(from, to).en_passant_move(side, fx, fy, tx, ty),
    {
    }
}

} // verus!
