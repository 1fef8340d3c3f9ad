//! Positions that a game can reach, and the proof that a legal move leads
//! from one to another.

use std::ops::Not;
use vstd::prelude::*;
use crate::boardb::{forward, home_rank, pawn_rank, square, BoardB, Piece, Position};
use crate::pieces::{PieceType, Side};

verus! {

impl Position {
    /// The cached king square of `side` holds its king, and no other square
    /// holds one.
    pub open spec fn one_king(self, side: Side) -> bool {
        &&& self.king_in_place(side)
        &&& forall|j: int|
            0 <= j < 64 && #[trigger] self.sq(j) == Some(Piece { ty: PieceType::King, side }) ==> j
                == self.king(side)
    }

    /// A side that holds a castling right has its king on its home square.
    pub open spec fn rights_fit(self, side: Side) -> bool {
        self.castle(side).short || self.castle(side).long ==> self.king(side) == square(
            4,
            home_rank(side),
        )
    }

    /// The en-passant target, where there is one, is a pawn of the side that
    /// has just moved, and the square that it passed over is empty.
    pub open spec fn target_fits(self, turn: Side) -> bool {
        self.en_passant < 64 ==> {
            let passed = self.en_passant - 8 * forward(turn.opposite());
            &&& 0 <= passed < 64
            &&& self.sq(self.en_passant as int) == Some(
                Piece { ty: PieceType::Pawn, side: turn.opposite() },
            )
            &&& self.sq(passed) is None
        }
    }

    /// The position is one that a game with `turn` to move can have reached:
    /// each side has its one king where the cache says, the side that has just
    /// moved is not in check, and the castling rights and the en-passant
    /// target fit what stands on the board.
    pub open spec fn sound(self, turn: Side) -> bool {
        &&& self.wf()
        &&& self.one_king(Side::White)
        &&& self.one_king(Side::Black)
        &&& self.rights_fit(Side::White)
        &&& self.rights_fit(Side::Black)
        &&& !self.in_check(turn.opposite())
        &&& self.target_fits(turn)
    }

    /// In a sound position no piece moves onto a piece of its own side.
    pub proof fn lemma_lands_off_own(self, turn: Side, from: int, to: int)
        requires
            self.sound(turn),
            0 <= from < 64,
            0 <= to < 64,
            self.side_at(turn, from),
            self.pseudo_legal(from, to, false),
        ensures
            !self.side_at(turn, to),
    {
        let p = self.sq(from)->0;
        assert(self.at(to % 8, to / 8) == self.sq(to));
        if self.basic_move(from, to) {
            if p.ty == PieceType::Pawn {
                if self.en_passant_move(turn, from % 8, from / 8, to % 8, to / 8) {
                    assert(to == self.en_passant - 8 * forward(turn.opposite()));
                }
            }
        } else {
            let row = home_rank(turn);
            assert(self.at(2, row) == self.sq(square(2, row)));
            assert(self.at(6, row) == self.sq(square(6, row)));
        }
    }

    /// In a sound position no move takes the king of the side that has just
    /// moved.
    pub proof fn lemma_king_is_safe(self, turn: Side, from: int, to: int)
        requires
            self.sound(turn),
            0 <= from < 64,
            0 <= to < 64,
            self.side_at(turn, from),
            self.pseudo_legal(from, to, false),
        ensures
            to != self.king(turn.opposite()),
    {
        if to == self.king(turn.opposite()) {
            assert(self.attacked(turn, to));
        }
    }

    /// A legal move leads from a sound position to a sound position.
    pub proof fn lemma_legal_move_keeps_sound(self, turn: Side, from: int, to: int)
        requires
            self.sound(turn),
            self.legal(turn, from, to),
        ensures
            self.after_move(from, to).sound(turn.opposite()),
    {
        let after = self.after_move(from, to);
        let other = turn.opposite();
        let p = self.sq(from)->0;
        self.lemma_lands_off_own(turn, from, to);
        self.lemma_king_is_safe(turn, from, to);
        self.lemma_castling_shift(turn, from, to);
        self.lemma_target_after(turn, from, to);
        assert(after.squares.len() == 64);
        assert forall|j: int| 0 <= j < 64 implies after.sq(j) == self.square_after(from, to, j) by {}
        // the king of the side that moves
        assert(after.one_king(turn)) by {
            if p.ty == PieceType::King {
                assert(from == self.king(turn));
                assert(after.king(turn) == to);
                assert(after.sq(to) == Some(p));
            } else {
                assert(from != self.king(turn));
                assert(after.king(turn) == self.king(turn));
                assert(after.sq(self.king(turn) as int) == self.sq(self.king(turn) as int));
            }
        }
        // the king of the other side
        assert(after.one_king(other)) by {
            assert(after.king(other) == self.king(other));
            assert(after.sq(self.king(other) as int) == self.sq(self.king(other) as int));
        }
        assert(after.rights_fit(turn));
        assert(after.rights_fit(other));
        assert(!after.in_check(other.opposite()));
    }

    /// Where a legal move in a sound position brings a rook over, the king
    /// castles from its home square, the rook lands on an empty square, and
    /// what stands in the corner is no king.
    pub proof fn lemma_castling_shift(self, turn: Side, from: int, to: int)
        requires
            self.sound(turn),
            self.legal(turn, from, to),
        ensures
            match self.rook_shift(from, to) {
                Some((corner, landing)) => {
                    &&& from == square(4, home_rank(turn))
                    &&& self.sq(landing) is None
                    &&& corner != self.king(turn)
                    &&& corner != self.king(turn.opposite())
                    &&& landing != to
                    &&& corner != to
                    &&& self.sq(corner) is Some
                    &&& self.sq(corner)->0.ty != PieceType::King
                },
                None => true,
            },
    {
        let row = home_rank(turn);
        let p = self.sq(from)->0;
        match self.rook_shift(from, to) {
            Some((corner, landing)) => {
                assert(p.ty == PieceType::King && p.side == turn);
                assert(from == self.king(turn));
                assert(from == square(4, row));
                assert(from % 8 == 4 && from / 8 == row);
                assert(!self.basic_move(from, to));
                assert(self.castle_move(turn, to));
                assert(self.at(0, row) == self.sq(square(0, row)));
                assert(self.at(7, row) == self.sq(square(7, row)));
                assert(self.at(3, row) == self.sq(square(3, row)));
                assert(self.at(5, row) == self.sq(square(5, row)));
                let after = self.after_move(from, to);
                let other = turn.opposite();
                if self.sq(corner) == Some(Piece { ty: PieceType::King, side: other }) {
                    if to == square(2, row) {
                        // the king would stand beside the king it has brought over
                        assert(after.squares.len() == 64);
                        assert(after.sq(landing) == self.sq(corner));
                        assert(after.sq(to) == Some(p));
                        assert(after.king(turn) == to);
                        assert(after.at(2, row) == after.sq(to));
                        assert(landing % 8 == 3 && landing / 8 == row);
                        assert(to % 8 == 2 && to / 8 == row);
                        assert(after.basic_move(landing, to));
                        assert(after.pseudo_legal(landing, to, false));
                        assert(after.side_at(other, landing));
                        assert(after.attacked(other, to));
                        assert(after.in_check(turn));
                    } else {
                        // the king in the corner threatens the square beside it
                        assert(to == square(6, row));
                        assert(corner % 8 == 7 && corner / 8 == row);
                        assert(square(6, row) % 8 == 6 && square(6, row) / 8 == row);
                        assert(self.at(6, row) == self.sq(square(6, row)));
                        assert(self.basic_move(corner, square(6, row)));
                        assert(self.side_at(other, corner));
                        assert(self.threat(other, square(6, row)));
                    }
                }
                if self.sq(corner) == Some(Piece { ty: PieceType::King, side: turn }) {
                    assert(corner == self.king(turn));
                }
            },
            None => {},
        }
    }

    /// After a legal move in a sound position the en-passant target fits: only
    /// a pawn's advance from its starting rank over an empty square leaves
    /// one.
    pub proof fn lemma_target_after(self, turn: Side, from: int, to: int)
        requires
            self.sound(turn),
            self.legal(turn, from, to),
        ensures
            self.after_move(from, to).target_fits(turn.opposite()),
            self.takes_en_passant(from, to) ==> self.sq(self.en_passant as int) == Some(
                Piece { ty: PieceType::Pawn, side: turn.opposite() },
            ) && self.en_passant != to && self.en_passant != from,
    {
        let after = self.after_move(from, to);
        let p = self.sq(from)->0;
        self.lemma_lands_off_own(turn, from, to);
        if self.is_double_push(from, to) {
            assert(self.basic_move(from, to));
            assert(self.pawn_move(turn, from % 8, from / 8, to % 8, to / 8));
            assert(from / 8 == pawn_rank(turn));
            assert(to == from + 16 * forward(turn));
            let passed = from + 8 * forward(turn);
            assert(self.at(from % 8, from / 8 + forward(turn)) == self.sq(passed));
            assert(after.squares.len() == 64);
            assert(after.sq(to) == Some(p));
            assert(after.sq(passed) is None);
        }
        if self.takes_en_passant(from, to) {
            assert(self.basic_move(from, to));
        }
    }
}

/// The starting position is sound, with White to move.
pub proof fn lemma_start_is_sound()
    ensures
        Position::starting().sound(Side::White),
{
    let start = Position::starting();
    assert forall|j: int| 0 <= j < 64 implies #[trigger] start.sq(j) == start.squares[j] by {}
    assert(start.sq(4) == Some(Piece { ty: PieceType::King, side: Side::White }));
    assert(start.sq(60) == Some(Piece { ty: PieceType::King, side: Side::Black }));
    assert forall|j: int|
        0 <= j < 64 && start.side_at(Side::White, j) implies !#[trigger] start.pseudo_legal(
        j,
        60,
        false,
    ) by {
        assert(start.sq(j) == start.squares[j]);
        assert(j < 16);
        assert(60int % 8 == 4 && 60int / 8 == 7);
        assert(!start.castle_move(Side::White, 60));
        assert(!start.basic_move(j, 60));
    }
    assert(!start.attacked(Side::White, 60));
}

impl BoardB {
    /// Whether the cached king square of `side` holds its king and no other
    /// square holds one.
    fn has_one_king(&self, side: Side) -> (r: bool)
        requires
            self.wf(),
        ensures
            r == self@.one_king(side),
    {
        let king = Piece::new(PieceType::King, side);
        if self.get_piece_at_pos(self.find_king(side)) != Some(king) {
            return false;
        }
        let mut j: u8 = 0;
        while j < 64
            invariant
                j <= 64,
                self.wf(),
                king == (Piece { ty: PieceType::King, side }),
                self@.king_in_place(side),
                forall|k: int|
                    0 <= k < j && #[trigger] self@.sq(k) == Some(king) ==> k == self@.king(side),
            decreases 64 - j,
        {
            if j != self.find_king(side) && self.get_piece_at_pos(j) == Some(king) {
                return false;
            }
            j += 1;
        }
        true
    }

    /// Whether the position is one that a game with `turn` to move can have
    /// reached.
    pub fn is_sound(&self, turn: Side) -> (r: bool)
        ensures
            r == self@.sound(turn),
    {
        if self.kings.0 >= 64 || self.kings.1 >= 64 {
            return false;
        }
        if !self.has_one_king(Side::White) || !self.has_one_king(Side::Black) {
            return false;
        }
        if (self.white_castle.short || self.white_castle.long) && self.kings.0 != 4 {
            return false;
        }
        if (self.black_castle.short || self.black_castle.long) && self.kings.1 != 60 {
            return false;
        }
        let mvs = self.valid_moves_as_array(turn, false, true);
        proof {
            self@.lemma_attack_in_array(turn, mvs@, self@.king(turn.opposite()) as int);
            assert(turn.opposite().opposite() == turn);
        }
        if self.is_check(&mvs, turn.not()) {
            return false;
        }
        if self.en_passant < 64 {
            let pawn = Piece::new(PieceType::Pawn, turn.not());
            if self.get_piece_at_pos(self.en_passant) != Some(pawn) {
                return false;
            }
            let passed: i16 = match turn {
                Side::White => self.en_passant as i16 + 8,
                Side::Black => self.en_passant as i16 - 8,
            };
            if passed < 0 || passed >= 64 {
                return false;
            }
            if self.get_piece_at_pos(passed as u8).is_some() {
                return false;
            }
        }
        true
    }
}

} // verus!
