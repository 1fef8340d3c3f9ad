//! Piece kinds and sides.

use vstd::prelude::*;
use std::ops::Not;

verus! {

/// The six kinds of chess piece.
#[derive(Clone, Copy, PartialEq, Eq, Structural, Debug)]
pub enum PieceType {
    Queen,
    King,
    Knight,
    Bishop,
    Rook,
    Pawn,
}

/// The two players.
#[derive(Clone, Copy, PartialEq, Eq, Structural, Debug)]
pub enum Side {
    Black,
    White,
}

impl Side {
    /// The other player.
    pub open spec fn opposite(self) -> Side {
        match self {
            Side::Black => Side::White,
            Side::White => Side::Black,
        }
    }

    /// The side's name, "Black" or "White".
    pub fn name(&self) -> (s: String)
        ensures
            s@ == (match *self {
                Side::Black => "Black"@,
                Side::White => "White"@,
            }),
    {
        match self {
            Side::Black => "Black".to_owned(),
            Side::White => "White".to_owned(),
        }
    }
}

impl Not for Side {
    type Output = Side;

    fn not(self) -> (r: Side) {
        match self {
            Side::Black => Side::White,
            Side::White => Side::Black,
        }
    }
}

impl vstd::std_specs::ops::NotSpecImpl for Side {
    open spec fn obeys_not_spec() -> bool {
        true
    }

    open spec fn not_req(self) -> bool {
        true
    }

    open spec fn not_spec(self) -> Side {
        self.opposite()
    }
}

/// A piece of one kind belonging to one side.
#[derive(Clone, Copy, PartialEq, Eq, Structural, Debug)]
pub struct Piece {
    pub ty: PieceType,
    pub side: Side,
}

impl Piece {
    /// The piece of kind `ty` and side `side`.
    pub fn new(ty: PieceType, side: Side) -> (p: Piece)
        ensures
            p.ty == ty,
            p.side == side,
    {
        Self { ty, side }
    }
}

} // verus!
