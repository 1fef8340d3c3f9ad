//! Pieces as they are drawn: a kind, a side and the index of a picture.

use vstd::prelude::*;

verus! {

/// The six kinds of figure.
#[derive(Clone, Copy, PartialEq, Eq, Structural, Debug)]
pub enum FigureType {
    Queen,
    King,
    Knight,
    Bishop,
    Rook,
    Pawn,
}

/// The two colours of figure.
#[derive(Clone, Copy, PartialEq, Eq, Structural, Debug)]
pub enum Side {
    Black,
    White,
}

/// A figure and the picture that shows it.
#[derive(Clone, Copy, PartialEq, Eq, Structural, Debug)]
pub struct Figure {
    pub ty: FigureType,
    pub side: Side,
    pub tex_id: i32,
}

impl Figure {
    /// The figure of kind `ty` and side `side` drawn with picture `tex_id`.
    pub fn new(ty: FigureType, side: Side, tex_id: i32) -> (f: Figure)
        ensures
            f == (Figure { ty, side, tex_id }),
    {
        Self { ty, side, tex_id }
    }
}

} // verus!
