//! What two players at the ends of a connection tell each other: who they are,
//! who plays which side, and the moves they make.
//!
//! A move travels as the files and ranks of the two squares, counted from
//! White's queen-side corner.

use vstd::prelude::*;
use crate::pieces::Side;

verus! {

/// How a player introduces itself.
pub struct PlayerInfo {
    pub name: String,
}

/// A move as files and ranks of the square it leaves and the one it reaches.
#[derive(Clone, Copy, PartialEq, Eq, Structural, Debug)]
pub struct Move {
    pub x1: i8,
    pub y1: i8,
    pub x2: i8,
    pub y2: i8,
}

/// What a player is told when a game begins: the other player's name and
/// whether it plays Black itself.
pub struct GameInfo {
    pub other_player: String,
    pub is_black: bool,
}

impl GameInfo {
    /// The side that the player who receives this plays.
    pub fn my_side(&self) -> (side: Side)
        ensures
            side == (if self.is_black {
                Side::Black
            } else {
                Side::White
            }),
    {
        if self.is_black {
            Side::Black
        } else {
            Side::White
        }
    }
}

impl Move {
    /// Both squares of the move lie on the board.
    pub open spec fn on_board(self) -> bool {
        &&& 0 <= self.x1 < 8
        &&& 0 <= self.y1 < 8
        &&& 0 <= self.x2 < 8
        &&& 0 <= self.y2 < 8
    }

    /// The move from square `from` to square `to`.
    pub fn from_squares(from: u8, to: u8) -> (m: Move)
        requires
            from < 64,
            to < 64,
        ensures
            m.on_board(),
            m.x1 == from % 8,
            m.y1 == from / 8,
            m.x2 == to % 8,
            m.y2 == to / 8,
    {
        Move { x1: (from % 8) as i8, y1: (from / 8) as i8, x2: (to % 8) as i8, y2: (to / 8) as i8 }
    }

    /// The squares that the move leaves and reaches, or nothing where one of
    /// them lies off the board.
    pub fn squares(&self) -> (r: Option<(u8, u8)>)
        ensures
            match r {
                Some((from, to)) => self.on_board() && from == self.x1 + 8 * self.y1 && to
                    == self.x2 + 8 * self.y2,
                None => !self.on_board(),
            },
    {
        if 0 <= self.x1 && self.x1 < 8 && 0 <= self.y1 && self.y1 < 8 && 0 <= self.x2 && self.x2 < 8
            && 0 <= self.y2 && self.y2 < 8 {
            Some(((self.x1 + 8 * self.y1) as u8, (self.x2 + 8 * self.y2) as u8))
        } else {
            None
        }
    }
}

} // verus!
