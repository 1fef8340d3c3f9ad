//! The board as text, a line for each rank.

use vstd::prelude::*;
use vstd::string::StringExecFns;
use crate::boardb::{BoardB, Piece, Position};
use crate::pieces::{PieceType, Side};

verus! {

/// The four characters that show a square: a blank, `w` or `b` for the side,
/// a letter for the kind and a blank, or two dashes between blanks for an
/// empty square.
pub open spec fn cell_text(p: Option<Piece>) -> Seq<char> {
    match p {
        None => " -- "@,
        Some(piece) => match piece.side {
            Side::Black => match piece.ty {
                PieceType::Queen => " bq "@,
                PieceType::King => " bk "@,
                PieceType::Knight => " bn "@,
                PieceType::Bishop => " bb "@,
                PieceType::Rook => " br "@,
                PieceType::Pawn => " bp "@,
            },
            Side::White => match piece.ty {
                PieceType::Queen => " wq "@,
                PieceType::King => " wk "@,
                PieceType::Knight => " wn "@,
                PieceType::Bishop => " wb "@,
                PieceType::Rook => " wr "@,
                PieceType::Pawn => " wp "@,
            },
        },
    }
}

impl Position {
    /// The text of the first `n` squares of rank `y`.
    pub open spec fn row_text(self, y: int, n: int) -> Seq<char>
        decreases n,
    {
        if n <= 0 {
            Seq::empty()
        } else {
            self.row_text(y, n - 1) + cell_text(self.at(n - 1, y))
        }
    }
}

fn cell(p: Option<Piece>) -> (text: &'static str)
    ensures
        text@ == cell_text(p),
{
    match p {
        None => " -- ",
        Some(piece) => match piece.side {
            Side::Black => match piece.ty {
                PieceType::Queen => " bq ",
                PieceType::King => " bk ",
                PieceType::Knight => " bn ",
                PieceType::Bishop => " bb ",
                PieceType::Rook => " br ",
                PieceType::Pawn => " bp ",
            },
            Side::White => match piece.ty {
                PieceType::Queen => " wq ",
                PieceType::King => " wk ",
                PieceType::Knight => " wn ",
                PieceType::Bishop => " wb ",
                PieceType::Rook => " wr ",
                PieceType::Pawn => " wp ",
            },
        },
    }
}

impl BoardB {
    /// The board as eight lines of text, the eighth rank first: each line
    /// shows the squares of its rank from the first file on.
    pub fn rows(&self) -> (lines: Vec<String>)
        ensures
            lines@.len() == 8,
            forall|r: int| 0 <= r < 8 ==> (#[trigger] lines@[r])@ == self@.row_text(7 - r, 8),
    {
        let mut lines: Vec<String> = Vec::new();
        let mut r: u8 = 0;
        while r < 8
            invariant
                r <= 8,
                lines@.len() == r,
                forall|k: int| 0 <= k < r ==> (#[trigger] lines@[k])@ == self@.row_text(7 - k, 8),
            decreases 8 - r,
        {
            let y: u8 = 7 - r;
            let mut row_string = String::new();
            let mut x: u8 = 0;
            while x < 8
                invariant
                    x <= 8,
                    y < 8,
                    row_string@ == self@.row_text(y as int, x as int),
                decreases 8 - x,
            {
                assert(self@.at(x as int, y as int) == self@.sq(x + 8 * y));
                row_string.append(cell(self.get_piece_at_pos(x + 8 * y)));
                x += 1;
            }
            lines.push(row_string);
            r += 1;
        }
        lines
    }
}

} // verus!
