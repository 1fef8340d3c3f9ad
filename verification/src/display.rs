//! What a display of the game decides before it draws: which piece is picked
//! up, where a square lies on the screen, which picture shows a piece, and
//! how the fields of the board are coloured.
//!
//! The screen shows the eighth rank at the top: the field in column `col` and
//! row `row`, both counted from the top left, is the square on file `col` and
//! rank `7 - row`.

use vstd::prelude::*;
use crate::boardb::{BoardB, Piece};
use crate::pieces::{PieceType, Side};

verus! {

/// The square shown in column `col` and row `row` of the screen.
pub fn field_square(col: u8, row: u8) -> (square: u8)
    requires
        col < 8,
        row < 8,
    ensures
        square == col + 8 * (7 - row),
        square < 64,
{
    col + 8 * (7 - row)
}

/// The column and the row of the screen in which a square is shown.
pub fn square_field(square: u8) -> (field: (u8, u8))
    requires
        square < 64,
    ensures
        field.0 == square % 8,
        field.1 == 7 - square / 8,
{
    (square % 8, 7 - square / 8)
}

/// The selection after a click on square `cursor_field`, and the piece that
/// the click has picked up: a click on the selected square puts the piece
/// down, a click on a piece of the side to move picks that piece up, and any
/// other click leaves the selection as it is.
pub fn select(selected: Option<u8>, cursor_field: u8, turn: Side, board: &BoardB) -> (r: (
    Option<u8>,
    Option<Piece>,
))
    ensures
        r == (if selected == Some(cursor_field) {
            (None::<u8>, None::<Piece>)
        } else if board@.sq(cursor_field as int) is Some && board@.sq(cursor_field as int)->0.side
            == turn {
            (Some(cursor_field), board@.sq(cursor_field as int))
        } else {
            (selected, None::<Piece>)
        }),
{
    if let Some(current) = selected {
        if cursor_field == current {
            return (None, None);
        }
    }
    if let Some(selection) = board.get_piece_at_pos(cursor_field) {
        if selection.side == turn {
            return (Some(cursor_field), Some(selection));
        }
    }
    (selected, None)
}

/// The piece on the selected square, if a square is selected and holds one.
pub fn get_selected_piece(selected: Option<u8>, board: &BoardB) -> (r: Option<Piece>)
    ensures
        r == (match selected {
            Some(square) => board@.sq(square as int),
            None => None,
        }),
{
    match selected {
        Some(square) => board.get_piece_at_pos(square),
        None => None,
    }
}

/// The index of the theme that follows theme `index` of `themes`, the first
/// following the last.
pub fn next_theme(index: usize, themes: usize) -> (next: usize)
    requires
        themes > 0,
    ensures
        next == (if index < themes - 1 {
            index + 1
        } else {
            0
        }),
{
    if index < themes - 1 {
        index + 1
    } else {
        0
    }
}

/// Whether the field in column `x` and row `y` has the board's second colour:
/// the fields whose column and row differ in parity.
pub fn is_secondary_field(x: u32, y: u32) -> (r: bool)
    ensures
        r == (x % 2 != y % 2),
{
    (x % 2 == 1 && y % 2 == 0) || (x % 2 == 0 && y % 2 == 1)
}

/// The column and the row of a piece's picture in the sheet of pictures: a
/// column for each kind, White in the upper row and Black in the lower.
pub fn atlas_cell(piece: PieceType, side: Side) -> (cell: (i32, i32))
    ensures
        cell.0 == (match piece {
            PieceType::King => 0int,
            PieceType::Queen => 1,
            PieceType::Bishop => 2,
            PieceType::Rook => 3,
            PieceType::Knight => 4,
            PieceType::Pawn => 5,
        }),
        cell.1 == (match side {
            Side::White => 0int,
            Side::Black => 1,
        }),
{
    let x: i32 = match piece {
        PieceType::King => 0,
        PieceType::Queen => 1,
        PieceType::Bishop => 2,
        PieceType::Rook => 3,
        PieceType::Knight => 4,
        PieceType::Pawn => 5,
    };
    let y: i32 = match side {
        Side::White => 0,
        Side::Black => 1,
    };
    (x, y)
}

} // verus!
