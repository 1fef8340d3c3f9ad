//! The position: 64 squares, castling rights, the en-passant target and the
//! cached king squares.
//!
//! Squares are numbered row-major from White's queen-side corner: square
//! `x + 8 * y` lies on file `x` and rank `y`, so White's pieces start on ranks
//! 0 and 1 and a White pawn advances by `+8`.

use vstd::prelude::*;
use crate::castle::Castle;
use crate::pieces::{PieceType, Side};

verus! {

/// What a pawn is worth.
pub const PAWN_VALUE: i32 = 100;

/// What a knight is worth.
pub const KNIGHT_VALUE: i32 = 300;

/// What a bishop is worth.
pub const BISHOP_VALUE: i32 = 300;

/// What a rook is worth.
pub const ROOK_VALUE: i32 = 500;

/// What a queen is worth.
pub const QUEEN_VALUE: i32 = 900;

/// The value of `en_passant` that stands for "no target".
pub const NO_EN_PASSANT: u8 = 64;

/// A piece on the board.
#[derive(Clone, Copy, PartialEq, Eq, Structural, Debug)]
pub struct Piece {
    pub ty: PieceType,
    pub side: Side,
}

impl Piece {
    /// The piece of kind `ty` and side `side`.
    pub fn new(ty: PieceType, side: Side) -> (p: Piece)
        ensures
            p == (Piece { ty, side }),
    {
        Self { ty, side }
    }

    /// Material worth of a piece kind.
    pub open spec fn spec_value(self) -> int {
        match self.ty {
            PieceType::Queen => 900,
            PieceType::King => 0,
            PieceType::Knight => 300,
            PieceType::Bishop => 300,
            PieceType::Rook => 500,
            PieceType::Pawn => 100,
        }
    }

    /// Material worth of the piece: pawn 100, knight and bishop 300, rook 500,
    /// queen 900, king 0.
    pub fn value(&self) -> (v: i32)
        ensures
            v == self.spec_value(),
    {
        match self.ty {
            PieceType::Queen => QUEEN_VALUE,
            PieceType::King => 0,
            PieceType::Knight => KNIGHT_VALUE,
            PieceType::Bishop => BISHOP_VALUE,
            PieceType::Rook => ROOK_VALUE,
            PieceType::Pawn => PAWN_VALUE,
        }
    }
}

/// File and rank of a square, or an offset between two squares.
#[derive(Clone, Copy, PartialEq, Eq, Structural, Debug)]
pub struct Pos {
    pub x: i8,
    pub y: i8,
}

impl Pos {
    /// The position on file `x` and rank `y`.
    pub fn new(x: i8, y: i8) -> (p: Pos)
        ensures
            p == (Pos { x, y }),
    {
        Self { x, y }
    }

    /// Whether the position lies on the board.
    pub open spec fn on_board(self) -> bool {
        on_board(self.x as int, self.y as int)
    }
}

/// Conversion between a square's index and its file and rank.
pub trait PosTrait: Sized {
    /// Whether the value names a square of the board.
    spec fn is_square(self) -> bool;

    fn from_i(i: u8) -> Self;

    fn to_i(self) -> u8
        requires
            self.is_square(),
    ;
}

impl PosTrait for Pos {
    open spec fn is_square(self) -> bool {
        self.on_board()
    }

    /// File `i % 8` and rank `i / 8`.
    fn from_i(i: u8) -> (p: Pos)
        ensures
            p.x == i % 8,
            p.y == i / 8,
    {
        Pos { x: (i % 8) as i8, y: (i / 8) as i8 }
    }

    /// The index `x + 8 * y` of a position on the board.
    fn to_i(self) -> (i: u8)
        ensures
            i == square(self.x as int, self.y as int),
            i < 64,
    {
        (self.x + self.y * 8) as u8
    }
}

/// File `x` and rank `y` name a square of the board.
pub open spec fn on_board(x: int, y: int) -> bool {
    0 <= x < 8 && 0 <= y < 8
}

/// The index of the square on file `x` and rank `y`.
pub open spec fn square(x: int, y: int) -> int {
    x + 8 * y
}

/// The direction in which a side's pawns advance.
pub open spec fn forward(side: Side) -> int {
    match side {
        Side::White => 1,
        Side::Black => -1,
    }
}

/// The rank on which a side's pawns start.
pub open spec fn pawn_rank(side: Side) -> int {
    match side {
        Side::White => 1,
        Side::Black => 6,
    }
}

/// The rank on which a side's king and rooks start.
pub open spec fn home_rank(side: Side) -> int {
    match side {
        Side::White => 0,
        Side::Black => 7,
    }
}

/// The kind of piece that starts on file `x` of a side's home rank.
pub open spec fn home_piece(x: int) -> PieceType {
    if x == 0 || x == 7 {
        PieceType::Rook
    } else if x == 1 || x == 6 {
        PieceType::Knight
    } else if x == 2 || x == 5 {
        PieceType::Bishop
    } else if x == 3 {
        PieceType::Queen
    } else {
        PieceType::King
    }
}

/// A position: the 64 squares by index, the castling rights of both sides,
/// the cached king squares and the en-passant target.
#[derive(Clone, Copy)]
pub struct BoardB {
    pub board: [Option<Piece>; 64],
    pub white_castle: Castle,
    pub black_castle: Castle,
    /// The squares of the white and of the black king.
    pub kings: (u8, u8),
    /// The square of the pawn that has just advanced two ranks; 64 or more
    /// where there is none.
    pub en_passant: u8,
}

/// A position as a mathematical value: what the contracts speak of.
pub struct Position {
    /// The 64 squares, by index.
    pub squares: Seq<Option<Piece>>,
    pub white_castle: Castle,
    pub black_castle: Castle,
    pub kings: (u8, u8),
    pub en_passant: u8,
}

impl View for BoardB {
    type V = Position;

    open spec fn view(&self) -> Position {
        Position {
            squares: self.board@,
            white_castle: self.white_castle,
            black_castle: self.black_castle,
            kings: self.kings,
            en_passant: self.en_passant,
        }
    }
}

impl Position {
    /// The position from which a game starts: White's pieces on ranks 0 and 1,
    /// Black's on ranks 6 and 7, every castling right held and no en-passant
    /// target.
    pub open spec fn starting() -> Position {
        Position {
            squares: Seq::new(
                64,
                |i: int|
                    if i / 8 == 0 {
                        Some(Piece { ty: home_piece(i % 8), side: Side::White })
                    } else if i / 8 == 1 {
                        Some(Piece { ty: PieceType::Pawn, side: Side::White })
                    } else if i / 8 == 6 {
                        Some(Piece { ty: PieceType::Pawn, side: Side::Black })
                    } else if i / 8 == 7 {
                        Some(Piece { ty: home_piece(i % 8), side: Side::Black })
                    } else {
                        None
                    },
            ),
            white_castle: Castle { short: true, long: true },
            black_castle: Castle { short: true, long: true },
            kings: (4, 60),
            en_passant: NO_EN_PASSANT,
        }
    }

    /// The content of the square on file `x` and rank `y`; nothing off the board.
    pub open spec fn at(self, x: int, y: int) -> Option<Piece> {
        if on_board(x, y) {
            self.squares[square(x, y)]
        } else {
            None
        }
    }

    /// The content of square `i`; nothing off the board.
    pub open spec fn sq(self, i: int) -> Option<Piece> {
        if 0 <= i < 64 {
            self.squares[i]
        } else {
            None
        }
    }

    /// The castling rights of a side.
    pub open spec fn castle(self, side: Side) -> Castle {
        match side {
            Side::White => self.white_castle,
            Side::Black => self.black_castle,
        }
    }

    /// The cached square of a side's king.
    pub open spec fn king(self, side: Side) -> u8 {
        match side {
            Side::White => self.kings.0,
            Side::Black => self.kings.1,
        }
    }

    /// The cached king square of `side` holds the king of `side`.
    pub open spec fn king_in_place(self, side: Side) -> bool {
        self.sq(self.king(side) as int) == Some(Piece { ty: PieceType::King, side })
    }

    /// There are 64 squares and both cached king squares lie on the board.
    pub open spec fn wf(self) -> bool {
        self.squares.len() == 64 && self.kings.0 < 64 && self.kings.1 < 64
    }

    /// The piece that stands on `to` once the piece on `from` has moved there:
    /// a pawn that reaches the first or the last rank has become a queen.
    pub open spec fn arriving(self, from: int, to: int) -> Piece {
        let p = self.sq(from)->0;
        if p.ty == PieceType::Pawn && (to / 8 == 0 || to / 8 == 7) {
            Piece { ty: PieceType::Queen, side: p.side }
        } else {
            p
        }
    }

    /// Where the move of the piece on `from` to `to` is a king's castling
    /// step: the corner that the rook leaves and the square it goes to.
    pub open spec fn rook_shift(self, from: int, to: int) -> Option<(int, int)> {
        let p = self.sq(from)->0;
        let row = home_rank(p.side);
        let c = self.castle(p.side);
        if p.ty != PieceType::King {
            None
        } else if self.at(0, row) is Some && to == square(2, row) && c.long {
            Some((square(0, row), square(3, row)))
        } else if self.at(7, row) is Some && to == square(6, row) && c.short {
            Some((square(7, row), square(5, row)))
        } else {
            None
        }
    }

    /// The move of the piece on `from` to `to` is a pawn's move to the square
    /// behind the en-passant target, which takes the pawn on the target.
    pub open spec fn takes_en_passant(self, from: int, to: int) -> bool {
        let p = self.sq(from)->0;
        p.ty == PieceType::Pawn && self.en_passant < 64 && self.en_passant == to - 8 * forward(
            p.side,
        )
    }

    /// The move of the piece on `from` to `to` is a pawn's advance by two ranks.
    pub open spec fn is_double_push(self, from: int, to: int) -> bool {
        let p = self.sq(from)->0;
        p.ty == PieceType::Pawn && (to / 8 - from / 8 == 2 || from / 8 - to / 8 == 2)
    }

    /// What square `s` holds after the piece on `from` has moved to `to`.
    pub open spec fn square_after(self, from: int, to: int, s: int) -> Option<Piece> {
        let shift = self.rook_shift(from, to);
        let (corner, landing) = match shift {
            Some(pair) => pair,
            None => (from, from),
        };
        if s == to {
            Some(self.arriving(from, to))
        } else if s == from {
            None
        } else if shift is Some && s == landing {
            self.sq(corner)
        } else if shift is Some && s == corner {
            None
        } else if self.takes_en_passant(from, to) && s == self.en_passant {
            None
        } else {
            self.sq(s)
        }
    }

    /// The castling rights of `side` after the piece on `from` has moved: a
    /// king's move forfeits both, a rook's move from its corner the right on
    /// that wing.
    pub open spec fn castle_after(self, from: int, side: Side) -> Castle {
        let p = self.sq(from)->0;
        let c = self.castle(side);
        if p.side != side {
            c
        } else if p.ty == PieceType::King {
            Castle { short: false, long: false }
        } else if p.ty == PieceType::Rook && from == square(0, home_rank(side)) {
            Castle { short: c.short, long: false }
        } else if p.ty == PieceType::Rook && from == square(7, home_rank(side)) {
            Castle { short: false, long: c.long }
        } else {
            c
        }
    }

    /// The cached king square of `side` after the piece on `from` has moved to
    /// `to`.
    pub open spec fn king_after(self, from: int, to: int, side: Side) -> u8 {
        let p = self.sq(from)->0;
        if p.ty == PieceType::King && p.side == side {
            to as u8
        } else {
            self.king(side)
        }
    }

    /// The move of the piece on `from` to `to` brings a pawn to the first or
    /// the last rank.
    pub open spec fn promotes(self, from: int, to: int) -> bool {
        self.sq(from)->0.ty == PieceType::Pawn && (to / 8 == 0 || to / 8 == 7)
    }

    /// The kind that a pawn becomes where `promotion` is asked for: that kind
    /// if it is a knight, a bishop or a rook, and else a queen.
    pub open spec fn promoted_kind(promotion: PieceType) -> PieceType {
        match promotion {
            PieceType::Knight => PieceType::Knight,
            PieceType::Bishop => PieceType::Bishop,
            PieceType::Rook => PieceType::Rook,
            _ => PieceType::Queen,
        }
    }

    /// The position after the piece on `from` has moved to `to`, a pawn that
    /// reaches the first or the last rank having become a piece of the kind
    /// asked for in place of a queen.
    pub open spec fn after_move_as(self, from: int, to: int, promotion: PieceType) -> Position {
        let after = self.after_move(from, to);
        if self.promotes(from, to) {
            Position {
                squares: after.squares.update(
                    to,
                    Some(
                        Piece { ty: Self::promoted_kind(promotion), side: self.sq(from)->0.side },
                    ),
                ),
                ..after
            }
        } else {
            after
        }
    }

    /// The position after the piece on `from` has moved to `to`.
    pub open spec fn after_move(self, from: int, to: int) -> Position {
        Position {
            squares: Seq::new(64, |s: int| self.square_after(from, to, s)),
            white_castle: self.castle_after(from, Side::White),
            black_castle: self.castle_after(from, Side::Black),
            kings: (self.king_after(from, to, Side::White), self.king_after(from, to, Side::Black)),
            en_passant: if self.is_double_push(from, to) {
                to as u8
            } else {
                NO_EN_PASSANT
            },
        }
    }
}

impl BoardB {
    /// Both cached king squares lie on the board.
    pub open spec fn wf(self) -> bool {
        self@.wf()
    }

    /// The position from which a game starts.
    pub fn with_starting_pos() -> (b: BoardB)
        ensures
            b@ == Position::starting(),
            b.wf(),
            b@.king_in_place(Side::White),
            b@.king_in_place(Side::Black),
    {
        let mut board: [Option<Piece>; 64] = [None; 64];
        let first_rank = [
            PieceType::Rook,
            PieceType::Knight,
            PieceType::Bishop,
            PieceType::Queen,
            PieceType::King,
            PieceType::Bishop,
            PieceType::Knight,
            PieceType::Rook,
        ];
        let mut x: usize = 0;
        while x < 8
            invariant
                x <= 8,
                first_rank@.len() == 8,
                forall|k: int| 0 <= k < 8 ==> first_rank@[k] == home_piece(k),
                forall|i: int|
                    0 <= i < 64 ==> #[trigger] board@[i] == (if i % 8 >= x {
                        None
                    } else if i / 8 == 0 {
                        Some(Piece { ty: home_piece(i % 8), side: Side::White })
                    } else if i / 8 == 1 {
                        Some(Piece { ty: PieceType::Pawn, side: Side::White })
                    } else if i / 8 == 6 {
                        Some(Piece { ty: PieceType::Pawn, side: Side::Black })
                    } else if i / 8 == 7 {
                        Some(Piece { ty: home_piece(i % 8), side: Side::Black })
                    } else {
                        None
                    }),
            decreases 8 - x,
        {
            board[x] = Some(Piece::new(first_rank[x], Side::White));
            board[x + 8] = Some(Piece::new(PieceType::Pawn, Side::White));
            board[x + 48] = Some(Piece::new(PieceType::Pawn, Side::Black));
            board[x + 56] = Some(Piece::new(first_rank[x], Side::Black));
            x += 1;
        }
        let castle = Castle::new();
        let b = BoardB {
            board,
            white_castle: castle,
            black_castle: castle,
            kings: (4, 60),
            en_passant: NO_EN_PASSANT,
        };
        assert(b@.squares =~= Position::starting().squares);
        b
    }

    /// The position with nothing but the two kings on their starting squares.
    /// Every castling right is held and there is no en-passant target.
    pub fn gen_kings_pos() -> (b: BoardB)
        ensures
            b.wf(),
            b@ == (Position {
                squares: Seq::new(64, |i: int| None::<Piece>).update(
                    4,
                    Some(Piece { ty: PieceType::King, side: Side::White }),
                ).update(60, Some(Piece { ty: PieceType::King, side: Side::Black })),
                white_castle: Castle { short: true, long: true },
                black_castle: Castle { short: true, long: true },
                kings: (4, 60),
                en_passant: NO_EN_PASSANT,
            }),
    {
        let mut board: [Option<Piece>; 64] = [None; 64];
        board[4] = Some(Piece::new(PieceType::King, Side::White));
        board[60] = Some(Piece::new(PieceType::King, Side::Black));
        let b = BoardB {
            board,
            white_castle: Castle::new(),
            black_castle: Castle::new(),
            kings: (4, 60),
            en_passant: NO_EN_PASSANT,
        };
        assert(b@.squares =~= Seq::new(64, |i: int| None::<Piece>).update(
            4,
            Some(Piece { ty: PieceType::King, side: Side::White }),
        ).update(60, Some(Piece { ty: PieceType::King, side: Side::Black })));
        b
    }

    /// Whether square `i` holds a piece.
    pub fn occupied(&self, i: u8) -> (r: bool)
        requires
            i < 64,
        ensures
            r == self@.sq(i as int) is Some,
    {
        self.board[i as usize].is_some()
    }

    /// Empties square `i`.
    pub fn remove_piece(&mut self, i: u8)
        requires
            i < 64,
        ensures
            final(self)@ == (Position {
                squares: old(self)@.squares.update(i as int, None),
                ..old(self)@
            }),
    {
        self.board[i as usize] = None;
    }

    /// Puts `piece` on square `i`, replacing what stood there.
    pub fn set_piece(&mut self, i: u8, piece: Piece)
        requires
            i < 64,
        ensures
            final(self)@ == (Position {
                squares: old(self)@.squares.update(i as int, Some(piece)),
                ..old(self)@
            }),
    {
        self.board[i as usize] = Some(piece);
    }

    /// Moves the rook of a king that castles to `dst` on rank `y`.
    fn try_castle(&mut self, y: u8, castle: Castle, dst: u8)
        requires
            y == 0 || y == 7,
        ensures
            final(self)@ == (Position {
                squares: if old(self)@.at(0, y as int) is Some && dst == square(2, y as int)
                    && castle.long {
                    old(self)@.squares.update(square(3, y as int), old(self)@.at(0, y as int)).update(
                        square(0, y as int),
                        None,
                    )
                } else if old(self)@.at(7, y as int) is Some && dst == square(6, y as int)
                    && castle.short {
                    old(self)@.squares.update(square(5, y as int), old(self)@.at(7, y as int)).update(
                        square(7, y as int),
                        None,
                    )
                } else {
                    old(self)@.squares
                },
                ..old(self)@
            }),
    {
        let row = y * 8;
        if let Some(rook) = self.get_piece_at_pos(row) {
            if dst == row + 2 && castle.long {
                self.set_piece(row + 3, rook);
                self.remove_piece(row);
                return ;
            }
        }
        if let Some(rook) = self.get_piece_at_pos(row + 7) {
            if dst == row + 6 && castle.short {
                self.set_piece(row + 5, rook);
                self.remove_piece(row + 7);
            }
        }
    }

    /// Moves the piece on `from` to `to` and returns the piece that stood on
    /// `to`.
    ///
    /// A king's move updates its cached square, forfeits both of its side's
    /// castling rights and, where it is a castling step, brings the rook over.
    /// A rook's move from its corner forfeits the right on that wing. A pawn
    /// that moves behind the en-passant target takes the pawn there, one that
    /// advances two ranks becomes the new target, and one that reaches the
    /// first or the last rank becomes a queen. Every move but a pawn's advance
    /// by two ranks clears the en-passant target.
    pub fn make_move(&mut self, from: u8, to: u8) -> (captured: Option<Piece>)
        requires
            from < 64,
            to < 64,
            old(self)@.sq(from as int) is Some,
        ensures
            final(self)@ == old(self)@.after_move(from as int, to as int),
            captured == old(self)@.sq(to as int),
    {
        let captured_piece = self.get_piece_at_pos(to);
        let mut piece = self.board[from as usize].unwrap();
        let mut target = NO_EN_PASSANT;
        match piece.ty {
            PieceType::King => {
                match piece.side {
                    Side::Black => {
                        self.try_castle(7, self.black_castle, to);
                        self.black_castle = Castle::forbid();
                        self.kings.1 = to;
                    },
                    Side::White => {
                        self.try_castle(0, self.white_castle, to);
                        self.white_castle = Castle::forbid();
                        self.kings.0 = to;
                    },
                }
            },
            PieceType::Rook => {
                match piece.side {
                    Side::Black => {
                        if from == 56 {
                            self.black_castle.long = false;
                        } else if from == 63 {
                            self.black_castle.short = false;
                        }
                    },
                    Side::White => {
                        if from == 0 {
                            self.white_castle.long = false;
                        } else if from == 7 {
                            self.white_castle.short = false;
                        }
                    },
                }
            },
            PieceType::Pawn => {
                let y_dir: i16 = match piece.side {
                    Side::Black => -1,
                    Side::White => 1,
                };
                let to_xy = self.i_to_xy(to);
                let from_xy = self.i_to_xy(from);
                if self.en_passant < 64 {
                    if self.en_passant as i16 == to as i16 - y_dir * 8 {
                        self.remove_piece(self.en_passant);
                    }
                }
                if from_xy.y - to_xy.y == 2 || to_xy.y - from_xy.y == 2 {
                    target = to;
                }
                if to_xy.y == 0 || to_xy.y == 7 {
                    piece = Piece::new(PieceType::Queen, piece.side);
                }
            },
            _ => {},
        }
        self.en_passant = target;
        self.remove_piece(from);
        self.set_piece(to, piece);
        proof {
            let before = old(self)@;
            let after = before.after_move(from as int, to as int);
            assert(self@.squares =~= after.squares);
        }
        captured_piece
    }

    /// Moves the piece on `from` to `to` as `make_move` does, but lets a pawn
    /// that reaches the first or the last rank become a knight, a bishop or a
    /// rook where `promotion` asks for one, and a queen otherwise. Returns the
    /// piece that stood on `to`.
    pub fn make_move_as(&mut self, from: u8, to: u8, promotion: PieceType) -> (captured: Option<
        Piece,
    >)
        requires
            from < 64,
            to < 64,
            old(self)@.sq(from as int) is Some,
        ensures
            final(self)@ == old(self)@.after_move_as(from as int, to as int, promotion),
            captured == old(self)@.sq(to as int),
    {
        let piece = self.board[from as usize].unwrap();
        let captured_piece = self.make_move(from, to);
        if piece.ty == PieceType::Pawn && (to / 8 == 0 || to / 8 == 7) {
            let kind = match promotion {
                PieceType::Knight => PieceType::Knight,
                PieceType::Bishop => PieceType::Bishop,
                PieceType::Rook => PieceType::Rook,
                _ => PieceType::Queen,
            };
            self.set_piece(to, Piece::new(kind, piece.side));
        }
        captured_piece
    }

    /// The piece on square `i`, if any; nothing for an index off the board.
    pub fn get_piece_at_pos(&self, i: u8) -> (r: Option<Piece>)
        ensures
            r == self@.sq(i as int),
    {
        if i < 64 {
            self.board[i as usize]
        } else {
            None
        }
    }

    /// Whether both cached king squares hold the king of their side.
    pub fn kings_in_place(&self) -> (r: bool)
        ensures
            r == (self@.king_in_place(Side::White) && self@.king_in_place(Side::Black)),
    {
        let white = match self.get_piece_at_pos(self.kings.0) {
            Some(p) => p.ty == PieceType::King && p.side == Side::White,
            None => false,
        };
        let black = match self.get_piece_at_pos(self.kings.1) {
            Some(p) => p.ty == PieceType::King && p.side == Side::Black,
            None => false,
        };
        white && black
    }

    /// The cached square of `side`'s king.
    pub fn find_king(&self, side: Side) -> (k: u8)
        ensures
            k == self@.king(side),
    {
        match side {
            Side::Black => self.kings.1,
            Side::White => self.kings.0,
        }
    }

    /// File and rank of square `i`.
    pub fn i_to_xy(&self, i: u8) -> (p: Pos)
        ensures
            p.x == i % 8,
            p.y == i / 8,
    {
        Pos::from_i(i)
    }
}

} // verus!
