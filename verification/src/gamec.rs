//! A game on the packed board: the pieces move as they move, without regard
//! to check, and the game never ends by itself.

use vstd::prelude::*;
use crate::bits::{holds, test_bit};
use crate::boardb::{Pos, PosTrait, Position};
use crate::boardc::{BoardC, Piece};
use crate::gameb::{GameState, PlayerType};
use crate::pieces::Side;

verus! {

/// A game on the packed board.
pub struct GameC {
    pub state: GameState,
    pub board: BoardC,
    /// The destinations of the pieces of the side to move, piece by piece in
    /// the order of their squares, and the empty set behind them.
    pub possible_moves: [u64; 64],
    /// The codes of the pieces taken so far, in the order in which they were
    /// taken.
    pub captured_pieces: Vec<Piece>,
    pub turn: Side,
    pub black: PlayerType,
    pub white: PlayerType,
    pub flipped: bool,
    pub last_move: Option<(u8, u8)>,
}

impl GameC {
    /// The table of moves is that of the side to move.
    pub open spec fn wf(self) -> bool {
        &&& self.board.wf()
        &&& self.board.position().is_move_array(self.turn, true, true, self.possible_moves@)
    }

    /// A game from the starting position, White to move.
    pub fn new(white: PlayerType, black: PlayerType, flipped: bool) -> (g: GameC)
        ensures
            g.wf(),
            g.state == GameState::Running,
            g.board.position() == Position::starting(),
            g.turn == Side::White,
            g.white == white,
            g.black == black,
            g.flipped == flipped,
            g.captured_pieces@.len() == 0,
            g.last_move is None,
    {
        let board = BoardC::gen_starting_pos();
        GameC {
            state: GameState::Running,
            board,
            possible_moves: board.valid_moves(Side::White),
            captured_pieces: Vec::new(),
            turn: Side::White,
            white,
            black,
            last_move: None,
            flipped,
        }
    }

    /// A game between two people at one board.
    pub fn versus() -> (g: GameC)
        ensures
            g.wf(),
            g.board.position() == Position::starting(),
            g.turn == Side::White,
            g.white == PlayerType::Me,
            g.black == PlayerType::Me,
            !g.flipped,
    {
        Self::new(PlayerType::Me, PlayerType::Me, false)
    }

    /// A game against someone at the far end of a connection, who plays White
    /// if `flipped`.
    pub fn remote(flipped: bool) -> (g: GameC)
        ensures
            g.wf(),
            g.board.position() == Position::starting(),
            g.turn == Side::White,
            g.white == (if flipped {
                PlayerType::Remote
            } else {
                PlayerType::Me
            }),
            g.black == (if flipped {
                PlayerType::Me
            } else {
                PlayerType::Remote
            }),
            g.flipped == flipped,
    {
        let me = PlayerType::Me;
        let rm = PlayerType::Remote;
        let (white, black) = if flipped {
            (rm, me)
        } else {
            (me, rm)
        };
        Self::new(white, black, flipped)
    }

    /// A game against the search, which plays White if `is_white`.
    pub fn cpu(depth: usize, is_white: bool) -> (g: GameC)
        ensures
            g.wf(),
            g.board.position() == Position::starting(),
            g.turn == Side::White,
            g.white == (if is_white {
                PlayerType::Cpu { depth }
            } else {
                PlayerType::Me
            }),
            g.black == (if is_white {
                PlayerType::Me
            } else {
                PlayerType::Cpu { depth }
            }),
            g.flipped == is_white,
    {
        let cpu = PlayerType::Cpu { depth };
        let me = PlayerType::Me;
        let (white, black) = if is_white {
            (cpu, me)
        } else {
            (me, cpu)
        };
        Self::new(white, black, is_white)
    }

    /// A game of the search against itself.
    pub fn vcpu(depth: usize) -> (g: GameC)
        ensures
            g.wf(),
            g.board.position() == Position::starting(),
            g.turn == Side::White,
            g.white == (PlayerType::Cpu { depth }),
            g.black == (PlayerType::Cpu { depth }),
            !g.flipped,
    {
        Self::new(PlayerType::Cpu { depth }, PlayerType::Cpu { depth }, false)
    }

    /// Hands the move to the other side.
    pub fn change_turn(&mut self)
        ensures
            final(self).turn == old(self).turn.opposite(),
            final(self).state == old(self).state,
            final(self).board == old(self).board,
            final(self).possible_moves == old(self).possible_moves,
            final(self).captured_pieces == old(self).captured_pieces,
            final(self).black == old(self).black,
            final(self).white == old(self).white,
            final(self).flipped == old(self).flipped,
            final(self).last_move == old(self).last_move,
    {
        self.turn = match self.turn {
            Side::Black => Side::White,
            Side::White => Side::Black,
        };
    }

    /// Who plays the side to move.
    pub fn turn(&self) -> (p: &PlayerType)
        ensures
            *p == (match self.turn {
                Side::Black => self.black,
                Side::White => self.white,
            }),
    {
        match self.turn {
            Side::Black => &self.black,
            Side::White => &self.white,
        }
    }

    /// Who plays the side to move, to be changed in place.
    pub fn turn_mut(&mut self) -> (p: &mut PlayerType)
        ensures
            *p == (match old(self).turn {
                Side::Black => old(self).black,
                Side::White => old(self).white,
            }),
            *final(self) == (match old(self).turn {
                Side::Black => GameC { black: *final(p), ..*old(self) },
                Side::White => GameC { white: *final(p), ..*old(self) },
            }),
    {
        match self.turn {
            Side::Black => &mut self.black,
            Side::White => &mut self.white,
        }
    }

    /// Plays the move from `from` to `to` if the table of moves holds it for
    /// the piece on `from`, and says whether it did.
    ///
    /// A move that is played moves the piece, is recorded as the last move,
    /// and what it takes joins the captured pieces. The turn passes to the
    /// other side, whose moves are computed afresh. A move that is not played
    /// changes nothing.
    pub fn make_move(&mut self, from: u8, to: u8) -> (played: bool)
        requires
            old(self).wf(),
        ensures
            played == {
                &&& from < 64
                &&& to < 64
                &&& old(self).board.position().side_at(old(self).turn, from as int)
                &&& holds(
                    old(self).possible_moves@[old(self).board.position().side_count(
                        old(self).turn,
                        from as int,
                    ) as int],
                    to as int,
                )
            },
            played == {
                &&& from < 64
                &&& to < 64
                &&& old(self).board.position().side_at(old(self).turn, from as int)
                &&& old(self).board.position().basic_move(from as int, to as int)
            },
            !played ==> *final(self) == *old(self),
            played ==> {
                &&& final(self).board@ == old(self).board@.update(
                    to as int,
                    old(self).board@[from as int],
                ).update(from as int, None)
                &&& final(self).turn == old(self).turn.opposite()
                &&& final(self).last_move == Some((from, to))
                &&& final(self).captured_pieces@ == (if old(self).board.position().sq(to as int)
                    is Some {
                    old(self).captured_pieces@.push(old(self).board@[to as int]->0)
                } else {
                    old(self).captured_pieces@
                })
                &&& final(self).state == old(self).state
                &&& final(self).white == old(self).white
                &&& final(self).black == old(self).black
                &&& final(self).flipped == old(self).flipped
            },
            final(self).wf(),
    {
        if from >= 64 || to >= 64 {
            return false;
        }
        let board = self.board.unpack();
        let mine = match board.get_piece_at_pos(from) {
            Some(p) => p.side == self.turn,
            None => false,
        };
        if !mine {
            return false;
        }
        let piece_index = board.pieces_before(self.turn, from);
        proof {
            board@.lemma_side_count_grows(self.turn, from as int, 64);
            board@.lemma_side_count_bound(self.turn, 64);
        }
        if !test_bit(self.possible_moves[piece_index as usize], to) {
            return false;
        }
        assert(self.board.position().squares[from as int] == BoardC::decode(
            self.board@[from as int],
        ));
        assert(self.board.position().squares[to as int] == BoardC::decode(self.board@[to as int]));
        if let Some(captured_piece) = self.board.make_move(from, to) {
            self.captured_pieces.push(captured_piece);
        }
        self.last_move = Some((from, to));
        self.change_turn();
        self.possible_moves = self.board.valid_moves(self.turn);
        true
    }
}

/// File and rank of square `i`.
pub fn i_to_xy(i: u8) -> (p: Pos)
    ensures
        p.x == i % 8,
        p.y == i / 8,
{
    Pos::from_i(i)
}

} // verus!
