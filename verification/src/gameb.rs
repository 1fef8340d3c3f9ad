//! A game in progress: whose turn it is, the legal moves of the side to
//! move, whether the game has ended, and what has been taken.

use std::collections::HashMap;
use std::ops::Not;
use vstd::prelude::*;
use crate::bits::{holds, test_bit};
use crate::boardb::{BoardB, Piece, Position};
use crate::fen::{field, letters_known, parse_fen, FenError};
use crate::pieces::Side;
use crate::search::{best_move, plies_below};
use crate::sound::lemma_start_is_sound;

verus! {

/// Whether a game goes on, and how it ended.
#[derive(Clone, Copy, PartialEq, Eq, Structural, Debug)]
pub enum GameState {
    Running,
    Winner(Side),
    Draw,
}

/// Who plays a side: the person at the board, someone at the far end of a
/// connection, or the search to a given depth.
#[derive(Clone, Copy, PartialEq, Eq, Structural, Debug)]
pub enum PlayerType {
    Me,
    Remote,
    Cpu { depth: usize },
}

impl PlayerType {
    /// Whether the person at the board plays.
    pub fn is_me(&self) -> (r: bool)
        ensures
            r == (*self is Me),
    {
        match self {
            PlayerType::Me => true,
            PlayerType::Remote => false,
            PlayerType::Cpu { .. } => false,
        }
    }

    /// Whether someone at the far end of a connection plays.
    pub fn is_remote(&self) -> (r: bool)
        ensures
            r == (*self is Remote),
    {
        match self {
            PlayerType::Me => false,
            PlayerType::Remote => true,
            PlayerType::Cpu { .. } => false,
        }
    }

    /// Whether the search plays.
    pub fn is_ai(&self) -> (r: bool)
        ensures
            r == (*self is Cpu),
    {
        match self {
            PlayerType::Me => false,
            PlayerType::Remote => false,
            PlayerType::Cpu { .. } => true,
        }
    }
}

/// A game: the position, the side to move with its legal moves, and what has
/// happened so far.
pub struct GameB {
    pub state: GameState,
    pub board: BoardB,
    /// The legal moves of the side to move.
    pub possible_moves: HashMap<u8, u64>,
    /// The pieces taken so far, in the order in which they were taken.
    pub captured_pieces: Vec<Piece>,
    pub turn: Side,
    pub black: PlayerType,
    pub white: PlayerType,
    /// Whether White and whether Black is in check.
    pub check: (bool, bool),
    pub flipped: bool,
    pub last_move: Option<(u8, u8)>,
}

impl Position {
    /// The state of a game in which `side` is to move: the other side has won
    /// if `side` has no legal move and is in check, the game is drawn if it
    /// has none and is not in check, and goes on otherwise.
    pub open spec fn outcome(self, side: Side) -> GameState {
        if self.can_move(side) {
            GameState::Running
        } else if self.in_check(side) {
            GameState::Winner(side.opposite())
        } else {
            GameState::Draw
        }
    }

    /// A table of `side`'s legal moves is empty exactly where `side` cannot
    /// move.
    pub proof fn lemma_empty_move_set(self, side: Side, m: Map<u8, u64>)
        requires
            self.is_move_set(side, m),
        ensures
            m.dom() =~= Set::<u8>::empty() <==> !self.can_move(side),
    {
        if self.can_move(side) {
            let (from, to) = choose|from: int, to: int| #[trigger] self.legal(side, from, to);
            assert(m.contains_key(from as u8));
        }
        if !(m.dom() =~= Set::<u8>::empty()) {
            let f = choose|f: u8| m.dom().contains(f);
            assert(m.contains_key(f));
        }
    }
}

impl GameB {
    /// The table of moves is that of the side to move, and the check flags are
    /// those of the position.
    pub open spec fn wf(self) -> bool {
        &&& self.board.wf()
        &&& self.board@.is_move_set(self.turn, self.possible_moves@)
        &&& self.check == (self.board@.in_check(Side::White), self.board@.in_check(Side::Black))
    }

    /// The position is one that a game can have reached, with the side to move
    /// that the game has.
    pub open spec fn sound(self) -> bool {
        self.board@.sound(self.turn)
    }

    /// The move from `from` to `to` is one that `make_move` plays: the game
    /// goes on and the table of moves holds it.
    pub open spec fn accepts(self, from: u8, to: u8) -> bool {
        &&& self.state == GameState::Running
        &&& self.possible_moves@.contains_key(from)
        &&& holds(self.possible_moves@[from], to as int)
    }

    fn start(board: BoardB, turn: Side, white: PlayerType, black: PlayerType, flipped: bool) -> (g:
        GameB)
        requires
            board.wf(),
        ensures
            g.wf(),
            g.state == GameState::Running,
            g.board == board,
            g.turn == turn,
            g.white == white,
            g.black == black,
            g.flipped == flipped,
            g.captured_pieces@.len() == 0,
            g.last_move is None,
    {
        let mut mvs = HashMap::with_capacity(16);
        board.valid_moves(turn, &mut mvs);
        let check = (Self::in_check(&board, Side::White), Self::in_check(&board, Side::Black));
        GameB {
            state: GameState::Running,
            board,
            possible_moves: mvs,
            captured_pieces: Vec::new(),
            turn,
            white,
            black,
            check,
            last_move: None,
            flipped,
        }
    }

    fn in_check(board: &BoardB, side: Side) -> (r: bool)
        requires
            board.wf(),
        ensures
            r == board@.in_check(side),
    {
        let mvs = board.valid_moves_as_array(side.not(), false, true);
        proof {
            board@.lemma_attack_in_array(side.opposite(), mvs@, board@.king(side) as int);
        }
        board.is_check(&mvs, side)
    }

    /// A game from the starting position, White to move.
    pub fn new(white: PlayerType, black: PlayerType, flipped: bool) -> (g: GameB)
        ensures
            g.wf(),
            g.state == GameState::Running,
            g.board@ == Position::starting(),
            g.turn == Side::White,
            g.white == white,
            g.black == black,
            g.flipped == flipped,
            g.captured_pieces@.len() == 0,
            g.last_move is None,
            g.sound(),
    {
        proof {
            lemma_start_is_sound();
        }
        Self::start(BoardB::with_starting_pos(), Side::White, white, black, flipped)
    }

    /// A game between two people at one board.
    pub fn versus() -> (g: GameB)
        ensures
            g.wf(),
            g.state == GameState::Running,
            g.board@ == Position::starting(),
            g.turn == Side::White,
            g.white == PlayerType::Me,
            g.black == PlayerType::Me,
            !g.flipped,
            g.sound(),
    {
        Self::new(PlayerType::Me, PlayerType::Me, false)
    }

    /// A game against someone at the far end of a connection, who plays White
    /// if `flipped`.
    pub fn remote(flipped: bool) -> (g: GameB)
        ensures
            g.wf(),
            g.state == GameState::Running,
            g.board@ == Position::starting(),
            g.turn == Side::White,
            g.white == (if flipped {
                PlayerType::Remote
            } else {
                PlayerType::Me
            }),
            g.black == (if flipped {
                PlayerType::Me
            } else {
                PlayerType::Remote
            }),
            g.flipped == flipped,
            g.sound(),
    {
        let me = PlayerType::Me;
        let rm = PlayerType::Remote;
        let (white, black) = if flipped {
            (rm, me)
        } else {
            (me, rm)
        };
        Self::new(white, black, flipped)
    }

    /// A game against the search, which plays White if `is_white`.
    pub fn cpu(depth: usize, is_white: bool) -> (g: GameB)
        ensures
            g.wf(),
            g.state == GameState::Running,
            g.board@ == Position::starting(),
            g.turn == Side::White,
            g.white == (if is_white {
                PlayerType::Cpu { depth }
            } else {
                PlayerType::Me
            }),
            g.black == (if is_white {
                PlayerType::Me
            } else {
                PlayerType::Cpu { depth }
            }),
            g.flipped == is_white,
            g.sound(),
    {
        let cpu = PlayerType::Cpu { depth };
        let me = PlayerType::Me;
        let (white, black) = if is_white {
            (cpu, me)
        } else {
            (me, cpu)
        };
        Self::new(white, black, is_white)
    }

    /// A game of the search against itself.
    pub fn vcpu(depth: usize) -> (g: GameB)
        ensures
            g.wf(),
            g.state == GameState::Running,
            g.board@ == Position::starting(),
            g.turn == Side::White,
            g.white == (PlayerType::Cpu { depth }),
            g.black == (PlayerType::Cpu { depth }),
            !g.flipped,
            g.sound(),
    {
        Self::new(PlayerType::Cpu { depth }, PlayerType::Cpu { depth }, false)
    }

    /// A game from the position and with the side to move that `fen`
    /// describes.
    pub fn from_fen(white: PlayerType, black: PlayerType, fen: &str, flipped: bool) -> (r: Result<
        GameB,
        FenError,
    >)
        requires
            letters_known(field(fen@, 0)->0),
        ensures
            match r {
                Ok(g) => {
                    &&& parse_fen(fen@) == Ok::<(Position, Side), FenError>((g.board@, g.turn))
                    &&& g.wf()
                    &&& g.state == GameState::Running
                    &&& g.white == white
                    &&& g.black == black
                    &&& g.flipped == flipped
                    &&& g.captured_pieces@.len() == 0
                    &&& g.last_move is None
                },
                Err(e) => parse_fen(fen@) == Err::<(Position, Side), FenError>(e),
            },
    {
        match BoardB::from_fen(fen) {
            Ok((board, turn)) => Ok(Self::start(board, turn, white, black, flipped)),
            Err(e) => Err(e),
        }
    }

    /// Hands the move to the other side.
    pub fn change_turn(&mut self)
        ensures
            final(self).turn == old(self).turn.opposite(),
            final(self).state == old(self).state,
            final(self).board == old(self).board,
            final(self).possible_moves == old(self).possible_moves,
            final(self).captured_pieces == old(self).captured_pieces,
            final(self).black == old(self).black,
            final(self).white == old(self).white,
            final(self).check == old(self).check,
            final(self).flipped == old(self).flipped,
            final(self).last_move == old(self).last_move,
    {
        self.turn = match self.turn {
            Side::Black => Side::White,
            Side::White => Side::Black,
        };
    }

    /// Who plays the side to move.
    pub fn turn(&self) -> (p: &PlayerType)
        ensures
            *p == (match self.turn {
                Side::Black => self.black,
                Side::White => self.white,
            }),
    {
        match self.turn {
            Side::Black => &self.black,
            Side::White => &self.white,
        }
    }

    /// Who plays the side to move, to be changed in place.
    pub fn turn_mut(&mut self) -> (p: &mut PlayerType)
        ensures
            *p == (match old(self).turn {
                Side::Black => old(self).black,
                Side::White => old(self).white,
            }),
            *final(self) == (match old(self).turn {
                Side::Black => GameB { black: *final(p), ..*old(self) },
                Side::White => GameB { white: *final(p), ..*old(self) },
            }),
    {
        match self.turn {
            Side::Black => &mut self.black,
            Side::White => &mut self.white,
        }
    }

    /// Plays the move from `from` to `to` if the game goes on and the move is
    /// legal for the side to move, and says whether it did.
    ///
    /// A move that is played is applied to the board and recorded as the last
    /// move, and what it takes on `to` joins the captured pieces. The turn
    /// passes to the other side, whose legal moves and both sides' check
    /// flags are computed afresh. If that side has no legal move, the game
    /// ends: won by the side that moved if the other is in check, drawn if
    /// not. A move that is not played changes nothing.
    pub fn make_move(&mut self, from: u8, to: u8) -> (played: bool)
        requires
            old(self).wf(),
        ensures
            played == old(self).accepts(from, to),
            played <==> old(self).state == GameState::Running && old(self).board@.legal(
                old(self).turn,
                from as int,
                to as int,
            ),
            !played ==> *final(self) == *old(self),
            played ==> {
                &&& final(self).board@ == old(self).board@.after_move(from as int, to as int)
                &&& final(self).turn == old(self).turn.opposite()
                &&& final(self).last_move == Some((from, to))
                &&& final(self).captured_pieces@ == (match old(self).board@.sq(to as int) {
                    Some(p) => old(self).captured_pieces@.push(p),
                    None => old(self).captured_pieces@,
                })
                &&& final(self).state == final(self).board@.outcome(final(self).turn)
                &&& final(self).white == old(self).white
                &&& final(self).black == old(self).black
                &&& final(self).flipped == old(self).flipped
            },
            final(self).wf(),
            old(self).sound() ==> final(self).sound(),
    {
        broadcast use vstd::std_specs::hash::group_hash_axioms;

        match self.state {
            GameState::Running => {},
            _ => {
                return false;
            },
        }
        if to >= 64 {
            return false;
        }
        let listed = match self.possible_moves.get(&from) {
            Some(moves_for_piece) => test_bit(*moves_for_piece, to),
            None => false,
        };
        if !listed {
            return false;
        }
        assert(self.board@.legal(self.turn, from as int, to as int));
        proof {
            if self.sound() {
                self.board@.lemma_legal_move_keeps_sound(self.turn, from as int, to as int);
            }
        }
        if let Some(captured_piece) = self.board.make_move(from, to) {
            self.captured_pieces.push(captured_piece);
        }
        self.last_move = Some((from, to));
        self.change_turn();
        let board = self.board;
        let (_, legal_moves) = board.valid_moves(self.turn, &mut self.possible_moves);
        self.check = (Self::in_check(&board, Side::White), Self::in_check(&board, Side::Black));
        proof {
            self.board@.lemma_can_move_iff_counted(self.turn);
        }
        if legal_moves == 0 {
            let check = match self.turn {
                Side::White => self.check.0,
                Side::Black => self.check.1,
            };
            if check {
                self.state = GameState::Winner(self.turn.not());
            } else {
                self.state = GameState::Draw;
            }
        }
        true
    }

    /// Plays the move that the search to `depth` chooses for the side to move,
    /// and returns it; nothing is played and nothing returned once the game
    /// has ended or where the side to move has no legal move.
    pub fn make_best_move(&mut self, depth: usize) -> (played: Option<(u8, u8)>)
        requires
            old(self).wf(),
        ensures
            final(self).wf(),
            old(self).sound() ==> final(self).sound(),
            match played {
                Some((from, to)) => {
                    &&& old(self).state == GameState::Running
                    &&& old(self).board@.is_best(
                        old(self).turn,
                        plies_below(depth),
                        from as int,
                        to as int,
                    )
                    &&& final(self).board@ == old(self).board@.after_move(from as int, to as int)
                    &&& final(self).turn == old(self).turn.opposite()
                    &&& final(self).last_move == Some((from, to))
                    &&& final(self).state == final(self).board@.outcome(final(self).turn)
                },
                None => *final(self) == *old(self) && (old(self).state != GameState::Running
                    || !old(self).board@.can_move(old(self).turn)),
            },
    {
        match self.state {
            GameState::Running => {},
            _ => {
                return None;
            },
        }
        match best_move(&self.board, depth, self.turn) {
            Some((mv, _)) => {
                let played = self.make_move(mv.0, mv.1);
                assert(played);
                Some(mv)
            },
            None => None,
        }
    }
}

} // verus!
