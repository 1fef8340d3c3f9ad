//! A chess rules engine: a board of 64 squares, the moves of the pieces,
//! check and the legal moves of a side, the course of a game, and a search
//! that chooses a move. Every function carries a contract that is checked by
//! machine, and what holds of the rules in general is stated and proved
//! beside them.
//!
//! - `pieces`, `castle`, `bits`: pieces, castling rights, sets of squares.
//! - `boardb`: the position and the effect of a move on it.
//! - `moves`, `legal`: how the pieces move, threats, check, legal moves.
//! - `sound`, `laws`: the positions a game can reach, and what holds in them.
//! - `fen`, `notation`, `rows`: reading and writing positions as text.
//! - `material`, `search`: evaluation and the choice of a move.
//! - `gameb`: a game in progress.
//! - `boardc`, `gamec`: the position packed into few bytes, and a game on it.
//! - `display`, `dtos`, `figures`: what a display and a connection need.

pub mod bits;
pub mod boardb;
pub mod boardc;
pub mod castle;
pub mod display;
pub mod dtos;
pub mod fen;
pub mod figures;
pub mod gameb;
pub mod gamec;
pub mod laws;
pub mod legal;
pub mod material;
pub mod moves;
pub mod notation;
pub mod pieces;
pub mod rows;
pub mod search;
pub mod sound;
