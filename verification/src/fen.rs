//! Reading a position from its description: the piece placement, the side to
//! move, the castling rights, the en-passant square and two move counters,
//! separated by single spaces.
//!
//! The en-passant square is the one that a pawn has just passed over in
//! advancing two ranks; the position keeps the square on which that pawn
//! stands.
//!
//! The placement lists the ranks from the eighth down to the first, separated
//! by `/`; within a rank a digit skips that many squares and a letter puts a
//! piece on the next square (`p r n b q k`, upper case for White, lower case
//! for Black).

use vstd::prelude::*;
use vstd::string::StrSliceExecFns;
use crate::boardb::{forward, square, BoardB, Piece, Position, NO_EN_PASSANT};
use crate::castle::Castle;
use crate::pieces::{PieceType, Side};

verus! {

/// Why a description was rejected.
#[derive(Clone, Copy, PartialEq, Eq, Structural, Debug)]
pub enum FenError {
    /// The side to move is missing or neither `w` nor `b`.
    Turn,
    /// A piece is placed off the board, or something follows the last field.
    Cursor,
    /// The castling rights hold a character other than `K`, `Q`, `k`, `q`.
    Castle,
    /// The en-passant square is missing, names no square, or has no square
    /// behind it for the pawn that passed it.
    EnPassant,
    /// The placement holds a character that is no piece, digit or `/`.
    Pieces,
    /// The first move counter is missing or no number.
    HalfMoves,
    /// The second move counter is missing or no number.
    FullMoves,
    /// The field with this number, counted from the side to move, is missing.
    MissingSection(u32),
}

/// The index of the first space at or after `start`, or the length of the text.
pub open spec fn field_end(s: Seq<char>, start: int) -> int
    decreases s.len() - start,
{
    if start < 0 || start >= s.len() {
        s.len() as int
    } else if s[start] == ' ' {
        start
    } else {
        field_end(s, start + 1)
    }
}

/// Where field `k` starts, if the text has that many fields.
pub open spec fn field_start(s: Seq<char>, k: nat) -> Option<int>
    decreases k,
{
    if k == 0 {
        Some(0)
    } else {
        match field_start(s, (k - 1) as nat) {
            Some(b) => if field_end(s, b) < s.len() {
                Some(field_end(s, b) + 1)
            } else {
                None
            },
            None => None,
        }
    }
}

/// Field `k` of the text, the fields being what single spaces separate.
pub open spec fn field(s: Seq<char>, k: nat) -> Option<Seq<char>> {
    match field_start(s, k) {
        Some(b) => Some(s.subrange(b, field_end(s, b))),
        None => None,
    }
}

/// The number of squares that a digit of the placement skips.
pub open spec fn skip_of(c: char) -> Option<int> {
    if c == '0' {
        Some(0)
    } else if c == '1' {
        Some(1)
    } else if c == '2' {
        Some(2)
    } else if c == '3' {
        Some(3)
    } else if c == '4' {
        Some(4)
    } else if c == '5' {
        Some(5)
    } else if c == '6' {
        Some(6)
    } else if c == '7' {
        Some(7)
    } else if c == '8' {
        Some(8)
    } else {
        None
    }
}

/// A letter from `a` to `z` in either case.
pub open spec fn is_letter(c: char) -> bool {
    ('a' <= c && c <= 'z') || ('A' <= c && c <= 'Z')
}

/// The kind of piece that a lower-case letter stands for.
pub open spec fn kind_of(c: char) -> Option<PieceType> {
    if c == 'p' {
        Some(PieceType::Pawn)
    } else if c == 'r' {
        Some(PieceType::Rook)
    } else if c == 'n' {
        Some(PieceType::Knight)
    } else if c == 'b' {
        Some(PieceType::Bishop)
    } else if c == 'q' {
        Some(PieceType::Queen)
    } else if c == 'k' {
        Some(PieceType::King)
    } else {
        None
    }
}

/// The lower-case form of an upper-case piece letter.
pub open spec fn lowered(c: char) -> char {
    if c == 'P' {
        'p'
    } else if c == 'R' {
        'r'
    } else if c == 'N' {
        'n'
    } else if c == 'B' {
        'b'
    } else if c == 'Q' {
        'q'
    } else if c == 'K' {
        'k'
    } else {
        c
    }
}

/// The piece that a letter stands for: lower case for Black, upper case for
/// White.
pub open spec fn piece_of(c: char) -> Option<Piece> {
    if 'a' <= c && c <= 'z' {
        match kind_of(c) {
            Some(ty) => Some(Piece { ty, side: Side::Black }),
            None => None,
        }
    } else if 'A' <= c && c <= 'Z' && lowered(c) != c {
        match kind_of(lowered(c)) {
            Some(ty) => Some(Piece { ty, side: Side::White }),
            None => None,
        }
    } else {
        None
    }
}

/// Every letter of the text stands for a piece.
pub open spec fn letters_known(s: Seq<char>) -> bool {
    forall|i: int| 0 <= i < s.len() && is_letter(#[trigger] s[i]) ==> piece_of(s[i]) is Some
}

/// What the placement has put on the board so far, and where the next piece
/// goes: on file `col` of the rank `row` ranks below the eighth.
pub struct Placement {
    pub squares: Seq<Option<Piece>>,
    pub kings: (u8, u8),
    pub col: int,
    pub row: int,
}

/// The effect of one character of the placement.
pub open spec fn place_char(st: Placement, c: char) -> Result<Placement, FenError> {
    if c == '/' {
        Ok(Placement { col: 0, row: st.row + 1, ..st })
    } else if skip_of(c) is Some {
        Ok(Placement { col: st.col + skip_of(c)->0, ..st })
    } else if is_letter(c) {
        if st.row > 7 || st.col > 7 {
            Err(FenError::Cursor)
        } else {
            let p = piece_of(c)->0;
            let i = square(st.col, 7 - st.row);
            Ok(
                Placement {
                    squares: st.squares.update(i, Some(p)),
                    kings: if p.ty == PieceType::King {
                        if p.side == Side::White {
                            (i as u8, st.kings.1)
                        } else {
                            (st.kings.0, i as u8)
                        }
                    } else {
                        st.kings
                    },
                    col: st.col + 1,
                    row: st.row,
                },
            )
        }
    } else {
        Err(FenError::Pieces)
    }
}

/// The effect of the placement `s` on the state `st`, or the error at the
/// first character that is rejected.
pub open spec fn place_all(st: Placement, s: Seq<char>) -> Result<Placement, FenError>
    decreases s.len(),
{
    if s.len() == 0 {
        Ok(st)
    } else {
        match place_char(st, s[0]) {
            Ok(next) => place_all(next, s.drop_first()),
            Err(e) => Err(e),
        }
    }
}

/// The empty board, with the next piece due on the first file of the eighth
/// rank.
pub open spec fn nothing_placed() -> Placement {
    Placement { squares: Seq::new(64, |i: int| None), kings: (0, 0), col: 0, row: 0 }
}

/// What the placement `s` puts on the empty board, or the error at the first
/// character that is rejected.
pub open spec fn place(s: Seq<char>) -> Result<Placement, FenError> {
    place_all(nothing_placed(), s)
}

/// The side that the second field names.
pub open spec fn turn_of(s: Seq<char>) -> Option<Side> {
    if s =~= seq!['w'] {
        Some(Side::White)
    } else if s =~= seq!['b'] {
        Some(Side::Black)
    } else {
        None
    }
}

/// One of the four letters that grant a castling right.
pub open spec fn is_castle_char(c: char) -> bool {
    c == 'K' || c == 'Q' || c == 'k' || c == 'q'
}

/// The castling rights of White and of Black that the third field grants:
/// `-` for none, else a right for each of `K`, `Q`, `k`, `q` that occurs.
pub open spec fn castle_of(s: Seq<char>) -> Result<(Castle, Castle), FenError> {
    if s =~= seq!['-'] {
        Ok((Castle { short: false, long: false }, Castle { short: false, long: false }))
    } else if forall|i: int| 0 <= i < s.len() ==> is_castle_char(#[trigger] s[i]) {
        Ok(
            (
                Castle { short: s.contains('K'), long: s.contains('Q') },
                Castle { short: s.contains('k'), long: s.contains('q') },
            ),
        )
    } else {
        Err(FenError::Castle)
    }
}

/// The file that a letter from `a` to `h` names.
pub open spec fn file_of(c: char) -> Option<int> {
    if c == 'a' {
        Some(0)
    } else if c == 'b' {
        Some(1)
    } else if c == 'c' {
        Some(2)
    } else if c == 'd' {
        Some(3)
    } else if c == 'e' {
        Some(4)
    } else if c == 'f' {
        Some(5)
    } else if c == 'g' {
        Some(6)
    } else if c == 'h' {
        Some(7)
    } else {
        None
    }
}

/// The rank that a digit from `1` to `8` names.
pub open spec fn rank_of(c: char) -> Option<int> {
    match skip_of(c) {
        Some(d) => if d >= 1 {
            Some(d - 1)
        } else {
            None
        },
        None => None,
    }
}

/// The en-passant target that the fourth field names when `turn` is to move:
/// none for `-`, else the square of the pawn that has passed over the square
/// with that file letter and rank digit, which lies one rank further in the
/// direction of the side that has just moved.
pub open spec fn target_of(s: Seq<char>, turn: Side) -> Result<u8, FenError> {
    if s =~= seq!['-'] {
        Ok(NO_EN_PASSANT)
    } else if s.len() == 2 && file_of(s[0]) is Some && rank_of(s[1]) is Some {
        let passed = square(file_of(s[0])->0, rank_of(s[1])->0);
        let target = passed + 8 * forward(turn.opposite());
        if 0 <= target < 64 {
            Ok(target as u8)
        } else {
            Err(FenError::EnPassant)
        }
    } else {
        Err(FenError::EnPassant)
    }
}

/// The text is a number: one or more decimal digits.
pub open spec fn is_count(s: Seq<char>) -> bool {
    s.len() > 0 && forall|i: int| 0 <= i < s.len() ==> '0' <= #[trigger] s[i] <= '9'
}

/// The position and the side to move that a description stands for, or the
/// error of the first field that is rejected.
pub open spec fn parse_fen(s: Seq<char>) -> Result<(Position, Side), FenError> {
    let pieces = field(s, 0)->0;
    match place(pieces) {
        Err(e) => Err(e),
        Ok(st) => if field(s, 1) is None || turn_of(field(s, 1)->0) is None {
            Err(FenError::Turn)
        } else if field(s, 2) is None {
            Err(FenError::MissingSection(1))
        } else if castle_of(field(s, 2)->0) is Err {
            Err(FenError::Castle)
        } else if field(s, 3) is None || target_of(field(s, 3)->0, turn_of(field(s, 1)->0)->0)
            is Err {
            Err(FenError::EnPassant)
        } else if field(s, 4) is None || !is_count(field(s, 4)->0) {
            Err(FenError::HalfMoves)
        } else if field(s, 5) is None || !is_count(field(s, 5)->0) {
            Err(FenError::FullMoves)
        } else if field(s, 6) is Some {
            Err(FenError::Cursor)
        } else {
            let rights = castle_of(field(s, 2)->0)->Ok_0;
            Ok(
                (
                    Position {
                        squares: st.squares,
                        white_castle: rights.0,
                        black_castle: rights.1,
                        kings: st.kings,
                        en_passant: target_of(field(s, 3)->0, turn_of(field(s, 1)->0)->0)->Ok_0,
                    },
                    turn_of(field(s, 1)->0)->0,
                ),
            )
        },
    }
}

/// The characters of a text.
pub fn chars_of(s: &str) -> (v: Vec<char>)
    ensures
        v@ == s@,
{
    let n = s.unicode_len();
    let mut v: Vec<char> = Vec::new();
    let mut i: usize = 0;
    while i < n
        invariant
            i <= n,
            n == s@.len(),
            v@ == s@.subrange(0, i as int),
        decreases n - i,
    {
        v.push(s.get_char(i));
        assert(v@ =~= s@.subrange(0, i + 1));
        i += 1;
    }
    assert(v@ =~= s@);
    v
}

/// The field that starts at `start`, and the index of the space that ends it
/// or the length of the text.
fn take_field(v: &Vec<char>, start: usize) -> (r: (Vec<char>, usize))
    requires
        start <= v@.len(),
    ensures
        r.1 == field_end(v@, start as int),
        start <= r.1 <= v@.len(),
        r.0@ == v@.subrange(start as int, r.1 as int),
{
    let mut out: Vec<char> = Vec::new();
    let mut i = start;
    while i < v.len() && v[i] != ' '
        invariant
            start <= i <= v@.len(),
            field_end(v@, start as int) == field_end(v@, i as int),
            out@ == v@.subrange(start as int, i as int),
        decreases v@.len() - i,
    {
        out.push(v[i]);
        assert(out@ =~= v@.subrange(start as int, i + 1));
        i += 1;
    }
    (out, i)
}

fn skip_digit(c: char) -> (r: Option<u8>)
    ensures
        match r {
            Some(d) => skip_of(c) == Some(d as int),
            None => skip_of(c) is None,
        },
{
    match c {
        '0' => Some(0),
        '1' => Some(1),
        '2' => Some(2),
        '3' => Some(3),
        '4' => Some(4),
        '5' => Some(5),
        '6' => Some(6),
        '7' => Some(7),
        '8' => Some(8),
        _ => None,
    }
}

fn file_letter(c: char) -> (r: Option<u8>)
    ensures
        match r {
            Some(d) => file_of(c) == Some(d as int),
            None => file_of(c) is None,
        },
{
    match c {
        'a' => Some(0),
        'b' => Some(1),
        'c' => Some(2),
        'd' => Some(3),
        'e' => Some(4),
        'f' => Some(5),
        'g' => Some(6),
        'h' => Some(7),
        _ => None,
    }
}

/// The piece that a letter stands for, if it stands for one.
pub fn piece_of_letter(c: char) -> (r: Option<Piece>)
    ensures
        r == piece_of(c),
{
    match c {
        'p' => Some(Piece::new(PieceType::Pawn, Side::Black)),
        'r' => Some(Piece::new(PieceType::Rook, Side::Black)),
        'n' => Some(Piece::new(PieceType::Knight, Side::Black)),
        'b' => Some(Piece::new(PieceType::Bishop, Side::Black)),
        'q' => Some(Piece::new(PieceType::Queen, Side::Black)),
        'k' => Some(Piece::new(PieceType::King, Side::Black)),
        'P' => Some(Piece::new(PieceType::Pawn, Side::White)),
        'R' => Some(Piece::new(PieceType::Rook, Side::White)),
        'N' => Some(Piece::new(PieceType::Knight, Side::White)),
        'B' => Some(Piece::new(PieceType::Bishop, Side::White)),
        'Q' => Some(Piece::new(PieceType::Queen, Side::White)),
        'K' => Some(Piece::new(PieceType::King, Side::White)),
        _ => None,
    }
}

fn letter(c: char) -> (r: bool)
    ensures
        r == is_letter(c),
{
    ('a' <= c && c <= 'z') || ('A' <= c && c <= 'Z')
}

/// Whether every letter in the placement of a description stands for a piece.
pub fn placement_letters_known(fen: &str) -> (r: bool)
    ensures
        r == letters_known(field(fen@, 0)->0),
{
    let v = chars_of(fen);
    let (pieces, _) = take_field(&v, 0);
    let mut i: usize = 0;
    while i < pieces.len()
        invariant
            i <= pieces@.len(),
            pieces@ == field(fen@, 0)->0,
            forall|k: int|
                0 <= k < i && is_letter(#[trigger] pieces@[k]) ==> piece_of(pieces@[k]) is Some,
        decreases pieces@.len() - i,
    {
        if letter(pieces[i]) && piece_of_letter(pieces[i]).is_none() {
            return false;
        }
        i += 1;
    }
    true
}

fn read_placement(s: &Vec<char>) -> (r: Result<([Option<Piece>; 64], (u8, u8)), FenError>)
    requires
        letters_known(s@),
    ensures
        match r {
            Ok((board, kings)) => place(s@) is Ok && board@ == place(s@)->Ok_0.squares && kings
                == place(s@)->Ok_0.kings && kings.0 < 64 && kings.1 < 64,
            Err(e) => place(s@) == Err::<Placement, FenError>(e),
        },
{
    let mut board: [Option<Piece>; 64] = [None; 64];
    let mut kings: (u8, u8) = (0, 0);
    let mut col: u128 = 0;
    let mut row: u128 = 0;
    let mut i: usize = 0;
    assert(board@ =~= nothing_placed().squares);
    assert(s@.subrange(0, s@.len() as int) =~= s@);
    while i < s.len()
        invariant
            i <= s@.len(),
            letters_known(s@),
            place(s@) == place_all(
                Placement { squares: board@, kings, col: col as int, row: row as int },
                s@.subrange(i as int, s@.len() as int),
            ),
            col <= 8 * i,
            row <= i,
            kings.0 < 64,
            kings.1 < 64,
        decreases s@.len() - i,
    {
        let c = s[i];
        proof {
            let rest = s@.subrange(i as int, s@.len() as int);
            assert(rest[0] == c);
            assert(rest.drop_first() =~= s@.subrange(i + 1, s@.len() as int));
        }
        if c == '/' {
            row = row + 1;
            col = 0;
        } else if let Some(d) = skip_digit(c) {
            col = col + d as u128;
        } else if letter(c) {
            if row > 7 || col > 7 {
                return Err(FenError::Cursor);
            }
            let piece = piece_of_letter(c).unwrap();
            let at = (col + 8 * (7 - row)) as u8;
            board[at as usize] = Some(piece);
            if piece.ty == PieceType::King {
                if piece.side == Side::White {
                    kings.0 = at;
                } else {
                    kings.1 = at;
                }
            }
            col = col + 1;
        } else {
            return Err(FenError::Pieces);
        }
        i += 1;
    }
    Ok((board, kings))
}

fn read_turn(s: &Vec<char>) -> (r: Option<Side>)
    ensures
        r == turn_of(s@),
{
    if s.len() == 1 && s[0] == 'w' {
        assert(s@ =~= seq!['w']);
        Some(Side::White)
    } else if s.len() == 1 && s[0] == 'b' {
        assert(s@ =~= seq!['b']);
        Some(Side::Black)
    } else {
        proof {
            if s@ =~= seq!['w'] {
                assert(s@[0] == 'w');
            }
            if s@ =~= seq!['b'] {
                assert(s@[0] == 'b');
            }
        }
        None
    }
}

fn read_castle(s: &Vec<char>) -> (r: Result<(Castle, Castle), FenError>)
    ensures
        r == castle_of(s@),
{
    let mut black = Castle::forbid();
    let mut white = Castle::forbid();
    if s.len() == 1 && s[0] == '-' {
        assert(s@ =~= seq!['-']);
        return Ok((white, black));
    }
    proof {
        if s@ =~= seq!['-'] {
            assert(s@[0] == '-');
        }
    }
    let mut i: usize = 0;
    while i < s.len()
        invariant
            i <= s@.len(),
            !(s@ =~= seq!['-']),
            forall|k: int| 0 <= k < i ==> is_castle_char(#[trigger] s@[k]),
            white.short == s@.subrange(0, i as int).contains('K'),
            white.long == s@.subrange(0, i as int).contains('Q'),
            black.short == s@.subrange(0, i as int).contains('k'),
            black.long == s@.subrange(0, i as int).contains('q'),
        decreases s@.len() - i,
    {
        let c = s[i];
        proof {
            let a = s@.subrange(0, i as int);
            let b = s@.subrange(0, i + 1);
            assert(b =~= a.push(c));
            assert forall|x: char| b.contains(x) <==> a.contains(x) || x == c by {
                if a.contains(x) {
                    let k = choose|k: int| 0 <= k < a.len() && a[k] == x;
                    assert(b[k] == x);
                }
                if x == c {
                    assert(b[i as int] == x);
                }
            }
        }
        match c {
            'K' => {
                white.short = true;
            },
            'Q' => {
                white.long = true;
            },
            'k' => {
                black.short = true;
            },
            'q' => {
                black.long = true;
            },
            _ => {
                return Err(FenError::Castle);
            },
        }
        i += 1;
    }
    assert(s@.subrange(0, s@.len() as int) =~= s@);
    Ok((white, black))
}

fn read_target(s: &Vec<char>, turn: Side) -> (r: Result<u8, FenError>)
    ensures
        r == target_of(s@, turn),
{
    if s.len() == 1 && s[0] == '-' {
        assert(s@ =~= seq!['-']);
        return Ok(NO_EN_PASSANT);
    }
    proof {
        if s@ =~= seq!['-'] {
            assert(s@[0] == '-');
        }
    }
    if s.len() != 2 {
        return Err(FenError::EnPassant);
    }
    match (file_letter(s[0]), skip_digit(s[1])) {
        (Some(x), Some(d)) => {
            if d >= 1 {
                let passed: u8 = x + 8 * (d - 1);
                match turn {
                    Side::Black => if passed < 56 {
                        Ok(passed + 8)
                    } else {
                        Err(FenError::EnPassant)
                    },
                    Side::White => if passed >= 8 {
                        Ok(passed - 8)
                    } else {
                        Err(FenError::EnPassant)
                    },
                }
            } else {
                Err(FenError::EnPassant)
            }
        },
        _ => Err(FenError::EnPassant),
    }
}

fn read_count(s: &Vec<char>) -> (r: bool)
    ensures
        r == is_count(s@),
{
    if s.len() == 0 {
        return false;
    }
    let mut i: usize = 0;
    while i < s.len()
        invariant
            i <= s@.len(),
            forall|k: int| 0 <= k < i ==> '0' <= #[trigger] s@[k] <= '9',
        decreases s@.len() - i,
    {
        if !('0' <= s[i] && s[i] <= '9') {
            return false;
        }
        i += 1;
    }
    true
}

impl Castle {
    /// Reads the castling rights of White and of Black: `-` for none, else a
    /// right for each of `K`, `Q`, `k`, `q` that occurs. Any other character
    /// is rejected.
    pub fn from_fen(fen: &str) -> (r: Result<(Castle, Castle), FenError>)
        ensures
            r == castle_of(fen@),
    {
        let v = chars_of(fen);
        read_castle(&v)
    }
}

impl BoardB {
    /// Reads a position and the side to move from their description.
    ///
    /// The fields are read in order, and the first one that is rejected gives
    /// the error: a placement that puts a piece off the board (`Cursor`) or
    /// holds a character that is no piece, digit or `/` (`Pieces`); a side to
    /// move that is missing or neither `w` nor `b` (`Turn`); missing castling
    /// rights (`MissingSection(1)`) or ones with a foreign character
    /// (`Castle`); an en-passant square that is missing, names no square or has
    /// no square behind it for the pawn that passed it (`EnPassant`); a move
    /// counter that is missing or no number
    /// (`HalfMoves`, `FullMoves`); anything after the sixth field (`Cursor`).
    pub fn from_fen(fen: &str) -> (r: Result<(BoardB, Side), FenError>)
        requires
            letters_known(field(fen@, 0)->0),
        ensures
            match r {
                Ok((board, turn)) => parse_fen(fen@) == Ok::<(Position, Side), FenError>(
                    (board@, turn),
                ) && board.wf(),
                Err(e) => parse_fen(fen@) == Err::<(Position, Side), FenError>(e),
            },
    {
        let v = chars_of(fen);
        let (pieces, e0) = take_field(&v, 0);
        let (board, kings) = match read_placement(&pieces) {
            Ok(placed) => placed,
            Err(e) => {
                return Err(e);
            },
        };
        if e0 >= v.len() {
            return Err(FenError::Turn);
        }
        let (f1, e1) = take_field(&v, e0 + 1);
        let turn = match read_turn(&f1) {
            Some(side) => side,
            None => {
                return Err(FenError::Turn);
            },
        };
        if e1 >= v.len() {
            return Err(FenError::MissingSection(1));
        }
        let (f2, e2) = take_field(&v, e1 + 1);
        let (white_castle, black_castle) = match read_castle(&f2) {
            Ok(rights) => rights,
            Err(e) => {
                return Err(e);
            },
        };
        if e2 >= v.len() {
            return Err(FenError::EnPassant);
        }
        let (f3, e3) = take_field(&v, e2 + 1);
        let en_passant = match read_target(&f3, turn) {
            Ok(target) => target,
            Err(e) => {
                return Err(e);
            },
        };
        if e3 >= v.len() {
            return Err(FenError::HalfMoves);
        }
        let (f4, e4) = take_field(&v, e3 + 1);
        if !read_count(&f4) {
            return Err(FenError::HalfMoves);
        }
        if e4 >= v.len() {
            return Err(FenError::FullMoves);
        }
        let (f5, e5) = take_field(&v, e4 + 1);
        if !read_count(&f5) {
            return Err(FenError::FullMoves);
        }
        if e5 < v.len() {
            return Err(FenError::Cursor);
        }
        proof {
            reveal_with_fuel(field_start, 8);
        }
        Ok((BoardB { board, white_castle, black_castle, kings, en_passant }, turn))
    }
}

} // verus!
