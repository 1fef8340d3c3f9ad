//! The position packed into few bytes: a set of the occupied squares, and the
//! pieces on them as half-bytes in the order of their squares.

use vstd::prelude::*;
use crate::bits::{
    count_bits, holds, lemma_count_added, lemma_count_grows, lemma_count_removed, test_bit,
    with_bit, without_bit,
};
use crate::boardb::{BoardB, Position, NO_EN_PASSANT};
use crate::castle::Castle;
use crate::pieces::{PieceType, Side};

verus! {

/// A piece as a half-byte: the kind in the three low bits, and the fourth bit
/// set for Black. The four high bits of the byte are not looked at.
pub type Piece = u8;

/// The half-byte that stands for no piece.
pub const NO_PIECE: u8 = 15;

/// The kind that a code's three low bits stand for.
pub open spec fn code_kind(c: u8) -> Option<PieceType> {
    if c % 8 == 0 {
        Some(PieceType::Queen)
    } else if c % 8 == 1 {
        Some(PieceType::King)
    } else if c % 8 == 2 {
        Some(PieceType::Knight)
    } else if c % 8 == 3 {
        Some(PieceType::Bishop)
    } else if c % 8 == 4 {
        Some(PieceType::Rook)
    } else if c % 8 == 5 {
        Some(PieceType::Pawn)
    } else {
        None
    }
}

/// The side that a code's fourth bit stands for.
pub open spec fn code_side(c: u8) -> Side {
    if (c / 8) % 2 == 1 {
        Side::Black
    } else {
        Side::White
    }
}

/// The number that stands for a kind.
pub open spec fn kind_number(ty: PieceType) -> int {
    match ty {
        PieceType::Queen => 0,
        PieceType::King => 1,
        PieceType::Knight => 2,
        PieceType::Bishop => 3,
        PieceType::Rook => 4,
        PieceType::Pawn => 5,
    }
}

/// The code of a piece of kind `ty` and side `side`.
pub open spec fn code_of(ty: PieceType, side: Side) -> u8 {
    (kind_number(ty) + if side == Side::Black {
        8int
    } else {
        0int
    }) as u8
}

/// The material worth of the kind that a code stands for; 0 for a king and
/// for a code that stands for no kind.
pub open spec fn code_value(c: u8) -> int {
    if c % 8 == 0 {
        900
    } else if c % 8 == 2 {
        300
    } else if c % 8 == 3 {
        300
    } else if c % 8 == 4 {
        500
    } else if c % 8 == 5 {
        100
    } else {
        0
    }
}

proof fn lemma_code_bits(c: u8)
    by (bit_vector)
    ensures
        c & 7 == c % 8,
        (c >> 3) & 1 == (c / 8) % 2,
        (c / 8) % 2 == 1 ==> c | 8 == c && c & 247 == c - 8,
        (c / 8) % 2 == 0 ==> c | 8 == c + 8 && c & 247 == c,
{
}

/// Reading and writing a piece's kind and side in its code.
pub trait PieceTrait {
    fn side(&self) -> Side;

    fn ty(&self) -> Option<PieceType>;

    fn from_ty_n_side(ty: PieceType, side: Side) -> Piece;

    fn to_black(&self) -> Piece;

    fn to_white(&self) -> Piece;

    fn value(&self) -> i32;
}

impl PieceTrait for Piece {
    /// The side of the piece: Black where the fourth bit is set.
    fn side(&self) -> (s: Side)
        ensures
            s == code_side(*self),
    {
        proof {
            lemma_code_bits(*self);
        }
        if ((*self >> 3) & 1) == 1 {
            Side::Black
        } else {
            Side::White
        }
    }

    /// The kind of the piece, or nothing where the three low bits stand for
    /// none.
    fn ty(&self) -> (t: Option<PieceType>)
        ensures
            t == code_kind(*self),
    {
        proof {
            lemma_code_bits(*self);
        }
        let n: u8 = *self & 7;
        if n == 0 {
            Some(PieceType::Queen)
        } else if n == 1 {
            Some(PieceType::King)
        } else if n == 2 {
            Some(PieceType::Knight)
        } else if n == 3 {
            Some(PieceType::Bishop)
        } else if n == 4 {
            Some(PieceType::Rook)
        } else if n == 5 {
            Some(PieceType::Pawn)
        } else {
            None
        }
    }

    /// The code of the piece of kind `ty` and side `side`. Its kind and side
    /// read back as those.
    fn from_ty_n_side(ty: PieceType, side: Side) -> (c: Piece)
        ensures
            c == code_of(ty, side),
            c < 16,
            code_kind(c) == Some(ty),
            code_side(c) == side,
    {
        let src: u8 = match side {
            Side::Black => 8,
            Side::White => 0,
        };
        let kind: u8 = match ty {
            PieceType::Queen => 0,
            PieceType::King => 1,
            PieceType::Knight => 2,
            PieceType::Bishop => 3,
            PieceType::Rook => 4,
            PieceType::Pawn => 5,
        };
        src + kind
    }

    /// The black piece of the same kind.
    fn to_black(&self) -> (c: Piece)
        ensures
            code_side(c) == Side::Black,
            code_kind(c) == code_kind(*self),
            c == (if code_side(*self) == Side::Black {
                *self as int
            } else {
                *self + 8
            }),
    {
        proof {
            lemma_code_bits(*self);
        }
        *self | 8
    }

    /// The white piece of the same kind.
    fn to_white(&self) -> (c: Piece)
        ensures
            code_side(c) == Side::White,
            code_kind(c) == code_kind(*self),
            c == (if code_side(*self) == Side::Black {
                *self - 8
            } else {
                *self as int
            }),
    {
        proof {
            lemma_code_bits(*self);
        }
        *self & 247
    }

    /// The material worth of the piece: pawn 100, knight and bishop 300, rook
    /// 500, queen 900, and 0 for a king and for a code that stands for no
    /// kind.
    fn value(&self) -> (v: i32)
        ensures
            v == code_value(*self),
    {
        proof {
            lemma_code_bits(*self);
        }
        let n: u8 = *self & 7;
        if n == 0 {
            900
        } else if n == 2 {
            300
        } else if n == 3 {
            300
        } else if n == 4 {
            500
        } else if n == 5 {
            100
        } else {
            0
        }
    }
}

/// Half-byte `k` of the bytes `pieces`: the high half of a byte before its
/// low half.
pub open spec fn nibble(pieces: Seq<u8>, k: int) -> u8 {
    if k % 2 == 0 {
        pieces[k / 2] / 16
    } else {
        pieces[k / 2] % 16
    }
}

/// A position, packed.
#[derive(Clone, Copy)]
pub struct BoardC {
    /// The squares that hold a piece.
    pub occupied: u64,
    /// The codes of the pieces, two to a byte, in the order of their squares.
    pub pieces: [u8; 16],
    /// Whether White may castle on the queen's and on the king's side.
    pub white_castle: (bool, bool),
    /// Whether Black may castle on the queen's and on the king's side.
    pub black_castle: (bool, bool),
    /// The square of the pawn that has just advanced two ranks; 64 or more
    /// where there is none.
    pub en_passant: u8,
}

impl View for BoardC {
    type V = Seq<Option<u8>>;

    /// The code on each of the 64 squares.
    open spec fn view(&self) -> Seq<Option<u8>> {
        Seq::new(64, |i: int| self.code_at(i))
    }
}

impl BoardC {
    /// The number of pieces on the board.
    pub open spec fn count(self) -> nat {
        count_bits(self.occupied, 64)
    }

    /// The code of the piece on square `i`: the half-byte whose place among
    /// the half-bytes is the number of occupied squares before `i`.
    pub open spec fn code_at(self, i: int) -> Option<u8> {
        if holds(self.occupied, i) {
            Some(nibble(self.pieces@, count_bits(self.occupied, i) as int))
        } else {
            None
        }
    }

    /// No more than 32 squares are occupied.
    pub open spec fn wf(self) -> bool {
        self.count() <= 32
    }

    /// Whether `i` is the index of a square.
    pub fn is_on_board(&self, i: i8) -> (r: bool)
        ensures
            r == (0 <= i < 64),
    {
        i >= 0 && i < 64
    }

    /// Whether square `i` holds a piece.
    pub fn occupied(&self, i: u8) -> (r: bool)
        ensures
            r == holds(self.occupied, i as int),
    {
        i < 64 && test_bit(self.occupied, i)
    }

    /// The number of occupied squares before square `i`.
    pub fn get_piece_index(&self, i: u8) -> (r: u8)
        requires
            i <= 64,
        ensures
            r == count_bits(self.occupied, i as int),
    {
        let mut count: u8 = 0;
        let mut n: u8 = 0;
        while n < i
            invariant
                n <= i <= 64,
                count == count_bits(self.occupied, n as int),
                count <= n,
            decreases i - n,
        {
            if test_bit(self.occupied, n) {
                count = count + 1;
            }
            n += 1;
        }
        count
    }

    /// The square of the piece with `i` pieces before it.
    pub fn get_piece_pos(&self, i: u8) -> (r: u8)
        requires
            i < self.count(),
        ensures
            r < 64,
            holds(self.occupied, r as int),
            count_bits(self.occupied, r as int) == i,
    {
        let mut count: u8 = 0;
        let mut n: u8 = 0;
        while n < 64
            invariant
                n <= 64,
                count == count_bits(self.occupied, n as int),
                count <= i,
                count <= n,
                i < self.count(),
            decreases 64 - n,
        {
            if test_bit(self.occupied, n) {
                if count == i {
                    return n;
                }
                count = count + 1;
            }
            n += 1;
        }
        n
    }

    fn nibble_at(&self, k: u8) -> (r: u8)
        requires
            k < 32,
        ensures
            r == nibble(self.pieces@, k as int),
            r < 16,
    {
        let byte = self.pieces[(k / 2) as usize];
        if k % 2 == 0 {
            byte / 16
        } else {
            byte % 16
        }
    }

    fn put_nibble(&mut self, k: u8, v: u8)
        requires
            k < 32,
            v < 16,
        ensures
            forall|j: int|
                0 <= j < 32 ==> #[trigger] nibble(final(self).pieces@, j) == (if j == k {
                    v
                } else {
                    nibble(old(self).pieces@, j)
                }),
            final(self).occupied == old(self).occupied,
            final(self).white_castle == old(self).white_castle,
            final(self).black_castle == old(self).black_castle,
            final(self).en_passant == old(self).en_passant,
    {
        let byte = self.pieces[(k / 2) as usize];
        let next: u8 = if k % 2 == 0 {
            v * 16 + byte % 16
        } else {
            (byte / 16) * 16 + v
        };
        self.pieces[(k / 2) as usize] = next;
        proof {
            assert forall|j: int| 0 <= j < 32 implies #[trigger] nibble(self.pieces@, j) == (if j
                == k {
                v
            } else {
                nibble(old(self).pieces@, j)
            }) by {
                if j / 2 != k / 2 {
                    assert(self.pieces@[j / 2] == old(self).pieces@[j / 2]);
                }
            }
        }
    }

    /// Puts the code `v` in place `r` among the half-bytes and moves those from
    /// there on one place up; the last one is lost.
    fn insert_nibble(&mut self, r: u8, v: u8)
        requires
            r < 32,
            v < 16,
        ensures
            forall|j: int|
                0 <= j < 32 ==> #[trigger] nibble(final(self).pieces@, j) == (if j < r {
                    nibble(old(self).pieces@, j)
                } else if j == r {
                    v
                } else {
                    nibble(old(self).pieces@, j - 1)
                }),
            final(self).occupied == old(self).occupied,
            final(self).white_castle == old(self).white_castle,
            final(self).black_castle == old(self).black_castle,
            final(self).en_passant == old(self).en_passant,
    {
        let mut k: u8 = 31;
        while k > r
            invariant
                r <= k <= 31,
                v < 16,
                forall|j: int|
                    0 <= j < 32 ==> #[trigger] nibble(self.pieces@, j) == (if j <= k {
                        nibble(old(self).pieces@, j)
                    } else {
                        nibble(old(self).pieces@, j - 1)
                    }),
                self.occupied == old(self).occupied,
                self.white_castle == old(self).white_castle,
                self.black_castle == old(self).black_castle,
                self.en_passant == old(self).en_passant,
            decreases k,
        {
            let below = self.nibble_at(k - 1);
            self.put_nibble(k, below);
            k -= 1;
        }
        self.put_nibble(r, v);
    }

    /// Takes the half-byte in place `r` out and moves those behind it one
    /// place down; the last place is left without a piece.
    fn remove_nibble(&mut self, r: u8)
        requires
            r < 32,
        ensures
            forall|j: int|
                0 <= j < 32 ==> #[trigger] nibble(final(self).pieces@, j) == (if j < r {
                    nibble(old(self).pieces@, j)
                } else if j < 31 {
                    nibble(old(self).pieces@, j + 1)
                } else {
                    NO_PIECE
                }),
            final(self).occupied == old(self).occupied,
            final(self).white_castle == old(self).white_castle,
            final(self).black_castle == old(self).black_castle,
            final(self).en_passant == old(self).en_passant,
    {
        let mut k: u8 = r;
        while k < 31
            invariant
                r <= k <= 31,
                forall|j: int|
                    0 <= j < 32 ==> #[trigger] nibble(self.pieces@, j) == (if j < r || j >= k {
                        nibble(old(self).pieces@, j)
                    } else {
                        nibble(old(self).pieces@, j + 1)
                    }),
                self.occupied == old(self).occupied,
                self.white_castle == old(self).white_castle,
                self.black_castle == old(self).black_castle,
                self.en_passant == old(self).en_passant,
            decreases 31 - k,
        {
            let above = self.nibble_at(k + 1);
            self.put_nibble(k, above);
            k += 1;
        }
        self.put_nibble(31, NO_PIECE);
    }

    /// Puts the piece with the low half-byte of `piece` as its code on square
    /// `i`, in place of what stood there. Nothing changes where `i` is off the
    /// board, or the square is empty and the board holds 32 pieces already.
    pub fn set_piece(&mut self, i: u8, piece: Piece)
        requires
            old(self).wf(),
        ensures
            final(self)@ == (if i < 64 && (holds(old(self).occupied, i as int) || old(self).count()
                < 32) {
                old(self)@.update(i as int, Some((piece % 16) as u8))
            } else {
                old(self)@
            }),
            final(self).count() == (if i < 64 && !holds(old(self).occupied, i as int) && old(
                self,
            ).count() < 32 {
                old(self).count() + 1
            } else {
                old(self).count()
            }),
            final(self).wf(),
            final(self).white_castle == old(self).white_castle,
            final(self).black_castle == old(self).black_castle,
            final(self).en_passant == old(self).en_passant,
    {
        if i >= 64 {
            return ;
        }
        let code = piece % 16;
        let piece_index = self.get_piece_index(i);
        proof {
            lemma_count_grows(self.occupied, i as int, 64);
        }
        if self.occupied(i) {
            self.put_nibble(piece_index, code);
            proof {
                assert forall|j: int| 0 <= j < 64 implies #[trigger] self.code_at(j) == old(
                    self,
                )@.update(i as int, Some(code))[j] by {
                    if holds(self.occupied, j) {
                        lemma_count_grows(self.occupied, j, 64);
                        if j < i {
                            lemma_count_grows(self.occupied, j, i as int);
                        }
                        if i < j {
                            lemma_count_grows(self.occupied, i as int, j);
                        }
                    }
                }
                assert(self@ =~= old(self)@.update(i as int, Some(code)));
            }
        } else if self.get_piece_index(64) < 32 {
            self.insert_nibble(piece_index, code);
            self.occupied = with_bit(self.occupied, i);
            proof {
                lemma_count_added(old(self).occupied, self.occupied, i as int, 64);
                assert forall|j: int| 0 <= j < 64 implies #[trigger] self.code_at(j) == old(
                    self,
                )@.update(i as int, Some(code))[j] by {
                    lemma_count_added(old(self).occupied, self.occupied, i as int, j);
                    if holds(old(self).occupied, j) {
                        lemma_count_grows(old(self).occupied, j, 64);
                        if j < i {
                            lemma_count_grows(old(self).occupied, j, i as int);
                        }
                        if i < j {
                            lemma_count_grows(old(self).occupied, i as int, j);
                        }
                    }
                }
                assert(self@ =~= old(self)@.update(i as int, Some(code)));
            }
        } else {
            assert(self@ =~= old(self)@);
        }
    }

    /// Empties square `i`. Nothing changes where it holds no piece.
    pub fn remove_piece(&mut self, i: u8)
        requires
            old(self).wf(),
        ensures
            final(self)@ == (if i < 64 {
                old(self)@.update(i as int, None)
            } else {
                old(self)@
            }),
            final(self).count() == (if holds(old(self).occupied, i as int) {
                old(self).count() - 1
            } else {
                old(self).count() as int
            }),
            final(self).wf(),
            final(self).white_castle == old(self).white_castle,
            final(self).black_castle == old(self).black_castle,
            final(self).en_passant == old(self).en_passant,
    {
        if self.occupied(i) {
            let piece_index = self.get_piece_index(i);
            proof {
                lemma_count_grows(self.occupied, i as int, 64);
            }
            self.remove_nibble(piece_index);
            self.occupied = without_bit(self.occupied, i);
            proof {
                lemma_count_removed(old(self).occupied, self.occupied, i as int, 64);
                assert forall|j: int| 0 <= j < 64 implies #[trigger] self.code_at(j) == old(
                    self,
                )@.update(i as int, None)[j] by {
                    lemma_count_removed(old(self).occupied, self.occupied, i as int, j);
                    if holds(old(self).occupied, j) {
                        lemma_count_grows(old(self).occupied, j, 64);
                        if j < i {
                            lemma_count_grows(old(self).occupied, j, i as int);
                        }
                        if i < j {
                            lemma_count_grows(old(self).occupied, i as int, j);
                        }
                    }
                }
                assert(self@ =~= old(self)@.update(i as int, None));
            }
        } else {
            proof {
                if i < 64 {
                    assert(self@ =~= old(self)@.update(i as int, None));
                }
            }
        }
    }

    /// The piece on square `i`: its code, if the square holds a piece and the
    /// code stands for a kind.
    pub fn get_piece_at_pos(&self, i: u8) -> (r: Option<Piece>)
        requires
            self.wf(),
        ensures
            r == (if i < 64 && self@[i as int] is Some && code_kind(self@[i as int]->0) is Some {
                self@[i as int]
            } else {
                None
            }),
    {
        if self.occupied(i) {
            let piece_index = self.get_piece_index(i);
            proof {
                lemma_count_grows(self.occupied, i as int, 64);
            }
            let piece: Piece = self.nibble_at(piece_index);
            if piece.ty().is_some() {
                return Some(piece);
            } else {
                return None;
            }
        }
        None
    }

    /// The 32 half-bytes, each as a byte of its own.
    pub fn pieces_uncrompressed(&self) -> (r: [Piece; 32])
        ensures
            forall|k: int| 0 <= k < 32 ==> r@[k] == nibble(self.pieces@, k),
    {
        let mut pieces: [Piece; 32] = [0; 32];
        let mut k: u8 = 0;
        while k < 32
            invariant
                k <= 32,
                forall|j: int| 0 <= j < k ==> pieces@[j] == nibble(self.pieces@, j),
            decreases 32 - k,
        {
            pieces[k as usize] = self.nibble_at(k);
            k += 1;
        }
        pieces
    }

    /// The first square below `n` that holds the king of `side`.
    pub open spec fn first_king(self, side: Side, n: int) -> Option<u8>
        decreases n,
    {
        if n <= 0 {
            None
        } else if self.first_king(side, n - 1) is Some {
            self.first_king(side, n - 1)
        } else if self.is_king(side, n - 1) {
            Some((n - 1) as u8)
        } else {
            None
        }
    }

    /// Square `i` holds the king of `side`.
    pub open spec fn is_king(self, side: Side, i: int) -> bool {
        &&& self.code_at(i) is Some
        &&& code_kind(self.code_at(i)->0) == Some(PieceType::King)
        &&& code_side(self.code_at(i)->0) == side
    }

    /// The first square that holds the king of `side`, if there is one.
    pub fn find_king(&self, side: Side) -> (r: Option<u8>)
        requires
            self.wf(),
        ensures
            r == self.first_king(side, 64),
            r is Some ==> r->0 < 64 && self.is_king(side, r->0 as int),
            r is None ==> forall|i: int| 0 <= i < 64 ==> !self.is_king(side, i),
    {
        let mut i: u8 = 0;
        while i < 64
            invariant
                i <= 64,
                self.wf(),
                self.first_king(side, i as int) is None,
                forall|j: int| 0 <= j < i ==> !self.is_king(side, j),
            decreases 64 - i,
        {
            if let Some(piece) = self.get_piece_at_pos(i) {
                if let Some(ty) = piece.ty() {
                    if ty == PieceType::King && piece.side() == side {
                        proof {
                            self.lemma_first_king_stays(side, i + 1, 64);
                        }
                        return Some(i);
                    }
                }
            }
            i += 1;
        }
        None
    }

    /// Once a king has been found, it stays the first.
    pub proof fn lemma_first_king_stays(self, side: Side, n: int, m: int)
        requires
            n <= m,
            self.first_king(side, n) is Some,
        ensures
            self.first_king(side, m) == self.first_king(side, n),
        decreases m - n,
    {
        if n < m {
            self.lemma_first_king_stays(side, n, m - 1);
        }
    }

    /// What square `i` is worth to `side`: the value of the piece on it, counted
    /// positive for a piece of `side` and negative for one of the other side.
    pub open spec fn worth(self, side: Side, i: int) -> int {
        match self.code_at(i) {
            Some(c) => if code_side(c) == side {
                code_value(c)
            } else {
                -code_value(c)
            },
            None => 0,
        }
    }

    /// The worth to `side` of the squares below `n`, added up.
    pub open spec fn material_below(self, side: Side, n: int) -> int
        decreases n,
    {
        if n <= 0 {
            0
        } else {
            self.material_below(side, n - 1) + self.worth(side, n - 1)
        }
    }

    /// The material balance as `side` sees it: the values of its pieces less
    /// those of the other side's.
    pub fn evaluate(&self, side: Side) -> (material: i32)
        requires
            self.wf(),
        ensures
            material == self.material_below(side, 64),
    {
        let mut material: i32 = 0;
        let mut index: u8 = 0;
        let mut i: u8 = 0;
        while i < 64
            invariant
                i <= 64,
                self.wf(),
                index == count_bits(self.occupied, i as int),
                material == self.material_below(side, i as int),
                -900 * i <= material <= 900 * i,
            decreases 64 - i,
        {
            if test_bit(self.occupied, i) {
                proof {
                    lemma_count_grows(self.occupied, i as int, 64);
                }
                let piece: Piece = self.nibble_at(index);
                if piece.side() == side {
                    material = material + piece.value();
                } else {
                    material = material - piece.value();
                }
                index = index + 1;
            }
            i += 1;
        }
        material
    }

    /// Whether any square from `from` to `to`, both included and in either
    /// order, holds a piece.
    pub fn space_occupied(&self, from: u8, to: u8) -> (r: bool)
        requires
            from < 64,
            to < 64,
        ensures
            r == exists|i: int|
                (from <= i <= to || to <= i <= from) && #[trigger] holds(self.occupied, i),
    {
        let lo = if from < to {
            from
        } else {
            to
        };
        let hi = if from < to {
            to
        } else {
            from
        };
        let mut i = lo;
        while i <= hi
            invariant
                lo <= i <= hi + 1,
                hi < 64,
                (lo == from && hi == to) || (lo == to && hi == from),
                forall|j: int| lo <= j < i ==> !holds(self.occupied, j),
            decreases hi + 1 - i,
        {
            if self.occupied(i) {
                return true;
            }
            i += 1;
        }
        false
    }

    /// Moves the piece on `from` to `to` and returns the piece that stood on
    /// `to`.
    pub fn make_move(&mut self, from: u8, to: u8) -> (captured: Option<Piece>)
        requires
            old(self).wf(),
            from < 64,
            to < 64,
            old(self)@[from as int] is Some,
            code_kind(old(self)@[from as int]->0) is Some,
        ensures
            final(self)@ == old(self)@.update(to as int, old(self)@[from as int]).update(
                from as int,
                None,
            ),
            captured == (if old(self)@[to as int] is Some && code_kind(old(self)@[to as int]->0)
                is Some {
                old(self)@[to as int]
            } else {
                None
            }),
            final(self).wf(),
            final(self).white_castle == old(self).white_castle,
            final(self).black_castle == old(self).black_castle,
            final(self).en_passant == old(self).en_passant,
    {
        let captured_piece = self.get_piece_at_pos(to);
        let piece = self.get_piece_at_pos(from).unwrap();
        proof {
            assert(piece < 16) by {
                lemma_count_grows(self.occupied, from as int, 64);
            }
        }
        self.remove_piece(from);
        if from != to {
            self.set_piece(to, piece);
            assert(self@ =~= old(self)@.update(to as int, old(self)@[from as int]).update(
                from as int,
                None,
            ));
        } else {
            assert(self@ =~= old(self)@.update(to as int, old(self)@[from as int]).update(
                from as int,
                None,
            ));
        }
        captured_piece
    }

    /// The piece that a code stands for, where it stands for one.
    pub open spec fn decode(c: Option<u8>) -> Option<crate::boardb::Piece> {
        match c {
            Some(code) => match code_kind(code) {
                Some(ty) => Some(crate::boardb::Piece { ty, side: code_side(code) }),
                None => None,
            },
            None => None,
        }
    }

    /// The position that the packed board stands for.
    pub open spec fn position(self) -> Position {
        Position {
            squares: Seq::new(64, |i: int| Self::decode(self.code_at(i))),
            white_castle: Castle { short: self.white_castle.1, long: self.white_castle.0 },
            black_castle: Castle { short: self.black_castle.1, long: self.black_castle.0 },
            kings: (
                match self.first_king(Side::White, 64) {
                    Some(k) => k,
                    None => 0,
                },
                match self.first_king(Side::Black, 64) {
                    Some(k) => k,
                    None => 0,
                },
            ),
            en_passant: self.en_passant,
        }
    }

    /// The board with a square of its own for each piece.
    pub fn unpack(&self) -> (b: BoardB)
        requires
            self.wf(),
        ensures
            b@ == self.position(),
            b.wf(),
    {
        let mut board: [Option<crate::boardb::Piece>; 64] = [None; 64];
        let mut index: u8 = 0;
        let mut i: u8 = 0;
        while i < 64
            invariant
                i <= 64,
                self.wf(),
                index == count_bits(self.occupied, i as int),
                forall|j: int| 0 <= j < i ==> board@[j] == Self::decode(self.code_at(j)),
                forall|j: int| i <= j < 64 ==> board@[j] is None,
            decreases 64 - i,
        {
            if test_bit(self.occupied, i) {
                proof {
                    lemma_count_grows(self.occupied, i as int, 64);
                }
                let piece: Piece = self.nibble_at(index);
                if let Some(ty) = piece.ty() {
                    board[i as usize] = Some(crate::boardb::Piece::new(ty, piece.side()));
                }
                index = index + 1;
            }
            i += 1;
        }
        let white = match self.find_king(Side::White) {
            Some(k) => k,
            None => 0,
        };
        let black = match self.find_king(Side::Black) {
            Some(k) => k,
            None => 0,
        };
        let b = BoardB {
            board,
            white_castle: Castle { short: self.white_castle.1, long: self.white_castle.0 },
            black_castle: Castle { short: self.black_castle.1, long: self.black_castle.0 },
            kings: (white, black),
            en_passant: self.en_passant,
        };
        assert(b@.squares =~= self.position().squares);
        b
    }

    /// The destinations of the piece on square `i`, castling aside and
    /// whether or not a move there leaves its own king in check.
    pub fn valid_moves_for_piece(&self, i: u8) -> (r: u64)
        requires
            self.wf(),
            i < 64,
            self@[i as int] is Some,
            code_kind(self@[i as int]->0) is Some,
        ensures
            forall|t: int| 0 <= t < 64 ==> (holds(r, t) <==> self.position().basic_move(i as int, t)),
    {
        let board = self.unpack();
        board.basic_moves(i)
    }

    /// The destinations of the pieces of `side`, piece by piece in the order
    /// of their squares from the first entry on, castling aside and whether or
    /// not a move there leaves `side` in check, and the empty set in every
    /// entry behind them.
    pub fn valid_moves(&self, side: Side) -> (mvs: [u64; 64])
        requires
            self.wf(),
        ensures
            self.position().is_move_array(side, true, true, mvs@),
    {
        let board = self.unpack();
        board.valid_moves_as_array(side, true, true)
    }

    /// The starting position: White's pieces on ranks 0 and 1, Black's on
    /// ranks 6 and 7, every castling right held and no en-passant target.
    pub fn gen_starting_pos() -> (b: BoardC)
        ensures
            b.wf(),
            b.position() == Position::starting(),
            b.count() == 32,
    {
        let start = BoardB::with_starting_pos();
        let mut b = BoardC {
            occupied: 0,
            pieces: [255; 16],
            white_castle: (true, true),
            black_castle: (true, true),
            en_passant: NO_EN_PASSANT,
        };
        let mut i: u8 = 0;
        proof {
            crate::legal::lemma_no_bits(64);
            assert forall|j: int| 0 <= j < 64 implies b.code_at(j) is None by {
                crate::bits::lemma_empty(j);
            }
        }
        while i < 64
            invariant
                i <= 64,
                start@ == Position::starting(),
                b.wf(),
                b.count() == (if i <= 16 {
                    i as int
                } else if i <= 48 {
                    16
                } else {
                    i - 32
                }),
                forall|j: int| 0 <= j < i ==> Self::decode(#[trigger] b.code_at(j)) == start@.sq(j),
                forall|j: int| i <= j < 64 ==> #[trigger] b.code_at(j) is None,
                b.white_castle == (true, true),
                b.black_castle == (true, true),
                b.en_passant == NO_EN_PASSANT,
            decreases 64 - i,
        {
            let ghost before = b;
            assert(start@.sq(i as int) == Position::starting().squares[i as int]);
            if let Some(p) = start.board[i as usize] {
                assert(i / 8 == 0 || i / 8 == 1 || i / 8 == 6 || i / 8 == 7);
                assert(!holds(b.occupied, i as int)) by {
                    assert(b.code_at(i as int) is None);
                }
                b.set_piece(i, Piece::from_ty_n_side(p.ty, p.side));
                proof {
                    assert forall|j: int| 0 <= j < 64 implies b.code_at(j) == (if j == i {
                        Some(code_of(p.ty, p.side))
                    } else {
                        before.code_at(j)
                    }) by {
                        assert(b@[j] == b.code_at(j));
                        assert(before@[j] == before.code_at(j));
                    }
                }
            } else {
                assert(!(i / 8 == 0 || i / 8 == 1 || i / 8 == 6 || i / 8 == 7));
            }
            i += 1;
        }
        proof {
            assert(b.position().squares =~= Position::starting().squares);
            b.lemma_kings_of_start();
        }
        b
    }

    /// In the starting position the kings stand on squares 4 and 60.
    proof fn lemma_kings_of_start(self)
        requires
            self.position().squares == Position::starting().squares,
        ensures
            self.first_king(Side::White, 64) == Some(4u8),
            self.first_king(Side::Black, 64) == Some(60u8),
    {
        assert forall|j: int| 0 <= j < 64 implies (self.is_king(Side::White, j) <==> j == 4) && (
        self.is_king(Side::Black, j) <==> j == 60) by {
            assert(self.position().squares[j] == Self::decode(self.code_at(j)));
            assert(Position::starting().squares[j] == Self::decode(self.code_at(j)));
        }
        self.lemma_first_king_at(Side::White, 4, 64);
        self.lemma_first_king_at(Side::Black, 60, 64);
    }

    /// The first king is on square `k` where that is the first square with one.
    proof fn lemma_first_king_at(self, side: Side, k: int, n: int)
        requires
            0 <= k < 64,
            0 <= n <= 64,
            forall|j: int| 0 <= j < 64 ==> (self.is_king(side, j) <==> j == k),
        ensures
            self.first_king(side, n) == (if k < n {
                Some(k as u8)
            } else {
                None
            }),
        decreases n,
    {
        if n > 0 {
            self.lemma_first_king_at(side, k, n - 1);
        }
    }
}

} // verus!
