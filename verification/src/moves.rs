//! How the pieces move: the rules as predicates over files and ranks, and the
//! generation of a piece's destinations as a set of squares.

use vstd::prelude::*;
use crate::bits::{holds, lemma_empty, test_bit, with_bit};
use crate::boardb::{
    forward, on_board, pawn_rank, square, BoardB, Piece, Pos, PosTrait, Position,
};
use crate::pieces::{PieceType, Side};

verus! {

/// The absolute value.
pub open spec fn abs(a: int) -> int {
    if a < 0 {
        -a
    } else {
        a
    }
}

/// Two different squares on one file or one rank.
pub open spec fn rook_line(fx: int, fy: int, tx: int, ty: int) -> bool {
    (fx == tx) != (fy == ty)
}

/// Two different squares on one diagonal.
pub open spec fn bishop_line(fx: int, fy: int, tx: int, ty: int) -> bool {
    fx != tx && abs(tx - fx) == abs(ty - fy)
}

/// `(mx, my)` lies strictly between `(fx, fy)` and `(tx, ty)` on the rank,
/// file or diagonal that joins them.
pub open spec fn between(fx: int, fy: int, tx: int, ty: int, mx: int, my: int) -> bool {
    if fy == ty {
        my == fy && (fx < mx < tx || tx < mx < fx)
    } else if fx == tx {
        mx == fx && (fy < my < ty || ty < my < fy)
    } else if tx - fx == ty - fy {
        mx - fx == my - fy && (fx < mx < tx || tx < mx < fx)
    } else if tx - fx == fy - ty {
        mx - fx == fy - my && (fx < mx < tx || tx < mx < fx)
    } else {
        false
    }
}

/// Two squares a knight's jump apart: one file and two ranks, or two files
/// and one rank.
pub open spec fn knight_jump(fx: int, fy: int, tx: int, ty: int) -> bool {
    (abs(tx - fx) == 1 && abs(ty - fy) == 2) || (abs(tx - fx) == 2 && abs(ty - fy) == 1)
}

/// Two different squares that touch, by a side or by a corner.
pub open spec fn king_step(fx: int, fy: int, tx: int, ty: int) -> bool {
    abs(tx - fx) <= 1 && abs(ty - fy) <= 1 && (tx != fx || ty != fy)
}

/// `(tx, ty)` lies on the ray that leaves `(fx, fy)` in direction `(dx, dy)`.
pub open spec fn heading(fx: int, fy: int, tx: int, ty: int, dx: int, dy: int) -> bool {
    &&& dx == 0 ==> tx == fx
    &&& dx == 1 ==> tx > fx
    &&& dx == -1 ==> tx < fx
    &&& dy == 0 ==> ty == fy
    &&& dy == 1 ==> ty > fy
    &&& dy == -1 ==> ty < fy
    &&& dx != 0 && dy != 0 ==> abs(tx - fx) == abs(ty - fy)
}

/// One of the eight directions: each step -1, 0 or 1, and not both 0.
pub open spec fn is_dir(dx: int, dy: int) -> bool {
    -1 <= dx <= 1 && -1 <= dy <= 1 && (dx != 0 || dy != 0)
}

impl Position {
    /// The square holds a piece of `side`.
    pub open spec fn own(self, side: Side, x: int, y: int) -> bool {
        self.at(x, y) is Some && self.at(x, y)->0.side == side
    }

    /// The square holds a piece of the other side.
    pub open spec fn enemy(self, side: Side, x: int, y: int) -> bool {
        self.at(x, y) is Some && self.at(x, y)->0.side != side
    }

    /// Every square strictly between the two is empty.
    pub open spec fn path_clear(self, fx: int, fy: int, tx: int, ty: int) -> bool {
        forall|mx: int, my: int|
            on_board(mx, my) && between(fx, fy, tx, ty, mx, my) ==> #[trigger] self.at(mx, my)
                is None
    }

    /// A sliding piece of `side` on `(fx, fy)` reaches `(tx, ty)`: the way is
    /// clear and the destination holds no piece of its own side.
    pub open spec fn line_move(self, side: Side, fx: int, fy: int, tx: int, ty: int) -> bool {
        self.path_clear(fx, fy, tx, ty) && !self.own(side, tx, ty)
    }

    /// The en-passant target stands beside `(fx, fy)` and is taken by moving to
    /// `(tx, ty)`.
    pub open spec fn en_passant_move(self, side: Side, fx: int, fy: int, tx: int, ty: int) -> bool {
        &&& self.en_passant < 64
        &&& self.en_passant as int / 8 == fy
        &&& abs(self.en_passant as int % 8 - fx) == 1
        &&& tx == self.en_passant as int % 8
        &&& ty == fy + forward(side)
    }

    /// A pawn of `side` on `(fx, fy)` may move to `(tx, ty)`.
    pub open spec fn pawn_move(self, side: Side, fx: int, fy: int, tx: int, ty: int) -> bool {
        let ahead = fy + forward(side);
        ||| tx == fx && ty == ahead && self.at(tx, ty) is None
        ||| tx == fx && fy == pawn_rank(side) && ty == ahead + forward(side) && self.at(fx, ahead)
            is None && self.at(tx, ty) is None
        ||| abs(tx - fx) == 1 && ty == ahead && self.enemy(side, tx, ty)
        ||| self.en_passant_move(side, fx, fy, tx, ty)
    }

    /// Piece `p` on `(fx, fy)` may move to the square `(tx, ty)` of the board,
    /// castling aside and whether or not its own king is then in check.
    pub open spec fn piece_move(self, p: Piece, fx: int, fy: int, tx: int, ty: int) -> bool {
        on_board(tx, ty) && match p.ty {
            PieceType::Rook => rook_line(fx, fy, tx, ty) && self.line_move(p.side, fx, fy, tx, ty),
            PieceType::Bishop => bishop_line(fx, fy, tx, ty) && self.line_move(
                p.side,
                fx,
                fy,
                tx,
                ty,
            ),
            PieceType::Queen => (rook_line(fx, fy, tx, ty) || bishop_line(fx, fy, tx, ty))
                && self.line_move(p.side, fx, fy, tx, ty),
            PieceType::Knight => knight_jump(fx, fy, tx, ty) && !self.own(p.side, tx, ty),
            PieceType::King => king_step(fx, fy, tx, ty) && !self.own(p.side, tx, ty),
            PieceType::Pawn => self.pawn_move(p.side, fx, fy, tx, ty),
        }
    }

    /// The piece on square `from` may move to square `to`, castling aside.
    pub open spec fn basic_move(self, from: int, to: int) -> bool {
        &&& 0 <= from < 64
        &&& 0 <= to < 64
        &&& self.sq(from) is Some
        &&& self.piece_move(self.sq(from)->0, from % 8, from / 8, to % 8, to / 8)
    }

    /// A slide from `(fx, fy)` in direction `(dx, dy)` reaches `(tx, ty)`.
    pub open spec fn slides(
        self,
        side: Side,
        fx: int,
        fy: int,
        tx: int,
        ty: int,
        dx: int,
        dy: int,
    ) -> bool {
        heading(fx, fy, tx, ty, dx, dy) && self.line_move(side, fx, fy, tx, ty)
    }

    /// Where the ray from `(fx, fy)` meets its first piece on `(cx, cy)`, the
    /// slide reaches the squares before it, that square unless the piece is the
    /// slider's own, and nothing behind it.
    proof fn lemma_slide_blocked(
        self,
        side: Side,
        fx: int,
        fy: int,
        cx: int,
        cy: int,
        dx: int,
        dy: int,
    )
        requires
            on_board(fx, fy),
            on_board(cx, cy),
            is_dir(dx, dy),
            heading(fx, fy, cx, cy, dx, dy),
            self.at(cx, cy) is Some,
            forall|mx: int, my: int|
                on_board(mx, my) && between(fx, fy, cx, cy, mx, my) ==> #[trigger] self.at(mx, my)
                    is None,
        ensures
            forall|x: int, y: int|
                on_board(x, y) ==> (#[trigger] self.slides(side, fx, fy, x, y, dx, dy) <==> between(
                    fx,
                    fy,
                    cx,
                    cy,
                    x,
                    y,
                ) || (x == cx && y == cy && !self.own(side, cx, cy))),
    {
        assert forall|x: int, y: int| on_board(x, y) implies (#[trigger] self.slides(
            side,
            fx,
            fy,
            x,
            y,
            dx,
            dy,
        ) <==> between(fx, fy, cx, cy, x, y) || (x == cx && y == cy && !self.own(side, cx, cy))) by {
            if between(fx, fy, cx, cy, x, y) {
                self.lemma_slide_before(side, fx, fy, cx, cy, dx, dy, x, y);
            } else if x == cx && y == cy {
            } else if heading(fx, fy, x, y, dx, dy) {
                lemma_beyond(fx, fy, cx, cy, dx, dy, x, y);
                assert(self.at(cx, cy) is Some);
                assert(!self.path_clear(fx, fy, x, y));
            }
        }
    }

    /// Where the ray from `(fx, fy)` leaves the board on `(cx, cy)` without
    /// having met a piece, the slide reaches every square of the ray.
    proof fn lemma_slide_open(
        self,
        side: Side,
        fx: int,
        fy: int,
        cx: int,
        cy: int,
        dx: int,
        dy: int,
    )
        requires
            on_board(fx, fy),
            !on_board(cx, cy),
            is_dir(dx, dy),
            heading(fx, fy, cx, cy, dx, dy),
            forall|mx: int, my: int|
                on_board(mx, my) && between(fx, fy, cx, cy, mx, my) ==> #[trigger] self.at(mx, my)
                    is None,
        ensures
            forall|x: int, y: int|
                on_board(x, y) ==> (#[trigger] self.slides(side, fx, fy, x, y, dx, dy) <==> between(
                    fx,
                    fy,
                    cx,
                    cy,
                    x,
                    y,
                )),
    {
        assert forall|x: int, y: int| on_board(x, y) implies (#[trigger] self.slides(
            side,
            fx,
            fy,
            x,
            y,
            dx,
            dy,
        ) <==> between(fx, fy, cx, cy, x, y)) by {
            if between(fx, fy, cx, cy, x, y) {
                self.lemma_slide_before(side, fx, fy, cx, cy, dx, dy, x, y);
            } else if heading(fx, fy, x, y, dx, dy) {
                lemma_exit(fx, fy, cx, cy, dx, dy, x, y);
            }
        }
    }

    /// A square of the board before `(cx, cy)` on a ray whose squares before
    /// `(cx, cy)` are all empty is reached by the slide.
    proof fn lemma_slide_before(
        self,
        side: Side,
        fx: int,
        fy: int,
        cx: int,
        cy: int,
        dx: int,
        dy: int,
        x: int,
        y: int,
    )
        requires
            is_dir(dx, dy),
            heading(fx, fy, cx, cy, dx, dy),
            on_board(x, y),
            between(fx, fy, cx, cy, x, y),
            forall|mx: int, my: int|
                on_board(mx, my) && between(fx, fy, cx, cy, mx, my) ==> #[trigger] self.at(mx, my)
                    is None,
        ensures
            self.slides(side, fx, fy, x, y, dx, dy),
    {
        lemma_between_heading(fx, fy, cx, cy, dx, dy, x, y);
        assert(self.at(x, y) is None);
        assert forall|mx: int, my: int|
            on_board(mx, my) && between(fx, fy, x, y, mx, my) implies #[trigger] self.at(mx, my)
            is None by {
            lemma_between_trans(fx, fy, cx, cy, dx, dy, x, y, mx, my);
        }
    }
}

/// A square between the start of a ray and a square on it lies on the ray.
proof fn lemma_between_heading(fx: int, fy: int, cx: int, cy: int, dx: int, dy: int, x: int, y: int)
    requires
        is_dir(dx, dy),
        heading(fx, fy, cx, cy, dx, dy),
        between(fx, fy, cx, cy, x, y),
    ensures
        heading(fx, fy, x, y, dx, dy),
{
}

proof fn lemma_between_trans(
    fx: int,
    fy: int,
    cx: int,
    cy: int,
    dx: int,
    dy: int,
    x: int,
    y: int,
    mx: int,
    my: int,
)
    requires
        is_dir(dx, dy),
        heading(fx, fy, cx, cy, dx, dy),
        between(fx, fy, cx, cy, x, y),
        between(fx, fy, x, y, mx, my),
    ensures
        between(fx, fy, cx, cy, mx, my),
{
}

/// Of two different squares on one ray, one lies before the other.
proof fn lemma_beyond(fx: int, fy: int, cx: int, cy: int, dx: int, dy: int, x: int, y: int)
    requires
        is_dir(dx, dy),
        heading(fx, fy, cx, cy, dx, dy),
        heading(fx, fy, x, y, dx, dy),
        !between(fx, fy, cx, cy, x, y),
        x != cx || y != cy,
    ensures
        between(fx, fy, x, y, cx, cy),
{
}

/// One step further along a ray, the squares before are those that were
/// before, and the square that was reached.
proof fn lemma_step(fx: int, fy: int, cx: int, cy: int, dx: int, dy: int, x: int, y: int)
    requires
        is_dir(dx, dy),
        heading(fx, fy, cx, cy, dx, dy),
    ensures
        heading(fx, fy, cx + dx, cy + dy, dx, dy),
        between(fx, fy, cx + dx, cy + dy, x, y) <==> between(fx, fy, cx, cy, x, y) || (x == cx && y
            == cy),
{
}

/// The first square of a ray has nothing before it.
proof fn lemma_first(fx: int, fy: int, dx: int, dy: int, x: int, y: int)
    requires
        is_dir(dx, dy),
    ensures
        heading(fx, fy, fx + dx, fy + dy, dx, dy),
        !between(fx, fy, fx + dx, fy + dy, x, y),
{
}

/// Every square of the board on a ray lies before the square on which the ray
/// leaves the board.
proof fn lemma_exit(fx: int, fy: int, cx: int, cy: int, dx: int, dy: int, x: int, y: int)
    requires
        is_dir(dx, dy),
        on_board(fx, fy),
        heading(fx, fy, cx, cy, dx, dy),
        !on_board(cx, cy),
        on_board(x, y),
        heading(fx, fy, x, y, dx, dy),
    ensures
        between(fx, fy, cx, cy, x, y),
{
}

impl BoardB {
    /// Whether the position lies on the board.
    pub fn xy_on_board(&self, pos: Pos) -> (r: bool)
        ensures
            r == pos.on_board(),
    {
        pos.x >= 0 && pos.x < 8 && pos.y >= 0 && pos.y < 8
    }

    /// Whether any square of the rectangle spanned by `from` and `to`, both
    /// included, holds a piece.
    pub fn space_occupied(&self, from: Pos, to: Pos) -> (r: bool)
        requires
            from.on_board(),
            to.on_board(),
        ensures
            r == exists|x: int, y: int|
                (from.x <= x <= to.x || to.x <= x <= from.x) && (from.y <= y <= to.y || to.y <= y
                    <= from.y) && #[trigger] self@.at(x, y) is Some,
    {
        let x0 = if from.x < to.x { from.x } else { to.x };
        let x1 = if from.x < to.x { to.x } else { from.x };
        let y0 = if from.y < to.y { from.y } else { to.y };
        let y1 = if from.y < to.y { to.y } else { from.y };
        let mut x = x0;
        while x <= x1
            invariant
                0 <= x0 <= x <= x1 + 1,
                x1 < 8,
                0 <= y0 <= y1 < 8,
                (x0 == from.x && x1 == to.x) || (x0 == to.x && x1 == from.x),
                (y0 == from.y && y1 == to.y) || (y0 == to.y && y1 == from.y),
                forall|a: int, b: int|
                    x0 <= a < x && y0 <= b <= y1 ==> #[trigger] self@.at(a, b) is None,
            decreases x1 + 1 - x,
        {
            let mut y = y0;
            while y <= y1
                invariant
                    0 <= x0 <= x <= x1 < 8,
                    0 <= y0 <= y <= y1 + 1,
                    y1 < 8,
                    (x0 == from.x && x1 == to.x) || (x0 == to.x && x1 == from.x),
                    (y0 == from.y && y1 == to.y) || (y0 == to.y && y1 == from.y),
                    forall|a: int, b: int|
                        x0 <= a < x && y0 <= b <= y1 ==> #[trigger] self@.at(a, b) is None,
                    forall|b: int| y0 <= b < y ==> #[trigger] self@.at(x as int, b) is None,
                decreases y1 + 1 - y,
            {
                if self.occupied(Pos::new(x, y).to_i()) {
                    assert(self@.at(x as int, y as int) is Some);
                    return true;
                }
                y += 1;
            }
            x += 1;
        }
        false
    }

    /// Adds to `mask` the squares that a slide from square `i` in direction
    /// `(dx, dy)` reaches.
    fn moves_in_dir(&self, i: u8, side: Side, dx: i8, dy: i8, mask: u64) -> (r: u64)
        requires
            i < 64,
            is_dir(dx as int, dy as int),
        ensures
            forall|x: int, y: int|
                on_board(x, y) ==> (#[trigger] holds(r, square(x, y)) <==> holds(
                    mask,
                    square(x, y),
                ) || self@.slides(side, i as int % 8, i as int / 8, x, y, dx as int, dy as int)),
    {
        let fx = (i % 8) as i8;
        let fy = (i / 8) as i8;
        let mut cx = fx + dx;
        let mut cy = fy + dy;
        let mut r = mask;
        let mut blocked = false;
        proof {
            assert forall|x: int, y: int|
                !between(fx as int, fy as int, cx as int, cy as int, x, y) by {
                lemma_first(fx as int, fy as int, dx as int, dy as int, x, y);
            }
            lemma_first(fx as int, fy as int, dx as int, dy as int, 0, 0);
        }
        while !blocked && 0 <= cx && cx < 8 && 0 <= cy && cy < 8
            invariant
                0 <= fx < 8,
                0 <= fy < 8,
                fx == i % 8,
                fy == i / 8,
                is_dir(dx as int, dy as int),
                -1 <= cx <= 8,
                -1 <= cy <= 8,
                heading(fx as int, fy as int, cx as int, cy as int, dx as int, dy as int),
                !blocked ==> forall|mx: int, my: int|
                    on_board(mx, my) && between(
                        fx as int,
                        fy as int,
                        cx as int,
                        cy as int,
                        mx,
                        my,
                    ) ==> #[trigger] self@.at(mx, my) is None,
                !blocked ==> forall|x: int, y: int|
                    on_board(x, y) ==> (#[trigger] holds(r, square(x, y)) <==> holds(
                        mask,
                        square(x, y),
                    ) || between(fx as int, fy as int, cx as int, cy as int, x, y)),
                blocked ==> forall|x: int, y: int|
                    on_board(x, y) ==> (#[trigger] holds(r, square(x, y)) <==> holds(
                        mask,
                        square(x, y),
                    ) || self@.slides(side, fx as int, fy as int, x, y, dx as int, dy as int)),
            decreases (if blocked { 0int } else { 1int }), 16 - abs(cx - fx) - abs(cy - fy),
        {
            let c = Pos::new(cx, cy).to_i();
            let ghost before = r;
            match self.get_piece_at_pos(c) {
                Some(other) => {
                    assert(self@.at(cx as int, cy as int) == Some(other));
                    if other.side != side {
                        r = with_bit(r, c);
                    }
                    blocked = true;
                    proof {
                        self@.lemma_slide_blocked(
                            side,
                            fx as int,
                            fy as int,
                            cx as int,
                            cy as int,
                            dx as int,
                            dy as int,
                        );
                        assert forall|x: int, y: int| on_board(x, y) implies (#[trigger] holds(
                            r,
                            square(x, y),
                        ) <==> holds(mask, square(x, y)) || self@.slides(
                            side,
                            fx as int,
                            fy as int,
                            x,
                            y,
                            dx as int,
                            dy as int,
                        )) by {
                            assert(holds(before, square(x, y)) <==> holds(mask, square(x, y))
                                || between(fx as int, fy as int, cx as int, cy as int, x, y));
                            assert(square(x, y) == c <==> x == cx && y == cy);
                        }
                    }
                },
                None => {
                    assert(self@.at(cx as int, cy as int) is None);
                    r = with_bit(r, c);
                    proof {
                        lemma_step(fx as int, fy as int, cx as int, cy as int, dx as int, dy as int, 0, 0);
                        assert forall|mx: int, my: int|
                            on_board(mx, my) && between(
                                fx as int,
                                fy as int,
                                cx + dx,
                                cy + dy,
                                mx,
                                my,
                            ) implies #[trigger] self@.at(mx, my) is None by {
                            lemma_step(
                                fx as int,
                                fy as int,
                                cx as int,
                                cy as int,
                                dx as int,
                                dy as int,
                                mx,
                                my,
                            );
                        }
                        assert forall|x: int, y: int| on_board(x, y) implies (#[trigger] holds(
                            r,
                            square(x, y),
                        ) <==> holds(mask, square(x, y)) || between(
                            fx as int,
                            fy as int,
                            cx + dx,
                            cy + dy,
                            x,
                            y,
                        )) by {
                            lemma_step(
                                fx as int,
                                fy as int,
                                cx as int,
                                cy as int,
                                dx as int,
                                dy as int,
                                x,
                                y,
                            );
                            assert(holds(before, square(x, y)) <==> holds(mask, square(x, y))
                                || between(fx as int, fy as int, cx as int, cy as int, x, y));
                            assert(square(x, y) == c <==> x == cx && y == cy);
                        }
                    }
                    cx += dx;
                    cy += dy;
                },
            }
        }
        proof {
            if !blocked {
                self@.lemma_slide_open(
                    side,
                    fx as int,
                    fy as int,
                    cx as int,
                    cy as int,
                    dx as int,
                    dy as int,
                );
            }
        }
        r
    }

    /// Adds to `mask` the square at offset `(ox, oy)` from square `i`, if it is
    /// on the board and holds no piece of `side`.
    fn step_to(&self, i: u8, side: Side, ox: i8, oy: i8, mask: u64) -> (r: u64)
        requires
            i < 64,
            -2 <= ox <= 2,
            -2 <= oy <= 2,
        ensures
            forall|x: int, y: int|
                on_board(x, y) ==> (#[trigger] holds(r, square(x, y)) <==> holds(
                    mask,
                    square(x, y),
                ) || (x == i as int % 8 + ox && y == i as int / 8 + oy && !self@.own(side, x, y))),
    {
        let new_pos = Pos::new((i % 8) as i8 + ox, (i / 8) as i8 + oy);
        if self.xy_on_board(new_pos) {
            let c = new_pos.to_i();
            match self.get_piece_at_pos(c) {
                Some(other) => {
                    assert(self@.at(new_pos.x as int, new_pos.y as int) == Some(other));
                    if other.side == side {
                        return mask;
                    }
                },
                None => {
                    assert(self@.at(new_pos.x as int, new_pos.y as int) is None);
                },
            }
            with_bit(mask, c)
        } else {
            mask
        }
    }

    fn rook(&self, i: u8, side: Side, mask: u64) -> (r: u64)
        requires
            i < 64,
        ensures
            forall|x: int, y: int|
                on_board(x, y) ==> (#[trigger] holds(r, square(x, y)) <==> holds(
                    mask,
                    square(x, y),
                ) || (rook_line(i as int % 8, i as int / 8, x, y) && self@.line_move(
                    side,
                    i as int % 8,
                    i as int / 8,
                    x,
                    y,
                ))),
    {
        let r = self.moves_in_dir(i, side, 1, 0, mask);
        let r = self.moves_in_dir(i, side, -1, 0, r);
        let r = self.moves_in_dir(i, side, 0, 1, r);
        let r = self.moves_in_dir(i, side, 0, -1, r);
        r
    }

    fn bishop(&self, i: u8, side: Side, mask: u64) -> (r: u64)
        requires
            i < 64,
        ensures
            forall|x: int, y: int|
                on_board(x, y) ==> (#[trigger] holds(r, square(x, y)) <==> holds(
                    mask,
                    square(x, y),
                ) || (bishop_line(i as int % 8, i as int / 8, x, y) && self@.line_move(
                    side,
                    i as int % 8,
                    i as int / 8,
                    x,
                    y,
                ))),
    {
        let r = self.moves_in_dir(i, side, 1, 1, mask);
        let r = self.moves_in_dir(i, side, 1, -1, r);
        let r = self.moves_in_dir(i, side, -1, 1, r);
        let r = self.moves_in_dir(i, side, -1, -1, r);
        r
    }

    fn knight(&self, i: u8, side: Side, mask: u64) -> (r: u64)
        requires
            i < 64,
        ensures
            forall|x: int, y: int|
                on_board(x, y) ==> (#[trigger] holds(r, square(x, y)) <==> holds(
                    mask,
                    square(x, y),
                ) || (knight_jump(i as int % 8, i as int / 8, x, y) && !self@.own(side, x, y))),
    {
        let r = self.step_to(i, side, -1, 2, mask);
        let r = self.step_to(i, side, 1, 2, r);
        let r = self.step_to(i, side, -1, -2, r);
        let r = self.step_to(i, side, 1, -2, r);
        let r = self.step_to(i, side, 2, 1, r);
        let r = self.step_to(i, side, 2, -1, r);
        let r = self.step_to(i, side, -2, 1, r);
        let r = self.step_to(i, side, -2, -1, r);
        r
    }

    fn king_steps(&self, i: u8, side: Side, mask: u64) -> (r: u64)
        requires
            i < 64,
        ensures
            forall|x: int, y: int|
                on_board(x, y) ==> (#[trigger] holds(r, square(x, y)) <==> holds(
                    mask,
                    square(x, y),
                ) || (king_step(i as int % 8, i as int / 8, x, y) && !self@.own(side, x, y))),
    {
        let r = self.step_to(i, side, -1, -1, mask);
        let r = self.step_to(i, side, -1, 0, r);
        let r = self.step_to(i, side, -1, 1, r);
        let r = self.step_to(i, side, 0, -1, r);
        let r = self.step_to(i, side, 0, 1, r);
        let r = self.step_to(i, side, 1, -1, r);
        let r = self.step_to(i, side, 1, 0, r);
        let r = self.step_to(i, side, 1, 1, r);
        r
    }

    fn pawn(&self, i: u8, side: Side, mask: u64) -> (r: u64)
        requires
            i < 64,
        ensures
            forall|x: int, y: int|
                on_board(x, y) ==> (#[trigger] holds(r, square(x, y)) <==> holds(
                    mask,
                    square(x, y),
                ) || self@.pawn_move(side, i as int % 8, i as int / 8, x, y)),
    {
        let piece_pos = Pos::from_i(i);
        let y_dir: i8 = match side {
            Side::Black => -1,
            Side::White => 1,
        };
        let start: i8 = match side {
            Side::Black => 6,
            Side::White => 1,
        };
        let mut r = mask;
        let one = Pos::new(piece_pos.x, piece_pos.y + y_dir);
        if self.xy_on_board(one) {
            if !self.space_occupied(one, one) {
                assert(self@.at(one.x as int, one.y as int) is None);
                r = with_bit(r, one.to_i());
                if piece_pos.y == start {
                    let two = Pos::new(piece_pos.x, piece_pos.y + 2 * y_dir);
                    if !self.space_occupied(one, two) {
                        assert(self@.at(two.x as int, two.y as int) is None);
                        r = with_bit(r, two.to_i());
                    } else {
                        assert(self@.at(two.x as int, two.y as int) is Some);
                    }
                }
            } else {
                assert(self@.at(one.x as int, one.y as int) is Some);
            }
            let left = Pos::new(one.x - 1, one.y);
            if self.xy_on_board(left) {
                if let Some(other) = self.get_piece_at_pos(left.to_i()) {
                    if other.side != side {
                        r = with_bit(r, left.to_i());
                    }
                }
            }
            let right = Pos::new(one.x + 1, one.y);
            if self.xy_on_board(right) {
                if let Some(other) = self.get_piece_at_pos(right.to_i()) {
                    if other.side != side {
                        r = with_bit(r, right.to_i());
                    }
                }
            }
            if self.en_passant < 64 {
                let target = Pos::from_i(self.en_passant);
                if (target.x - piece_pos.x == 1 || piece_pos.x - target.x == 1) && target.y
                    == piece_pos.y {
                    r = with_bit(r, Pos::new(target.x, one.y).to_i());
                }
            }
        }
        r
    }

    /// The destinations of the piece on square `i`, castling aside.
    pub(crate) fn basic_moves(&self, i: u8) -> (r: u64)
        requires
            i < 64,
            self@.sq(i as int) is Some,
        ensures
            forall|t: int| 0 <= t < 64 ==> (holds(r, t) <==> self@.basic_move(i as int, t)),
    {
        let piece = self.board[i as usize].unwrap();
        let r = match piece.ty {
            PieceType::Queen => {
                let r = self.bishop(i, piece.side, 0);
                self.rook(i, piece.side, r)
            },
            PieceType::King => self.king_steps(i, piece.side, 0),
            PieceType::Knight => self.knight(i, piece.side, 0),
            PieceType::Bishop => self.bishop(i, piece.side, 0),
            PieceType::Rook => self.rook(i, piece.side, 0),
            PieceType::Pawn => self.pawn(i, piece.side, 0),
        };
        proof {
            assert forall|t: int| 0 <= t < 64 implies (holds(r, t) <==> self@.basic_move(
                i as int,
                t,
            )) by {
                let x = t % 8;
                let y = t / 8;
                assert(square(x, y) == t);
                assert(on_board(x, y));
                lemma_empty(t);
                assert(holds(r, square(x, y)) <==> self@.piece_move(
                    piece,
                    i as int % 8,
                    i as int / 8,
                    x,
                    y,
                ));
            }
        }
        r
    }
}

} // verus!
