//! Material evaluation of a position.

use vstd::prelude::*;
use crate::boardb::{BoardB, Position};
use crate::pieces::Side;

verus! {

impl Position {
    /// What square `i` is worth to `side`: the value of the piece on it, counted
    /// positive for a piece of `side` and negative for one of the other side.
    pub open spec fn worth(self, side: Side, i: int) -> int {
        match self.sq(i) {
            Some(p) => if p.side == side {
                p.spec_value()
            } else {
                -p.spec_value()
            },
            None => 0,
        }
    }

    /// The worth to `side` of the squares below `n`, added up.
    pub open spec fn material_below(self, side: Side, n: int) -> int
        decreases n,
    {
        if n <= 0 {
            0
        } else {
            self.material_below(side, n - 1) + self.worth(side, n - 1)
        }
    }

    /// The values of the pieces of `side` on the squares below `n`, added up.
    pub open spec fn own_material_below(self, side: Side, n: int) -> int
        decreases n,
    {
        if n <= 0 {
            0
        } else {
            self.own_material_below(side, n - 1) + match self.sq(n - 1) {
                Some(p) => if p.side == side {
                    p.spec_value()
                } else {
                    0
                },
                None => 0,
            }
        }
    }

    /// The balance is what a side has less what the other side has.
    pub proof fn lemma_material_is_difference(self, side: Side, n: int)
        requires
            0 <= n,
        ensures
            self.material_below(side, n) == self.own_material_below(side, n)
                - self.own_material_below(side.opposite(), n),
            0 <= self.own_material_below(side, n) <= 900 * n,
        decreases n,
    {
        if n > 0 {
            self.lemma_material_is_difference(side, n - 1);
        }
    }

    /// The material balance of the position as `side` sees it.
    pub open spec fn material(self, side: Side) -> int {
        self.material_below(side, 64)
    }

    /// No more than a queen's worth per square.
    pub proof fn lemma_material_bound(self, side: Side, n: int)
        requires
            0 <= n,
        ensures
            -900 * n <= self.material_below(side, n) <= 900 * n,
        decreases n,
    {
        if n > 0 {
            self.lemma_material_bound(side, n - 1);
        }
    }
}

impl BoardB {
    /// The values of the pieces of `turn`, added up.
    pub fn count_material(&self, turn: Side) -> (material: i32)
        ensures
            material == self@.own_material_below(turn, 64),
            0 <= material <= 57600,
    {
        let mut material: i32 = 0;
        let mut i: usize = 0;
        while i < 64
            invariant
                i <= 64,
                material == self@.own_material_below(turn, i as int),
                0 <= material <= 900 * i,
            decreases 64 - i,
        {
            if let Some(p) = self.board[i] {
                if p.side == turn {
                    material = material + p.value();
                }
            }
            i += 1;
        }
        material
    }

    /// The material balance as `side` sees it: the values of its pieces less
    /// those of the other side's.
    pub fn evaluate(&self, side: Side) -> (score: i32)
        ensures
            score == self@.material(side),
            -57600 <= score <= 57600,
    {
        let mut score: i32 = 0;
        let mut i: usize = 0;
        while i < 64
            invariant
                i <= 64,
                score == self@.material_below(side, i as int),
                -900 * i <= score <= 900 * i,
            decreases 64 - i,
        {
            if let Some(p) = self.board[i] {
                if side == p.side {
                    score = score + p.value();
                } else {
                    score = score - p.value();
                }
            }
            i += 1;
        }
        score
    }
}

} // verus!
