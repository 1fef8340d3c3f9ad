//! Sets of squares held in the bits of a `u64`.

use vstd::prelude::*;

verus! {

/// Whether square `i` belongs to the set `mask`.
pub open spec fn holds(mask: u64, i: int) -> bool {
    0 <= i < 64 && mask & (1u64 << (i as u64)) != 0
}

proof fn lemma_bit_ops(mask: u64, i: u64, j: u64)
    by (bit_vector)
    requires
        i < 64,
        j < 64,
    ensures
        ((mask | (1u64 << i)) & (1u64 << j) != 0) == ((mask & (1u64 << j) != 0) || i == j),
        ((mask & !(1u64 << i)) & (1u64 << j) != 0) == ((mask & (1u64 << j) != 0) && i != j),
        (0u64 & (1u64 << j) != 0) == false,
{
}

/// The empty set holds no square.
pub proof fn lemma_empty(j: int)
    ensures
        !holds(0, j),
{
    if 0 <= j < 64 {
        lemma_bit_ops(0, 0, j as u64);
    }
}

proof fn lemma_shift_step(mask: u64, t: u64)
    by (bit_vector)
    requires
        mask != 0,
        t < 64,
    ensures
        mask & 1 == 0 ==> mask >> 1 != 0,
        mask >> 1 < mask,
        (mask >> 1) & (1u64 << 63) == 0,
        t < 63 && (mask >> 1) & (1u64 << t) != 0 ==> mask & (1u64 << ((t + 1) as u64)) != 0,
        mask & 1 != 0 ==> mask & (1u64 << 0) != 0,
{
}

/// A mask other than zero holds a square.
pub proof fn lemma_nonzero(mask: u64) -> (t: int)
    requires
        mask != 0,
    ensures
        holds(mask, t),
    decreases mask,
{
    lemma_shift_step(mask, 0);
    if mask & 1 != 0 {
        0
    } else {
        let t = lemma_nonzero(mask >> 1);
        lemma_shift_step(mask, t as u64);
        t + 1
    }
}

/// The number of squares below `n` that `mask` holds.
pub open spec fn count_bits(mask: u64, n: int) -> nat
    decreases n,
{
    if n <= 0 {
        0
    } else {
        count_bits(mask, n - 1) + if holds(mask, n - 1) {
            1nat
        } else {
            0nat
        }
    }
}

/// Two sets that agree below `n` hold as many squares below `n`, and no set
/// holds more than `n` of them.
pub proof fn lemma_count_bits(a: u64, b: u64, n: int)
    requires
        0 <= n,
        forall|j: int| 0 <= j < n ==> holds(a, j) == holds(b, j),
    ensures
        count_bits(a, n) == count_bits(b, n),
        count_bits(a, n) <= n,
    decreases n,
{
    if n > 0 {
        lemma_count_bits(a, b, n - 1);
    }
}

/// A set holds no more squares below `a` than below a later `b`, and fewer
/// if it holds `a`.
pub proof fn lemma_count_grows(mask: u64, a: int, b: int)
    requires
        a <= b,
    ensures
        count_bits(mask, a) <= count_bits(mask, b),
        a < b && holds(mask, a) ==> count_bits(mask, a) < count_bits(mask, b),
    decreases b - a,
{
    if a < b {
        lemma_count_grows(mask, a, b - 1);
        if a == b - 1 && holds(mask, a) {
            assert(count_bits(mask, b) == count_bits(mask, a) + 1);
        }
    }
}

/// Adding square `i` to a set that lacks it adds one to the count of its
/// squares below any later square.
pub proof fn lemma_count_added(mask: u64, more: u64, i: int, n: int)
    requires
        !holds(mask, i),
        forall|k: int| holds(more, k) <==> holds(mask, k) || k == i,
    ensures
        count_bits(more, n) == count_bits(mask, n) + if holds(more, i) && i < n {
            1nat
        } else {
            0nat
        },
    decreases n,
{
    if n > 0 {
        lemma_count_added(mask, more, i, n - 1);
    }
}

/// Taking square `i` out of a set that holds it takes one off the count of
/// its squares below any later square.
pub proof fn lemma_count_removed(mask: u64, less: u64, i: int, n: int)
    requires
        holds(mask, i),
        forall|k: int| holds(less, k) <==> holds(mask, k) && k != i,
    ensures
        count_bits(mask, n) == count_bits(less, n) + if i < n {
            1nat
        } else {
            0nat
        },
    decreases n,
{
    if n > 0 {
        lemma_count_removed(mask, less, i, n - 1);
    }
}

/// Whether square `i` is in `mask`.
pub fn test_bit(mask: u64, i: u8) -> (r: bool)
    requires
        i < 64,
    ensures
        r == holds(mask, i as int),
{
    mask & (1u64 << (i as u64)) != 0
}

/// `mask` with square `i` added.
pub fn with_bit(mask: u64, i: u8) -> (r: u64)
    requires
        i < 64,
    ensures
        forall|j: int| holds(r, j) <==> holds(mask, j) || j == i,
{
    let r = mask | (1u64 << (i as u64));
    proof {
        assert forall|j: int| holds(r, j) <==> holds(mask, j) || j == i by {
            if 0 <= j < 64 {
                lemma_bit_ops(mask, i as u64, j as u64);
            }
        }
    }
    r
}

/// `mask` with square `i` taken out.
pub fn without_bit(mask: u64, i: u8) -> (r: u64)
    requires
        i < 64,
    ensures
        forall|j: int| holds(r, j) <==> holds(mask, j) && j != i,
{
    let r = mask & !(1u64 << (i as u64));
    proof {
        assert forall|j: int| holds(r, j) <==> holds(mask, j) && j != i by {
            if 0 <= j < 64 {
                lemma_bit_ops(mask, i as u64, j as u64);
            }
        }
    }
    r
}

/// Reading the squares of a set out of its mask.
pub trait BitMap {
    /// The squares of the set, in ascending order.
    fn ones(self) -> Vec<u8>;
}

impl BitMap for u64 {
    fn ones(self) -> (v: Vec<u8>)
        ensures
            forall|k: int| 0 <= k < v@.len() ==> holds(self, #[trigger] v@[k] as int),
            forall|j: int| holds(self, j) ==> exists|k: int| 0 <= k < v@.len() && v@[k] == j,
            forall|a: int, b: int| 0 <= a < b < v@.len() ==> v@[a] < v@[b],
    {
        let mut v: Vec<u8> = Vec::new();
        let mut n: u8 = 0;
        while n < 64
            invariant
                n <= 64,
                forall|k: int| 0 <= k < v@.len() ==> holds(self, #[trigger] v@[k] as int) && v@[k] < n,
                forall|j: int| holds(self, j) && j < n ==> exists|k: int| 0 <= k < v@.len() && v@[k] == j,
                forall|a: int, b: int| 0 <= a < b < v@.len() ==> v@[a] < v@[b],
            decreases 64 - n,
        {
            if test_bit(self, n) {
                let ghost old_v = v@;
                v.push(n);
                proof {
                    assert forall|j: int| holds(self, j) && j < n + 1 implies exists|k: int|
                        0 <= k < v@.len() && v@[k] == j by {
                        if j < n {
                            let k = choose|k: int| 0 <= k < old_v.len() && old_v[k] == j;
                            assert(v@[k] == j);
                        } else {
                            assert(v@[old_v.len() as int] == j);
                        }
                    }
                }
            }
            n += 1;
        }
        v
    }
}

} // verus!
