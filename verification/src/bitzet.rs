use vstd::prelude::*;

use crate::math::Vec2;

verus! {

/// Number of rows, and of columns, that a set has room for.
pub const SIDE: usize = 128;

/// The set has room for the cells whose coordinates lie from `-HALF` up to,
/// but not including, `HALF`.
pub const HALF: i32 = 64;

/// Whether a set has room for the cell `c`.
pub open spec fn in_region(c: (int, int)) -> bool {
    -HALF <= c.0 < HALF && -HALF <= c.1 < HALF
}

/// Whether bit `k` of `w` is set.
pub open spec fn bit(w: u128, k: u32) -> bool {
    (w >> k) & 1 == 1
}

proof fn lemma_bit_zero(k: u32)
    requires
        k < 128,
    ensures
        !bit(0, k),
{
    assert((0u128 >> k) & 1 != 1) by (bit_vector)
        requires
            k < 128,
    ;
}

proof fn lemma_bit_set(w: u128, k: u32, j: u32)
    requires
        k < 128,
        j < 128,
    ensures
        bit(w | (1u128 << k), j) == (j == k || bit(w, j)),
{
    assert((((w | (1u128 << k)) >> j) & 1 == 1) == (j == k || (w >> j) & 1 == 1)) by (bit_vector)
        requires
            k < 128,
            j < 128,
    ;
}

proof fn lemma_bit_clear(w: u128, k: u32, j: u32)
    requires
        k < 128,
        j < 128,
    ensures
        bit(w & !(1u128 << k), j) == (j != k && bit(w, j)),
{
    assert((((w & !(1u128 << k)) >> j) & 1 == 1) == (j != k && (w >> j) & 1 == 1)) by (bit_vector)
        requires
            k < 128,
            j < 128,
    ;
}

/// A set of cells of the grid round the origin, one bit per cell.
pub struct Bitzet {
    rows: [u128; SIDE],
}

impl View for Bitzet {
    type V = Set<(int, int)>;

    closed spec fn view(&self) -> Set<(int, int)> {
        Set::new(
            |c: (int, int)| in_region(c) && bit(self.rows@[c.1 + HALF], (c.0 + HALF) as u32),
        )
    }
}

impl Bitzet {
    /// The empty set.
    pub fn new() -> (s: Bitzet)
        ensures
            s@ == Set::<(int, int)>::empty(),
    {
        let s = Bitzet { rows: [0;SIDE] };
        proof {
            assert forall|c: (int, int)| !s@.contains(c) by {
                if in_region(c) {
                    lemma_bit_zero((c.0 + HALF) as u32);
                }
            }
            assert(s@ =~= Set::<(int, int)>::empty());
        }
        s
    }

    /// Every cell of a set lies in the region that it has room for.
    pub proof fn lemma_within_region(&self)
        ensures
            forall|c: (int, int)| self@.contains(c) ==> in_region(c),
    {
    }

    /// Whether the cell `v` is in the set.
    pub fn contains(&self, v: &Vec2) -> (found: bool)
        ensures
            found == self@.contains(v.pos()),
    {
        if v.x < -HALF || v.x >= HALF || v.y < -HALF || v.y >= HALF {
            return false;
        }
        let row = (v.y + HALF) as usize;
        let col = (v.x + HALF) as u32;
        (self.rows[row] >> col) & 1 == 1
    }

    /// Puts the cell `v` into the set. A cell that the set has no room for
    /// is left out.
    pub fn insert(&mut self, v: Vec2)
        ensures
            final(self)@ == if in_region(v.pos()) {
                old(self)@.insert(v.pos())
            } else {
                old(self)@
            },
    {
        if v.x < -HALF || v.x >= HALF || v.y < -HALF || v.y >= HALF {
            return ;
        }
        let row = (v.y + HALF) as usize;
        let col = (v.x + HALF) as u32;
        let word = self.rows[row];
        self.rows[row] = word | (1u128 << col);
        proof {
            assert forall|c: (int, int)|
                self@.contains(c) == old(self)@.insert(v.pos()).contains(c) by {
                if in_region(c) && c.1 == v.y {
                    lemma_bit_set(word, col, (c.0 + HALF) as u32);
                }
            }
            assert(self@ =~= old(self)@.insert(v.pos()));
        }
    }

    /// Takes the cell `v` out of the set.
    pub fn remove(&mut self, v: &Vec2)
        ensures
            final(self)@ == old(self)@.remove(v.pos()),
    {
        if v.x < -HALF || v.x >= HALF || v.y < -HALF || v.y >= HALF {
            assert(old(self)@.remove(v.pos()) =~= old(self)@);
            return ;
        }
        let row = (v.y + HALF) as usize;
        let col = (v.x + HALF) as u32;
        let word = self.rows[row];
        self.rows[row] = word & !(1u128 << col);
        proof {
            assert forall|c: (int, int)|
                self@.contains(c) == old(self)@.remove(v.pos()).contains(c) by {
                if in_region(c) && c.1 == v.y {
                    lemma_bit_clear(word, col, (c.0 + HALF) as u32);
                }
            }
            assert(self@ =~= old(self)@.remove(v.pos()));
        }
    }
}

} // verus!
