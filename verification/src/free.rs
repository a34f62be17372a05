//! The unoccupied tiles as a dense array with a reverse index map.

use vstd::prelude::*;

verus! {

use crate::pos::{Position, MAP_SIZE};
use crate::rng::random_below;

/// The set of tiles not occupied by the snake body.
///
/// The first `count` slots of `dense` hold exactly the free cell indices,
/// in no particular order; `slot_of` maps each free cell index back to its
/// slot. Membership tests, insertion, swap-to-end removal and uniform
/// random sampling are all constant time. Slots at `count` and beyond, and
/// reverse-map entries of occupied cells, are dead storage with no meaning.
pub struct FreeSet {
    dense: Vec<usize>,
    slot_of: Vec<usize>,
    count: usize,
}

impl FreeSet {
    /// Number of free tiles.
    pub closed spec fn count_nat(self) -> nat {
        self.count as nat
    }

    /// Whether cell index `h` is in the set.
    pub closed spec fn is_free(self, h: int) -> bool {
        &&& 0 <= h < MAP_SIZE
        &&& self.slot_of@[h] < self.count
        &&& self.dense@[self.slot_of@[h] as int] == h
    }

    /// Structural soundness: full backing arrays, `count` within capacity,
    /// and the dense prefix consistent with the reverse map, which also
    /// makes the prefix duplicate-free.
    pub closed spec fn wf(self) -> bool {
        &&& self.dense@.len() == MAP_SIZE
        &&& self.slot_of@.len() == MAP_SIZE
        &&& self.count <= MAP_SIZE
        &&& forall|s: int|
            0 <= s < self.count ==> {
                &&& #[trigger] self.dense@[s] < MAP_SIZE
                &&& self.slot_of@[self.dense@[s] as int] == s
            }
    }

    /// Membership implies a valid cell index.
    pub proof fn lemma_free_in_range(self, h: int)
        requires
            self.is_free(h),
        ensures
            0 <= h < MAP_SIZE,
    {
    }

    /// A set of one element has only that element.
    pub proof fn lemma_single_free(self, g: int, h: int)
        requires
            self.wf(),
            self.count_nat() == 1,
            self.is_free(g),
            self.is_free(h),
        ensures
            g == h,
    {
        assert(self.slot_of@[g] == 0);
        assert(self.slot_of@[h] == 0);
    }

    /// The set holding every tile of the board.
    pub fn new_full() -> (r: Self)
        ensures
            r.wf(),
            r.count_nat() == MAP_SIZE,
            forall|h: int| r.is_free(h) <==> 0 <= h < MAP_SIZE,
    {
        let mut dense: Vec<usize> = Vec::new();
        let mut slot_of: Vec<usize> = Vec::new();
        let mut i: usize = 0;
        while i < MAP_SIZE
            invariant
                i <= MAP_SIZE,
                dense@.len() == i,
                slot_of@.len() == i,
                forall|s: int| 0 <= s < i ==> #[trigger] dense@[s] == s,
                forall|s: int| 0 <= s < i ==> #[trigger] slot_of@[s] == s,
            decreases MAP_SIZE - i,
        {
            dense.push(i);
            slot_of.push(i);
            i = i + 1;
        }
        FreeSet { dense, slot_of, count: MAP_SIZE }
    }

    /// Adds a tile that is not in the set.
    pub fn insert(&mut self, p: Position)
        requires
            old(self).wf(),
            p.on_board(),
            !old(self).is_free(p.idx()),
            old(self).count_nat() < MAP_SIZE,
        ensures
            final(self).wf(),
            final(self).count_nat() == old(self).count_nat() + 1,
            forall|h: int|
                final(self).is_free(h) <==> (old(self).is_free(h) || h == p.idx()),
    {
        proof {
            // The dense prefix cannot hold `p`'s index: an entry there would
            // witness membership through the reverse map.
            assert forall|s: int| 0 <= s < old(self).count implies old(self).dense@[s]
                != p.idx() by {
                if old(self).dense@[s] == p.idx() {
                    assert(old(self).slot_of@[p.idx()] == s);
                }
            }
        }
        let h: usize = p.as_hash();
        self.dense.set(self.count, h);
        self.slot_of.set(h, self.count);
        self.count = self.count + 1;
    }

    /// Removes a tile that is in the set, by swapping the last dense entry
    /// into its slot.
    pub fn remove(&mut self, p: Position)
        requires
            old(self).wf(),
            p.on_board(),
            old(self).is_free(p.idx()),
        ensures
            final(self).wf(),
            final(self).count_nat() == old(self).count_nat() - 1,
            forall|h: int|
                final(self).is_free(h) <==> (old(self).is_free(h) && h != p.idx()),
    {
        let h: usize = p.as_hash();
        let s: usize = self.slot_of[h];
        let last: usize = self.dense[self.count - 1];
        self.dense.set(s, last);
        self.slot_of.set(last, s);
        self.count = self.count - 1;
        proof {
            let pre = *old(self);
            assert forall|g: int| self.is_free(g) <==> (pre.is_free(g) && g != p.idx()) by {
                if g == p.idx() && s as int != pre.count - 1 {
                    // `p`'s old slot now holds the relocated last entry,
                    // which differs from `p`'s index by prefix distinctness.
                    assert(pre.slot_of@[pre.dense@[pre.count - 1] as int] == pre.count - 1);
                }
                if pre.is_free(g) && g != p.idx() && g != last {
                    assert(pre.slot_of@[pre.dense@[pre.count - 1] as int] == pre.count - 1);
                    assert(pre.dense@[pre.slot_of@[g] as int] == g);
                }
            }
        }
    }

    /// Draws one tile of the set at random.
    pub fn sample_uniform(&self) -> (p: Position)
        requires
            self.wf(),
            self.count_nat() > 0,
        ensures
            p.on_board(),
            self.is_free(p.idx()),
    {
        let r: usize = random_below(self.count);
        let h: usize = self.dense[r];
        Position::from_hash(h)
    }
}

} // verus!
