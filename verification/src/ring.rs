//! The snake body as a fixed-capacity ring buffer of cell indices.

use vstd::prelude::*;

verus! {

use crate::pos::{Position, MAP_SIZE};

/// Reduces an index in `[0, 2 * MAP_SIZE)` into `[0, MAP_SIZE)`.
pub open spec fn wrap(i: int) -> int {
    if i < MAP_SIZE {
        i
    } else {
        i - MAP_SIZE
    }
}

/// Circular index arithmetic over the ring storage.
fn wrap_add(base: usize, offset: usize) -> (r: usize)
    requires
        base < MAP_SIZE,
        offset <= MAP_SIZE,
    ensures
        r == wrap(base + offset),
        r < MAP_SIZE,
{
    proof {
        if base + offset < MAP_SIZE {
            vstd::arithmetic::div_mod::lemma_small_mod((base + offset) as nat, MAP_SIZE as nat);
        } else {
            vstd::arithmetic::div_mod::lemma_mod_multiples_vanish(
                1,
                base + offset - MAP_SIZE,
                MAP_SIZE as int,
            );
            vstd::arithmetic::div_mod::lemma_small_mod(
                (base + offset - MAP_SIZE) as nat,
                MAP_SIZE as nat,
            );
        }
    }
    (base + offset) % MAP_SIZE
}

/// The tiles currently occupied by the snake, in order from tail to head.
///
/// The body occupies `length` circularly contiguous slots of a
/// fixed-capacity array, starting at `tail`; pushing a head and popping the
/// tail are both constant-time index arithmetic. Slots outside that range
/// are dead storage with no meaning.
pub struct OccupancyRing {
    cells: Vec<usize>,
    tail: usize,
    length: usize,
}

impl OccupancyRing {
    /// The body as a sequence of cell indices, tail first, head last.
    pub closed spec fn body(self) -> Seq<int> {
        Seq::new(self.length as nat, |j: int| self.cells@[wrap(self.tail + j)] as int)
    }

    /// Structural soundness of the ring storage: full backing array, the
    /// tail index inside it, the body no longer than the capacity, and
    /// every stored entry a cell index.
    pub closed spec fn wf(self) -> bool {
        &&& self.cells@.len() == MAP_SIZE
        &&& self.tail < MAP_SIZE
        &&& self.length <= MAP_SIZE
        &&& forall|s: int| 0 <= s < MAP_SIZE ==> #[trigger] self.cells@[s] < MAP_SIZE
    }

    /// An empty ring.
    pub fn new() -> (r: Self)
        ensures
            r.wf(),
            r.body() == Seq::<int>::empty(),
    {
        let mut cells: Vec<usize> = Vec::new();
        while cells.len() < MAP_SIZE
            invariant
                cells@.len() <= MAP_SIZE,
                forall|s: int| 0 <= s < cells@.len() ==> #[trigger] cells@[s] == 0,
            decreases MAP_SIZE - cells@.len(),
        {
            cells.push(0);
        }
        let r = OccupancyRing { cells, tail: 0, length: 0 };
        proof {
            assert(r.body() =~= Seq::<int>::empty());
        }
        r
    }

    /// Number of tiles the body occupies.
    pub fn len(&self) -> (n: usize)
        ensures
            n == self.body().len(),
    {
        self.length
    }

    /// The head tile, the one most recently pushed.
    pub fn head(&self) -> (p: Position)
        requires
            self.wf(),
            self.body().len() > 0,
        ensures
            p.on_board(),
            p.idx() == self.body().last(),
    {
        let slot: usize = wrap_add(self.tail, self.length - 1);
        let h: usize = self.cells[slot];
        Position::from_hash(h)
    }

    /// Appends `p` as the new head.
    pub fn push_head(&mut self, p: Position)
        requires
            old(self).wf(),
            old(self).body().len() < MAP_SIZE,
            p.on_board(),
        ensures
            final(self).wf(),
            final(self).body() == old(self).body().push(p.idx()),
    {
        let h: usize = p.as_hash();
        let slot: usize = wrap_add(self.tail, self.length);
        self.cells.set(slot, h);
        self.length = self.length + 1;
        proof {
            let pre = old(self).body();
            let post = self.body();
            assert forall|j: int| 0 <= j < pre.len() implies post[j] == pre[j] by {
                assert(wrap(old(self).tail + j) != wrap(old(self).tail + old(self).length));
            }
            assert(post[pre.len() as int] == p.idx());
            assert(post =~= pre.push(p.idx()));
        }
    }

    /// Removes and returns the tail tile, the oldest one.
    pub fn pop_tail(&mut self) -> (p: Position)
        requires
            old(self).wf(),
            old(self).body().len() > 0,
        ensures
            final(self).wf(),
            p.on_board(),
            p.idx() == old(self).body()[0],
            final(self).body() == old(self).body().drop_first(),
    {
        let h: usize = self.cells[self.tail];
        self.tail = wrap_add(self.tail, 1);
        self.length = self.length - 1;
        proof {
            let pre = old(self).body();
            let post = self.body();
            assert(pre[0] == old(self).cells@[wrap(old(self).tail + 0)]);
            assert forall|j: int| 0 <= j < post.len() implies post[j] == pre[j + 1] by {
                assert(wrap(self.tail + j) == wrap(old(self).tail + (j + 1)));
            }
            assert(post =~= pre.drop_first());
        }
        Position::from_hash(h)
    }
}

} // verus!
