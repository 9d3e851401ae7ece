//! The page directory: a three-level radix table mapping a dense page
//! id to a tagged 64-bit page pointer, with a free list of recycled
//! ids threaded through the slots themselves.

use vstd::prelude::*;

use crossbeam_epoch::Guard;

verus! {

broadcast use vstd::std_specs::hash::group_hash_axioms;

/// Fanout of each radix level.
pub const FANOUT: u64 = 0x1_0000;

/// One past the largest id served by level zero.
pub const L0_MAX: u64 = FANOUT;

/// One past the largest id served by level one.
pub const L1_MAX: u64 = L0_MAX * FANOUT;

/// One past the largest id served by level two: the directory's
/// capacity, and the sentinel value that ends the free list.
pub const L2_MAX: u64 = L1_MAX * FANOUT;

/// The directory's storage: one lazily populated slot table per radix
/// level, the next never-used id, and the head of the free list. A
/// freed id's slot holds the next freed id (or the sentinel), so the
/// free list lives in the slots themselves; the ghost `free_chain`
/// names that list in order. The fields are exposed for
/// specification; mutate only through the methods, which keep `wf`.
pub struct Inner {
    /// Slots of ids below `L0_MAX`, keyed by id; an absent key is a
    /// zeroed slot.
    pub l0: std::collections::HashMap<u64, u64>,
    /// Slots of ids in `L0_MAX..L1_MAX`, keyed by `id - L0_MAX`.
    pub l1: std::collections::HashMap<u64, u64>,
    /// Slots of ids in `L1_MAX..L2_MAX`, keyed by `id - L1_MAX`.
    pub l2: std::collections::HashMap<u64, u64>,
    /// The next id never yet allocated.
    pub next: u64,
    /// The head of the free list, or `L2_MAX` when it is empty.
    pub free: u64,
    /// The freed ids, in the order the free list links them.
    pub free_chain: Ghost<Seq<u64>>,
}

impl Inner {
    /// The value of slot `id`: routed to the level that serves the
    /// id, zero when never written.
    pub open spec fn spec_slot(self, id: int) -> u64 {
        if id < L0_MAX {
            if self.l0@.contains_key(id as u64) {
                self.l0@[id as u64]
            } else {
                0
            }
        } else if id < L1_MAX {
            if self.l1@.contains_key((id - L0_MAX) as u64) {
                self.l1@[(id - L0_MAX) as u64]
            } else {
                0
            }
        } else {
            if self.l2@.contains_key((id - L1_MAX) as u64) {
                self.l2@[(id - L1_MAX) as u64]
            } else {
                0
            }
        }
    }

    /// Whether `id` is on the free list.
    pub open spec fn in_free_chain(self, id: u64) -> bool {
        self.free_chain@.contains(id)
    }

    /// Whether `id` is live: once returned by `alloc` (or written
    /// below `next`) and not freed since.
    pub open spec fn is_allocated(self, id: u64) -> bool {
        id < self.next && !self.in_free_chain(id)
    }

    /// Well-formedness: `next` never passes the capacity; the free
    /// list starts at `free`, holds distinct ids below `next`, and
    /// each freed id's slot links to the next one (or the sentinel).
    pub open spec fn wf(self) -> bool {
        &&& self.next <= L2_MAX
        &&& (self.free_chain@.len() == 0 ==> self.free == L2_MAX)
        &&& (self.free_chain@.len() > 0 ==> self.free == self.free_chain@[0])
        &&& (forall|i: int|
            0 <= i < self.free_chain@.len() ==> #[trigger] self.free_chain@[i] < self.next)
        &&& (forall|i: int|
            0 <= i < self.free_chain@.len() ==> self.spec_slot(#[trigger] self.free_chain@[i] as int)
                == (if i + 1 < self.free_chain@.len() {
                    self.free_chain@[i + 1]
                } else {
                    L2_MAX
                }))
        &&& (forall|i: int, j: int|
            0 <= i < j < self.free_chain@.len() ==> #[trigger] self.free_chain@[i]
                != #[trigger] self.free_chain@[j])
    }

    /// A fresh directory: all slots zero, no id allocated, an empty
    /// free list.
    pub fn new() -> (t: Inner)
        ensures
            t.wf(),
            t.next == 0,
            t.free == L2_MAX,
            t.free_chain@.len() == 0,
            forall|id: int| 0 <= id < L2_MAX ==> t.spec_slot(id) == 0,
            forall|id: u64| !t.is_allocated(id),
    {
        Inner {
            l0: std::collections::HashMap::new(),
            l1: std::collections::HashMap::new(),
            l2: std::collections::HashMap::new(),
            next: 0,
            free: L2_MAX,
            free_chain: Ghost(Seq::empty()),
        }
    }

    /// Read slot `id`, routing through the radix levels.
    fn slot_load(&self, id: u64) -> (v: u64)
        requires
            id < L2_MAX,
        ensures
            v == self.spec_slot(id as int),
    {
        if id < L0_MAX {
            match self.l0.get(&id) {
                Some(v) => *v,
                None => 0,
            }
        } else if id < L1_MAX {
            match self.l1.get(&(id - L0_MAX)) {
                Some(v) => *v,
                None => 0,
            }
        } else {
            match self.l2.get(&(id - L1_MAX)) {
                Some(v) => *v,
                None => 0,
            }
        }
    }

    /// Write slot `id`, routing through the radix levels.
    fn slot_store(&mut self, id: u64, val: u64)
        requires
            id < L2_MAX,
        ensures
            final(self).spec_slot(id as int) == val,
            forall|x: int| 0 <= x < L2_MAX && x != id ==> final(self).spec_slot(x) == old(self).spec_slot(x),
            final(self).next == old(self).next,
            final(self).free == old(self).free,
            final(self).free_chain == old(self).free_chain,
    {
        if id < L0_MAX {
            self.l0.insert(id, val);
        } else if id < L1_MAX {
            self.l1.insert(id - L0_MAX, val);
        } else {
            self.l2.insert(id - L1_MAX, val);
        }
    }

    /// The id the next allocation returns: the head of the free list,
    /// else the next never-used id, else none when exhausted.
    pub open spec fn spec_alloc_result(self) -> Option<u64> {
        if self.free_chain@.len() > 0 {
            Some(self.free_chain@[0])
        } else if self.next < L2_MAX {
            Some(self.next)
        } else {
            None
        }
    }

    /// Allocate an id: pop the head of the free list, else take the
    /// next never-used id, else report exhaustion with `None`.
    pub fn alloc_id(&mut self) -> (r: Option<u64>)
        requires
            old(self).wf(),
        ensures
            final(self).wf(),
            r == old(self).spec_alloc_result(),
            r is Some <==> (old(self).free_chain@.len() > 0 || old(self).next < L2_MAX),
            r is None ==> *final(self) == *old(self),
            r matches Some(id) ==> ({
                &&& id < L2_MAX
                &&& !old(self).is_allocated(id)
                &&& final(self).is_allocated(id)
                &&& (forall|x: u64|
                    x != id ==> final(self).is_allocated(x) == old(self).is_allocated(x))
                &&& (forall|x: int|
                    0 <= x < L2_MAX ==> final(self).spec_slot(x) == old(self).spec_slot(x))
                &&& (old(self).free_chain@.len() > 0 ==> id == old(self).free_chain@[0] && final(self).free_chain@ == old(self).free_chain@.drop_first() && final(self).next == old(self).next)
                &&& (old(self).free_chain@.len() == 0 ==> id == old(self).next && final(self).next
                    == old(self).next + 1 && final(self).free_chain@ == old(self).free_chain@)
            }),
    {
        if self.free != L2_MAX {
            let id = self.free;
            proof {
                assert(self.free_chain@.len() > 0);
                assert(self.free_chain@[0] == id);
                assert(id < self.next <= L2_MAX);
            }
            let next_head = self.slot_load(id);
            proof {
                assert(self.spec_slot(id as int) == (if 1 < self.free_chain@.len() {
                    self.free_chain@[1]
                } else {
                    L2_MAX
                }));
            }
            self.free = next_head;
            let ghost old_chain = self.free_chain@;
            proof {
                self.free_chain = Ghost(self.free_chain@.drop_first());
                assert forall|i: int|
                    0 <= i < self.free_chain@.len() implies self.spec_slot(
                    #[trigger] self.free_chain@[i] as int,
                ) == (if i + 1 < self.free_chain@.len() {
                    self.free_chain@[i + 1]
                } else {
                    L2_MAX
                }) by {
                    assert(old_chain[i + 1] == self.free_chain@[i]);
                }
                assert(!self.free_chain@.contains(id)) by {
                    if self.free_chain@.contains(id) {
                        let i = self.free_chain@.index_of(id);
                        assert(old_chain[i + 1] == old_chain[0]);
                    }
                }
                assert forall|x: u64| x != id implies self.free_chain@.contains(x)
                    == old_chain.contains(x) by {
                    if old_chain.contains(x) {
                        let i = old_chain.index_of(x);
                        assert(i > 0);
                        assert(self.free_chain@[i - 1] == x);
                    }
                    if self.free_chain@.contains(x) {
                        let i = self.free_chain@.index_of(x);
                        assert(old_chain[i + 1] == x);
                    }
                }
            }
            Some(id)
        } else if self.next < L2_MAX {
            let id = self.next;
            self.next = self.next + 1;
            proof {
                assert(self.free_chain@.len() == 0);
                assert(!self.in_free_chain(id));
            }
            Some(id)
        } else {
            None
        }
    }

    /// Free an id: thread it onto the front of the free list by
    /// storing the old head into its slot.
    pub fn dealloc(&mut self, id: u64)
        requires
            old(self).wf(),
            old(self).is_allocated(id),
        ensures
            final(self).wf(),
            final(self).next == old(self).next,
            final(self).free_chain@ == seq![id] + old(self).free_chain@,
            !final(self).is_allocated(id),
            forall|x: u64| x != id ==> final(self).is_allocated(x) == old(self).is_allocated(x),
            forall|x: int|
                0 <= x < L2_MAX && x != id ==> final(self).spec_slot(x) == old(self).spec_slot(x),
    {
        let head = self.free;
        self.slot_store(id, head);
        self.free = id;
        let ghost old_chain = old(self).free_chain@;
        proof {
            self.free_chain = Ghost(seq![id] + old_chain);
            assert forall|i: int|
                0 <= i < self.free_chain@.len() implies self.spec_slot(
                #[trigger] self.free_chain@[i] as int,
            ) == (if i + 1 < self.free_chain@.len() {
                self.free_chain@[i + 1]
            } else {
                L2_MAX
            }) by {
                if i == 0 {
                    assert(self.spec_slot(id as int) == head);
                } else {
                    assert(self.free_chain@[i] == old_chain[i - 1]);
                    assert(old_chain[i - 1] != id);
                }
            }
            assert(self.free_chain@[0] == id);
            assert(self.free_chain@.contains(id));
            assert forall|x: u64| x != id implies final(self).is_allocated(x) == old(self).is_allocated(x) by {
                if old_chain.contains(x) {
                    let i = old_chain.index_of(x);
                    assert(self.free_chain@[i + 1] == x);
                }
                if self.free_chain@.contains(x) {
                    let i = self.free_chain@.index_of(x);
                    assert(old_chain[i - 1] == x);
                }
            }
        }
    }
}

/// Law: in a well-formed directory no id is both live and on the free
/// list, so an id is never handed out twice at once.
pub proof fn lemma_live_free_disjoint(t: Inner, id: u64)
    requires
        t.wf(),
        t.in_free_chain(id),
    ensures
        !t.is_allocated(id),
{
}

/// Law: whatever sequence of allocations and deallocations led to a
/// well-formed directory, an allocated id stays below the capacity
/// and is never an id that is currently live, so no id is live twice
/// at once.
pub proof fn lemma_alloc_fresh(t: Inner)
    requires
        t.wf(),
        t.spec_alloc_result() is Some,
    ensures
        t.spec_alloc_result() matches Some(id) && id < L2_MAX && !t.is_allocated(id),
{
    if t.free_chain@.len() > 0 {
        assert(t.free_chain@.contains(t.free_chain@[0]));
    }
}

/// The page directory seen by the tree layer: get, set and
/// compare-and-swap on a slot, plus id allocation and reclamation
/// under an epoch guard. In this sequential model a freed id returns
/// to the free list at once; the guard witnesses the epoch pin that
/// deferred reclamation would require.
pub struct PageTable {
    /// The radix levels, cursors, and free list.
    pub inner: Inner,
}

impl PageTable {
    /// A fresh directory with every slot zero and no id allocated.
    pub fn new() -> (t: PageTable)
        ensures
            t.inner.wf(),
            t.inner.next == 0,
            t.inner.free_chain@.len() == 0,
            forall|id: int| 0 <= id < L2_MAX ==> t.inner.spec_slot(id) == 0,
            forall|id: u64| !t.inner.is_allocated(id),
    {
        PageTable { inner: Inner::new() }
    }

    /// The pointer in slot `id`. The id must not sit on the free
    /// list, whose slots hold links rather than pointers.
    pub fn get(&self, id: u64) -> (v: u64)
        requires
            self.inner.wf(),
            id < L2_MAX,
            !self.inner.in_free_chain(id),
        ensures
            v == self.inner.spec_slot(id as int),
    {
        self.inner.slot_load(id)
    }

    /// Store a pointer into slot `id`.
    pub fn set(&mut self, id: u64, ptr: u64)
        requires
            old(self).inner.wf(),
            id < L2_MAX,
            !old(self).inner.in_free_chain(id),
        ensures
            final(self).inner.wf(),
            final(self).inner.spec_slot(id as int) == ptr,
            forall|x: int|
                0 <= x < L2_MAX && x != id ==> final(self).inner.spec_slot(x) == old(self).inner.spec_slot(x),
            final(self).inner.next == old(self).inner.next,
            final(self).inner.free == old(self).inner.free,
            final(self).inner.free_chain == old(self).inner.free_chain,
    {
        self.inner.slot_store(id, ptr);
        proof {
            assert forall|i: int|
                0 <= i < self.inner.free_chain@.len() implies self.inner.spec_slot(
                #[trigger] self.inner.free_chain@[i] as int,
            ) == (if i + 1 < self.inner.free_chain@.len() {
                self.inner.free_chain@[i + 1]
            } else {
                L2_MAX
            }) by {
                assert(self.inner.free_chain@[i] != id);
                assert(old(self).inner.spec_slot(self.inner.free_chain@[i] as int) == (if i + 1
                    < self.inner.free_chain@.len() {
                    self.inner.free_chain@[i + 1]
                } else {
                    L2_MAX
                }));
            }
        }
    }

    /// Compare-and-swap on slot `id`: install `new` and return the
    /// old pointer when the slot holds `old_ptr`, else return the
    /// actual pointer unchanged. The sole publication primitive for
    /// page-pointer deltas.
    pub fn cas(&mut self, id: u64, old_ptr: u64, new: u64) -> (r: Result<u64, u64>)
        requires
            old(self).inner.wf(),
            id < L2_MAX,
            !old(self).inner.in_free_chain(id),
        ensures
            final(self).inner.wf(),
            old(self).inner.spec_slot(id as int) == old_ptr ==> ({
                &&& r == Result::<u64, u64>::Ok(old_ptr)
                &&& final(self).inner.spec_slot(id as int) == new
                &&& (forall|x: int|
                    0 <= x < L2_MAX && x != id ==> final(self).inner.spec_slot(x) == old(self).inner.spec_slot(x))
                &&& final(self).inner.next == old(self).inner.next
                &&& final(self).inner.free == old(self).inner.free
                &&& final(self).inner.free_chain == old(self).inner.free_chain
            }),
            old(self).inner.spec_slot(id as int) != old_ptr ==> r == Result::<u64, u64>::Err(
                old(self).inner.spec_slot(id as int),
            ) && *final(self) == *old(self),
    {
        let actual = self.inner.slot_load(id);
        if actual == old_ptr {
            self.set(id, new);
            Ok(actual)
        } else {
            Err(actual)
        }
    }

    /// Allocate a fresh id, or `None` when the directory is
    /// exhausted. The guard witnesses the caller's epoch pin.
    pub fn alloc_id(&mut self, _guard: &Guard) -> (r: Option<u64>)
        requires
            old(self).inner.wf(),
        ensures
            final(self).inner.wf(),
            r is Some <==> (old(self).inner.free_chain@.len() > 0 || old(self).inner.next
                < L2_MAX),
            r is None ==> *final(self) == *old(self),
            r matches Some(id) ==> ({
                &&& id < L2_MAX
                &&& !old(self).inner.is_allocated(id)
                &&& final(self).inner.is_allocated(id)
                &&& (forall|x: u64|
                    x != id ==> final(self).inner.is_allocated(x) == old(self).inner.is_allocated(
                        x,
                    ))
                &&& (forall|x: int|
                    0 <= x < L2_MAX ==> final(self).inner.spec_slot(x) == old(self).inner.spec_slot(x))
                &&& (old(self).inner.free_chain@.len() > 0 ==> id == old(self).inner.free_chain@[0]
                    && final(self).inner.free_chain@ == old(self).inner.free_chain@.drop_first())
                &&& (old(self).inner.free_chain@.len() == 0 ==> id == old(self).inner.next && final(self).inner.free_chain@ == old(self).inner.free_chain@)
            }),
    {
        self.inner.alloc_id()
    }

    /// Return `id` to the free list. In this sequential model the id
    /// is reusable at once; under concurrent readers it would be
    /// deferred until the guard's epoch is safe.
    pub fn dealloc(&mut self, id: u64, _guard: &Guard)
        requires
            old(self).inner.wf(),
            old(self).inner.is_allocated(id),
        ensures
            final(self).inner.wf(),
            final(self).inner.next == old(self).inner.next,
            final(self).inner.free_chain@ == seq![id] + old(self).inner.free_chain@,
            !final(self).inner.is_allocated(id),
            forall|x: u64|
                x != id ==> final(self).inner.is_allocated(x) == old(self).inner.is_allocated(x),
            forall|x: int|
                0 <= x < L2_MAX && x != id ==> final(self).inner.spec_slot(x) == old(self).inner.spec_slot(x),
    {
        self.inner.dealloc(id);
    }
}

} // verus!
