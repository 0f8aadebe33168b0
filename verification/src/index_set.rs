//! A pool of unique indices `[0, capacity)` handed out and taken back.
use vstd::prelude::*;
use crate::free_list::{
    SENTINEL, pack, extract_head, extract_tag, head_of, first_free, chain, taken, take_step,
    give_step, initial_chain, lemma_chain_len, lemma_take, lemma_give, lemma_taken_steps,
    lemma_taken_len,
};

verus! {

/// Error returned when no more indices are available.
#[derive(Debug, Clone, Copy, PartialEq, Eq, Structural)]
pub struct AcquireError;

/// Unique index set for slot allocation.
///
/// The free indices form a stack (most recently released first), linked
/// through `next` from the head index packed beside an ABA tag in `head`.
/// Its model is that stack of free indices.
pub struct UniqueIndexSet {
    head: u64,
    next: Vec<u32>,
    capacity: u32,
    borrowed: u32,
    free: Ghost<Seq<u32>>,
}

impl UniqueIndexSet {
    /// Well-formed: the head names the first free index, the free indices
    /// form a chain through `next`, and the borrowed count is what is not free.
    pub closed spec fn wf(&self) -> bool {
        &&& 0 < self.capacity
        &&& chain(self.next@, self.free@, self.capacity as nat)
        &&& head_of(self.head) == first_free(self.free@)
        &&& self.free@.len() + self.borrowed == self.capacity
    }

    /// Number of indices of the set.
    pub closed spec fn cap(&self) -> nat {
        self.capacity as nat
    }

    /// The free indices, the next one to be handed out first.
    pub closed spec fn view(&self) -> Seq<u32> {
        self.free@
    }

    /// The indices currently handed out.
    pub open spec fn borrowed_set(&self) -> Set<u32> {
        taken(self@, self.cap())
    }

    /// What every well-formed set keeps: the free indices are distinct and
    /// below the capacity, and every index below the capacity is either free
    /// or borrowed, so the borrowed set has `cap - free` members.
    pub proof fn lemma_wf_facts(&self)
        requires
            self.wf(),
        ensures
            0 < self.cap() <= u32::MAX,
            self@.no_duplicates(),
            forall|i: int| 0 <= i < self@.len() ==> #[trigger] self@[i] < self.cap(),
            self@.len() <= self.cap(),
            self.borrowed_set().finite(),
            self.borrowed_set().len() + self@.len() == self.cap(),
            forall|i: u32| #[trigger] self.borrowed_set().contains(i) ==> i < self.cap(),
    {
        lemma_taken_len(self.free@, self.capacity as nat);
    }

    /// Create a set with indices `[0, capacity)`, all free.
    pub fn new(capacity: u32) -> (r: Self)
        requires
            0 < capacity,
        ensures
            r.wf(),
            r.cap() == capacity,
            r@ == initial_chain(capacity as nat),
    {
        let mut next: Vec<u32> = Vec::new();
        let mut i: u32 = 0;
        while i < capacity
            invariant
                i <= capacity,
                next@.len() == i,
                forall|j: int| 0 <= j < i ==> #[trigger] next@[j] == (if j + 1 < capacity {
                    (j + 1) as u32
                } else {
                    SENTINEL
                }),
            decreases capacity - i,
        {
            if i + 1 < capacity {
                next.push(i + 1);
            } else {
                next.push(SENTINEL);
            }
            i = i + 1;
        }
        let head = pack(0, 0);
        let ghost free = initial_chain(capacity as nat);
        proof {
            assert forall|i: int| 0 <= i < free.len() - 1 implies next@[#[trigger] free[i] as int] == free[i + 1] by {}
        }
        UniqueIndexSet { head, next, capacity, borrowed: 0, free: Ghost(free) }
    }

    /// Acquire a unique index: the most recently released free index.
    ///
    /// Fails with `AcquireError` exactly when every index is borrowed.
    pub fn acquire(&mut self) -> (r: Result<u32, AcquireError>)
        requires
            old(self).wf(),
        ensures
            final(self).wf(),
            final(self).cap() == old(self).cap(),
            match take_step(old(self)@) {
                (Some(i), rest) => r == Ok::<u32, AcquireError>(i) && final(self)@ == rest,
                (None, rest) => r == Err::<u32, AcquireError>(AcquireError) && final(self)@ == rest,
            },
            r is Ok ==> !old(self).borrowed_set().contains(r->Ok_0) && final(self).borrowed_set()
                == old(self).borrowed_set().insert(r->Ok_0),
            r is Ok ==> r->Ok_0 < old(self).cap(),
            r is Err <==> old(self).borrowed_set().len() == old(self).cap(),
    {
        proof {
            old(self).lemma_wf_facts();
        }
        let old_head = self.head;
        let head_idx = extract_head(old_head);
        if head_idx == SENTINEL {
            proof {
                if self.free@.len() > 0 {
                    assert(self.free@[0] < self.capacity);
                }
            }
            return Err(AcquireError);
        }
        proof {
            lemma_take(self.next@, self.free@, self.capacity as nat);
            lemma_taken_steps(self.free@, self.capacity as nat, head_idx);
        }
        let next_idx = self.next[head_idx as usize];
        let tag = extract_tag(old_head);
        self.head = pack(next_idx, tag.wrapping_add(1));
        self.borrowed = self.borrowed + 1;
        self.free = Ghost(self.free@.subrange(1, self.free@.len() as int));
        Ok(head_idx)
    }

    /// Release a borrowed index back to the set; it becomes the next one acquired.
    pub fn release(&mut self, index: u32)
        requires
            old(self).wf(),
            old(self).borrowed_set().contains(index),
        ensures
            final(self).wf(),
            final(self).cap() == old(self).cap(),
            final(self)@ == give_step(old(self)@, index),
            final(self).borrowed_set() == old(self).borrowed_set().remove(index),
    {
        proof {
            lemma_give(self.next@, self.free@, self.capacity as nat, index);
            lemma_chain_len(self.next@, self.free@, self.capacity as nat, index);
            lemma_taken_steps(self.free@, self.capacity as nat, index);
        }
        let old_head = self.head;
        let head_idx = extract_head(old_head);
        self.next.set(index as usize, head_idx);
        let tag = extract_tag(old_head);
        self.head = pack(index, tag.wrapping_add(1));
        self.borrowed = self.borrowed - 1;
        self.free = Ghost(give_step(self.free@, index));
    }

    /// Whether `index` is currently borrowed (an index of the set that is not free).
    pub fn is_borrowed(&self, index: u32) -> (r: bool)
        requires
            self.wf(),
        ensures
            r == self.borrowed_set().contains(index),
    {
        if index >= self.capacity {
            return false;
        }
        let ghost free = self.free@;
        let mut cur = extract_head(self.head);
        let ghost mut k: int = 0;
        while cur != SENTINEL
            invariant
                self.wf(),
                free == self.free@,
                0 <= k <= free.len(),
                cur == (if k < free.len() {
                    free[k]
                } else {
                    SENTINEL
                }),
                forall|j: int| 0 <= j < k ==> free[j] != index,
            decreases free.len() - k,
        {
            if cur == index {
                return false;
            }
            proof {
                assert(k < free.len());
                assert(free[k] < self.capacity);
            }
            cur = self.next[cur as usize];
            proof {
                k = k + 1;
            }
        }
        proof {
            assert(!free.contains(index));
        }
        true
    }

    /// The index acquired next; some index must be free.
    pub fn peek_free(&self) -> (r: u32)
        requires
            self.wf(),
            self@.len() > 0,
        ensures
            r == self@[0],
    {
        extract_head(self.head)
    }

    /// Number of currently borrowed indices.
    pub fn borrowed_count(&self) -> (r: u32)
        requires
            self.wf(),
        ensures
            r == self.cap() - self@.len(),
            r == self.borrowed_set().len(),
    {
        proof {
            self.lemma_wf_facts();
        }
        self.borrowed
    }

    /// Total capacity.
    pub fn capacity(&self) -> (r: u32)
        ensures
            r == self.cap(),
    {
        self.capacity
    }

    /// Number of available (free) indices.
    pub fn available(&self) -> (r: u32)
        requires
            self.wf(),
        ensures
            r == self@.len(),
    {
        self.capacity.saturating_sub(self.borrowed_count())
    }
}

} // verus!
