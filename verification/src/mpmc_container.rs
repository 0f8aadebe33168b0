//! A fixed-capacity container of `u64` values addressed by slot index.
use vstd::prelude::*;
use crate::atomic_bitset::AtomicBitSet;
use crate::free_list::{
    SENTINEL, pack, extract_head, extract_tag, head_of, first_free, chain, take_step, give_step,
    initial_chain, lemma_chain_len, lemma_take, lemma_give, lemma_taken_len, taken,
};

verus! {

/// Container for dynamic port registration.
///
/// A fixed set of slots, each holding a `u64` (typically a pointer offset
/// or a port id). A bitset marks the occupied slots; the free ones form a
/// stack linked through `next`, the most recently freed first.
///
/// Its model is the map from occupied slots to their values, together with
/// the stack of free slots.
pub struct MpmcContainer {
    data: Vec<u64>,
    occupied: AtomicBitSet,
    free_head: u64,
    next: Vec<u32>,
    capacity: u32,
    free: Ghost<Seq<u32>>,
}

impl MpmcContainer {
    /// Well-formed: a slot is occupied exactly when it is not on the free stack.
    pub closed spec fn wf(&self) -> bool {
        &&& 0 < self.capacity
        &&& self.data@.len() == self.capacity
        &&& self.occupied.wf()
        &&& self.occupied.cap() == self.capacity
        &&& chain(self.next@, self.free@, self.capacity as nat)
        &&& head_of(self.free_head) == first_free(self.free@)
        &&& forall|i: int|
            #[trigger] self.occupied@.contains(i) <==> (0 <= i < self.capacity && !self.free@.contains(
                i as u32,
            ))
    }

    /// Number of slots.
    pub closed spec fn cap(&self) -> nat {
        self.capacity as nat
    }

    /// The free slots, the next one to be filled first.
    pub closed spec fn free_slots(&self) -> Seq<u32> {
        self.free@
    }

    /// The value held by each occupied slot.
    pub closed spec fn view(&self) -> Map<int, u64> {
        Map::new(|i: int| self.occupied@.contains(i), |i: int| self.data@[i])
    }

    /// What every well-formed container keeps: a slot is occupied exactly when
    /// it is below the capacity and not free, the free slots are distinct, and
    /// occupied and free slots together are all `cap` slots.
    pub proof fn lemma_wf_facts(&self)
        requires
            self.wf(),
        ensures
            0 < self.cap() <= u32::MAX,
            self@.dom().finite(),
            forall|k: int| #[trigger] self@.contains_key(k) <==> (0 <= k < self.cap()
                && !self.free_slots().contains(k as u32)),
            self.free_slots().no_duplicates(),
            forall|i: int| 0 <= i < self.free_slots().len() ==> #[trigger] self.free_slots()[i] < self.cap(),
            self@.len() + self.free_slots().len() == self.cap(),
    {
        let cap = self.capacity as nat;
        let t = taken(self.free@, cap);
        let f = |x: u32| x as int;
        assert(self@.dom() =~= self.occupied@);
        lemma_taken_len(self.free@, cap);
        assert forall|x1: u32, x2: u32| t.contains(x1) && t.contains(x2) && #[trigger] f(x1) == #[trigger] f(x2)
            implies x1 == x2 by {}
        assert forall|i: int| #[trigger] self.occupied@.contains(i) implies t.map(f).contains(i) by {
            assert(t.contains(i as u32) && f(i as u32) == i);
        }
        assert(t.map(f) =~= self.occupied@);
        vstd::set_lib::lemma_map_size(t, self.occupied@, f);
    }

    /// Create a container with `capacity` empty slots.
    pub fn new(capacity: u32) -> (r: Self)
        requires
            capacity > 0,
        ensures
            r.wf(),
            r.cap() == capacity,
            r@ == Map::<int, u64>::empty(),
            r.free_slots() == initial_chain(capacity as nat),
    {
        let mut data: Vec<u64> = Vec::new();
        let mut next: Vec<u32> = Vec::new();
        let mut i: u32 = 0;
        while i < capacity
            invariant
                i <= capacity,
                data@.len() == i,
                next@.len() == i,
                forall|j: int| 0 <= j < i ==> #[trigger] next@[j] == (if j + 1 < capacity {
                    (j + 1) as u32
                } else {
                    SENTINEL
                }),
            decreases capacity - i,
        {
            data.push(0u64);
            if i + 1 < capacity {
                next.push(i + 1);
            } else {
                next.push(SENTINEL);
            }
            i = i + 1;
        }
        let free_head = pack(0, 0);
        let occupied = AtomicBitSet::new(capacity);
        let ghost free = initial_chain(capacity as nat);
        proof {
            assert forall|i: int| 0 <= i < free.len() - 1 implies next@[#[trigger] free[i] as int] == free[i + 1] by {}
            assert forall|i: int| 0 <= i < capacity implies #[trigger] free.contains(i as u32) by {
                assert(free[i] == i as u32);
            }
        }
        let r = MpmcContainer { data, occupied, free_head, next, capacity, free: Ghost(free) };
        proof {
            assert(r@ =~= Map::<int, u64>::empty());
        }
        r
    }

    /// Add a value to the container. Returns its slot, or `None` if full.
    pub fn add(&mut self, value: u64) -> (r: Option<u32>)
        requires
            old(self).wf(),
        ensures
            final(self).wf(),
            final(self).cap() == old(self).cap(),
            match take_step(old(self).free_slots()) {
                (Some(s), rest) => {
                    &&& r == Some(s)
                    &&& !old(self)@.contains_key(s as int)
                    &&& final(self)@ == old(self)@.insert(s as int, value)
                    &&& final(self).free_slots() == rest
                },
                (None, rest) => {
                    &&& r == None::<u32>
                    &&& final(self)@ == old(self)@
                    &&& final(self).free_slots() == rest
                },
            },
            r is None <==> old(self)@.len() == old(self).cap(),
            r is Some ==> r->0 < old(self).cap() && final(self)@.len() == old(self)@.len() + 1,
    {
        proof {
            old(self).lemma_wf_facts();
        }
        let slot = match self.alloc_slot() {
            Some(s) => s,
            None => {
                return None;
            },
        };
        proof {
            assert(old(self).free@.contains(slot));
            assert(!old(self).occupied@.contains(slot as int));
        }
        self.data.set(slot as usize, value);
        self.occupied.set(slot);
        proof {
            assert forall|i: int| #[trigger] self.occupied@.contains(i) <==> (0 <= i < self.capacity
                && !self.free@.contains(i as u32)) by {
                if 0 <= i < self.capacity && i != slot as int {
                    assert(i as u32 != slot);
                    assert(old(self).free@.contains(i as u32) == self.free@.contains(i as u32));
                }
            }
            assert(self@ =~= old(self)@.insert(slot as int, value));
        }
        Some(slot)
    }

    /// Remove the value of an occupied slot and free the slot.
    /// Returns the value, or `None` if the slot was not occupied.
    pub fn remove(&mut self, slot: u32) -> (r: Option<u64>)
        requires
            old(self).wf(),
            slot < old(self).cap(),
        ensures
            final(self).wf(),
            final(self).cap() == old(self).cap(),
            if old(self)@.contains_key(slot as int) {
                &&& r == Some(old(self)@[slot as int])
                &&& final(self)@ == old(self)@.remove(slot as int)
                &&& final(self).free_slots() == give_step(old(self).free_slots(), slot)
            } else {
                &&& r == None::<u64>
                &&& final(self)@ == old(self)@
                &&& final(self).free_slots() == old(self).free_slots()
            },
            r is Some ==> final(self)@.len() == old(self)@.len() - 1,
    {
        proof {
            old(self).lemma_wf_facts();
        }
        if !self.occupied.clear(slot) {
            proof {
                assert(self@ =~= old(self)@);
            }
            return None;
        }
        let value = self.data[slot as usize];
        proof {
            assert(!old(self).free@.contains(slot));
        }
        self.free_slot(slot);
        proof {
            assert forall|i: int| #[trigger] self.occupied@.contains(i) <==> (0 <= i < self.capacity
                && !self.free@.contains(i as u32)) by {
                if 0 <= i < self.capacity && i != slot as int {
                    assert(i as u32 != slot);
                    assert(old(self).free@.contains(i as u32) == self.free@.contains(i as u32));
                }
            }
            assert(self@ =~= old(self)@.remove(slot as int));
        }
        Some(value)
    }

    /// The value at a slot, or `None` if the slot is not occupied.
    pub fn get(&self, slot: u32) -> (r: Option<u64>)
        requires
            self.wf(),
            slot < self.cap(),
        ensures
            r == (if self@.contains_key(slot as int) {
                Some(self@[slot as int])
            } else {
                None
            }),
    {
        if self.occupied.is_set(slot) {
            Some(self.data[slot as usize])
        } else {
            None
        }
    }

    /// Number of occupied slots.
    pub fn len(&self) -> (r: u32)
        requires
            self.wf(),
        ensures
            r == self@.len(),
    {
        proof {
            assert(self@.dom() =~= self.occupied@);
        }
        self.occupied.count_set()
    }

    /// Whether the container is empty.
    pub fn is_empty(&self) -> (r: bool)
        requires
            self.wf(),
        ensures
            r == (self@.len() == 0),
    {
        self.len() == 0
    }

    /// Total capacity.
    pub fn capacity(&self) -> (r: u32)
        ensures
            r == self.cap(),
    {
        self.capacity
    }

    fn alloc_slot(&mut self) -> (r: Option<u32>)
        requires
            old(self).wf(),
        ensures
            final(self).data@ == old(self).data@,
            final(self).occupied == old(self).occupied,
            final(self).capacity == old(self).capacity,
            chain(final(self).next@, final(self).free@, final(self).capacity as nat),
            head_of(final(self).free_head) == first_free(final(self).free@),
            take_step(old(self).free@) == (r, final(self).free@),
            r is Some ==> r->0 < old(self).capacity,
            r is Some ==> !final(self).free@.contains(r->0),
            r is Some ==> forall|x: u32| #[trigger] old(self).free@.contains(x) == (x == r->0 || final(self).free@.contains(x)),
    {
        let old_head = self.free_head;
        let head = extract_head(old_head);
        if head == SENTINEL {
            proof {
                if self.free@.len() > 0 {
                    assert(self.free@[0] < self.capacity);
                }
            }
            return None;
        }
        proof {
            lemma_take(self.next@, self.free@, self.capacity as nat);
        }
        let next_idx = self.next[head as usize];
        let tag = extract_tag(old_head);
        self.free_head = pack(next_idx, tag.wrapping_add(1));
        self.free = Ghost(self.free@.subrange(1, self.free@.len() as int));
        Some(head)
    }

    fn free_slot(&mut self, slot: u32)
        requires
            slot < old(self).capacity,
            !old(self).free@.contains(slot),
            chain(old(self).next@, old(self).free@, old(self).capacity as nat),
            head_of(old(self).free_head) == first_free(old(self).free@),
        ensures
            final(self).data@ == old(self).data@,
            final(self).occupied == old(self).occupied,
            final(self).capacity == old(self).capacity,
            chain(final(self).next@, final(self).free@, final(self).capacity as nat),
            head_of(final(self).free_head) == first_free(final(self).free@),
            final(self).free@ == give_step(old(self).free@, slot),
            forall|x: u32| #[trigger] final(self).free@.contains(x) == (x == slot || old(self).free@.contains(x)),
    {
        proof {
            lemma_give(self.next@, self.free@, self.capacity as nat, slot);
        }
        let old_head = self.free_head;
        let head = extract_head(old_head);
        self.next.set(slot as usize, head);
        let tag = extract_tag(old_head);
        self.free_head = pack(slot, tag.wrapping_add(1));
        self.free = Ghost(give_step(self.free@, slot));
    }
}

} // verus!
verus! {

/// `pairs` lists exactly the entries of `m` whose slot is below `bound`, by increasing slot.
pub open spec fn lists_entries_below(pairs: Seq<(u32, u64)>, m: Map<int, u64>, bound: int) -> bool {
    &&& forall|k: int| 0 <= k < pairs.len() ==> #[trigger] m.contains_key(pairs[k].0 as int)
        && m[pairs[k].0 as int] == pairs[k].1 && pairs[k].0 < bound
    &&& forall|a: int, b: int| 0 <= a < b < pairs.len() ==> pairs[a].0 < pairs[b].0
    &&& forall|s: int| #[trigger] m.contains_key(s) && s < bound ==> exists|k: int|
        0 <= k < pairs.len() && pairs[k].0 == s
}

impl MpmcContainer {
    /// Call `f` with (slot, value) for every occupied slot, in increasing slot order
    /// (the pairs that `entries` lists): what `f` ensures then holds of every
    /// occupied slot and its value. `f` is called on no other pair: it needs to
    /// accept only the occupied slots with their values.
    pub fn for_each<F: FnMut(u32, u64)>(&self, mut f: F)
        requires
            self.wf(),
            forall|k: int| #[trigger] self@.contains_key(k) ==> f.requires((k as u32, self@[k])),
        ensures
            forall|k: int| #[trigger] self@.contains_key(k) ==> call_ensures(f, (k as u32, self@[k]), ()),
    {
        let ghost f0 = f;
        proof {
            self.lemma_wf_facts();
        }
        let mut i: u32 = 0;
        while i < self.capacity
            invariant
                self.wf(),
                i <= self.capacity,
                f == f0,
                forall|k: int| #[trigger] self@.contains_key(k) ==> f.requires((k as u32, self@[k])),
                forall|k: int| 0 <= k < i && #[trigger] self@.contains_key(k) ==> call_ensures(
                    f0,
                    (k as u32, self@[k]),
                    (),
                ),
            decreases self.capacity - i,
        {
            if self.occupied.is_set(i) {
                let value = self.data[i as usize];
                proof {
                    assert(self@.contains_key(i as int) && self@[i as int] == value);
                }
                f(i, value);
            }
            i = i + 1;
        }
    }

    /// The (slot, value) pairs of the occupied slots, in increasing slot order.
    pub fn entries(&self) -> (r: Vec<(u32, u64)>)
        requires
            self.wf(),
        ensures
            lists_entries_below(r@, self@, self.cap() as int),
            forall|s: int| #[trigger] self@.contains_key(s) ==> s < self.cap(),
    {
        let mut out: Vec<(u32, u64)> = Vec::new();
        let mut i: u32 = 0;
        while i < self.capacity
            invariant
                self.wf(),
                i <= self.capacity,
                lists_entries_below(out@, self@, i as int),
                forall|s: int| #[trigger] self@.contains_key(s) ==> 0 <= s < self.cap(),
            decreases self.capacity - i,
        {
            let ghost prev = out@;
            let set = self.occupied.is_set(i);
            if set {
                let value = self.data[i as usize];
                out.push((i, value));
                proof {
                    assert(out@ == prev.push((i, self@[i as int])));
                }
            } else {
                assert(out@ == prev);
            }
            proof {
                assert(self@.contains_key(i as int) == set);
                assert forall|k: int| 0 <= k < out@.len() implies #[trigger] self@.contains_key(out@[k].0 as int)
                    && self@[out@[k].0 as int] == out@[k].1 && out@[k].0 < i + 1 by {
                    if k < prev.len() {
                        assert(out@[k] == prev[k]);
                    } else {
                        assert(out@[k] == (i, self@[i as int]));
                    }
                }
                assert forall|a: int, b: int| 0 <= a < b < out@.len() implies out@[a].0 < out@[b].0 by {
                    assert(out@[a] == prev[a]);
                    assert(self@.contains_key(prev[a].0 as int));
                    assert(prev[a].0 < i);
                    if b < prev.len() {
                        assert(out@[b] == prev[b]);
                    } else {
                        assert(out@[b].0 == i);
                    }
                }
                assert forall|s: int| #[trigger] self@.contains_key(s) && s < i + 1 implies exists|k: int|
                    0 <= k < out@.len() && out@[k].0 == s by {
                    if s < i {
                        let k = choose|k: int| 0 <= k < prev.len() && prev[k].0 == s;
                        assert(out@[k] == prev[k]);
                    } else {
                        assert(out@[prev.len() as int].0 == s);
                    }
                }
            }
            i = i + 1;
        }
        out
    }
}

/// Removing the slot that a value was just added to gives the value back and
/// restores the container's contents; until then, the slot reads as that value.
pub proof fn lemma_remove_undoes_add(before: Map<int, u64>, slot: int, value: u64)
    requires
        !before.contains_key(slot),
    ensures
        before.insert(slot, value).contains_key(slot),
        before.insert(slot, value)[slot] == value,
        before.insert(slot, value).remove(slot) == before,
        before.insert(slot, value).len() == before.len() + 1 || !before.dom().finite(),
{
    assert(before.insert(slot, value).remove(slot) =~= before);
}

} // verus!
