//! In-memory stand-ins for the shared memory, index allocation and channel
//! layers, for developing each layer on its own.
use vstd::prelude::*;
use std::collections::HashMap;
use std::collections::VecDeque;

verus! {

/// Heap-backed stand-in for a shared memory segment: `size` zeroed bytes.
pub struct MockSharedMemory {
    pub name: String,
    pub data: Vec<u8>,
    pub size: usize,
}

impl MockSharedMemory {
    /// A zeroed segment of `size` bytes named `name`.
    pub fn create(name: &str, size: usize) -> (r: Self)
        ensures
            r.name@ == name@,
            r.size == size,
            r.data@ == Seq::new(size as nat, |i: int| 0u8),
    {
        let mut data: Vec<u8> = Vec::new();
        let mut i: usize = 0;
        while i < size
            invariant
                i <= size,
                data@ == Seq::new(i as nat, |k: int| 0u8),
            decreases size - i,
        {
            data.push(0u8);
            i = i + 1;
            proof {
                assert(data@ =~= Seq::new(i as nat, |k: int| 0u8));
            }
        }
        MockSharedMemory { name: name.to_owned(), data, size }
    }
}

/// Stand-in provider of named shared memory segments.
pub struct MockSharedMemoryProvider {
    segments: HashMap<String, Vec<u8>>,
}

impl MockSharedMemoryProvider {
    /// The segments held, by name.
    pub closed spec fn view(&self) -> Map<String, Vec<u8>> {
        self.segments@
    }

    /// A provider holding no segment.
    pub fn new() -> (r: Self)
        ensures
            r@ == Map::<String, Vec<u8>>::empty(),
    {
        MockSharedMemoryProvider { segments: HashMap::new() }
    }
}

/// The free indices of a new stand-in allocator of `capacity` indices:
/// `capacity - 1` down to `0`, so that `0` is handed out first.
pub open spec fn mock_initial(capacity: u32) -> Seq<u32> {
    Seq::new(capacity as nat, |i: int| (capacity - 1 - i) as u32)
}

/// One call on a stand-in allocator whose state is (free indices, borrowed
/// count, acquires that returned an index, releases): `None` is an `acquire`,
/// which takes the last free index if there is one, and `Some(i)` is a
/// `release(i)`, which pushes `i` and lowers the borrowed count.
pub open spec fn mock_step(state: (Seq<u32>, nat, nat, nat), call: Option<u32>) -> (Seq<u32>, nat, nat, nat) {
    let (free, borrowed, acquired, released) = state;
    match call {
        None => if free.len() == 0 {
            state
        } else {
            (free.drop_last(), borrowed + 1, acquired + 1, released)
        },
        Some(i) => (free.push(i), (borrowed - 1) as nat, acquired, released + 1),
    }
}

/// The state after making `calls` in order, from free indices `free` and
/// `borrowed` indices handed out, with no call counted yet.
pub open spec fn mock_run(free: Seq<u32>, borrowed: nat, calls: Seq<Option<u32>>) -> (Seq<u32>, nat, nat, nat)
    decreases calls.len(),
{
    if calls.len() == 0 {
        (free, borrowed, 0, 0)
    } else {
        mock_step(mock_run(free, borrowed, calls.drop_last()), calls.last())
    }
}

/// Every release among `calls` is made while some index is borrowed.
pub open spec fn releases_borrowed(free: Seq<u32>, borrowed: nat, calls: Seq<Option<u32>>) -> bool {
    forall|k: int|
        0 <= k < calls.len() && (#[trigger] calls[k]) is Some ==> mock_run(free, borrowed, calls.take(k)).1
            > 0
}

/// From any state where the borrowed and free indices make up `cap`, the
/// borrowed count after `calls` is the starting count plus the acquires that
/// returned an index, less the releases, and borrowed and free still make up `cap`.
proof fn lemma_mock_run_counts(free: Seq<u32>, borrowed: nat, calls: Seq<Option<u32>>, cap: nat)
    requires
        borrowed + free.len() == cap,
        releases_borrowed(free, borrowed, calls),
    ensures
        mock_run(free, borrowed, calls).1 + mock_run(free, borrowed, calls).3 == borrowed + mock_run(
            free,
            borrowed,
            calls,
        ).2,
        mock_run(free, borrowed, calls).1 + mock_run(free, borrowed, calls).0.len() == cap,
    decreases calls.len(),
{
    if calls.len() > 0 {
        let prefix = calls.drop_last();
        assert forall|k: int| 0 <= k < prefix.len() && (#[trigger] prefix[k]) is Some implies mock_run(
            free,
            borrowed,
            prefix.take(k),
        ).1 > 0 by {
            assert(calls[k] == prefix[k]);
            assert(prefix.take(k) =~= calls.take(k));
        }
        lemma_mock_run_counts(free, borrowed, prefix, cap);
        let last = calls.len() - 1;
        if calls[last] is Some {
            assert(calls.take(last) =~= prefix);
        }
    }
}

/// Over any sequence of calls on a new stand-in allocator, each release made
/// while some index is borrowed, the borrowed count is the number of acquires
/// that returned an index less the number of releases, and never exceeds the capacity.
pub proof fn lemma_borrowed_count_over_calls(capacity: u32, calls: Seq<Option<u32>>)
    requires
        releases_borrowed(mock_initial(capacity), 0, calls),
    ensures
        mock_run(mock_initial(capacity), 0, calls).1 == mock_run(mock_initial(capacity), 0, calls).2
            - mock_run(mock_initial(capacity), 0, calls).3,
        mock_run(mock_initial(capacity), 0, calls).1 <= capacity,
{
    lemma_mock_run_counts(mock_initial(capacity), 0, calls, capacity as nat);
}

/// Stand-in index allocator: a stack of free indices and a borrowed count.
///
/// Indices `0..capacity` start free and are handed out in increasing order;
/// a released index is the next one handed out.
pub struct MockIndexAllocator {
    free_list: Vec<u32>,
    capacity: u32,
    borrowed: u32,
}

impl MockIndexAllocator {
    /// Free indices plus borrowed ones make up the capacity.
    pub closed spec fn wf(&self) -> bool {
        self.free_list@.len() + self.borrowed == self.capacity
    }

    /// The free indices; the last one is handed out next.
    pub closed spec fn view(&self) -> Seq<u32> {
        self.free_list@
    }

    /// Number of indices handed out and not released.
    pub closed spec fn borrowed_spec(&self) -> nat {
        self.borrowed as nat
    }

    /// Number of indices.
    pub closed spec fn cap(&self) -> nat {
        self.capacity as nat
    }

    /// In every well-formed allocator the borrowed indices and the free ones
    /// make up the capacity, so at most `cap` indices are borrowed.
    pub proof fn lemma_borrowed_bounded(&self)
        requires
            self.wf(),
        ensures
            self.borrowed_spec() + self@.len() == self.cap(),
            self.borrowed_spec() <= self.cap(),
    {
    }

    /// An allocator of the indices `0..capacity`, all free.
    pub fn new(capacity: u32) -> (r: Self)
        ensures
            r.wf(),
            r.cap() == capacity,
            r.borrowed_spec() == 0,
            r@ == mock_initial(capacity),
    {
        let mut free_list: Vec<u32> = Vec::new();
        let mut i: u32 = capacity;
        while i > 0
            invariant
                i <= capacity,
                free_list@ == Seq::new((capacity - i) as nat, |k: int| (capacity - 1 - k) as u32),
            decreases i,
        {
            i = i - 1;
            free_list.push(i);
            proof {
                assert(free_list@ =~= Seq::new((capacity - i) as nat, |k: int| (capacity - 1 - k) as u32));
            }
        }
        MockIndexAllocator { free_list, capacity, borrowed: 0 }
    }

    /// Hand out the last free index, or `None` when none is free.
    pub fn acquire(&mut self) -> (r: Option<u32>)
        requires
            old(self).wf(),
        ensures
            final(self).wf(),
            final(self).cap() == old(self).cap(),
            old(self)@.len() == 0 ==> r == None::<u32> && final(self)@ == old(self)@
                && final(self).borrowed_spec() == old(self).borrowed_spec(),
            old(self)@.len() > 0 ==> r == Some(old(self)@.last()) && final(self)@ == old(self)@.drop_last()
                && final(self).borrowed_spec() == old(self).borrowed_spec() + 1,
            mock_step((old(self)@, old(self).borrowed_spec(), 0, 0), None) == (
                final(self)@,
                final(self).borrowed_spec(),
                if r is Some {
                    1nat
                } else {
                    0nat
                },
                0nat,
            ),
    {
        let idx = match self.free_list.pop() {
            Some(i) => i,
            None => {
                return None;
            },
        };
        self.borrowed = self.borrowed + 1;
        Some(idx)
    }

    /// Put an index back on the free stack; some index must be borrowed.
    pub fn release(&mut self, index: u32)
        requires
            old(self).wf(),
            old(self).borrowed_spec() > 0,
        ensures
            final(self).wf(),
            final(self).cap() == old(self).cap(),
            final(self)@ == old(self)@.push(index),
            final(self).borrowed_spec() == old(self).borrowed_spec() - 1,
            mock_step((old(self)@, old(self).borrowed_spec(), 0, 0), Some(index)) == (
                final(self)@,
                final(self).borrowed_spec(),
                0nat,
                1nat,
            ),
    {
        self.free_list.push(index);
        self.borrowed = self.borrowed - 1;
    }

    /// Number of indices.
    pub fn capacity(&self) -> (r: u32)
        ensures
            r == self.cap(),
    {
        self.capacity
    }

    /// Number of indices handed out and not released.
    pub fn borrowed_count(&self) -> (r: u32)
        ensures
            r == self.borrowed_spec(),
    {
        self.borrowed
    }
}

/// Stand-in zero-copy channel: two unbounded FIFO queues of offsets.
pub struct MockZeroCopyChannel {
    send_queue: VecDeque<u64>,
    return_queue: VecDeque<u64>,
}

impl MockZeroCopyChannel {
    /// Offsets sent and not yet received, oldest first.
    pub closed spec fn pending(&self) -> Seq<u64> {
        self.send_queue@
    }

    /// Offsets returned and not yet reclaimed, oldest first.
    pub closed spec fn returned(&self) -> Seq<u64> {
        self.return_queue@
    }

    /// A channel with both queues empty; the capacity is not used.
    pub fn new(_capacity: usize) -> (r: Self)
        ensures
            r.pending() == Seq::<u64>::empty(),
            r.returned() == Seq::<u64>::empty(),
    {
        MockZeroCopyChannel { send_queue: VecDeque::new(), return_queue: VecDeque::new() }
    }

    /// Queue an offset for the receiver.
    pub fn send(&mut self, offset: u64)
        ensures
            final(self).pending() == old(self).pending().push(offset),
            final(self).returned() == old(self).returned(),
    {
        self.send_queue.push_back(offset);
    }

    /// The oldest pending offset, if any.
    pub fn receive(&mut self) -> (r: Option<u64>)
        ensures
            final(self).returned() == old(self).returned(),
            old(self).pending().len() == 0 ==> r == None::<u64> && final(self).pending() == old(self).pending(),
            old(self).pending().len() > 0 ==> r == Some(old(self).pending()[0]) && final(self).pending()
                == old(self).pending().drop_first(),
    {
        self.send_queue.pop_front()
    }

    /// Queue a consumed offset for the sender.
    pub fn return_slot(&mut self, offset: u64)
        ensures
            final(self).returned() == old(self).returned().push(offset),
            final(self).pending() == old(self).pending(),
    {
        self.return_queue.push_back(offset);
    }

    /// The oldest returned offset, if any.
    pub fn reclaim(&mut self) -> (r: Option<u64>)
        ensures
            final(self).pending() == old(self).pending(),
            old(self).returned().len() == 0 ==> r == None::<u64> && final(self).returned() == old(self).returned(),
            old(self).returned().len() > 0 ==> r == Some(old(self).returned()[0]) && final(self).returned()
                == old(self).returned().drop_first(),
    {
        self.return_queue.pop_front()
    }
}

} // verus!
