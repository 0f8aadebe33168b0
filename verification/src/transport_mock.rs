//! The transport layer's in-memory stand-in channel.
use vstd::prelude::*;
use std::collections::VecDeque;

verus! {

/// Stand-in zero-copy channel for the transport layer: two unbounded FIFO queues of offsets.
pub struct MockZeroCopyChannel {
    send_queue: VecDeque<u64>,
    return_queue: VecDeque<u64>,
}

impl Default for MockZeroCopyChannel {
    fn default() -> (r: Self)
        ensures
            r.pending() == Seq::<u64>::empty(),
            r.returned() == Seq::<u64>::empty(),
    {
        Self::new()
    }
}

impl MockZeroCopyChannel {
    /// Offsets sent and not yet received, oldest first.
    pub closed spec fn pending(&self) -> Seq<u64> {
        self.send_queue@
    }

    /// Offsets returned and not yet reclaimed, oldest first.
    pub closed spec fn returned(&self) -> Seq<u64> {
        self.return_queue@
    }

    /// A channel with both queues empty.
    pub fn new() -> (r: Self)
        ensures
            r.pending() == Seq::<u64>::empty(),
            r.returned() == Seq::<u64>::empty(),
    {
        MockZeroCopyChannel { send_queue: VecDeque::new(), return_queue: VecDeque::new() }
    }

    /// Queue an offset for the receiver.
    pub fn send(&mut self, offset: u64)
        ensures
            final(self).pending() == old(self).pending().push(offset),
            final(self).returned() == old(self).returned(),
    {
        self.send_queue.push_back(offset);
    }

    /// The oldest pending offset, if any.
    pub fn receive(&mut self) -> (r: Option<u64>)
        ensures
            final(self).returned() == old(self).returned(),
            old(self).pending().len() == 0 ==> r == None::<u64> && final(self).pending() == old(self).pending(),
            old(self).pending().len() > 0 ==> r == Some(old(self).pending()[0]) && final(self).pending()
                == old(self).pending().drop_first(),
    {
        self.send_queue.pop_front()
    }

    /// Queue a consumed offset for the sender.
    pub fn return_slot(&mut self, offset: u64)
        ensures
            final(self).returned() == old(self).returned().push(offset),
            final(self).pending() == old(self).pending(),
    {
        self.return_queue.push_back(offset);
    }

    /// The oldest returned offset, if any.
    pub fn reclaim(&mut self) -> (r: Option<u64>)
        ensures
            final(self).pending() == old(self).pending(),
            old(self).returned().len() == 0 ==> r == None::<u64> && final(self).returned() == old(self).returned(),
            old(self).returned().len() > 0 ==> r == Some(old(self).returned()[0]) && final(self).returned()
                == old(self).returned().drop_first(),
    {
        self.return_queue.pop_front()
    }
}

} // verus!
