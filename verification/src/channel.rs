//! A zero-copy channel: pointer offsets travel from a sender to a receiver,
//! and come back to the sender once consumed.
use vstd::prelude::*;
use crate::contracts::{ChannelState, ReceiveError, SendError};
use crate::pointer_offset::PointerOffset;
use crate::spsc_queue::SpscQueue;
use vstd::arithmetic::power2::{pow2, lemma_pow2_strictly_increases, lemma_pow2_unfold};

verus! {

/// Communication channel between one sender and one receiver.
///
/// The sender pushes offsets onto the send queue; the receiver pops them and
/// pushes each consumed offset onto the return queue, from which the sender
/// reclaims it. Only 64-bit offsets are exchanged; no payload is copied.
pub struct ZeroCopyChannel {
    send_queue: SpscQueue,
    return_queue: SpscQueue,
    state: u8,
    sender_id: u128,
    receiver_id: u128,
}

impl ZeroCopyChannel {
    /// Both queues are well-formed.
    pub closed spec fn wf(&self) -> bool {
        self.send_queue.wf() && self.return_queue.wf()
    }

    /// Offsets sent and not yet received, oldest first.
    pub closed spec fn pending(&self) -> Seq<u64> {
        self.send_queue@
    }

    /// Offsets returned and not yet reclaimed, oldest first.
    pub closed spec fn returned(&self) -> Seq<u64> {
        self.return_queue@
    }

    /// Capacity of the send queue.
    pub closed spec fn send_cap(&self) -> nat {
        self.send_queue.cap()
    }

    /// Capacity of the return queue.
    pub closed spec fn return_cap(&self) -> nat {
        self.return_queue.cap()
    }

    /// Current state.
    pub closed spec fn state_spec(&self) -> ChannelState {
        ChannelState::from_code_spec(self.state)
    }

    /// The sender id.
    pub closed spec fn sender_spec(&self) -> u128 {
        self.sender_id
    }

    /// The receiver id.
    pub closed spec fn receiver_spec(&self) -> u128 {
        self.receiver_id
    }

    /// Create a channel whose queues hold `capacity` offsets each (rounded up to a power of two).
    pub fn new(capacity: usize, sender_id: u128, receiver_id: u128) -> (r: Self)
        requires
            capacity <= usize::MAX / 2 + 1,
        ensures
            r.wf(),
            r.state_spec() == ChannelState::Creating,
            r.pending() == Seq::<u64>::empty(),
            r.returned() == Seq::<u64>::empty(),
            r.send_cap() >= capacity && r.send_cap() >= 2,
            r.send_cap() > 2 ==> r.send_cap() / 2 < capacity,
            exists|k: nat| pow2(k) == r.send_cap(),
            r.return_cap() == r.send_cap(),
            r.sender_spec() == sender_id,
            r.receiver_spec() == receiver_id,
    {
        let send_queue = SpscQueue::new(capacity);
        let return_queue = SpscQueue::new(capacity);
        proof {
            let a = send_queue.cap();
            let b = return_queue.cap();
            let ka = choose|k: nat| pow2(k) == a;
            let kb = choose|k: nat| pow2(k) == b;
            lemma_same_rounding(ka, kb, capacity as nat);
        }
        ZeroCopyChannel {
            send_queue,
            return_queue,
            state: ChannelState::Creating.code(),
            sender_id,
            receiver_id,
        }
    }

    /// Transition to the connected state. States only move forward
    /// (`Creating`, then `Connected`, then `Disconnected`): a channel that
    /// is already connected or disconnected stays as it is.
    pub fn connect(&mut self)
        requires
            old(self).wf(),
        ensures
            final(self).wf(),
            final(self).state_spec() == connect_step(old(self).state_spec()),
            final(self).pending() == old(self).pending(),
            final(self).returned() == old(self).returned(),
            final(self).send_cap() == old(self).send_cap(),
            final(self).return_cap() == old(self).return_cap(),
            final(self).sender_spec() == old(self).sender_spec(),
            final(self).receiver_spec() == old(self).receiver_spec(),
    {
        if self.state() == ChannelState::Creating {
            self.state = ChannelState::Connected.code();
        }
    }

    /// Transition to the disconnected state.
    pub fn disconnect(&mut self)
        requires
            old(self).wf(),
        ensures
            final(self).wf(),
            final(self).state_spec() == ChannelState::Disconnected,
            final(self).pending() == old(self).pending(),
            final(self).returned() == old(self).returned(),
            final(self).send_cap() == old(self).send_cap(),
            final(self).return_cap() == old(self).return_cap(),
            final(self).sender_spec() == old(self).sender_spec(),
            final(self).receiver_spec() == old(self).receiver_spec(),
    {
        self.state = ChannelState::Disconnected.code();
    }

    /// Current channel state.
    pub fn state(&self) -> (r: ChannelState)
        ensures
            r == self.state_spec(),
    {
        ChannelState::from_code(self.state)
    }

    /// Send an offset to the receiver; the channel must have been connected.
    ///
    /// Fails with `ConnectionBroken` on a disconnected channel, and with
    /// `QueueFull` when the send queue is full; otherwise the offset is queued.
    pub fn send(&mut self, offset: PointerOffset) -> (r: Result<(), SendError>)
        requires
            old(self).wf(),
            old(self).state_spec() != ChannelState::Creating,
        ensures
            final(self).wf(),
            final(self).state_spec() == old(self).state_spec(),
            final(self).returned() == old(self).returned(),
            final(self).send_cap() == old(self).send_cap(),
            final(self).return_cap() == old(self).return_cap(),
            final(self).sender_spec() == old(self).sender_spec(),
            final(self).receiver_spec() == old(self).receiver_spec(),
            old(self).state_spec() == ChannelState::Disconnected ==> r == Err::<(), SendError>(
                SendError::ConnectionBroken,
            ),
            old(self).state_spec() != ChannelState::Disconnected && old(self).pending().len()
                >= old(self).send_cap() ==> r == Err::<(), SendError>(SendError::QueueFull),
            r is Ok <==> (old(self).state_spec() != ChannelState::Disconnected && old(self).pending().len()
                < old(self).send_cap()),
            r is Ok ==> final(self).pending() == old(self).pending().push(offset@),
            r is Err ==> final(self).pending() == old(self).pending(),
    {
        if self.state() == ChannelState::Disconnected {
            return Err(SendError::ConnectionBroken);
        }
        if !self.send_queue.push(offset.raw()) {
            return Err(SendError::QueueFull);
        }
        Ok(())
    }

    /// Receive the oldest pending offset.
    ///
    /// Fails with `ConnectionBroken` when the channel is disconnected and
    /// nothing is pending, and with `Empty` when nothing is pending otherwise.
    pub fn receive(&mut self) -> (r: Result<PointerOffset, ReceiveError>)
        requires
            old(self).wf(),
        ensures
            final(self).wf(),
            final(self).state_spec() == old(self).state_spec(),
            final(self).returned() == old(self).returned(),
            final(self).send_cap() == old(self).send_cap(),
            final(self).return_cap() == old(self).return_cap(),
            final(self).sender_spec() == old(self).sender_spec(),
            final(self).receiver_spec() == old(self).receiver_spec(),
            old(self).pending().len() == 0 && old(self).state_spec() == ChannelState::Disconnected
                ==> r == Err::<PointerOffset, ReceiveError>(ReceiveError::ConnectionBroken),
            old(self).pending().len() == 0 && old(self).state_spec() != ChannelState::Disconnected
                ==> r == Err::<PointerOffset, ReceiveError>(ReceiveError::Empty),
            old(self).pending().len() == 0 ==> final(self).pending() == old(self).pending(),
            old(self).pending().len() > 0 ==> r is Ok && r->Ok_0@ == old(self).pending()[0]
                && final(self).pending() == old(self).pending().subrange(
                1,
                old(self).pending().len() as int,
            ),
    {
        if self.state() == ChannelState::Disconnected && self.send_queue.is_empty() {
            return Err(ReceiveError::ConnectionBroken);
        }
        match self.send_queue.pop() {
            Some(raw) => Ok(PointerOffset::from_raw(raw)),
            None => Err(ReceiveError::Empty),
        }
    }

    /// Return a consumed offset to the sender for reclamation.
    ///
    /// The return queue must have room (it is sized for every loaned sample);
    /// without room this would wait for the sender forever.
    pub fn return_offset(&mut self, offset: PointerOffset)
        requires
            old(self).wf(),
            old(self).returned().len() < old(self).return_cap(),
        ensures
            final(self).wf(),
            final(self).state_spec() == old(self).state_spec(),
            final(self).pending() == old(self).pending(),
            final(self).returned() == old(self).returned().push(offset@),
            final(self).send_cap() == old(self).send_cap(),
            final(self).return_cap() == old(self).return_cap(),
            final(self).sender_spec() == old(self).sender_spec(),
            final(self).receiver_spec() == old(self).receiver_spec(),
    {
        loop
            invariant_except_break
                *self == *old(self),
            invariant
                old(self).wf(),
                old(self).returned().len() < old(self).return_cap(),
            ensures
                self.wf(),
                self.send_queue == old(self).send_queue,
                self.state == old(self).state,
                self.sender_id == old(self).sender_id,
                self.receiver_id == old(self).receiver_id,
                self.return_queue.cap() == old(self).return_queue.cap(),
                self.returned() == old(self).returned().push(offset@),
            decreases 1nat,
        {
            if self.return_queue.push(offset.raw()) {
                break;
            }
        }
    }

    /// Reclaim the oldest returned offset, if any.
    pub fn reclaim(&mut self) -> (r: Option<PointerOffset>)
        requires
            old(self).wf(),
        ensures
            final(self).wf(),
            final(self).state_spec() == old(self).state_spec(),
            final(self).pending() == old(self).pending(),
            final(self).send_cap() == old(self).send_cap(),
            final(self).return_cap() == old(self).return_cap(),
            final(self).sender_spec() == old(self).sender_spec(),
            final(self).receiver_spec() == old(self).receiver_spec(),
            old(self).returned().len() == 0 ==> r == None::<PointerOffset> && final(self).returned()
                == old(self).returned(),
            old(self).returned().len() > 0 ==> r is Some && r->0@ == old(self).returned()[0]
                && final(self).returned() == old(self).returned().subrange(
                1,
                old(self).returned().len() as int,
            ),
    {
        match self.return_queue.pop() {
            Some(raw) => Some(PointerOffset::from_raw(raw)),
            None => None,
        }
    }

    /// Number of pending (unread) offsets.
    pub fn pending_count(&self) -> (r: usize)
        requires
            self.wf(),
        ensures
            r == self.pending().len(),
    {
        self.send_queue.len()
    }

    /// Number of offsets waiting to be reclaimed.
    pub fn return_count(&self) -> (r: usize)
        requires
            self.wf(),
        ensures
            r == self.returned().len(),
    {
        self.return_queue.len()
    }

    /// Sender id.
    pub fn sender_id(&self) -> (r: u128)
        ensures
            r == self.sender_spec(),
    {
        self.sender_id
    }

    /// Receiver id.
    pub fn receiver_id(&self) -> (r: u128)
        ensures
            r == self.receiver_spec(),
    {
        self.receiver_id
    }
}

/// The position of a state in the order `Creating`, `Connected`, `Disconnected`.
pub open spec fn state_rank(s: ChannelState) -> nat {
    match s {
        ChannelState::Creating => 0,
        ChannelState::Connected => 1,
        ChannelState::Disconnected => 2,
    }
}

/// The state after `connect`: only a channel being created becomes connected.
pub open spec fn connect_step(s: ChannelState) -> ChannelState {
    if s == ChannelState::Creating {
        ChannelState::Connected
    } else {
        s
    }
}

/// Channel states only move forward: `connect` and `disconnect` never lower
/// a state's rank, and a disconnected channel stays disconnected.
pub proof fn lemma_state_order(s: ChannelState)
    ensures
        state_rank(connect_step(s)) >= state_rank(s),
        state_rank(ChannelState::Disconnected) >= state_rank(s),
        connect_step(ChannelState::Disconnected) == ChannelState::Disconnected,
        connect_step(ChannelState::Creating) == ChannelState::Connected,
{
}

/// Two queues made for the same requested capacity have the same capacity:
/// the least power of two at or above it (and at least 2).
proof fn lemma_same_rounding(ka: nat, kb: nat, n: nat)
    requires
        pow2(ka) >= n,
        pow2(kb) >= n,
        pow2(ka) >= 2,
        pow2(kb) >= 2,
        pow2(ka) > 2 ==> pow2(ka) / 2 < n,
        pow2(kb) > 2 ==> pow2(kb) / 2 < n,
    ensures
        pow2(ka) == pow2(kb),
{
    if ka < kb {
        lemma_pow2_strictly_increases(ka, kb);
        lemma_pow2_unfold(kb);
        if ka < (kb - 1) as nat {
            lemma_pow2_strictly_increases(ka, (kb - 1) as nat);
        }
    } else if kb < ka {
        lemma_pow2_strictly_increases(kb, ka);
        lemma_pow2_unfold(ka);
        if kb < (ka - 1) as nat {
            lemma_pow2_strictly_increases(kb, (ka - 1) as nat);
        }
    }
}

} // verus!
