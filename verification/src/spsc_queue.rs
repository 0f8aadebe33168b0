//! A bounded single-producer, single-consumer ring buffer of `u64` values.
use vstd::prelude::*;
use vstd::arithmetic::power2::{
    pow2, lemma_pow2_adds, lemma2_to64, lemma_pow2_pos, lemma_pow2_strictly_increases, lemma_pow2_unfold,
};
use vstd::bits::{low_bits_mask, lemma_u64_low_bits_mask_is_mod};
use vstd::arithmetic::div_mod::lemma_mod_multiples_vanish;

verus! {

/// 2^64, the period of the wrapping read and write positions.
pub open spec fn word_range() -> int {
    0x1_0000_0000_0000_0000
}

/// `x` reduced once by 2^64 when it reaches it.
pub open spec fn wrap64(x: int) -> int {
    if x >= word_range() {
        x - word_range()
    } else {
        x
    }
}

/// The smallest power of two greater than or equal to `n`, found by doubling from 1.
fn next_power_of_two(n: usize) -> (r: usize)
    requires
        n <= usize::MAX / 2 + 1,
    ensures
        exists|k: nat| pow2(k) == r,
        r >= n,
        r >= 1,
        r > 1 ==> r / 2 < n,
{
    let mut p: usize = 1;
    let ghost mut k: nat = 0;
    proof {
        lemma2_to64();
    }
    while p < n
        invariant
            n <= usize::MAX / 2 + 1,
            p == pow2(k),
            1 <= p,
            p > 1 ==> p / 2 < n,
        decreases usize::MAX - p,
    {
        proof {
            lemma_pow2_unfold(k + 1);
        }
        p = p * 2;
        proof {
            k = k + 1;
        }
    }
    p
}

proof fn lemma_mod_period(x: int, k: nat)
    requires
        1 <= k <= 64,
    ensures
        pow2(k) > 0,
        (x + word_range()) % (pow2(k) as int) == x % (pow2(k) as int),
{
    lemma_pow2_pos(k);
    lemma_pow2_adds(k, (64 - k) as nat);
    lemma2_to64();
    assert(pow2(k) * pow2((64 - k) as nat) == word_range());
    lemma_mod_multiples_vanish(pow2((64 - k) as nat) as int, x, pow2(k) as int);
}

/// Single-producer, single-consumer bounded queue.
///
/// Values pass from the producer to the consumer in FIFO order. The ring
/// buffer's capacity is a power of two; the write and read positions count
/// pushes and pops modulo 2^64. Its model is the sequence of queued values,
/// oldest first.
pub struct SpscQueue {
    write_pos: u64,
    read_pos: u64,
    capacity: usize,
    mask: usize,
    data: Vec<u64>,
    items: Ghost<Seq<u64>>,
    log_cap: Ghost<nat>,
}

impl SpscQueue {
    /// Well-formed: a power-of-two ring whose slots from the read position on
    /// hold the queued values.
    pub closed spec fn wf(&self) -> bool {
        &&& 1 <= self.log_cap@ < 64
        &&& self.capacity as nat == pow2(self.log_cap@)
        &&& self.mask == self.capacity - 1
        &&& self.data@.len() == self.capacity
        &&& self.items@.len() <= self.capacity
        &&& self.write_pos as int == wrap64(self.read_pos + self.items@.len())
        &&& forall|j: int|
            0 <= j < self.items@.len() ==> #[trigger] self.items@[j] == self.data@[(self.read_pos
                + j) % (self.capacity as int)]
    }

    /// Ring buffer capacity.
    pub closed spec fn cap(&self) -> nat {
        self.capacity as nat
    }

    /// The queued values, oldest first.
    pub closed spec fn view(&self) -> Seq<u64> {
        self.items@
    }

    /// Create an empty queue holding `capacity` values, rounded up to a power of two (at least 2).
    pub fn new(capacity: usize) -> (r: Self)
        requires
            capacity <= usize::MAX / 2 + 1,
        ensures
            r.wf(),
            r@ == Seq::<u64>::empty(),
            exists|k: nat| pow2(k) == r.cap(),
            r.cap() >= capacity,
            r.cap() >= 2,
            r.cap() > 2 ==> r.cap() / 2 < capacity,
    {
        let p = next_power_of_two(capacity);
        let capacity = if p < 2 {
            2
        } else {
            p
        };
        let ghost k: nat = choose|k: nat| pow2(k) == p;
        let ghost log_cap: nat = if p < 2 {
            1
        } else {
            k
        };
        proof {
            vstd::arithmetic::power2::lemma2_to64();
            vstd::arithmetic::power2::lemma2_to64_rest();
            if p >= 2 {
                if k > 64 {
                    lemma_pow2_strictly_increases(64, k);
                }
            }
        }
        let mut data: Vec<u64> = Vec::new();
        let mut i: usize = 0;
        while i < capacity
            invariant
                i <= capacity,
                data@.len() == i,
                forall|j: int| 0 <= j < i ==> #[trigger] data@[j] == 0u64,
            decreases capacity - i,
        {
            data.push(0u64);
            i = i + 1;
        }
        SpscQueue {
            write_pos: 0,
            read_pos: 0,
            capacity,
            mask: capacity - 1,
            data,
            items: Ghost(Seq::empty()),
            log_cap: Ghost(log_cap),
        }
    }

    proof fn lemma_slot(&self, pos: u64)
        requires
            self.wf(),
        ensures
            pos & (self.mask as u64) == pos % (self.capacity as u64),
    {
        lemma_u64_low_bits_mask_is_mod(pos, self.log_cap@);
        lemma_pow2_pos(self.log_cap@);
        assert(low_bits_mask(self.log_cap@) == self.capacity - 1);
    }

    /// Push a value. Returns `false`, leaving the queue unchanged, if it is full.
    pub fn push(&mut self, value: u64) -> (r: bool)
        requires
            old(self).wf(),
        ensures
            final(self).wf(),
            final(self).cap() == old(self).cap(),
            r == (old(self)@.len() < old(self).cap()),
            r ==> final(self)@ == old(self)@.push(value),
            !r ==> final(self)@ == old(self)@,
    {
        let write = self.write_pos;
        let read = self.read_pos;
        if write.wrapping_sub(read) >= self.capacity as u64 {
            return false;
        }
        proof {
            self.lemma_slot(write);
            lemma_mod_period(write as int, self.log_cap@);
        }
        let idx = (write & (self.mask as u64)) as usize;
        let ghost old_data = self.data@;
        let ghost len = self.items@.len();
        self.data.set(idx, value);
        self.write_pos = write.wrapping_add(1);
        self.items = Ghost(self.items@.push(value));
        proof {
            assert(idx as int == (read + len) % (self.capacity as int));
            assert forall|j: int| 0 <= j < self.items@.len() implies #[trigger] self.items@[j]
                == self.data@[(self.read_pos + j) % (self.capacity as int)] by {
                if j < len {
                    if (read + j) % (self.capacity as int) == idx as int {
                        vstd::arithmetic::div_mod::lemma_fundamental_div_mod(read + j, self.capacity as int);
                        vstd::arithmetic::div_mod::lemma_fundamental_div_mod(read + len, self.capacity as int);
                        assert(false) by (nonlinear_arith)
                            requires
                                (read + j) % (self.capacity as int) == (read + len) % (self.capacity as int),
                                read + j == (self.capacity as int) * ((read + j) / (self.capacity as int)) + (read + j) % (self.capacity as int),
                                read + len == (self.capacity as int) * ((read + len) / (self.capacity as int)) + (read + len) % (self.capacity as int),
                                0 <= j < len < self.capacity,
                                self.capacity > 0,
                        ;
                    }
                }
            }
        }
        true
    }

    /// Pop the oldest value, or `None` if the queue is empty.
    pub fn pop(&mut self) -> (r: Option<u64>)
        requires
            old(self).wf(),
        ensures
            final(self).wf(),
            final(self).cap() == old(self).cap(),
            old(self)@.len() == 0 ==> r == None::<u64> && final(self)@ == old(self)@,
            old(self)@.len() > 0 ==> r == Some(old(self)@[0]) && final(self)@ == old(self)@.subrange(
                1,
                old(self)@.len() as int,
            ),
    {
        let read = self.read_pos;
        let write = self.write_pos;
        if read == write {
            return None;
        }
        proof {
            self.lemma_slot(read);
        }
        let idx = (read & (self.mask as u64)) as usize;
        let value = self.data[idx];
        proof {
            assert(self.items@[0] == self.data@[(read + 0) % (self.capacity as int)]);
        }
        self.read_pos = read.wrapping_add(1);
        self.items = Ghost(self.items@.subrange(1, self.items@.len() as int));
        proof {
            let cap = self.capacity as int;
            assert forall|j: int| 0 <= j < self.items@.len() implies #[trigger] self.items@[j]
                == self.data@[(self.read_pos + j) % cap] by {
                assert(self.items@[j] == old(self).items@[j + 1]);
                if read as int + 1 >= word_range() {
                    lemma_mod_period(self.read_pos + j, self.log_cap@);
                }
            }
        }
        Some(value)
    }

    /// Whether the queue is empty.
    pub fn is_empty(&self) -> (r: bool)
        requires
            self.wf(),
        ensures
            r == (self@.len() == 0),
    {
        self.read_pos == self.write_pos
    }

    /// Whether the queue is full.
    pub fn is_full(&self) -> (r: bool)
        requires
            self.wf(),
        ensures
            r == (self@.len() == self.cap()),
    {
        self.write_pos.wrapping_sub(self.read_pos) >= self.capacity as u64
    }

    /// Number of values in the queue.
    pub fn len(&self) -> (r: usize)
        requires
            self.wf(),
        ensures
            r == self@.len(),
    {
        self.write_pos.wrapping_sub(self.read_pos) as usize
    }

    /// Capacity of the queue.
    pub fn capacity(&self) -> (r: usize)
        ensures
            r == self.cap(),
    {
        self.capacity
    }
}

/// Values leave in the order they arrived: on a nonempty queue, popping
/// before or after a push yields the same value, and the pushed value stays last.
pub proof fn lemma_push_pop_commute(q: Seq<u64>, v: u64)
    requires
        q.len() > 0,
    ensures
        q.push(v)[0] == q[0],
        q.push(v).subrange(1, q.len() + 1 as int) == q.subrange(1, q.len() as int).push(v),
{
    assert(q.push(v).subrange(1, q.len() + 1 as int) =~= q.subrange(1, q.len() as int).push(v));
}

/// A value pushed onto an empty queue is the next value popped, which empties it again.
pub proof fn lemma_push_then_pop(v: u64)
    ensures
        Seq::<u64>::empty().push(v)[0] == v,
        Seq::<u64>::empty().push(v).subrange(1, 1) == Seq::<u64>::empty(),
{
    assert(Seq::<u64>::empty().push(v).subrange(1, 1) =~= Seq::<u64>::empty());
}

} // verus!
