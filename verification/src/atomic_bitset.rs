//! A fixed-capacity set of bit flags packed into 64-bit words.
use vstd::prelude::*;
use vstd::std_specs::bits::u64_trailing_zeros;
use crate::bits::{
    bit, set_bits, total_ones, count_ones, lemma_bit_set, lemma_bit_clear, lemma_zero_word,
    lemma_lowest_bit, lemma_set_bits_len, lemma_total_ones_mono,
};

verus! {

/// Number of 64-bit words needed for `capacity` bits.
pub open spec fn words_for(capacity: nat) -> nat {
    (capacity + 63) / 64
}

/// Bitset tracking borrowed/used slots, one bit per slot.
///
/// Its model is the set of indices whose bit is set.
pub struct AtomicBitSet {
    words: Vec<u64>,
    capacity: u32,
}

impl AtomicBitSet {
    /// Well-formed: enough words for the capacity, and no bit set at or above it.
    pub closed spec fn wf(&self) -> bool {
        &&& self.words@.len() == words_for(self.capacity as nat)
        &&& forall|i: int|
            self.capacity <= i < 64 * self.words@.len() ==> !#[trigger] bit(
                self.words@[i / 64],
                (i % 64) as u64,
            )
    }

    /// Number of bits (slots) of the set.
    pub closed spec fn cap(&self) -> nat {
        self.capacity as nat
    }

    /// The indices whose bit is set.
    pub closed spec fn view(&self) -> Set<int> {
        set_bits(self.words@, self.capacity as int)
    }

    /// The set bits are finitely many, all below the capacity.
    pub proof fn lemma_view_bounded(&self)
        requires
            self.wf(),
        ensures
            self@.finite(),
            self@.len() <= self.cap(),
            forall|i: int| #[trigger] self@.contains(i) ==> 0 <= i < self.cap(),
    {
        self.lemma_view_all_words();
        lemma_set_bits_len(self.words@, self.words@.len());
        vstd::set_lib::lemma_int_range(0, self.capacity as int);
        vstd::set_lib::lemma_len_subset(self@, vstd::set_lib::set_int_range(0, self.capacity as int));
    }

    /// Bits at or above the capacity are clear, so the model reads the same over all words.
    proof fn lemma_view_all_words(&self)
        requires
            self.wf(),
        ensures
            self@ == set_bits(self.words@, 64 * self.words@.len() as int),
    {
        assert(self@ =~= set_bits(self.words@, 64 * self.words@.len() as int));
    }

    /// Create a bitset with `capacity` bits, all clear.
    pub fn new(capacity: u32) -> (r: Self)
        ensures
            r.wf(),
            r.cap() == capacity,
            r@ == Set::<int>::empty(),
    {
        let word_count = ((capacity as u64 + 63) / 64) as usize;
        let mut words: Vec<u64> = Vec::new();
        let mut k: usize = 0;
        while k < word_count
            invariant
                k <= word_count,
                word_count == words_for(capacity as nat),
                words@.len() == k,
                forall|j: int| 0 <= j < k ==> words@[j] == 0u64,
            decreases word_count - k,
        {
            words.push(0u64);
            k = k + 1;
        }
        let r = AtomicBitSet { words, capacity };
        proof {
            lemma_zero_word();
            assert(r@ =~= Set::<int>::empty());
        }
        r
    }

    /// Set a bit. Returns `true` if it was previously unset.
    pub fn set(&mut self, index: u32) -> (r: bool)
        requires
            old(self).wf(),
            index < old(self).cap(),
        ensures
            final(self).wf(),
            final(self).cap() == old(self).cap(),
            r == !old(self)@.contains(index as int),
            final(self)@ == old(self)@.insert(index as int),
    {
        let word_idx = (index / 64) as usize;
        let shift = (index % 64) as u64;
        let mask = 1u64 << shift;
        let old_word = self.words[word_idx];
        proof {
            lemma_bit_set(old_word, shift);
        }
        if old_word & mask != 0 {
            proof {
                assert(self@ =~= old(self)@.insert(index as int));
            }
            return false;
        }
        self.words.set(word_idx, old_word | mask);
        proof {
            assert forall|i: int| #[trigger] self@.contains(i) == old(self)@.insert(index as int).contains(i) by {
                if 0 <= i && i / 64 == word_idx as int {
                    assert((i % 64 == index % 64) == (i == index));
                }
            }
            assert(self@ =~= old(self)@.insert(index as int));
            assert forall|i: int| self.capacity <= i < 64 * self.words@.len() implies !#[trigger] bit(
                self.words@[i / 64],
                (i % 64) as u64,
            ) by {
                assert(i != index);
                if i / 64 == word_idx as int {
                    assert(i % 64 != index % 64);
                }
            }
        }
        true
    }

    /// Clear a bit. Returns `true` if it was previously set.
    pub fn clear(&mut self, index: u32) -> (r: bool)
        requires
            old(self).wf(),
            index < old(self).cap(),
        ensures
            final(self).wf(),
            final(self).cap() == old(self).cap(),
            r == old(self)@.contains(index as int),
            final(self)@ == old(self)@.remove(index as int),
    {
        let word_idx = (index / 64) as usize;
        let shift = (index % 64) as u64;
        let mask = 1u64 << shift;
        let old_word = self.words[word_idx];
        proof {
            lemma_bit_set(old_word, shift);
        }
        if old_word & mask == 0 {
            proof {
                assert(self@ =~= old(self)@.remove(index as int));
            }
            return false;
        }
        let new_word = old_word & !mask;
        proof {
            lemma_bit_clear(old_word, shift, new_word);
        }
        self.words.set(word_idx, new_word);
        proof {
            assert forall|i: int| #[trigger] self@.contains(i) == old(self)@.remove(index as int).contains(i) by {
                if 0 <= i && i / 64 == word_idx as int {
                    assert((i % 64 == index % 64) == (i == index));
                }
            }
            assert(self@ =~= old(self)@.remove(index as int));
        }
        true
    }

    /// Check if a bit is set.
    pub fn is_set(&self, index: u32) -> (r: bool)
        requires
            self.wf(),
            index < self.cap(),
        ensures
            r == self@.contains(index as int),
    {
        let word_idx = (index / 64) as usize;
        let shift = (index % 64) as u64;
        proof {
            lemma_bit_set(self.words@[word_idx as int], shift);
        }
        self.words[word_idx] & (1u64 << shift) != 0
    }

    /// Count the number of set bits.
    pub fn count_set(&self) -> (r: u32)
        requires
            self.wf(),
        ensures
            r == self@.len(),
    {
        proof {
            self.lemma_view_bounded();
            self.lemma_view_all_words();
            lemma_set_bits_len(self.words@, self.words@.len());
        }
        let mut sum: u32 = 0;
        let mut k: usize = 0;
        while k < self.words.len()
            invariant
                self.wf(),
                k <= self.words@.len(),
                sum == total_ones(self.words@, k as nat),
                total_ones(self.words@, self.words@.len()) == self@.len(),
                self@.len() <= self.cap(),
            decreases self.words@.len() - k,
        {
            proof {
                lemma_total_ones_mono(self.words@, (k + 1) as nat, self.words@.len());
            }
            sum = sum + count_ones(self.words[k]);
            k = k + 1;
        }
        sum
    }

    /// Capacity of the bitset.
    pub fn capacity(&self) -> (r: u32)
        ensures
            r == self.cap(),
    {
        self.capacity
    }

    /// Find the first set bit and clear it. Returns its index.
    pub fn find_and_clear_first_set(&mut self) -> (r: Option<u32>)
        requires
            old(self).wf(),
        ensures
            final(self).wf(),
            final(self).cap() == old(self).cap(),
            match r {
                Some(i) => {
                    &&& old(self)@.contains(i as int)
                    &&& forall|j: int| #[trigger] old(self)@.contains(j) ==> i <= j
                    &&& final(self)@ == old(self)@.remove(i as int)
                },
                None => {
                    &&& old(self)@ == Set::<int>::empty()
                    &&& final(self)@ == old(self)@
                },
            },
    {
        let mut word_idx: usize = 0;
        while word_idx < self.words.len()
            invariant
                self.wf(),
                *self == *old(self),
                word_idx <= self.words@.len(),
                forall|j: int| 0 <= j < word_idx ==> #[trigger] self.words@[j] == 0u64,
            decreases self.words@.len() - word_idx,
        {
            let old_word = self.words[word_idx];
            if old_word != 0 {
                let bit_pos = old_word.trailing_zeros();
                proof {
                    lemma_lowest_bit(old_word);
                    lemma_zero_word();
                }
                let shift = bit_pos as u64;
                let mask = 1u64 << shift;
                let new_word = old_word & !mask;
                proof {
                    lemma_bit_clear(old_word, shift, new_word);
                    lemma_bit_set(old_word, shift);
                }
                self.words.set(word_idx, new_word);
                let index: u64 = (word_idx as u64) * 64 + bit_pos as u64;
                let ghost gi = index as int;
                proof {
                    assert(gi / 64 == word_idx as int && gi % 64 == bit_pos as int);
                    assert(old(self)@.contains(gi) || gi >= old(self).cap());
                }
                if index < self.capacity as u64 {
                    proof {
                        assert(old(self)@.contains(gi));
                        assert forall|j: int| #[trigger] old(self)@.contains(j) implies gi <= j by {
                            if j / 64 < word_idx as int {
                                assert(old(self).words@[j / 64] == 0u64);
                            }
                        }
                        assert forall|i: int| #[trigger] self@.contains(i) == old(self)@.remove(gi).contains(i) by {
                            if 0 <= i && i / 64 == word_idx as int {
                                assert((i % 64 == bit_pos as int) == (i == gi));
                            }
                        }
                        assert(self@ =~= old(self)@.remove(gi));
                    }
                    return Some(index as u32);
                }
                self.words.set(word_idx, old_word);
                proof {
                    assert(self.words@ =~= old(self).words@);
                    assert(false);
                }
                return None;
            }
            word_idx = word_idx + 1;
        }
        proof {
            lemma_zero_word();
            assert(self@ =~= Set::<int>::empty());
        }
        None
    }
}

/// Clearing a bit that was just set (and was unset before) restores the set bits.
pub proof fn lemma_clear_undoes_set(before: Set<int>, index: int)
    requires
        !before.contains(index),
    ensures
        before.insert(index).remove(index) == before,
        before.insert(index).contains(index),
{
    assert(before.insert(index).remove(index) =~= before);
}

} // verus!
