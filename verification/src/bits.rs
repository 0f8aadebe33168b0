//! Facts about the bits of 64-bit words, and counts of set bits.
use vstd::prelude::*;
use vstd::std_specs::bits::{u64_trailing_zeros, axiom_u64_trailing_zeros};

verus! {

/// Whether bit `b` of `w` is set.
pub open spec fn bit(w: u64, b: u64) -> bool {
    b < 64 && (w >> b) & 1u64 == 1u64
}

/// Setting bit `k` sets exactly that bit; testing with the mask reads it.
pub proof fn lemma_bit_set(w: u64, k: u64)
    requires
        k < 64,
    ensures
        forall|b: u64| #[trigger] bit(w | (1u64 << k), b) == (b == k || bit(w, b)),
        (w & (1u64 << k) != 0) == bit(w, k),
{
    assert(forall|b: u64|
        (b < 64 && ((w | (1u64 << k)) >> b) & 1u64 == 1u64) == (b == k || (b < 64 && (w >> b) & 1u64
            == 1u64))) by (bit_vector)
        requires
            k < 64,
    ;
    assert((w & (1u64 << k) != 0) == ((w >> k) & 1u64 == 1u64)) by (bit_vector)
        requires
            k < 64,
    ;
}

/// Clearing bit `k` clears exactly that bit.
pub proof fn lemma_bit_clear(w: u64, k: u64, r: u64)
    requires
        k < 64,
        r == w & !(1u64 << k),
    ensures
        forall|b: u64| #[trigger] bit(r, b) == (b != k && bit(w, b)),
{
    assert(forall|b: u64| bit(r, b) == (b != k && bit(w, b))) by (bit_vector)
        requires
            k < 64,
            r == w & !(1u64 << k),
    ;
}

/// The zero word has no bit set.
pub proof fn lemma_zero_word()
    ensures
        forall|b: u64| !#[trigger] bit(0u64, b),
{
    assert(forall|b: u64| !(b < 64 && (0u64 >> b) & 1u64 == 1u64)) by (bit_vector);
}

/// The lowest set bit of a nonzero word is the count of its trailing zeros.
pub proof fn lemma_lowest_bit(w: u64)
    requires
        w != 0,
    ensures
        u64_trailing_zeros(w) < 64,
        bit(w, u64_trailing_zeros(w) as u64),
        forall|b: u64| b < u64_trailing_zeros(w) ==> !#[trigger] bit(w, b),
{
    axiom_u64_trailing_zeros(w);
    let tz = u64_trailing_zeros(w) as u64;
    assert forall|b: u64| b < u64_trailing_zeros(w) implies !#[trigger] bit(w, b) by {
        assert((w >> b) & 1u64 == 0u64);
    }
}

/// Number of set bits among the lowest `n` bits of `w`.
pub open spec fn ones_below(w: u64, n: nat) -> nat
    decreases n,
{
    if n == 0 {
        0
    } else {
        ones_below(w, (n - 1) as nat) + if bit(w, (n - 1) as u64) {
            1nat
        } else {
            0nat
        }
    }
}

/// Number of set bits of `w`.
pub open spec fn popcount(w: u64) -> nat {
    ones_below(w, 64)
}

/// Number of set bits of `w`, counted bit by bit.
pub(crate) fn count_ones(w: u64) -> (r: u32)
    ensures
        r == popcount(w),
{
    let mut n: u32 = 0;
    let mut b: u64 = 0;
    while b < 64
        invariant
            b <= 64,
            n <= b,
            n == ones_below(w, b as nat),
        decreases 64 - b,
    {
        if (w >> b) & 1u64 == 1u64 {
            n = n + 1;
        }
        b = b + 1;
    }
    n
}

/// The positions `base + b` for the set bits `b < n` of `w`.
pub open spec fn word_bits(w: u64, base: int, n: int) -> Set<int> {
    Set::new(|i: int| base <= i < base + n && bit(w, (i - base) as u64))
}

/// The set of positions of `word_bits` has `ones_below` elements.
pub proof fn lemma_word_bits_len(w: u64, base: int, n: nat)
    requires
        n <= 64,
    ensures
        word_bits(w, base, n as int).finite(),
        word_bits(w, base, n as int).len() == ones_below(w, n),
    decreases n,
{
    if n == 0 {
        assert(word_bits(w, base, 0) =~= Set::empty());
    } else {
        let m = (n - 1) as nat;
        lemma_word_bits_len(w, base, m);
        if bit(w, m as u64) {
            assert(word_bits(w, base, n as int) =~= word_bits(w, base, m as int).insert(base + m));
        } else {
            assert(word_bits(w, base, n as int) =~= word_bits(w, base, m as int));
        }
    }
}

/// Positions below `n` whose bit is set, bit `i` living in word `i / 64`.
pub open spec fn set_bits(words: Seq<u64>, n: int) -> Set<int> {
    Set::new(|i: int| 0 <= i < n && bit(words[i / 64], (i % 64) as u64))
}

/// Sum of the popcounts of the first `k` words.
pub open spec fn total_ones(words: Seq<u64>, k: nat) -> nat
    decreases k,
{
    if k == 0 {
        0
    } else {
        total_ones(words, (k - 1) as nat) + popcount(words[k - 1])
    }
}

/// `total_ones` grows with the number of words counted.
pub proof fn lemma_total_ones_mono(words: Seq<u64>, j: nat, k: nat)
    requires
        j <= k,
    ensures
        total_ones(words, j) <= total_ones(words, k),
    decreases k,
{
    if j < k {
        lemma_total_ones_mono(words, j, (k - 1) as nat);
    }
}

/// The set bits of the first `k` words are finite and `total_ones` in number.
pub proof fn lemma_set_bits_len(words: Seq<u64>, k: nat)
    requires
        k <= words.len(),
    ensures
        set_bits(words, 64 * k as int).finite(),
        set_bits(words, 64 * k as int).len() == total_ones(words, k),
    decreases k,
{
    if k == 0 {
        assert(set_bits(words, 0) =~= Set::empty());
    } else {
        let m = (k - 1) as nat;
        lemma_set_bits_len(words, m);
        let lo = set_bits(words, 64 * m as int);
        let hi = word_bits(words[m as int], 64 * m as int, 64);
        lemma_word_bits_len(words[m as int], 64 * m as int, 64);
        assert forall|i: int| #[trigger] set_bits(words, 64 * k as int).contains(i) == (lo + hi).contains(i) by {
            if 64 * m <= i < 64 * k {
                assert(i / 64 == m && i % 64 == i - 64 * m);
            }
        }
        assert(set_bits(words, 64 * k as int) =~= lo + hi);
        assert(lo.disjoint(hi));
        vstd::set_lib::lemma_set_disjoint_lens(lo, hi);
    }
}

} // verus!
