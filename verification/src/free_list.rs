//! The index free list shared by the slot allocators: a stack of free
//! indices linked through a `next` array, with its head packed beside an
//! ABA tag in one 64-bit word.
use vstd::prelude::*;

verus! {

/// Head value meaning "no free index".
pub const SENTINEL: u32 = 0xFFFF_FFFF;

/// Mask of the tag half of a packed head word.
pub const TAG_MASK: u64 = 0xFFFF_FFFF;

/// Head index held in the upper half of a packed head word.
pub open spec fn head_of(val: u64) -> u32 {
    (val >> 32u64) as u32
}

/// Tag held in the lower half of a packed head word.
pub open spec fn tag_of(val: u64) -> u32 {
    (val & TAG_MASK) as u32
}

/// Pack a head index and a tag: `[head:32][tag:32]`.
pub fn pack(head: u32, tag: u32) -> (r: u64)
    ensures
        head_of(r) == head,
        tag_of(r) == tag,
{
    let r = ((head as u64) << 32u64) | (tag as u64 & TAG_MASK);
    assert(((head as u64) << 32u64 | (tag as u64 & 0xFFFF_FFFFu64)) >> 32u64 == head as u64
        && (((head as u64) << 32u64 | (tag as u64 & 0xFFFF_FFFFu64)) & 0xFFFF_FFFFu64) == tag as u64)
        by (bit_vector);
    r
}

/// The head index of a packed head word.
pub fn extract_head(val: u64) -> (r: u32)
    ensures
        r == head_of(val),
{
    (val >> 32u64) as u32
}

/// The tag of a packed head word.
pub fn extract_tag(val: u64) -> (r: u32)
    ensures
        r == tag_of(val),
{
    (val & TAG_MASK) as u32
}

/// The first free index, or `SENTINEL` when none is free.
pub open spec fn first_free(free: Seq<u32>) -> u32 {
    if free.len() == 0 {
        SENTINEL
    } else {
        free[0]
    }
}

/// `free` is the chain of free indices that starts at the head and follows `next`:
/// distinct indices below `cap`, each linked to the one after it, the last to `SENTINEL`.
pub open spec fn chain(next: Seq<u32>, free: Seq<u32>, cap: nat) -> bool {
    &&& next.len() == cap
    &&& free.no_duplicates()
    &&& forall|i: int| 0 <= i < free.len() ==> #[trigger] free[i] < cap
    &&& forall|i: int| 0 <= i < free.len() - 1 ==> next[#[trigger] free[i] as int] == free[i + 1]
    &&& free.len() > 0 ==> next[free.last() as int] == SENTINEL
}

/// The indices below `cap` that are not free: those handed out.
pub open spec fn taken(free: Seq<u32>, cap: nat) -> Set<u32> {
    Set::new(|i: u32| i < cap && !free.contains(i))
}

/// Taking the first free index: what it yields and the chain that remains.
pub open spec fn take_step(free: Seq<u32>) -> (Option<u32>, Seq<u32>) {
    if free.len() == 0 {
        (None, free)
    } else {
        (Some(free[0]), free.subrange(1, free.len() as int))
    }
}

/// Giving an index back puts it first.
pub open spec fn give_step(free: Seq<u32>, index: u32) -> Seq<u32> {
    seq![index] + free
}

/// The chain `0, 1, .., cap - 1`.
pub open spec fn initial_chain(cap: nat) -> Seq<u32> {
    Seq::new(cap, |i: int| i as u32)
}

/// A chain holds at most `cap` indices, and fewer when some index below `cap` is missing.
pub proof fn lemma_chain_len(next: Seq<u32>, free: Seq<u32>, cap: nat, missing: u32)
    requires
        chain(next, free, cap),
        cap <= SENTINEL,
    ensures
        free.len() <= cap,
        missing < cap && !free.contains(missing) ==> free.len() < cap,
{
    free.unique_seq_to_set();
    let r = Set::<u32>::range(0, cap as u32);
    vstd::set_lib::range_set_properties::<u32>(0, cap as u32);
    assert(free.to_set().subset_of(r));
    vstd::set_lib::lemma_len_subset(free.to_set(), r);
    if missing < cap && !free.contains(missing) {
        assert(free.to_set().insert(missing).subset_of(r));
        vstd::set_lib::lemma_len_subset(free.to_set().insert(missing), r);
    }
}

/// The taken indices are finitely many: with the free ones they make up all `cap` indices.
pub proof fn lemma_taken_len(free: Seq<u32>, cap: nat)
    requires
        free.no_duplicates(),
        forall|i: int| 0 <= i < free.len() ==> #[trigger] free[i] < cap,
        cap <= SENTINEL,
    ensures
        taken(free, cap).finite(),
        taken(free, cap).len() + free.len() == cap,
{
    free.unique_seq_to_set();
    let r = Set::<u32>::range(0, cap as u32);
    let f = free.to_set();
    vstd::set_lib::range_set_properties::<u32>(0, cap as u32);
    assert(f.subset_of(r));
    assert(taken(free, cap) =~= r.difference(f));
    assert(r.intersect(f) =~= f);
    vstd::set_lib::lemma_set_difference_len(r, f);
}

/// Taking the first index keeps the rest a chain; its link names the new first index.
pub proof fn lemma_take(next: Seq<u32>, free: Seq<u32>, cap: nat)
    requires
        chain(next, free, cap),
        free.len() > 0,
    ensures
        chain(next, free.subrange(1, free.len() as int), cap),
        next[free[0] as int] == first_free(free.subrange(1, free.len() as int)),
        !free.subrange(1, free.len() as int).contains(free[0]),
        forall|x: u32| #[trigger] free.contains(x) == (x == free[0] || free.subrange(1, free.len() as int).contains(x)),
{
    let rest = free.subrange(1, free.len() as int);
    assert forall|i: int| 0 <= i < rest.len() - 1 implies next[#[trigger] rest[i] as int] == rest[i + 1] by {
        assert(rest[i] == free[i + 1]);
    }
    if free.len() > 1 {
        assert(rest.last() == free.last());
    }
    if rest.contains(free[0]) {
        let j = choose|j: int| 0 <= j < rest.len() && rest[j] == free[0];
        assert(free[j + 1] == free[0]);
    }
    assert forall|x: u32| #[trigger] free.contains(x) == (x == free[0] || rest.contains(x)) by {
        if free.contains(x) && x != free[0] {
            let j = choose|j: int| 0 <= j < free.len() && free[j] == x;
            assert(rest[j - 1] == x);
        }
        if rest.contains(x) {
            let j = choose|j: int| 0 <= j < rest.len() && rest[j] == x;
            assert(free[j + 1] == x);
        }
        if x == free[0] {
            assert(free[0] == x);
        }
    }
}

/// Giving back an index that is not free makes it the new first element of the chain.
pub proof fn lemma_give(next: Seq<u32>, free: Seq<u32>, cap: nat, index: u32)
    requires
        chain(next, free, cap),
        index < cap,
        !free.contains(index),
    ensures
        chain(next.update(index as int, first_free(free)), seq![index] + free, cap),
        forall|x: u32| #[trigger] (seq![index] + free).contains(x) == (x == index || free.contains(x)),
{
    let n2 = next.update(index as int, first_free(free));
    let f2 = seq![index] + free;
    assert forall|i: int| 0 <= i < f2.len() - 1 implies n2[#[trigger] f2[i] as int] == f2[i + 1] by {
        if i > 0 {
            assert(f2[i] == free[i - 1]);
            assert(f2[i] != index);
        }
    }
    if free.len() > 0 {
        assert(f2.last() == free.last());
        assert(free.last() != index);
    }
    assert forall|a: int, b: int| 0 <= a < b < f2.len() implies f2[a] != f2[b] by {
        if a > 0 {
            assert(f2[a] == free[a - 1] && f2[b] == free[b - 1]);
        } else {
            assert(f2[b] == free[b - 1]);
        }
    }
    assert forall|i: int| 0 <= i < f2.len() implies #[trigger] f2[i] < cap by {
        if i > 0 {
            assert(f2[i] == free[i - 1]);
        }
    }
    assert forall|x: u32| #[trigger] f2.contains(x) == (x == index || free.contains(x)) by {
        if f2.contains(x) && x != index {
            let j = choose|j: int| 0 <= j < f2.len() && f2[j] == x;
            assert(free[j - 1] == x);
        }
        if free.contains(x) {
            let j = choose|j: int| 0 <= j < free.len() && free[j] == x;
            assert(f2[j + 1] == x);
        }
        if x == index {
            assert(f2[0] == x);
        }
    }
}

/// What is taken after giving `index` back is what was taken, without `index`;
/// what is taken after taking the first free index is what was taken, with it.
pub proof fn lemma_taken_steps(free: Seq<u32>, cap: nat, index: u32)
    ensures
        taken(give_step(free, index), cap) == taken(free, cap).remove(index),
        free.len() > 0 && free.no_duplicates() && free[0] < cap ==> taken(take_step(free).1, cap)
            == taken(free, cap).insert(free[0]),
{
    let g = give_step(free, index);
    assert forall|i: u32| #[trigger] g.contains(i) == (i == index || free.contains(i)) by {
        if g.contains(i) && i != index {
            let j = choose|j: int| 0 <= j < g.len() && g[j] == i;
            assert(free[j - 1] == i);
        }
        if free.contains(i) {
            let j = choose|j: int| 0 <= j < free.len() && free[j] == i;
            assert(g[j + 1] == i);
        }
        if i == index {
            assert(g[0] == i);
        }
    }
    assert(taken(g, cap) =~= taken(free, cap).remove(index));
    if free.len() > 0 && free.no_duplicates() {
        let t = take_step(free).1;
        assert forall|i: u32| #[trigger] t.contains(i) == (i != free[0] && free.contains(i)) by {
            if t.contains(i) {
                let j = choose|j: int| 0 <= j < t.len() && t[j] == i;
                assert(free[j + 1] == i);
            }
            if free.contains(i) && i != free[0] {
                let j = choose|j: int| 0 <= j < free.len() && free[j] == i;
                assert(j != 0);
                assert(t[j - 1] == i);
            }
        }
        if free[0] < cap {
            assert(taken(t, cap) =~= taken(free, cap).insert(free[0]));
        }
    }
}

/// Giving back an index, then taking one, yields that index and restores the chain:
/// the most recently returned index is the next one handed out.
pub proof fn lemma_give_then_take(free: Seq<u32>, index: u32)
    ensures
        take_step(give_step(free, index)) == (Some(index), free),
{
    assert(give_step(free, index).subrange(1, free.len() + 1 as int) =~= free);
}

/// Two indices handed out one after the other, with no index given back in
/// between, are different: no index is handed out twice while taken.
pub proof fn lemma_successive_takes_differ(next: Seq<u32>, free: Seq<u32>, cap: nat)
    requires
        chain(next, free, cap),
        free.len() >= 2,
    ensures
        take_step(free).0 is Some,
        take_step(take_step(free).1).0 is Some,
        take_step(free).0 != take_step(take_step(free).1).0,
{
    let rest = free.subrange(1, free.len() as int);
    assert(rest[0] == free[1]);
}

} // verus!
