//! Fixed-size chunk allocation within a data segment.
use vstd::prelude::*;
use crate::contracts::LoanError;
use crate::free_list::{take_step, give_step, taken};
use crate::index_set::{AcquireError, UniqueIndexSet};
use crate::pointer_offset::{PointerOffset, OFFSET_LIMIT, packed};

verus! {

/// Byte offset of chunk `index`.
pub open spec fn chunk_offset(base_offset: int, chunk_size: int, index: int) -> int {
    base_offset + index * chunk_size
}

/// Index of the chunk that holds byte offset `offset`.
pub open spec fn chunk_index(base_offset: int, chunk_size: int, offset: int) -> int {
    (offset - base_offset) / chunk_size
}

/// The offset of chunk `index` lies in that chunk, and every chunk offset fits its bounds.
pub proof fn lemma_chunk_offset(base_offset: int, chunk_size: int, index: int, capacity: int)
    requires
        chunk_size > 0,
        base_offset >= 0,
        0 <= index < capacity,
    ensures
        chunk_index(base_offset, chunk_size, chunk_offset(base_offset, chunk_size, index)) == index,
        base_offset <= chunk_offset(base_offset, chunk_size, index) <= chunk_offset(
            base_offset,
            chunk_size,
            capacity - 1,
        ),
{
    vstd::arithmetic::div_mod::lemma_div_multiples_vanish(index, chunk_size);
    assert(index * chunk_size == chunk_size * index) by (nonlinear_arith);
    assert(0 <= index * chunk_size <= (capacity - 1) * chunk_size) by (nonlinear_arith)
        requires
            chunk_size > 0,
            0 <= index < capacity,
    ;
}

/// Pool allocator for fixed-size chunks within a data segment.
///
/// Chunk `i` starts at `base_offset + i * chunk_size` in the segment; chunks
/// are handed out through a unique index set, so the most recently freed
/// chunk is the next one allocated.
pub struct PoolAllocator {
    index_set: UniqueIndexSet,
    chunk_size: usize,
    segment_id: u16,
    base_offset: usize,
}

impl PoolAllocator {
    /// Well-formed: a valid index set and a nonzero chunk size.
    pub closed spec fn wf(&self) -> bool {
        &&& self.index_set.wf()
        &&& self.chunk_size > 0
    }

    /// The offset of chunk `index` is a valid byte offset and fits the 48 bits of a pointer offset.
    pub open spec fn offset_fits(&self, index: u32) -> bool {
        let o = chunk_offset(self.base_spec() as int, self.chunk_size_spec() as int, index as int);
        o < OFFSET_LIMIT && o <= usize::MAX
    }

    /// The offset of the chunk allocated next, if any, fits.
    pub open spec fn next_offset_fits(&self) -> bool {
        self@.len() > 0 ==> self.offset_fits(self@[0])
    }

    /// The offset of every chunk fits: that of the last chunk does.
    pub open spec fn all_offsets_fit(&self) -> bool {
        self.offset_fits((self.cap() - 1) as u32)
    }

    /// The free chunk indices, the next one allocated first.
    pub closed spec fn view(&self) -> Seq<u32> {
        self.index_set@
    }

    /// Number of chunks.
    pub closed spec fn cap(&self) -> nat {
        self.index_set.cap()
    }

    /// Size of a chunk.
    pub closed spec fn chunk_size_spec(&self) -> nat {
        self.chunk_size as nat
    }

    /// Segment id of the pointer offsets.
    pub closed spec fn segment_spec(&self) -> u16 {
        self.segment_id
    }

    /// Where the chunks start in the segment.
    pub closed spec fn base_spec(&self) -> nat {
        self.base_offset as nat
    }

    /// The chunk indices currently allocated.
    pub open spec fn allocated(&self) -> Set<u32> {
        taken(self@, self.cap())
    }

    /// The pointer offset (packed word) of chunk `index`.
    pub open spec fn offset_of(&self, index: u32) -> u64 {
        packed(
            self.segment_spec(),
            chunk_offset(self.base_spec() as int, self.chunk_size_spec() as int, index as int) as u64,
        )
    }

    /// The chunk index a pointer offset designates.
    pub open spec fn index_of(&self, offset: PointerOffset) -> int {
        chunk_index(
            self.base_spec() as int,
            self.chunk_size_spec() as int,
            (offset.offset_spec() as usize) as int,
        )
    }

    /// Create a pool of `capacity` chunks of `chunk_size` bytes starting at `base_offset`.
    pub fn new(capacity: u32, chunk_size: usize, segment_id: u16, base_offset: usize) -> (r: Self)
        requires
            chunk_size > 0,
            0 < capacity,
        ensures
            r.wf(),
            r.cap() == capacity,
            r.chunk_size_spec() == chunk_size,
            r.segment_spec() == segment_id,
            r.base_spec() == base_offset,
            r@ == crate::free_list::initial_chain(capacity as nat),
    {
        PoolAllocator { index_set: UniqueIndexSet::new(capacity), chunk_size, segment_id, base_offset }
    }

    /// Allocate a chunk: the most recently freed one. Fails with `OutOfMemory`
    /// exactly when every chunk is allocated.
    pub fn allocate(&mut self) -> (r: Result<PointerOffset, LoanError>)
        requires
            old(self).wf(),
            old(self).next_offset_fits(),
        ensures
            final(self).wf(),
            final(self).cap() == old(self).cap(),
            final(self).chunk_size_spec() == old(self).chunk_size_spec(),
            final(self).segment_spec() == old(self).segment_spec(),
            final(self).base_spec() == old(self).base_spec(),
            match take_step(old(self)@) {
                (Some(i), rest) => r is Ok && r->Ok_0@ == old(self).offset_of(i) && final(self).index_of(
                    r->Ok_0,
                ) == i && final(self)@ == rest && r->Ok_0.segment_id_spec() == old(self).segment_spec()
                    && r->Ok_0.offset_spec() == chunk_offset(
                    old(self).base_spec() as int,
                    old(self).chunk_size_spec() as int,
                    i as int,
                ),
                (None, rest) => r == Err::<PointerOffset, LoanError>(LoanError::OutOfMemory)
                    && final(self)@ == rest,
            },
            r is Ok ==> final(self).allocated() == old(self).allocated().insert(
                old(self)@[0],
            ) && !old(self).allocated().contains(old(self)@[0]),
            r is Err <==> old(self).allocated().len() == old(self).cap(),
    {
        proof {
            old(self).lemma_wf_facts();
        }
        let index = match self.index_set.acquire() {
            Ok(i) => i,
            Err(AcquireError) => {
                return Err(LoanError::OutOfMemory);
            },
        };
        proof {
            assert(self.index_set.borrowed_set().contains(index));
            lemma_chunk_offset(
                self.base_offset as int,
                self.chunk_size as int,
                index as int,
                self.index_set.cap() as int,
            );
            assert(index == old(self)@[0]);
            assert(index as int * self.chunk_size as int <= usize::MAX);
        }
        let offset = self.base_offset + (index as usize) * self.chunk_size;
        let r = PointerOffset::new(self.segment_id, offset);
        Ok(r)
    }

    /// Free the chunk that a pointer offset designates.
    pub fn deallocate(&mut self, offset: PointerOffset)
        requires
            old(self).wf(),
            offset.offset_spec() as usize >= old(self).base_spec(),
            old(self).index_of(offset) <= u32::MAX,
            old(self).allocated().contains(old(self).index_of(offset) as u32),
        ensures
            final(self).wf(),
            final(self).cap() == old(self).cap(),
            final(self).chunk_size_spec() == old(self).chunk_size_spec(),
            final(self).segment_spec() == old(self).segment_spec(),
            final(self).base_spec() == old(self).base_spec(),
            final(self)@ == give_step(old(self)@, old(self).index_of(offset) as u32),
            final(self).allocated() == old(self).allocated().remove(
                old(self).index_of(offset) as u32,
            ),
    {
        let local = offset.offset() - self.base_offset;
        let index = (local / self.chunk_size) as u32;
        self.index_set.release(index);
    }

    /// Whether the offset of the chunk allocated next, if any, fits.
    pub fn can_encode_next(&self) -> (r: bool)
        requires
            self.wf(),
        ensures
            r == self.next_offset_fits(),
    {
        let n = self.index_set.available();
        if n == 0 {
            return true;
        }
        let next = self.index_set.peek_free();
        proof {
            assert((next as int) * (self.chunk_size as int) <= 0xFFFF_FFFF * 0xFFFF_FFFF_FFFF_FFFF)
                by (nonlinear_arith)
                requires
                    next <= 0xFFFF_FFFFu32,
                    self.chunk_size <= usize::MAX,
                    usize::MAX <= 0xFFFF_FFFF_FFFF_FFFFu64,
            ;
        }
        let prod = (next as u128) * (self.chunk_size as u128);
        let end = (self.base_offset as u128) + prod;
        proof {
            assert(prod == next as int * self.chunk_size as int) by (nonlinear_arith)
                requires
                    prod == (next as u128) * (self.chunk_size as u128),
                    next < 0x1_0000_0000,
                    self.chunk_size <= usize::MAX,
            ;
        }
        end < OFFSET_LIMIT as u128 && end <= usize::MAX as u128
    }

    /// Whether the offset of every chunk fits.
    pub fn can_encode_all(&self) -> (r: bool)
        requires
            self.wf(),
        ensures
            r == self.all_offsets_fit(),
    {
        proof {
            self.index_set.lemma_wf_facts();
        }
        let last = self.index_set.capacity() - 1;
        proof {
            assert((last as int) * (self.chunk_size as int) <= 0xFFFF_FFFF * 0xFFFF_FFFF_FFFF_FFFF)
                by (nonlinear_arith)
                requires
                    last <= 0xFFFF_FFFFu32,
                    self.chunk_size <= usize::MAX,
                    usize::MAX <= 0xFFFF_FFFF_FFFF_FFFFu64,
            ;
        }
        let prod = (last as u128) * (self.chunk_size as u128);
        let end = (self.base_offset as u128) + prod;
        proof {
            assert(prod == last as int * self.chunk_size as int) by (nonlinear_arith)
                requires
                    prod == (last as u128) * (self.chunk_size as u128),
                    last < 0x1_0000_0000,
                    self.chunk_size <= usize::MAX,
            ;
        }
        end < OFFSET_LIMIT as u128 && end <= usize::MAX as u128
    }

    /// Whether a pointer offset designates a chunk of this pool that is allocated.
    pub fn owns(&self, offset: PointerOffset) -> (r: bool)
        requires
            self.wf(),
        ensures
            r == (offset.offset_spec() as usize >= self.base_spec() && self.index_of(offset) <= u32::MAX
                && self.allocated().contains(self.index_of(offset) as u32)),
    {
        let off = offset.offset();
        if off < self.base_offset {
            return false;
        }
        let index = (off - self.base_offset) / self.chunk_size;
        if index > u32::MAX as usize {
            return false;
        }
        self.index_set.is_borrowed(index as u32)
    }

    /// Number of currently allocated chunks.
    pub fn allocated_count(&self) -> (r: u32)
        requires
            self.wf(),
        ensures
            r == self.cap() - self@.len(),
    {
        self.index_set.borrowed_count()
    }

    /// Number of available chunks.
    pub fn available(&self) -> (r: u32)
        requires
            self.wf(),
        ensures
            r == self@.len(),
    {
        self.index_set.available()
    }

    /// Total chunk capacity.
    pub fn capacity(&self) -> (r: u32)
        ensures
            r == self.cap(),
    {
        self.index_set.capacity()
    }

    /// Size of each chunk in bytes.
    pub fn chunk_size(&self) -> (r: usize)
        ensures
            r == self.chunk_size_spec(),
    {
        self.chunk_size
    }

    /// Segment id.
    pub fn segment_id(&self) -> (r: u16)
        ensures
            r == self.segment_spec(),
    {
        self.segment_id
    }

    /// The byte offset within the segment that a pointer offset designates.
    pub fn resolve_offset(&self, offset: PointerOffset) -> (r: usize)
        ensures
            r == offset.offset_spec() as usize,
    {
        offset.offset()
    }
}

impl PoolAllocator {
    /// What every well-formed pool keeps: the free chunk indices are distinct
    /// and below the capacity, and every chunk is either free or allocated.
    pub proof fn lemma_wf_facts(&self)
        requires
            self.wf(),
        ensures
            0 < self.cap() <= u32::MAX,
            self.chunk_size_spec() > 0,
            self@.no_duplicates(),
            forall|i: int| 0 <= i < self@.len() ==> #[trigger] self@[i] < self.cap(),
            self.allocated().finite(),
            self.allocated().len() + self@.len() == self.cap(),
            forall|i: u32| #[trigger] self.allocated().contains(i) ==> i < self.cap(),
    {
        self.index_set.lemma_wf_facts();
    }

    /// When the last chunk's offset fits, every chunk's offset fits, in
    /// particular that of the chunk allocated next.
    pub proof fn lemma_all_offsets_fit(&self)
        requires
            self.wf(),
            self.all_offsets_fit(),
        ensures
            forall|i: u32| i < self.cap() ==> #[trigger] self.offset_fits(i),
            self.next_offset_fits(),
    {
        self.index_set.lemma_wf_facts();
        assert(((self.cap() - 1) as u32) as int == self.cap() - 1);
        assert forall|i: u32| i < self.cap() implies #[trigger] self.offset_fits(i) by {
            lemma_chunk_offset(
                self.base_spec() as int,
                self.chunk_size_spec() as int,
                i as int,
                self.cap() as int,
            );
        }
        if self@.len() > 0 {
            assert(self@[0] < self.cap());
        }
    }

    /// Deallocating the offset of a chunk frees that very chunk, and distinct
    /// chunks have distinct offsets (when their offsets fit).
    pub proof fn lemma_offset_roundtrip(&self, i: u32, j: u32, p: PointerOffset)
        requires
            self.wf(),
            i < self.cap(),
            j < self.cap(),
            p@ == self.offset_of(i),
            self.offset_fits(i),
            self.offset_fits(j),
        ensures
            self.index_of(p) == i,
            p.offset_spec() as usize >= self.base_spec(),
            i != j ==> self.offset_of(i) != self.offset_of(j),
    {
        let b = self.base_spec() as int;
        let c = self.chunk_size_spec() as int;
        let n = self.cap() as int;
        lemma_chunk_offset(b, c, i as int, n);
        lemma_chunk_offset(b, c, j as int, n);
        crate::pointer_offset::lemma_packed_parts(self.segment_spec(), chunk_offset(b, c, i as int) as u64);
        if i != j && self.offset_of(i) == self.offset_of(j) {
            crate::pointer_offset::lemma_packed_injective(
                self.segment_spec(),
                chunk_offset(b, c, i as int) as u64,
                self.segment_spec(),
                chunk_offset(b, c, j as int) as u64,
            );
        }
    }
}

} // verus!
