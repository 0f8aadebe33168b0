//! Data segments: the shared memory regions that hold payload chunks.
use vstd::prelude::*;
use crate::contracts::LoanError;
use crate::free_list::{take_step, give_step};
use crate::pointer_offset::PointerOffset;
use crate::pool_alloc::{PoolAllocator, chunk_offset};
use crate::shm::SharedMemory;

verus! {

/// Size of the header at the start of each data segment (one cache line).
pub const HEADER_SIZE: usize = 64;

/// `n` rounded up to a multiple of 8.
pub open spec fn round_up8(n: int) -> int {
    ((n + 7) / 8) * 8
}

/// Size of a segment holding `chunk_count` chunks of `chunk_size` bytes after its header.
pub open spec fn segment_size(chunk_size: int, chunk_count: int) -> int {
    HEADER_SIZE + chunk_size * chunk_count
}

/// A chunk size rounded up to the 8-byte alignment of segment chunks.
pub fn aligned_chunk_size(chunk_size: usize) -> (r: usize)
    requires
        chunk_size <= usize::MAX - 7,
    ensures
        r == round_up8(chunk_size as int),
{
    let n = chunk_size + 7;
    let r = n & !7usize;
    assert(n & !7usize == n - n % 8) by (bit_vector);
    r
}

/// The chunk size and total size of a new segment: the chunk size rounded up
/// to 8 bytes, and the header plus the chunks.
pub fn segment_layout(chunk_size: usize, chunk_count: u32) -> (r: (usize, usize))
    requires
        chunk_size <= usize::MAX - 7,
        segment_size(round_up8(chunk_size as int), chunk_count as int) <= usize::MAX,
    ensures
        r.0 == round_up8(chunk_size as int),
        r.1 == segment_size(r.0 as int, chunk_count as int),
{
    let aligned = aligned_chunk_size(chunk_size);
    (aligned, HEADER_SIZE + aligned * (chunk_count as usize))
}

/// Data segment: a shared memory region whose chunks hold payloads.
///
/// A publisher allocates a chunk, writes its payload in place, and sends
/// only the chunk's pointer offset; subscribers read the same memory.
pub struct DataSegment {
    shm: SharedMemory,
    allocator: PoolAllocator,
    chunk_size: usize,
    chunk_count: u32,
}

impl DataSegment {
    /// Well-formed: the allocator hands out the segment's chunks, which lie after the header.
    pub closed spec fn wf(&self) -> bool {
        &&& self.allocator.wf()
        &&& self.allocator.cap() == self.chunk_count
        &&& self.allocator.chunk_size_spec() == self.chunk_size
        &&& self.allocator.base_spec() == HEADER_SIZE
        &&& self.shm.size_spec() >= segment_size(self.chunk_size as int, self.chunk_count as int)
    }

    /// The free chunk indices, the next one allocated first.
    pub closed spec fn view(&self) -> Seq<u32> {
        self.allocator@
    }

    /// The allocator of the chunks.
    pub closed spec fn pool(&self) -> PoolAllocator {
        self.allocator
    }

    /// The same memory, chunk layout and pointer-offset encoding as `other`.
    pub open spec fn same_shape(&self, other: DataSegment) -> bool {
        &&& self.shm_spec() == other.shm_spec()
        &&& self.chunk_size_spec() == other.chunk_size_spec()
        &&& self.chunk_count_spec() == other.chunk_count_spec()
        &&& self.pool().segment_spec() == other.pool().segment_spec()
        &&& self.pool().base_spec() == other.pool().base_spec()
        &&& self.pool().chunk_size_spec() == other.pool().chunk_size_spec()
        &&& self.pool().cap() == other.pool().cap()
    }

    /// The shared memory record.
    pub closed spec fn shm_spec(&self) -> SharedMemory {
        self.shm
    }

    /// Chunk size in bytes.
    pub closed spec fn chunk_size_spec(&self) -> nat {
        self.chunk_size as nat
    }

    /// Number of chunks.
    pub closed spec fn chunk_count_spec(&self) -> nat {
        self.chunk_count as nat
    }

    /// The layout every well-formed segment keeps: its chunks start right
    /// after the header, have the segment's chunk size, are as many as the
    /// segment's chunk count, and each lies wholly inside the mapping.
    pub proof fn lemma_layout(&self)
        requires
            self.wf(),
        ensures
            self.pool().wf(),
            self.pool().base_spec() == HEADER_SIZE,
            self.pool().chunk_size_spec() == self.chunk_size_spec(),
            self.pool().cap() == self.chunk_count_spec(),
            self.pool()@ == self@,
            self.shm_spec().size_spec() >= segment_size(
                self.chunk_size_spec() as int,
                self.chunk_count_spec() as int,
            ),
            forall|i: int|
                0 <= i < self.chunk_count_spec() ==> #[trigger] chunk_offset(
                    HEADER_SIZE as int,
                    self.chunk_size_spec() as int,
                    i,
                ) + self.chunk_size_spec() <= self.shm_spec().size_spec(),
    {
        let cs = self.chunk_size_spec() as int;
        let n = self.chunk_count_spec() as int;
        assert forall|i: int| 0 <= i < n implies #[trigger] chunk_offset(HEADER_SIZE as int, cs, i) + cs
            <= self.shm_spec().size_spec() by {
            assert(i * cs + cs <= cs * n) by (nonlinear_arith)
                requires
                    0 <= i < n,
                    cs >= 0,
            ;
        }
    }

    /// A segment over the shared memory `shm` with `chunk_count` chunks of
    /// `chunk_size` bytes after the header, encoding offsets with `segment_id`.
    pub fn new(shm: SharedMemory, chunk_size: usize, chunk_count: u32, segment_id: u16) -> (r: Self)
        requires
            chunk_size > 0,
            0 < chunk_count,
            shm.size_spec() >= segment_size(chunk_size as int, chunk_count as int),
        ensures
            r.wf(),
            r.shm_spec() == shm,
            r.chunk_size_spec() == chunk_size,
            r.chunk_count_spec() == chunk_count,
            r.pool().segment_spec() == segment_id,
            r.pool().wf(),
            r.pool().base_spec() == HEADER_SIZE,
            r.pool().chunk_size_spec() == chunk_size,
            r.pool().cap() == chunk_count,
            r.pool()@ == r@,
            r@ == crate::free_list::initial_chain(chunk_count as nat),
    {
        let allocator = PoolAllocator::new(chunk_count, chunk_size, segment_id, HEADER_SIZE);
        DataSegment { shm, allocator, chunk_size, chunk_count }
    }

    /// Allocate a chunk. Fails with `OutOfMemory` exactly when every chunk is allocated.
    pub fn allocate(&mut self) -> (r: Result<PointerOffset, LoanError>)
        requires
            old(self).wf(),
            old(self).pool().next_offset_fits(),
        ensures
            final(self).wf(),
            final(self).shm_spec() == old(self).shm_spec(),
            final(self).chunk_size_spec() == old(self).chunk_size_spec(),
            final(self).chunk_count_spec() == old(self).chunk_count_spec(),
            final(self).pool().segment_spec() == old(self).pool().segment_spec(),
            final(self).same_shape(*old(self)),
            match take_step(old(self)@) {
                (Some(i), rest) => r is Ok && r->Ok_0@ == old(self).pool().offset_of(i)
                    && final(self).pool().index_of(r->Ok_0) == i && final(self)@ == rest
                    && r->Ok_0.segment_id_spec() == old(self).pool().segment_spec()
                    && r->Ok_0.offset_spec() == chunk_offset(
                    HEADER_SIZE as int,
                    old(self).chunk_size_spec() as int,
                    i as int,
                ),
                (None, rest) => r == Err::<PointerOffset, LoanError>(LoanError::OutOfMemory)
                    && final(self)@ == rest,
            },
            r is Ok ==> final(self).pool().allocated() == old(self).pool().allocated().insert(
                old(self)@[0],
            ),
    {
        self.allocator.allocate()
    }

    /// Free a chunk.
    pub fn deallocate(&mut self, offset: PointerOffset)
        requires
            old(self).wf(),
            offset.offset_spec() as usize >= HEADER_SIZE,
            old(self).pool().index_of(offset) <= u32::MAX,
            old(self).pool().allocated().contains(old(self).pool().index_of(offset) as u32),
        ensures
            final(self).wf(),
            final(self).shm_spec() == old(self).shm_spec(),
            final(self).chunk_size_spec() == old(self).chunk_size_spec(),
            final(self).chunk_count_spec() == old(self).chunk_count_spec(),
            final(self).pool().segment_spec() == old(self).pool().segment_spec(),
            final(self).same_shape(*old(self)),
            final(self)@ == give_step(old(self)@, old(self).pool().index_of(offset) as u32),
            final(self).pool().allocated() == old(self).pool().allocated().remove(
                old(self).pool().index_of(offset) as u32,
            ),
    {
        self.allocator.deallocate(offset);
    }

    /// Whether the offset of the chunk allocated next, if any, fits.
    pub fn can_encode_next(&self) -> (r: bool)
        requires
            self.wf(),
        ensures
            r == self.pool().next_offset_fits(),
    {
        self.allocator.can_encode_next()
    }

    /// Whether the offset of every chunk fits.
    pub fn can_encode_all(&self) -> (r: bool)
        requires
            self.wf(),
        ensures
            r == self.pool().all_offsets_fit(),
    {
        self.allocator.can_encode_all()
    }

    /// Whether a pointer offset designates an allocated chunk of this segment.
    pub fn owns(&self, offset: PointerOffset) -> (r: bool)
        requires
            self.wf(),
        ensures
            r == (offset.offset_spec() as usize >= HEADER_SIZE && self.pool().index_of(offset) <= u32::MAX
                && self.pool().allocated().contains(self.pool().index_of(offset) as u32)),
    {
        self.allocator.owns(offset)
    }

    /// Number of allocated chunks.
    pub fn allocated_count(&self) -> (r: u32)
        requires
            self.wf(),
        ensures
            r == self.chunk_count_spec() - self@.len(),
    {
        self.allocator.allocated_count()
    }

    /// Number of available chunks.
    pub fn available(&self) -> (r: u32)
        requires
            self.wf(),
        ensures
            r == self@.len(),
    {
        self.allocator.available()
    }

    /// Chunk size in bytes.
    pub fn chunk_size(&self) -> (r: usize)
        ensures
            r == self.chunk_size_spec(),
    {
        self.chunk_size
    }

    /// Total chunk count.
    pub fn chunk_count(&self) -> (r: u32)
        ensures
            r == self.chunk_count_spec(),
    {
        self.chunk_count
    }

    /// The underlying shared memory segment name.
    pub fn shm_name(&self) -> (r: &str)
        ensures
            r@ == self.shm_spec().name_spec(),
    {
        self.shm.name()
    }
}

/// A rounded chunk size is the least multiple of 8 at or above the size.
pub proof fn lemma_round_up8(n: int)
    requires
        n >= 0,
    ensures
        round_up8(n) % 8 == 0,
        n <= round_up8(n) < n + 8,
{
}

} // verus!
