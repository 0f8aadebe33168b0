use vstd::prelude::*;

verus! {

/// Mask of the 48 offset bits of a packed pointer offset.
pub const OFFSET_MASK: u64 = 0x0000_FFFF_FFFF_FFFF;

/// Largest byte offset (exclusive) that a pointer offset can hold: 2^48.
pub const OFFSET_LIMIT: u64 = 0x0001_0000_0000_0000;

/// Segment id held in the upper 16 bits of a packed word.
pub open spec fn raw_segment_id(raw: u64) -> u16 {
    (raw >> 48u64) as u16
}

/// Byte offset held in the lower 48 bits of a packed word.
pub open spec fn raw_offset(raw: u64) -> u64 {
    raw & OFFSET_MASK
}

/// The packed word for a segment id and an offset below 2^48.
pub open spec fn packed(segment_id: u16, offset: u64) -> u64 {
    ((segment_id as u64) << 48u64) | (offset & OFFSET_MASK)
}

/// Segment id + local offset packed into a single u64.
///
/// Bit layout: `[segment_id:16][offset:48]`.
#[derive(Clone, Copy, Debug, PartialEq, Eq, Structural)]
pub struct PointerOffset(u64);

impl View for PointerOffset {
    type V = u64;

    closed spec fn view(&self) -> u64 {
        self.0
    }
}

/// Packing then unpacking gives back both parts.
pub proof fn lemma_packed_parts(segment_id: u16, offset: u64)
    requires
        offset < OFFSET_LIMIT,
    ensures
        raw_segment_id(packed(segment_id, offset)) == segment_id,
        raw_offset(packed(segment_id, offset)) == offset,
        packed(segment_id, offset) == segment_id as int * OFFSET_LIMIT as int + offset as int,
{
    let s = segment_id as u64;
    assert(((s << 48u64) | (offset & 0x0000_FFFF_FFFF_FFFFu64)) >> 48u64 == s
        && (((s << 48u64) | (offset & 0x0000_FFFF_FFFF_FFFFu64)) & 0x0000_FFFF_FFFF_FFFFu64) == offset
        && ((s << 48u64) | (offset & 0x0000_FFFF_FFFF_FFFFu64)) == s * 0x0001_0000_0000_0000u64 + offset)
        by (bit_vector)
        requires
            offset < 0x0001_0000_0000_0000u64,
            s < 0x1_0000u64,
    ;
}

impl PointerOffset {
    /// Pack a segment id and a byte offset (which must fit in 48 bits).
    pub fn new(segment_id: u16, offset: usize) -> (r: Self)
        requires
            offset < OFFSET_LIMIT,
        ensures
            r@ == packed(segment_id, offset as u64),
            r.segment_id_spec() == segment_id,
            r.offset_spec() == offset,
    {
        proof {
            lemma_packed_parts(segment_id, offset as u64);
        }
        PointerOffset(((segment_id as u64) << 48u64) | (offset as u64 & OFFSET_MASK))
    }

    /// The segment id encoded in this offset.
    pub open spec fn segment_id_spec(self) -> u16 {
        raw_segment_id(self@)
    }

    /// The byte offset encoded in this offset.
    pub open spec fn offset_spec(self) -> u64 {
        raw_offset(self@)
    }

    /// The segment id (upper 16 bits).
    pub fn segment_id(self) -> (r: u16)
        ensures
            r == self.segment_id_spec(),
    {
        (self.0 >> 48u64) as u16
    }

    /// The byte offset (lower 48 bits).
    pub fn offset(self) -> (r: usize)
        ensures
            r == self.offset_spec() as usize,
    {
        (self.0 & OFFSET_MASK) as usize
    }

    /// The packed word.
    pub fn raw(self) -> (r: u64)
        ensures
            r == self@,
    {
        self.0
    }

    /// Rebuild from a packed word.
    pub fn from_raw(raw: u64) -> (r: Self)
        ensures
            r@ == raw,
    {
        PointerOffset(raw)
    }
}

/// A pointer offset is determined by its packed word: rebuilding one from
/// another's word gives the same offset.
pub proof fn lemma_raw_roundtrip(p: PointerOffset, q: PointerOffset)
    requires
        q@ == p@,
    ensures
        q == p,
{
}

/// Different (segment, offset) pairs pack to different words.
pub proof fn lemma_packed_injective(s1: u16, o1: u64, s2: u16, o2: u64)
    requires
        o1 < OFFSET_LIMIT,
        o2 < OFFSET_LIMIT,
        packed(s1, o1) == packed(s2, o2),
    ensures
        s1 == s2,
        o1 == o2,
{
    lemma_packed_parts(s1, o1);
    lemma_packed_parts(s2, o2);
}

} // verus!
