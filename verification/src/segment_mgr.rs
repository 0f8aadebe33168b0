//! Several data segments behind one allocator, growing on demand.
use vstd::prelude::*;
use crate::contracts::LoanError;
use crate::data_segment::{DataSegment, round_up8};
use crate::free_list::{take_step, give_step};
use crate::pointer_offset::PointerOffset;
use crate::text::{dec_digits, push_dec_digits};

verus! {

/// The name of segment `id` of a manager: `{prefix}_seg_{id}`.
pub open spec fn segment_name_spec(prefix: Seq<char>, id: u16) -> Seq<char> {
    prefix + seq!['_', 's', 'e', 'g', '_'] + dec_digits(id as nat)
}

/// When every counted segment has no more free chunks than chunks, the
/// allocated and free chunks of the first `n` segments make up all their chunks.
pub proof fn lemma_totals_cover(segs: Seq<DataSegment>, n: nat)
    requires
        n <= segs.len(),
        forall|k: int| 0 <= k < n ==> (#[trigger] segs[k])@.len() <= segs[k].chunk_count_spec(),
    ensures
        allocated_total(segs, n) + free_total(segs, n) == chunks_total(segs, n),
    decreases n,
{
    if n > 0 {
        lemma_totals_cover(segs, (n - 1) as nat);
        assert(segs[n - 1]@.len() <= segs[n - 1].chunk_count_spec());
    }
}

/// With no free chunk in any of the first `n` segments, their free total is zero.
proof fn lemma_free_total_zero(segs: Seq<DataSegment>, n: nat)
    requires
        n <= segs.len(),
        forall|k: int| 0 <= k < n ==> (#[trigger] segs[k])@.len() == 0,
    ensures
        free_total(segs, n) == 0,
    decreases n,
{
    if n > 0 {
        lemma_free_total_zero(segs, (n - 1) as nat);
        assert(segs[n - 1]@.len() == 0);
    }
}

/// Sum of the chunk counts of the first `n` segments.
pub open spec fn chunks_total(segs: Seq<DataSegment>, n: nat) -> nat
    decreases n,
{
    if n == 0 {
        0
    } else {
        chunks_total(segs, (n - 1) as nat) + segs[n - 1].chunk_count_spec()
    }
}

/// Taking one chunk from segment `j` (and changing no other segment, nor any
/// chunk count) adds one to the allocated total and takes one from the free
/// total of any prefix that holds segment `j`.
pub proof fn lemma_totals_after_take(a: Seq<DataSegment>, b: Seq<DataSegment>, j: int, n: nat)
    requires
        a.len() == b.len(),
        n <= a.len(),
        0 <= j < a.len(),
        forall|k: int| 0 <= k < a.len() && k != j ==> #[trigger] b[k] == a[k],
        b[j].chunk_count_spec() == a[j].chunk_count_spec(),
        b[j]@.len() + 1 == a[j]@.len(),
        a[j]@.len() <= a[j].chunk_count_spec(),
    ensures
        j < n ==> allocated_total(b, n) == allocated_total(a, n) + 1,
        j < n ==> free_total(b, n) + 1 == free_total(a, n),
        j >= n ==> allocated_total(b, n) == allocated_total(a, n) && free_total(b, n) == free_total(a, n),
    decreases n,
{
    if n > 0 {
        lemma_totals_after_take(a, b, j, (n - 1) as nat);
        if n - 1 != j {
            assert(b[n - 1] == a[n - 1]);
        }
    }
}

/// The name of segment `id` of a manager: `{prefix}_seg_{id}`.
pub fn segment_name(prefix: &str, id: u16) -> (r: String)
    ensures
        r@ == segment_name_spec(prefix@, id),
{
    let mut s = prefix.to_owned();
    let sep = "_seg_";
    proof {
        reveal_strlit("_seg_");
    }
    s.append(sep);
    push_dec_digits(&mut s, id as u64);
    proof {
        assert(s@ =~= segment_name_spec(prefix@, id));
    }
    s
}

/// Sum of the free chunks of the first `n` segments.
pub open spec fn free_total(segs: Seq<DataSegment>, n: nat) -> nat
    decreases n,
{
    if n == 0 {
        0
    } else {
        free_total(segs, (n - 1) as nat) + segs[n - 1]@.len()
    }
}

/// Sum of the allocated chunks of the first `n` segments.
pub open spec fn allocated_total(segs: Seq<DataSegment>, n: nat) -> nat
    decreases n,
{
    if n == 0 {
        0
    } else {
        allocated_total(segs, (n - 1) as nat) + (segs[n - 1].chunk_count_spec() - segs[n - 1]@.len()) as nat
    }
}

/// `free_total` and `allocated_total` grow with the number of segments counted.
proof fn lemma_totals_mono(segs: Seq<DataSegment>, j: nat, k: nat)
    requires
        j <= k,
    ensures
        free_total(segs, j) <= free_total(segs, k),
        allocated_total(segs, j) <= allocated_total(segs, k),
    decreases k,
{
    if j < k {
        lemma_totals_mono(segs, j, (k - 1) as nat);
    }
}

/// The segment a manager needs when all its segments are full: its id and name.
#[derive(Debug, Clone, PartialEq, Eq)]
pub struct NewSegment {
    pub segment_id: u16,
    pub name: String,
}

/// Manages several data segments for dynamic capacity expansion.
///
/// Segment `i` encodes its chunks' pointer offsets with segment id `i`;
/// when every segment is full, one more segment of the same shape is added.
pub struct SegmentManager {
    segments: Vec<DataSegment>,
    name_prefix: String,
    chunk_size: usize,
    chunks_per_segment: u32,
}

impl SegmentManager {
    /// Well-formed: every segment is well-formed, encodes offsets with its own
    /// index, has chunk offsets that all fit a pointer offset, and has the
    /// manager's shape: its chunk size rounded up to 8 bytes, and its number
    /// of chunks per segment.
    pub closed spec fn wf(&self) -> bool {
        &&& self.segments@.len() > 0
        &&& forall|i: int| 0 <= i < self.segments@.len() ==> self.segment_ok(#[trigger] self.segments@[i], i)
    }

    /// Segment `seg` may stand at position `i` of this manager.
    pub open spec fn segment_ok(&self, seg: DataSegment, i: int) -> bool {
        &&& seg.wf()
        &&& seg.pool().segment_spec() == i as u16
        &&& seg.pool().all_offsets_fit()
        &&& seg.chunk_size_spec() == round_up8(self.chunk_size_spec() as int)
        &&& seg.chunk_count_spec() == self.chunks_spec()
    }

    /// In a well-formed manager, the allocated and the free chunks of all
    /// segments together are all their chunks: the number of segments times
    /// the chunks per segment.
    pub proof fn lemma_totals_sum(&self)
        requires
            self.wf(),
        ensures
            allocated_total(self.segs(), self.segs().len()) + free_total(self.segs(), self.segs().len())
                == self.segs().len() * self.chunks_spec(),
    {
        let segs = self.segs();
        assert forall|k: int| 0 <= k < segs.len() implies (#[trigger] segs[k])@.len() <= segs[k].chunk_count_spec() by {
            assert(self.segment_ok(segs[k], k));
            segs[k].lemma_layout();
            segs[k].pool().lemma_wf_facts();
        }
        lemma_totals_cover(segs, segs.len());
        self.lemma_chunks_total(segs.len());
    }

    /// All segments have the same number of chunks.
    proof fn lemma_chunks_total(&self, n: nat)
        requires
            self.wf(),
            n <= self.segs().len(),
        ensures
            chunks_total(self.segs(), n) == n * self.chunks_spec(),
        decreases n,
    {
        if n > 0 {
            self.lemma_chunks_total((n - 1) as nat);
            assert(self.segment_ok(self.segs()[n - 1], n - 1));
            assert(n * self.chunks_spec() == (n - 1) * self.chunks_spec() + self.chunks_spec()) by (nonlinear_arith);
        } else {
            assert(0 * self.chunks_spec() == 0);
        }
    }

    /// Every segment of a well-formed manager has the manager's shape.
    pub proof fn lemma_segments_shape(&self)
        requires
            self.wf(),
        ensures
            self.segs().len() > 0,
            forall|i: int| 0 <= i < self.segs().len() ==> self.segment_ok(#[trigger] self.segs()[i], i),
    {
    }

    /// The segments, by segment id.
    pub closed spec fn segs(&self) -> Seq<DataSegment> {
        self.segments@
    }

    /// The prefix of the segments' names.
    pub closed spec fn prefix(&self) -> Seq<char> {
        self.name_prefix@
    }

    /// Chunk size of the segments.
    pub closed spec fn chunk_size_spec(&self) -> nat {
        self.chunk_size as nat
    }

    /// Chunks per segment.
    pub closed spec fn chunks_spec(&self) -> nat {
        self.chunks_per_segment as nat
    }

    /// A manager whose first segment is `initial` (segment 0, named after `name_prefix`).
    pub fn create(name_prefix: &str, chunk_size: usize, chunks_per_segment: u32, initial: DataSegment) -> (r: Self)
        requires
            initial.wf(),
            initial.pool().segment_spec() == 0,
            initial.pool().all_offsets_fit(),
            initial.chunk_size_spec() == round_up8(chunk_size as int),
            initial.chunk_count_spec() == chunks_per_segment,
        ensures
            r.wf(),
            r.segs() == seq![initial],
            r.prefix() == name_prefix@,
            r.chunk_size_spec() == chunk_size,
            r.chunks_spec() == chunks_per_segment,
    {
        let mut segments: Vec<DataSegment> = Vec::new();
        segments.push(initial);
        SegmentManager {
            segments,
            name_prefix: name_prefix.to_owned(),
            chunk_size,
            chunks_per_segment,
        }
    }

    /// Allocate a chunk from the first segment that has one free; when every
    /// segment is full, say which segment to add, leaving the manager unchanged.
    pub fn try_allocate(&mut self) -> (r: Result<PointerOffset, NewSegment>)
        requires
            old(self).wf(),
        ensures
            final(self).wf(),
            final(self).prefix() == old(self).prefix(),
            final(self).chunk_size_spec() == old(self).chunk_size_spec(),
            final(self).chunks_spec() == old(self).chunks_spec(),
            final(self).segs().len() == old(self).segs().len(),
            match r {
                Ok(offset) => exists|j: int|
                    #![trigger old(self).segs()[j]]
                    0 <= j < old(self).segs().len() && old(self).segs()[j]@.len() > 0 && (forall|k: int|
                        0 <= k < j ==> (#[trigger] old(self).segs()[k])@.len() == 0) && offset@
                        == old(self).segs()[j].pool().offset_of(old(self).segs()[j]@[0])
                        && final(self).segs()[j]@ == take_step(old(self).segs()[j]@).1
                        && final(self).segs()[j].same_shape(old(self).segs()[j]) && (forall|
                        k: int,
                    |
                        0 <= k < old(self).segs().len() && k != j ==> #[trigger] final(self).segs()[k]
                            == old(self).segs()[k]),
                Err(request) => {
                    &&& forall|k: int|
                        0 <= k < old(self).segs().len() ==> (#[trigger] old(self).segs()[k])@.len() == 0
                    &&& final(self).segs() == old(self).segs()
                    &&& request.segment_id == old(self).segs().len() as u16
                    &&& request.name@ == segment_name_spec(
                        old(self).prefix(),
                        old(self).segs().len() as u16,
                    )
                },
            },
            r is Ok ==> allocated_total(final(self).segs(), final(self).segs().len()) == allocated_total(
                old(self).segs(),
                old(self).segs().len(),
            ) + 1,
            r is Ok ==> free_total(final(self).segs(), final(self).segs().len()) + 1 == free_total(
                old(self).segs(),
                old(self).segs().len(),
            ),
            r is Err ==> free_total(old(self).segs(), old(self).segs().len()) == 0,
    {
        let n = self.segments.len();
        let mut i: usize = 0;
        while i < n
            invariant
                *self == *old(self),
                old(self).wf(),
                n == old(self).segs().len(),
                i <= n,
                forall|k: int| 0 <= k < i ==> (#[trigger] old(self).segs()[k])@.len() == 0,
            decreases n - i,
        {
            if self.segments[i].available() > 0 {
                let mut seg = self.segments.remove(i);
                proof {
                    seg.lemma_layout();
                    seg.pool().lemma_all_offsets_fit();
                    seg.pool().lemma_wf_facts();
                }
                let r = seg.allocate();
                self.segments.insert(i, seg);
                proof {
                    assert(self.segments@ =~= old(self).segments@.update(i as int, seg));
                    assert(old(self).segs()[i as int]@.len() > 0);
                    assert forall|k: int| 0 <= k < self.segments@.len() implies self.segment_ok(#[trigger] self.segments@[k], k) by {
                        if k != i {
                            assert(self.segments@[k] == old(self).segments@[k]);
                        }
                    }
                }
                match r {
                    Ok(offset) => {
                        proof {
                            assert forall|k: int| 0 <= k < n && k != i implies #[trigger] self.segs()[k]
                                == old(self).segs()[k] by {}
                            lemma_totals_after_take(old(self).segs(), self.segs(), i as int, n as nat);
                        }
                        return Ok(offset);
                    },
                    Err(_) => {
                        proof {
                            assert(false);
                        }
                    },
                }
            }
            i = i + 1;
        }
        proof {
            lemma_free_total_zero(old(self).segs(), n as nat);
        }
        let seg_id = n as u16;
        let name = segment_name(self.name_prefix.as_str(), seg_id);
        Err(NewSegment { segment_id: seg_id, name })
    }

    /// Add the segment that `try_allocate` asked for and allocate a chunk from it.
    /// When it has no free chunk, nothing is added and `OutOfMemory` is returned.
    pub fn add_segment(&mut self, new_seg: DataSegment) -> (r: Result<PointerOffset, LoanError>)
        requires
            old(self).wf(),
            new_seg.wf(),
            old(self).segment_ok(new_seg, old(self).segs().len() as int),
        ensures
            final(self).wf(),
            final(self).prefix() == old(self).prefix(),
            final(self).chunk_size_spec() == old(self).chunk_size_spec(),
            final(self).chunks_spec() == old(self).chunks_spec(),
            match take_step(new_seg@) {
                (Some(i), rest) => r is Ok && r->Ok_0@ == new_seg.pool().offset_of(i) && final(self).segs().len()
                    == old(self).segs().len() + 1 && final(self).segs().subrange(
                    0,
                    old(self).segs().len() as int,
                ) == old(self).segs() && final(self).segs().last()@ == rest
                    && final(self).segs().last().same_shape(new_seg),
                (None, _) => r == Err::<PointerOffset, LoanError>(LoanError::OutOfMemory)
                    && final(self).segs() == old(self).segs(),
            },
    {
        let mut new_seg = new_seg;
        proof {
            new_seg.lemma_layout();
            new_seg.pool().lemma_all_offsets_fit();
        }
        let offset = match new_seg.allocate() {
            Ok(o) => o,
            Err(e) => {
                return Err(e);
            },
        };
        self.segments.push(new_seg);
        proof {
            assert(self.segments@.subrange(0, old(self).segs().len() as int) =~= old(self).segs());
            assert forall|k: int| 0 <= k < self.segments@.len() implies self.segment_ok(#[trigger] self.segments@[k], k) by {
                if k < old(self).segs().len() {
                    assert(self.segments@[k] == old(self).segments@[k]);
                }
            }
        }
        Ok(offset)
    }

    /// Free a chunk; offsets naming no segment of this manager are ignored.
    pub fn deallocate(&mut self, offset: PointerOffset)
        requires
            old(self).wf(),
            offset.segment_id_spec() < old(self).segs().len() ==> {
                let seg = old(self).segs()[offset.segment_id_spec() as int];
                &&& offset.offset_spec() as usize >= crate::data_segment::HEADER_SIZE
                &&& seg.pool().index_of(offset) <= u32::MAX
                &&& seg.pool().allocated().contains(seg.pool().index_of(offset) as u32)
            },
        ensures
            final(self).wf(),
            final(self).prefix() == old(self).prefix(),
            final(self).chunk_size_spec() == old(self).chunk_size_spec(),
            final(self).chunks_spec() == old(self).chunks_spec(),
            final(self).segs().len() == old(self).segs().len(),
            offset.segment_id_spec() >= old(self).segs().len() ==> final(self).segs() == old(self).segs(),
            offset.segment_id_spec() < old(self).segs().len() ==> {
                let j = offset.segment_id_spec() as int;
                let seg = old(self).segs()[j];
                &&& final(self).segs()[j]@ == give_step(seg@, seg.pool().index_of(offset) as u32)
                &&& final(self).segs()[j].same_shape(seg)
                &&& forall|k: int|
                    0 <= k < old(self).segs().len() && k != j ==> #[trigger] final(self).segs()[k]
                        == old(self).segs()[k]
            },
    {
        let seg_id = offset.segment_id() as usize;
        if seg_id < self.segments.len() {
            let mut seg = self.segments.remove(seg_id);
            seg.deallocate(offset);
            self.segments.insert(seg_id, seg);
            proof {
                assert(self.segments@ =~= old(self).segments@.update(seg_id as int, seg));
                assert forall|k: int| 0 <= k < self.segments@.len() implies self.segment_ok(#[trigger] self.segments@[k], k) by {
                    if k != seg_id {
                        assert(self.segments@[k] == old(self).segments@[k]);
                    }
                }
            }
        }
    }

    /// The segment at position `index`.
    pub fn segment(&self, index: usize) -> (r: &DataSegment)
        requires
            index < self.segs().len(),
        ensures
            *r == self.segs()[index as int],
    {
        &self.segments[index]
    }

    /// Total number of segments.
    pub fn segment_count(&self) -> (r: usize)
        ensures
            r == self.segs().len(),
    {
        self.segments.len()
    }

    /// Total available chunks across all segments.
    pub fn total_available(&self) -> (r: u32)
        requires
            self.wf(),
            free_total(self.segs(), self.segs().len()) <= u32::MAX,
        ensures
            r == free_total(self.segs(), self.segs().len()),
    {
        let mut sum: u32 = 0;
        let mut i: usize = 0;
        while i < self.segments.len()
            invariant
                self.wf(),
                i <= self.segs().len(),
                free_total(self.segs(), self.segs().len()) <= u32::MAX,
                sum == free_total(self.segs(), i as nat),
            decreases self.segs().len() - i,
        {
            proof {
                lemma_totals_mono(self.segs(), (i + 1) as nat, self.segs().len());
            }
            sum = sum + self.segments[i].available();
            i = i + 1;
        }
        sum
    }

    /// Total allocated chunks across all segments.
    pub fn total_allocated(&self) -> (r: u32)
        requires
            self.wf(),
            allocated_total(self.segs(), self.segs().len()) <= u32::MAX,
        ensures
            r == allocated_total(self.segs(), self.segs().len()),
            r + free_total(self.segs(), self.segs().len()) == self.segs().len() * self.chunks_spec(),
    {
        proof {
            self.lemma_totals_sum();
        }
        let mut sum: u32 = 0;
        let mut i: usize = 0;
        while i < self.segments.len()
            invariant
                self.wf(),
                i <= self.segs().len(),
                allocated_total(self.segs(), self.segs().len()) <= u32::MAX,
                sum == allocated_total(self.segs(), i as nat),
            decreases self.segs().len() - i,
        {
            proof {
                lemma_totals_mono(self.segs(), (i + 1) as nat, self.segs().len());
            }
            sum = sum + self.segments[i].allocated_count();
            i = i + 1;
        }
        sum
    }
}

} // verus!
