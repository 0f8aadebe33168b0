//! Pointers stored as offsets from their own address, valid wherever a
//! shared memory region is mapped.
use vstd::prelude::*;

verus! {

/// A pointer stored as the signed offset from its own address to its target.
///
/// Shared memory may be mapped at different addresses in different
/// processes; an offset between two places in the same region stays valid
/// in all of them. An offset of 0 stands for null. Addresses are passed as
/// plain integers: `self_addr` is the address at which this value lives.
pub struct RelocatablePtr {
    offset: isize,
}

impl RelocatablePtr {
    /// The stored offset.
    pub closed spec fn view(&self) -> int {
        self.offset as int
    }

    /// The address a pointer living at `self_addr` with offset `offset` designates (0 for null).
    pub open spec fn target_spec(self_addr: int, offset: int) -> int {
        if offset == 0 {
            0
        } else {
            self_addr + offset
        }
    }

    /// A null relocatable pointer.
    pub fn null() -> (r: Self)
        ensures
            r@ == 0,
    {
        RelocatablePtr { offset: 0 }
    }

    /// The offset from `self_addr` to `target`.
    pub fn from_ptr(&self, self_addr: usize, target: usize) -> (r: isize)
        requires
            isize::MIN <= target - self_addr <= isize::MAX,
        ensures
            r == target - self_addr,
    {
        ((target as i128) - (self_addr as i128)) as isize
    }

    /// Store `target` as the offset from `self_addr`.
    pub fn store(&mut self, self_addr: usize, target: usize)
        requires
            isize::MIN <= target - self_addr <= isize::MAX,
        ensures
            final(self)@ == target - self_addr,
    {
        let off = self.from_ptr(self_addr, target);
        self.offset = off;
    }

    /// The target address for a pointer living at `self_addr`; 0 when null.
    pub fn load(&self, self_addr: usize) -> (r: usize)
        requires
            self@ != 0 ==> 0 <= self_addr + self@ <= usize::MAX,
        ensures
            r == Self::target_spec(self_addr as int, self@),
    {
        let off = self.offset;
        if off == 0 {
            return 0;
        }
        ((self_addr as i128) + (off as i128)) as usize
    }

    /// The target address, for writing through it.
    pub fn load_mut(&self, self_addr: usize) -> (r: usize)
        requires
            self@ != 0 ==> 0 <= self_addr + self@ <= usize::MAX,
        ensures
            r == Self::target_spec(self_addr as int, self@),
    {
        self.load(self_addr)
    }

    /// Whether this pointer is null.
    pub fn is_null(&self) -> (r: bool)
        ensures
            r == (self@ == 0),
    {
        self.offset == 0
    }

    /// Set to null.
    pub fn clear(&mut self)
        ensures
            final(self)@ == 0,
    {
        self.offset = 0;
    }
}

/// Loading a stored target from the same address gives the target back,
/// unless the target is the pointer's own address, which reads as null.
pub proof fn lemma_store_then_load(self_addr: usize, target: usize)
    requires
        isize::MIN <= target - self_addr <= isize::MAX,
        target != self_addr,
    ensures
        RelocatablePtr::target_spec(self_addr as int, target - self_addr) == target,
{
}

} // verus!
