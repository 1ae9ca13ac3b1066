//! Blocks and the slots carved out of them.
//!
//! A block is one page-sized reservation.  Its first bytes hold the block
//! header; the rest is carved into fixed-size slots.  Free slots form a LIFO
//! list threaded through the block, modelled here as a vector of slot
//! addresses whose last element is the list head.

use vstd::prelude::*;

use crate::params::block_capacity;
use crate::params::carved_slot;
use crate::params::slot_capacity;
use crate::params::BLOCK_HEADER_SIZE;
use crate::params::MEMORY_BLOCK_SIZE;
use crate::params::MEMORY_SLOT_SIZE;

verus! {

/// Handle to one slot: the address of its storage inside a mapped block.
/// The bytes at that address belong exclusively to the caller once the slot
/// has been acquired.
#[derive(Clone, Copy, Debug, PartialEq, Eq, Structural)]
pub struct MemorySlot {
    /// Address of the slot's storage.
    pub address: usize,
}

/// One reserved block, subdivided into slots.
pub struct MemoryBlock {
    /// Address at which the block's page is mapped.
    pub base: usize,
    /// Addresses of the slots still free, in carve order; the last element
    /// is the head of the free list and is handed out first.
    pub free: Vec<usize>,
    /// Number of slots already handed out of this block.
    pub count_used: u32,
}

impl MemoryBlock {
    /// A block is well formed when its page fits in the address space, its
    /// base keeps slot alignment, and its free list is exactly the first
    /// `free.len()` carved slots — the allocated slots being the suffix of
    /// the carve order.
    pub open spec fn wf(self) -> bool {
        &&& self.base % MEMORY_SLOT_SIZE == 0
        &&& self.base + MEMORY_BLOCK_SIZE <= usize::MAX
        &&& self.free@.len() <= slot_capacity()
        &&& self.count_used == slot_capacity() - self.free@.len()
        &&& forall|i: int|
            0 <= i < self.free@.len() ==> self.free@[i] == carved_slot(
                self.base as int,
                BLOCK_HEADER_SIZE as int,
                MEMORY_SLOT_SIZE as int,
                i,
            )
    }

    /// True when `a` lies inside this block's page.
    pub open spec fn contains_addr(self, a: int) -> bool {
        self.base <= a < self.base + MEMORY_BLOCK_SIZE
    }

    /// The addresses of this block's slots that have been handed out: the
    /// carved slots past the end of the free list.
    pub open spec fn allocated_contains(self, a: usize) -> bool {
        exists|k: int|
            self.free@.len() <= k < slot_capacity() && a == carved_slot(
                self.base as int,
                BLOCK_HEADER_SIZE as int,
                MEMORY_SLOT_SIZE as int,
                k,
            )
    }

    /// Carves a freshly reserved page at `base` into a full block: no slot
    /// used yet, every slot on the free list.
    pub fn carve(base: usize) -> (b: MemoryBlock)
        requires
            base % MEMORY_SLOT_SIZE == 0,
            base + MEMORY_BLOCK_SIZE <= usize::MAX,
        ensures
            b.wf(),
            b.base == base,
            b.count_used == 0,
            b.free@.len() == slot_capacity(),
    {
        let free = carve_slots(base, MEMORY_BLOCK_SIZE, BLOCK_HEADER_SIZE, MEMORY_SLOT_SIZE);
        MemoryBlock { base, free, count_used: 0 }
    }

    /// Pops the head of the free list and counts the slot as used.
    pub fn pop_free(&mut self) -> (s: MemorySlot)
        requires
            old(self).wf(),
            old(self).free@.len() > 0,
        ensures
            final(self).wf(),
            final(self).base == old(self).base,
            final(self).free@ == old(self).free@.drop_last(),
            final(self).count_used == old(self).count_used + 1,
            s.address == old(self).free@.last(),
    {
        let a = self.free.pop().unwrap();
        self.count_used = self.count_used + 1;
        assert(self.free@ == old(self).free@.drop_last());
        MemorySlot { address: a }
    }
}

/// Lists the slot addresses a block of `block_size` bytes based at `base`
/// exposes once `header_size` bytes are set aside for its header: one slot
/// every `slot_size` bytes, as many as fit.
pub fn carve_slots(base: usize, block_size: usize, header_size: usize, slot_size: usize) -> (slots:
    Vec<usize>)
    requires
        slot_size > 0,
        header_size <= block_size,
        base + block_size <= usize::MAX,
    ensures
        slots@.len() == block_capacity(block_size as int, header_size as int, slot_size as int),
        forall|i: int|
            0 <= i < slots@.len() ==> slots@[i] == carved_slot(
                base as int,
                header_size as int,
                slot_size as int,
                i,
            ),
        forall|i: int|
            0 <= i < slots@.len() ==> base + header_size <= slots@[i] && slots@[i] + slot_size
                <= base + block_size,
{
    let cap: usize = (block_size - header_size) / slot_size;
    assert(cap * slot_size <= block_size - header_size) by (nonlinear_arith)
        requires
            slot_size > 0,
            header_size <= block_size,
            cap == block_capacity(block_size as int, header_size as int, slot_size as int),
    ;
    let mut slots: Vec<usize> = Vec::new();
    let mut i: usize = 0;
    let mut addr: usize = base + header_size;
    while i < cap
        invariant
            i <= cap,
            slot_size > 0,
            header_size <= block_size,
            base + block_size <= usize::MAX,
            addr == base + header_size + i * slot_size,
            base + header_size + cap * slot_size <= base + block_size,
            slots@.len() == i,
            forall|j: int|
                0 <= j < i ==> slots@[j] == carved_slot(
                    base as int,
                    header_size as int,
                    slot_size as int,
                    j,
                ),
            forall|j: int|
                0 <= j < i ==> base + header_size <= slots@[j] && slots@[j] + slot_size <= base
                    + block_size,
        decreases cap - i,
    {
        assert(addr + slot_size <= base + block_size) by (nonlinear_arith)
            requires
                addr == base + header_size + i * slot_size,
                i < cap,
                slot_size > 0,
                base + header_size + cap * slot_size <= base + block_size,
        ;
        slots.push(addr);
        assert(addr + slot_size == base + header_size + (i + 1) * slot_size) by (nonlinear_arith)
            requires
                addr == base + header_size + i * slot_size,
        ;
        addr = addr + slot_size;
        i = i + 1;
    }
    slots
}

/// Law: a freshly carved block exposes exactly
/// `block_capacity(block_size, header_size, slot_size)` slots, and their
/// addresses are pairwise distinct — the free list can hold no duplicate and
/// therefore no cycle.
pub proof fn lemma_carved_slots_distinct(
    slots: Seq<usize>,
    base: usize,
    block_size: usize,
    header_size: usize,
    slot_size: usize,
)
    requires
        slot_size > 0,
        slots.len() == block_capacity(block_size as int, header_size as int, slot_size as int),
        forall|i: int|
            0 <= i < slots.len() ==> slots[i] == carved_slot(
                base as int,
                header_size as int,
                slot_size as int,
                i,
            ),
    ensures
        forall|i: int, j: int|
            0 <= i < slots.len() && 0 <= j < slots.len() && i != j ==> slots[i] != slots[j],
{
    assert forall|i: int, j: int|
        0 <= i < slots.len() && 0 <= j < slots.len() && i != j implies slots[i] != slots[j] by {
        assert(i * slot_size != j * slot_size) by (nonlinear_arith)
            requires
                i != j,
                slot_size > 0,
        ;
    }
}

} // verus!
