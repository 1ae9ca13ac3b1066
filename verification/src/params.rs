//! Fixed numeric parameters of the allocator and the arithmetic spec
//! functions shared by the other modules.

use vstd::prelude::*;

verus! {

/// Size in bytes of one slot handed out to callers (wide-pointer targets).
pub const MEMORY_SLOT_SIZE: usize = 64;

/// Size in bytes of one block: a single native page.
pub const MEMORY_BLOCK_SIZE: usize = 4096;

/// Bytes at the front of a block reserved for its header (next-block link,
/// free-list head, used-slot count), rounded up to a slot boundary so that
/// every slot keeps slot alignment relative to the block base.
pub const BLOCK_HEADER_SIZE: usize = 64;

/// Maximum distance from the requested origin at which a block may be
/// placed: the reach of a 32-bit relative-branch encoding (1 GiB).
pub const MAX_MEMORY_RANGE: usize = 0x4000_0000;

/// Region state code meaning the queried range is unmapped and free.
pub const MEM_STATE_FREE: u32 = 0x10000;

/// Region state code meaning the queried range is committed.
pub const MEM_STATE_COMMIT: u32 = 0x1000;

/// Protection bits that each grant execute permission in some form
/// (execute-only, execute+read, execute+read-write, execute+write-copy).
pub const PAGE_EXECUTE_FLAGS: u32 = 0x10 | 0x20 | 0x40 | 0x80;

/// Largest multiple of `g` that is at most `a`.
pub open spec fn align_down(a: int, g: int) -> int
    recommends
        g > 0,
{
    a - a % g
}

/// Smallest multiple of `g` that is at least `a` (for `a >= 0`).
pub open spec fn align_up(a: int, g: int) -> int
    recommends
        g > 0,
{
    if a % g == 0 {
        a
    } else {
        a + g - a % g
    }
}

/// Number of slots a block exposes: the slots that fit after the header.
pub open spec fn block_capacity(block_size: int, header_size: int, slot_size: int) -> int
    recommends
        slot_size > 0,
{
    (block_size - header_size) / slot_size
}

/// Capacity of a block under this allocator's fixed parameters.
pub open spec fn slot_capacity() -> int {
    block_capacity(MEMORY_BLOCK_SIZE as int, BLOCK_HEADER_SIZE as int, MEMORY_SLOT_SIZE as int)
}

/// Address of the `i`-th slot carved out of a block based at `base`.
pub open spec fn carved_slot(base: int, header_size: int, slot_size: int, i: int) -> int {
    base + header_size + i * slot_size
}

} // verus!
