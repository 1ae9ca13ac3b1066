//! The registry of reserved blocks and the slot allocator over it.
//!
//! The registry owns every block the allocator has reserved, newest last.
//! An acquisition first scans the registry, newest block first, for one
//! whose base lies inside the reachability window around the requested
//! origin and whose free list is not empty.  On a miss the caller is told
//! the window to search; once it has reserved a fresh page there, the page
//! is carved into slots, registered, and the first slot handed out.

use vstd::arithmetic::div_mod::lemma_add_mod_noop;
use vstd::arithmetic::div_mod::lemma_mod_multiples_basic;
use vstd::prelude::*;

use crate::block::MemoryBlock;
use crate::block::MemorySlot;
use crate::mapping::AddressSpaceInfo;
use crate::params::carved_slot;
use crate::params::slot_capacity;
use crate::params::BLOCK_HEADER_SIZE;
use crate::params::MAX_MEMORY_RANGE;
use crate::params::MEMORY_BLOCK_SIZE;
use crate::params::MEMORY_SLOT_SIZE;

verus! {

/// Result of asking the registry for a slot near an origin.
#[derive(Clone, Copy, Debug, PartialEq, Eq, Structural)]
pub enum AllocateOutcome {
    /// A slot was taken from an already registered block.
    Allocated(MemorySlot),
    /// No registered block can serve the request.  The caller must search
    /// `[min_addr, max_addr]` for a free region, reserve a block there, and
    /// hand the reserved base to `install_block`; if every reservation
    /// attempt fails, the request is exhausted.
    NeedBlock { min_addr: usize, max_addr: usize },
}

/// Two block bases whose pages do not overlap.
pub open spec fn blocks_disjoint(a: usize, b: usize) -> bool {
    a + MEMORY_BLOCK_SIZE <= b || b + MEMORY_BLOCK_SIZE <= a
}

/// A block that can serve a request windowed to `[lo, hi)`: its base lies in
/// the window and it still has a free slot.
pub open spec fn block_eligible(b: MemoryBlock, lo: int, hi: int) -> bool {
    lo <= b.base < hi && b.free@.len() > 0
}

/// Index of the newest block (highest index) eligible for `[lo, hi)`, if
/// any: the order in which the registry is scanned.
pub open spec fn find_index(s: Seq<MemoryBlock>, lo: int, hi: int) -> Option<int>
    decreases s.len(),
{
    if s.len() == 0 {
        Option::None
    } else if block_eligible(s.last(), lo, hi) {
        Option::Some(s.len() - 1)
    } else {
        find_index(s.drop_last(), lo, hi)
    }
}

/// Lower end of the reachability window around `origin`, clipped to the
/// process's lowest usable address.
pub open spec fn window_low(origin: usize, min_address: usize) -> int {
    if origin > MAX_MEMORY_RANGE && min_address < origin - MAX_MEMORY_RANGE {
        origin - MAX_MEMORY_RANGE
    } else {
        min_address as int
    }
}

/// Upper end of the reachability window around `origin`, clipped to the
/// process's highest usable address and pulled in so that a whole block
/// still fits below it.
pub open spec fn window_high(origin: usize, max_address: usize) -> int {
    (if max_address > origin + MAX_MEMORY_RANGE {
        origin + MAX_MEMORY_RANGE
    } else {
        max_address as int
    }) - (MEMORY_BLOCK_SIZE - 1)
}

/// The addresses held by some block's free list.
pub open spec fn seq_free_addresses(s: Seq<MemoryBlock>) -> Set<usize> {
    Set::new(|a: usize| exists|i: int| 0 <= i < s.len() && (#[trigger] s[i]).free@.contains(a))
}

/// The addresses of slots some block has handed out.
pub open spec fn seq_allocated_addresses(s: Seq<MemoryBlock>) -> Set<usize> {
    Set::new(|a: usize| exists|i: int| 0 <= i < s.len() && (#[trigger] s[i]).allocated_contains(a))
}

/// Field-wise equality of two blocks.
pub open spec fn block_same(a: MemoryBlock, b: MemoryBlock) -> bool {
    a.base == b.base && a.free@ == b.free@ && a.count_used == b.count_used
}

/// Clips the reachability window around `origin` to the usable address
/// range the mapping service reported, and pulls the upper end in so that a
/// whole block fits below it.
pub fn compute_window(origin: usize, info: &AddressSpaceInfo) -> (w: (usize, usize))
    requires
        info.max_address >= MEMORY_BLOCK_SIZE,
    ensures
        w.0 == window_low(origin, info.min_address),
        w.1 == window_high(origin, info.max_address),
        w.1 >= 1,
{
    let mut lo: usize = info.min_address;
    let mut hi: usize = info.max_address;
    if origin > MAX_MEMORY_RANGE {
        let lower_cap: usize = origin - MAX_MEMORY_RANGE;
        if lo < lower_cap {
            lo = lower_cap;
        }
    }
    if origin <= usize::MAX - MAX_MEMORY_RANGE {
        let upper_cap: usize = origin + MAX_MEMORY_RANGE;
        if hi > upper_cap {
            hi = upper_cap;
        }
    }
    hi = hi - (MEMORY_BLOCK_SIZE - 1);
    (lo, hi)
}

/// A found index points at an eligible block; a miss means no block is
/// eligible.
pub proof fn lemma_find_index_props(s: Seq<MemoryBlock>, lo: int, hi: int)
    ensures
        match find_index(s, lo, hi) {
            Option::Some(i) => 0 <= i < s.len() && block_eligible(s[i], lo, hi),
            Option::None => forall|i: int| 0 <= i < s.len() ==> !block_eligible(#[trigger] s[i], lo, hi),
        },
    decreases s.len(),
{
    if s.len() == 0 {
    } else if block_eligible(s.last(), lo, hi) {
    } else {
        lemma_find_index_props(s.drop_last(), lo, hi);
        match find_index(s.drop_last(), lo, hi) {
            Option::Some(i) => {
                assert(s.drop_last()[i] == s[i]);
            },
            Option::None => {
                assert forall|i: int| 0 <= i < s.len() implies !block_eligible(
                    #[trigger] s[i],
                    lo,
                    hi,
                ) by {
                    if i < s.len() - 1 {
                        assert(s.drop_last()[i] == s[i]);
                        assert(!block_eligible(s.drop_last()[i], lo, hi));
                    }
                }
            },
        }
    }
}

/// Every slot address carved after a slot-aligned base is itself
/// slot-aligned.
proof fn lemma_carved_aligned(base: usize, k: int)
    requires
        base % MEMORY_SLOT_SIZE == 0,
        0 <= k,
    ensures
        carved_slot(base as int, BLOCK_HEADER_SIZE as int, MEMORY_SLOT_SIZE as int, k) % (
        MEMORY_SLOT_SIZE as int) == 0,
{
    let m = MEMORY_SLOT_SIZE as int;
    lemma_mod_multiples_basic(k + 1, m);
    lemma_add_mod_noop(base as int, (k + 1) * m, m);
    assert(base + (k + 1) * m == carved_slot(base as int, BLOCK_HEADER_SIZE as int, m, k));
}

/// In a well-formed block, every free and every handed-out slot address is
/// slot-aligned and lies strictly inside the block's page.
proof fn lemma_wf_block_addr_facts(b: MemoryBlock)
    requires
        b.wf(),
    ensures
        forall|a: usize|
            (#[trigger] b.free@.contains(a)) ==> b.base < a && a < b.base + MEMORY_BLOCK_SIZE && a
                % MEMORY_SLOT_SIZE == 0,
        forall|a: usize|
            (#[trigger] b.allocated_contains(a)) ==> b.base < a && a < b.base + MEMORY_BLOCK_SIZE
                && a % MEMORY_SLOT_SIZE == 0,
{
    assert forall|a: usize| #[trigger]
        b.free@.contains(a) implies b.base < a && a < b.base + MEMORY_BLOCK_SIZE && a
        % MEMORY_SLOT_SIZE == 0 by {
        let k = choose|k: int| 0 <= k < b.free@.len() && b.free@[k] == a;
        lemma_carved_aligned(b.base, k);
    }
    assert forall|a: usize| #[trigger]
        b.allocated_contains(a) implies b.base < a && a < b.base + MEMORY_BLOCK_SIZE && a
        % MEMORY_SLOT_SIZE == 0 by {
        let k = choose|k: int|
            b.free@.len() <= k < slot_capacity() && a == carved_slot(
                b.base as int,
                BLOCK_HEADER_SIZE as int,
                MEMORY_SLOT_SIZE as int,
                k,
            );
        lemma_carved_aligned(b.base, k);
    }
}

/// How popping the free-list head of the block at index `i` changes the
/// free and allocated address sets of the whole registry.
proof fn lemma_pop_updates_sets(pre: Seq<MemoryBlock>, post: Seq<MemoryBlock>, i: int, a: usize)
    requires
        0 <= i < pre.len(),
        post.len() == pre.len(),
        forall|j: int| 0 <= j < pre.len() && j != i ==> block_same(#[trigger] post[j], pre[j]),
        post[i].base == pre[i].base,
        pre[i].free@.len() > 0,
        post[i].free@ == pre[i].free@.drop_last(),
        a == pre[i].free@.last(),
        forall|j: int| 0 <= j < pre.len() ==> (#[trigger] pre[j]).wf(),
        forall|j: int, k: int|
            0 <= j < k < pre.len() ==> blocks_disjoint(pre[j].base, pre[k].base),
    ensures
        seq_free_addresses(pre).contains(a),
        !seq_free_addresses(post).contains(a),
        !seq_allocated_addresses(pre).contains(a),
        seq_free_addresses(post) =~= seq_free_addresses(pre).remove(a),
        seq_allocated_addresses(post) =~= seq_allocated_addresses(pre).insert(a),
        a % MEMORY_SLOT_SIZE == 0,
{
    let n = pre.len() as int;
    let lenf = pre[i].free@.len() as int;
    assert(pre[i].free@.contains(a));
    assert(seq_free_addresses(pre).contains(a));
    lemma_wf_block_addr_facts(pre[i]);

    // An address held by a different block can never equal an address of
    // block `i`: the two pages are disjoint.
    assert forall|j: int, x: usize|
        0 <= j < n && j != i && #[trigger] pre[j].free@.contains(x) implies x != a by {
        lemma_wf_block_addr_facts(pre[j]);
        if j < i {
            assert(blocks_disjoint(pre[j].base, pre[i].base));
        } else {
            assert(blocks_disjoint(pre[i].base, pre[j].base));
        }
    }
    assert forall|j: int, x: usize|
        0 <= j < n && j != i && #[trigger] pre[j].allocated_contains(x) implies x != a by {
        lemma_wf_block_addr_facts(pre[j]);
        if j < i {
            assert(blocks_disjoint(pre[j].base, pre[i].base));
        } else {
            assert(blocks_disjoint(pre[i].base, pre[j].base));
        }
    }

    // Distinct carve indices give distinct addresses within block `i`.
    assert forall|k: int| 0 <= k < lenf - 1 implies pre[i].free@[k] != a by {
        assert(pre[i].free@[k] == carved_slot(
            pre[i].base as int,
            BLOCK_HEADER_SIZE as int,
            MEMORY_SLOT_SIZE as int,
            k,
        ));
    }

    assert(!seq_free_addresses(post).contains(a)) by {
        assert forall|j: int| 0 <= j < n implies !(#[trigger] post[j]).free@.contains(a) by {
            if j != i {
                assert(post[j].free@ == pre[j].free@);
                if post[j].free@.contains(a) {
                    assert(pre[j].free@.contains(a));
                }
            } else {
                if post[i].free@.contains(a) {
                    let k = choose|k: int| 0 <= k < post[i].free@.len() && post[i].free@[k] == a;
                    assert(pre[i].free@[k] == a);
                }
            }
        }
    }

    assert(!seq_allocated_addresses(pre).contains(a)) by {
        assert forall|j: int| 0 <= j < n implies !(#[trigger] pre[j]).allocated_contains(a) by {
            if j == i {
                if pre[i].allocated_contains(a) {
                    let k = choose|k: int|
                        lenf <= k < slot_capacity() && a == carved_slot(
                            pre[i].base as int,
                            BLOCK_HEADER_SIZE as int,
                            MEMORY_SLOT_SIZE as int,
                            k,
                        );
                    assert(a == carved_slot(
                        pre[i].base as int,
                        BLOCK_HEADER_SIZE as int,
                        MEMORY_SLOT_SIZE as int,
                        lenf - 1,
                    ));
                }
            }
        }
    }

    assert(seq_free_addresses(post) =~= seq_free_addresses(pre).remove(a)) by {
        assert forall|x: usize|
            seq_free_addresses(post).contains(x) implies seq_free_addresses(pre).remove(
            a,
        ).contains(x) by {
            let j = choose|j: int| 0 <= j < n && (#[trigger] post[j]).free@.contains(x);
            if j != i {
                assert(pre[j].free@.contains(x));
            } else {
                let k = choose|k: int| 0 <= k < post[i].free@.len() && post[i].free@[k] == x;
                assert(pre[i].free@[k] == x);
                assert(pre[i].free@.contains(x));
            }
            assert(x != a);
        }
        assert forall|x: usize|
            seq_free_addresses(pre).remove(a).contains(x) implies seq_free_addresses(
            post,
        ).contains(x) by {
            let j = choose|j: int| 0 <= j < n && (#[trigger] pre[j]).free@.contains(x);
            if j != i {
                assert(post[j].free@.contains(x));
            } else {
                let k = choose|k: int| 0 <= k < lenf && pre[i].free@[k] == x;
                if k == lenf - 1 {
                    assert(x == a);
                } else {
                    assert(post[i].free@[k] == x);
                    assert(post[i].free@.contains(x));
                }
            }
        }
    }

    assert(seq_allocated_addresses(post) =~= seq_allocated_addresses(pre).insert(a)) by {
        assert forall|x: usize|
            seq_allocated_addresses(post).contains(x) implies seq_allocated_addresses(pre).insert(
            a,
        ).contains(x) by {
            let j = choose|j: int| 0 <= j < n && (#[trigger] post[j]).allocated_contains(x);
            if j != i {
                assert(pre[j].allocated_contains(x));
            } else {
                let k = choose|k: int|
                    post[i].free@.len() <= k < slot_capacity() && x == carved_slot(
                        post[i].base as int,
                        BLOCK_HEADER_SIZE as int,
                        MEMORY_SLOT_SIZE as int,
                        k,
                    );
                if k == lenf - 1 {
                    assert(x == a);
                } else {
                    assert(pre[i].allocated_contains(x));
                }
            }
        }
        assert forall|x: usize|
            seq_allocated_addresses(pre).insert(a).contains(x) implies seq_allocated_addresses(
            post,
        ).contains(x) by {
            if x == a {
                assert(post[i].allocated_contains(a));
            } else {
                let j = choose|j: int| 0 <= j < n && (#[trigger] pre[j]).allocated_contains(x);
                assert(post[j].allocated_contains(x));
            }
        }
    }
}

/// How registering a fresh block (with its head slot already popped)
/// changes the free and allocated address sets of the whole registry.
proof fn lemma_push_updates_sets(pre: Seq<MemoryBlock>, post: Seq<MemoryBlock>, a: usize)
    requires
        post.len() == pre.len() + 1,
        forall|j: int| 0 <= j < pre.len() ==> block_same(#[trigger] post[j], pre[j]),
        post.last().wf(),
        post.last().free@.len() == slot_capacity() - 1,
        a == carved_slot(
            post.last().base as int,
            BLOCK_HEADER_SIZE as int,
            MEMORY_SLOT_SIZE as int,
            slot_capacity() - 1,
        ),
        forall|j: int| 0 <= j < pre.len() ==> (#[trigger] pre[j]).wf(),
        forall|j: int|
            0 <= j < pre.len() ==> blocks_disjoint((#[trigger] pre[j]).base, post.last().base),
    ensures
        !seq_free_addresses(pre).contains(a),
        !seq_free_addresses(post).contains(a),
        !seq_allocated_addresses(pre).contains(a),
        seq_allocated_addresses(post) =~= seq_allocated_addresses(pre).insert(a),
        a % MEMORY_SLOT_SIZE == 0,
{
    let n = pre.len() as int;
    let nb = post.last();
    assert(nb.allocated_contains(a));
    lemma_wf_block_addr_facts(nb);

    assert forall|j: int, x: usize|
        0 <= j < n && #[trigger] pre[j].free@.contains(x) implies x != a by {
        lemma_wf_block_addr_facts(pre[j]);
        assert(blocks_disjoint(pre[j].base, nb.base));
    }
    assert forall|j: int, x: usize|
        0 <= j < n && #[trigger] pre[j].allocated_contains(x) implies x != a by {
        lemma_wf_block_addr_facts(pre[j]);
        assert(blocks_disjoint(pre[j].base, nb.base));
    }

    assert(!seq_free_addresses(pre).contains(a));
    assert(!seq_allocated_addresses(pre).contains(a));

    assert(!seq_free_addresses(post).contains(a)) by {
        assert forall|j: int| 0 <= j < post.len() implies !(#[trigger] post[j]).free@.contains(
            a,
        ) by {
            if j < n {
                assert(post[j].free@ == pre[j].free@);
                if post[j].free@.contains(a) {
                    assert(pre[j].free@.contains(a));
                }
            } else {
                if nb.free@.contains(a) {
                    let k = choose|k: int| 0 <= k < nb.free@.len() && nb.free@[k] == a;
                    assert(nb.free@[k] == carved_slot(
                        nb.base as int,
                        BLOCK_HEADER_SIZE as int,
                        MEMORY_SLOT_SIZE as int,
                        k,
                    ));
                }
            }
        }
    }

    assert(seq_allocated_addresses(post) =~= seq_allocated_addresses(pre).insert(a)) by {
        assert forall|x: usize|
            seq_allocated_addresses(post).contains(x) implies seq_allocated_addresses(pre).insert(
            a,
        ).contains(x) by {
            let j = choose|j: int|
                0 <= j < post.len() && (#[trigger] post[j]).allocated_contains(x);
            if j < n {
                assert(pre[j].allocated_contains(x));
            } else {
                let k = choose|k: int|
                    nb.free@.len() <= k < slot_capacity() && x == carved_slot(
                        nb.base as int,
                        BLOCK_HEADER_SIZE as int,
                        MEMORY_SLOT_SIZE as int,
                        k,
                    );
                assert(k == slot_capacity() - 1);
                assert(x == a);
            }
        }
        assert forall|x: usize|
            seq_allocated_addresses(pre).insert(a).contains(x) implies seq_allocated_addresses(
            post,
        ).contains(x) by {
            if x == a {
                assert(post[n].allocated_contains(a));
            } else {
                let j = choose|j: int| 0 <= j < n && (#[trigger] pre[j]).allocated_contains(x);
                assert(post[j].allocated_contains(x));
            }
        }
    }
}

/// The process-wide list of reserved blocks, newest last.
pub struct BlockRegistry {
    /// The registered blocks; scans run from the end (newest) backwards.
    pub blocks: Vec<MemoryBlock>,
}

impl BlockRegistry {
    /// Every block is well formed and no two blocks' pages overlap.
    pub open spec fn wf(self) -> bool {
        &&& forall|i: int| 0 <= i < self.blocks@.len() ==> (#[trigger] self.blocks@[i]).wf()
        &&& forall|i: int, j: int|
            0 <= i < j < self.blocks@.len() ==> blocks_disjoint(
                self.blocks@[i].base,
                self.blocks@[j].base,
            )
    }

    /// The slot addresses currently free in some registered block.
    pub open spec fn free_addresses(self) -> Set<usize> {
        seq_free_addresses(self.blocks@)
    }

    /// The slot addresses already handed out of some registered block.
    pub open spec fn allocated_addresses(self) -> Set<usize> {
        seq_allocated_addresses(self.blocks@)
    }

    /// A base at which a fresh block may be registered: slot-aligned, its
    /// page inside the address space, and overlapping no registered block.
    pub open spec fn installable(self, base: usize) -> bool {
        &&& base % MEMORY_SLOT_SIZE == 0
        &&& base + MEMORY_BLOCK_SIZE <= usize::MAX
        &&& forall|i: int|
            0 <= i < self.blocks@.len() ==> blocks_disjoint(
                (#[trigger] self.blocks@[i]).base,
                base,
            )
    }

    /// An empty registry: the state before the first acquisition and after
    /// a teardown.
    pub fn new() -> (r: BlockRegistry)
        ensures
            r.wf(),
            r.blocks@.len() == 0,
    {
        BlockRegistry { blocks: Vec::new() }
    }

    /// Scans the registry, newest block first, for one whose base lies in
    /// `[lo, hi)` and whose free list is not empty.
    pub fn find_block(&self, lo: usize, hi: usize) -> (r: Option<usize>)
        ensures
            match r {
                Option::Some(i) => i < self.blocks@.len() && find_index(
                    self.blocks@,
                    lo as int,
                    hi as int,
                ) == Option::Some(i as int),
                Option::None => find_index(self.blocks@, lo as int, hi as int) is None,
            },
    {
        let ghost s = self.blocks@;
        let mut j: usize = self.blocks.len();
        proof {
            assert(s.take(s.len() as int) =~= s);
        }
        while j > 0
            invariant
                j <= s.len(),
                s == self.blocks@,
                find_index(s, lo as int, hi as int) == find_index(
                    s.take(j as int),
                    lo as int,
                    hi as int,
                ),
            decreases j,
        {
            let idx: usize = j - 1;
            let base: usize = self.blocks[idx].base;
            let has_free: bool = self.blocks[idx].free.len() > 0;
            proof {
                assert(s.take(j as int).last() == s[idx as int]);
            }
            if lo <= base && base < hi && has_free {
                return Some(idx);
            }
            proof {
                assert(s.take(j as int).drop_last() =~= s.take(idx as int));
            }
            j = idx;
        }
        proof {
            assert(s.take(0) =~= Seq::<MemoryBlock>::empty());
        }
        None
    }

    /// Tries to serve a request for a slot reachable from `origin` out of
    /// the already registered blocks.  On a miss the registry is unchanged
    /// and the returned window says where the caller must search for a
    /// fresh region.
    pub fn allocate_buffer(&mut self, origin: usize, info: &AddressSpaceInfo) -> (r:
        AllocateOutcome)
        requires
            old(self).wf(),
            info.max_address >= MEMORY_BLOCK_SIZE,
        ensures
            final(self).wf(),
            match find_index(
                old(self).blocks@,
                window_low(origin, info.min_address),
                window_high(origin, info.max_address),
            ) {
                Option::Some(i) => {
                    &&& r is Allocated
                    &&& (r matches AllocateOutcome::Allocated(s) ==> s.address == old(
                        self,
                    ).blocks@[i].free@.last())
                    &&& final(self).blocks@.len() == old(self).blocks@.len()
                    &&& forall|j: int|
                        0 <= j < old(self).blocks@.len() && j != i ==> block_same(
                            #[trigger] final(self).blocks@[j],
                            old(self).blocks@[j],
                        )
                    &&& final(self).blocks@[i].base == old(self).blocks@[i].base
                    &&& final(self).blocks@[i].free@ == old(self).blocks@[i].free@.drop_last()
                    &&& final(self).blocks@[i].count_used == old(self).blocks@[i].count_used + 1
                },
                Option::None => {
                    &&& r matches AllocateOutcome::NeedBlock { min_addr, max_addr }
                    &&& (r matches AllocateOutcome::NeedBlock { min_addr, max_addr } ==> min_addr
                        == window_low(origin, info.min_address) && max_addr == window_high(
                        origin,
                        info.max_address,
                    ))
                    &&& final(self).blocks@ == old(self).blocks@
                },
            },
            r matches AllocateOutcome::Allocated(s) ==> {
                &&& s.address % MEMORY_SLOT_SIZE == 0
                &&& old(self).free_addresses().contains(s.address)
                &&& !final(self).free_addresses().contains(s.address)
                &&& final(self).free_addresses() =~= old(self).free_addresses().remove(s.address)
                &&& !old(self).allocated_addresses().contains(s.address)
                &&& final(self).allocated_addresses() =~= old(self).allocated_addresses().insert(
                    s.address,
                )
                &&& exists|bi: int|
                    0 <= bi < final(self).blocks@.len() && (#[trigger] final(self).blocks@[bi]).contains_addr(s.address as int)
            },
    {
        let window = compute_window(origin, info);
        let lo: usize = window.0;
        let hi: usize = window.1;
        let found = self.find_block(lo, hi);
        match found {
            None => AllocateOutcome::NeedBlock { min_addr: lo, max_addr: hi },
            Some(i) => {
                proof {
                    lemma_find_index_props(self.blocks@, lo as int, hi as int);
                }
                let ghost s0 = self.blocks@;
                let mut blk = self.blocks.remove(i);
                let slot = blk.pop_free();
                let ghost blkg = blk;
                self.blocks.insert(i, blk);
                proof {
                    let s1 = s0.remove(i as int);
                    s0.remove_ensures(i as int);
                    s1.insert_ensures(i as int, blkg);
                    assert(self.blocks@ == s1.insert(i as int, blkg));
                    assert forall|j: int|
                        0 <= j < s0.len() && j != i implies block_same(
                        #[trigger] self.blocks@[j],
                        s0[j],
                    ) by {
                        if j < i {
                            assert(self.blocks@[j] == s1[j]);
                        } else {
                            assert(self.blocks@[j] == s1[j - 1]);
                            assert(s1[j - 1] == s0[j]);
                        }
                    }
                    assert(self.blocks@[i as int] == blkg);
                    lemma_pop_updates_sets(s0, self.blocks@, i as int, slot.address);
                    assert(self.blocks@[i as int].contains_addr(slot.address as int)) by {
                        lemma_wf_block_addr_facts(s0[i as int]);
                        assert(s0[i as int].free@.contains(slot.address));
                    }
                }
                AllocateOutcome::Allocated(slot)
            },
        }
    }

    /// True when a fresh block may be registered at `base`: the page is
    /// slot-aligned, fits in the address space, and overlaps no registered
    /// block.  Callers check this before `install_block`.
    pub fn can_install(&self, base: usize) -> (r: bool)
        requires
            self.wf(),
        ensures
            r == self.installable(base),
    {
        if base % MEMORY_SLOT_SIZE != 0 {
            return false;
        }
        if !(base <= usize::MAX - MEMORY_BLOCK_SIZE) {
            return false;
        }
        let n: usize = self.blocks.len();
        let mut i: usize = 0;
        while i < n
            invariant
                self.wf(),
                n == self.blocks@.len(),
                i <= n,
                base <= usize::MAX - MEMORY_BLOCK_SIZE,
                forall|j: int|
                    0 <= j < i ==> blocks_disjoint((#[trigger] self.blocks@[j]).base, base),
            decreases n - i,
        {
            let b_base: usize = self.blocks[i].base;
            if !(b_base + MEMORY_BLOCK_SIZE <= base || base + MEMORY_BLOCK_SIZE <= b_base) {
                return false;
            }
            i = i + 1;
        }
        true
    }

    /// Carves the freshly reserved page at `base` into a block, registers
    /// it as the newest block, and hands out its first slot: the head of
    /// the new free list, which is the highest-addressed slot of the page.
    pub fn install_block(&mut self, base: usize) -> (s: MemorySlot)
        requires
            old(self).wf(),
            old(self).installable(base),
        ensures
            final(self).wf(),
            final(self).blocks@.len() == old(self).blocks@.len() + 1,
            forall|j: int|
                0 <= j < old(self).blocks@.len() ==> block_same(
                    #[trigger] final(self).blocks@[j],
                    old(self).blocks@[j],
                ),
            final(self).blocks@.last().base == base,
            final(self).blocks@.last().count_used == 1,
            final(self).blocks@.last().free@.len() == slot_capacity() - 1,
            s.address == carved_slot(
                base as int,
                BLOCK_HEADER_SIZE as int,
                MEMORY_SLOT_SIZE as int,
                slot_capacity() - 1,
            ),
            s.address % MEMORY_SLOT_SIZE == 0,
            !old(self).free_addresses().contains(s.address),
            !final(self).free_addresses().contains(s.address),
            !old(self).allocated_addresses().contains(s.address),
            final(self).allocated_addresses() =~= old(self).allocated_addresses().insert(
                s.address,
            ),
            exists|bi: int|
                0 <= bi < final(self).blocks@.len() && (#[trigger] final(self).blocks@[bi]).contains_addr(s.address as int),
    {
        let ghost s0 = self.blocks@;
        let mut blk = MemoryBlock::carve(base);
        let slot = blk.pop_free();
        let ghost blkg = blk;
        self.blocks.push(blk);
        proof {
            assert(self.blocks@ == s0.push(blkg));
            assert(self.blocks@.last() == blkg);
            assert forall|j: int| 0 <= j < s0.len() implies block_same(
                #[trigger] self.blocks@[j],
                s0[j],
            ) by {
                assert(self.blocks@[j] == s0[j]);
            }
            lemma_push_updates_sets(s0, self.blocks@, slot.address);
            assert(self.blocks@.last().allocated_contains(slot.address));
            lemma_wf_block_addr_facts(blkg);
            assert(self.blocks@[s0.len() as int].contains_addr(slot.address as int));
        }
        slot
    }

    /// Empties the registry and returns the base of every block that was
    /// registered, newest first: the caller releases each page back to the
    /// mapping service.  Afterwards the registry is exactly as freshly
    /// created, and a later acquisition proceeds as a first-ever call.
    pub fn uninitialize_buffer(&mut self) -> (released: Vec<usize>)
        ensures
            final(self).wf(),
            final(self).blocks@.len() == 0,
            released@.len() == old(self).blocks@.len(),
            forall|k: int|
                0 <= k < released@.len() ==> released@[k] == old(self).blocks@[old(
                    self,
                ).blocks@.len() - 1 - k].base,
    {
        let ghost s0 = self.blocks@;
        let mut released: Vec<usize> = Vec::new();
        while self.blocks.len() > 0
            invariant
                released@.len() + self.blocks@.len() == s0.len(),
                forall|j: int| 0 <= j < self.blocks@.len() ==> self.blocks@[j] == s0[j],
                forall|k: int|
                    0 <= k < released@.len() ==> released@[k] == s0[s0.len() - 1 - k].base,
            decreases self.blocks@.len(),
        {
            let b = self.blocks.pop().unwrap();
            released.push(b.base);
        }
        released
    }
}

/// Law: successive acquisitions hand out pairwise distinct addresses.  Each
/// acquiring operation guarantees that its result was not yet in the
/// allocated-address set and that the set grows by exactly that address, so
/// an address returned later can never repeat one returned earlier.
pub proof fn lemma_acquired_addresses_distinct(allocated0: Set<usize>, a1: usize, a2: usize)
    requires
        !allocated0.contains(a1),
        !allocated0.insert(a1).contains(a2),
    ensures
        a1 != a2,
{
}

/// Law: in a well-formed registry an address lies inside at most one
/// block's page, since distinct blocks' pages are disjoint.
pub proof fn lemma_address_in_one_block(r: BlockRegistry, a: usize, i: int, j: int)
    requires
        r.wf(),
        0 <= i < r.blocks@.len(),
        0 <= j < r.blocks@.len(),
        r.blocks@[i].contains_addr(a as int),
        r.blocks@[j].contains_addr(a as int),
    ensures
        i == j,
{
    if i < j {
        assert(blocks_disjoint(r.blocks@[i].base, r.blocks@[j].base));
    } else if j < i {
        assert(blocks_disjoint(r.blocks@[j].base, r.blocks@[i].base));
    }
}

/// Law: no address is at once free and handed out.
pub proof fn lemma_free_allocated_disjoint(r: BlockRegistry, a: usize)
    requires
        r.wf(),
        r.free_addresses().contains(a),
    ensures
        !r.allocated_addresses().contains(a),
{
    let i = choose|i: int| 0 <= i < r.blocks@.len() && (#[trigger] r.blocks@[i]).free@.contains(a);
    if r.allocated_addresses().contains(a) {
        let j = choose|j: int|
            0 <= j < r.blocks@.len() && (#[trigger] r.blocks@[j]).allocated_contains(a);
        lemma_wf_block_addr_facts(r.blocks@[i]);
        lemma_wf_block_addr_facts(r.blocks@[j]);
        if i < j {
            assert(blocks_disjoint(r.blocks@[i].base, r.blocks@[j].base));
        } else if j < i {
            assert(blocks_disjoint(r.blocks@[j].base, r.blocks@[i].base));
        } else {
            let k1 = choose|k: int| 0 <= k < r.blocks@[i].free@.len() && r.blocks@[i].free@[k] == a;
            assert(r.blocks@[i].free@[k1] == carved_slot(
                r.blocks@[i].base as int,
                BLOCK_HEADER_SIZE as int,
                MEMORY_SLOT_SIZE as int,
                k1,
            ));
            let k2 = choose|k: int|
                r.blocks@[j].free@.len() <= k < slot_capacity() && a == carved_slot(
                    r.blocks@[j].base as int,
                    BLOCK_HEADER_SIZE as int,
                    MEMORY_SLOT_SIZE as int,
                    k,
                );
        }
    }
}

/// Law: after a teardown the registry holds no block, and a subsequent
/// acquisition behaves exactly as a first-ever call: no block is eligible
/// within any window, and no address is free or handed out.
pub proof fn lemma_empty_registry_fresh(r: BlockRegistry)
    requires
        r.blocks@.len() == 0,
    ensures
        r.wf(),
        r.free_addresses() =~= Set::<usize>::empty(),
        r.allocated_addresses() =~= Set::<usize>::empty(),
        forall|lo: int, hi: int| #[trigger] find_index(r.blocks@, lo, hi) is None,
{
    assert forall|lo: int, hi: int| #[trigger] find_index(r.blocks@, lo, hi) is None by {
        assert(find_index(r.blocks@, lo, hi) == Option::<int>::None);
    }
}

} // verus!
