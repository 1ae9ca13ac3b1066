//! Plain-value mirrors of what the memory-mapping service reports.
//!
//! The allocator never calls the operating system itself.  Callers query the
//! mapping service and hand the answers in through these types; the
//! allocator's contracts then speak of the reported values alone.

use vstd::prelude::*;

verus! {

/// A per-search snapshot of the address space's fixed parameters, as
/// reported by the mapping service.  It is fetched anew for every search and
/// never cached.
#[derive(Clone, Copy, Debug)]
pub struct AddressSpaceInfo {
    /// Size in bytes of one native page.
    pub page_size: usize,
    /// Granularity at which reservations may be anchored.
    pub allocation_granularity: usize,
    /// Lowest address usable by the process.
    pub min_address: usize,
    /// Highest address usable by the process.
    pub max_address: usize,
}

/// What the mapping service reports for the region containing one queried
/// address.
#[derive(Clone, Copy, Debug, PartialEq, Eq, Structural)]
pub struct RegionReport {
    /// Base of the page-aligned region the queried address falls in.
    pub base: usize,
    /// Base of the whole reservation that region belongs to.
    pub allocation_base: usize,
    /// Size in bytes of the region.
    pub size: usize,
    /// State code of the region (free, reserved or committed).
    pub state: u32,
    /// Protection flags of the region.
    pub protect: u32,
}

} // verus!
