//! Deciding whether an address holds live, executable memory.

use vstd::prelude::*;

use crate::mapping::RegionReport;
use crate::params::MEM_STATE_COMMIT;
use crate::params::PAGE_EXECUTE_FLAGS;

verus! {

/// True exactly when the region report for an address shows memory that is
/// committed with an execute-capable protection.  `None` stands for a failed
/// region query, which is never executable.
///
/// Callers query the mapping service for the region containing the address
/// of interest and pass the answer here.
pub fn is_executable_address(query: Option<RegionReport>) -> (r: bool)
    ensures
        r <==> (query matches Some(rep) && rep.state == MEM_STATE_COMMIT && rep.protect
            & PAGE_EXECUTE_FLAGS != 0),
{
    match query {
        Some(rep) => rep.state == MEM_STATE_COMMIT && rep.protect & PAGE_EXECUTE_FLAGS != 0,
        None => false,
    }
}

} // verus!
