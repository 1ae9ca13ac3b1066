//! Outward search for a free region of the address space.
//!
//! The search walks candidate addresses one allocation-granularity unit at a
//! time, preceding the origin first and following it only afterwards.  Each
//! candidate needs one region query from the mapping service; the caller
//! performs the query and feeds the report into the step functions here,
//! which decide whether the candidate is free, where to jump next, or that
//! the search direction is exhausted.  A mapped region is skipped in one
//! step by jumping past its whole reservation rather than page by page.

use vstd::prelude::*;

use crate::mapping::RegionReport;
use crate::params::align_down;
use crate::params::align_up;
use crate::params::MEM_STATE_FREE;

verus! {

/// Outcome of examining one candidate address.
#[derive(Clone, Copy, Debug, PartialEq, Eq, Structural)]
pub enum SearchStep {
    /// The candidate's region is free: attempt the reservation exactly
    /// there, with no further probing of this candidate.
    Free(usize),
    /// The candidate is mapped: query this next candidate.
    Next(usize),
    /// The search direction is exhausted (bound reached or query failed).
    Exhausted,
}

/// What one preceding-search step decides, given the region report for the
/// candidate (`None` when the query itself failed).
pub open spec fn preceding_step_result(
    candidate: usize,
    min_addr: usize,
    granularity: usize,
    query: Option<RegionReport>,
) -> SearchStep {
    match query {
        Option::None => SearchStep::Exhausted,
        Option::Some(rep) => if rep.state == MEM_STATE_FREE {
            SearchStep::Free(candidate)
        } else if rep.allocation_base < granularity {
            SearchStep::Exhausted
        } else if rep.allocation_base - granularity >= min_addr {
            SearchStep::Next((rep.allocation_base - granularity) as usize)
        } else {
            SearchStep::Exhausted
        },
    }
}

/// What one following-search step decides, given the region report for the
/// candidate.
pub open spec fn following_step_result(
    candidate: usize,
    max_addr: usize,
    granularity: usize,
    query: Option<RegionReport>,
) -> SearchStep {
    match query {
        Option::None => SearchStep::Exhausted,
        Option::Some(rep) => if rep.state == MEM_STATE_FREE {
            SearchStep::Free(candidate)
        } else if align_up(rep.base + rep.size, granularity as int) <= max_addr {
            SearchStep::Next(align_up(rep.base + rep.size, granularity as int) as usize)
        } else {
            SearchStep::Exhausted
        },
    }
}

/// First candidate of a preceding search from `address`: the next
/// granularity boundary strictly below it, or `None` when that already
/// falls below `min_addr`.
pub fn preceding_search_start(address: usize, min_addr: usize, granularity: usize) -> (r: Option<
    usize,
>)
    requires
        granularity > 0,
    ensures
        (r matches Some(c) <==> align_down(address as int, granularity as int) - granularity
            >= min_addr),
        r matches Some(c) ==> c == align_down(address as int, granularity as int) - granularity,
{
    assert(address % granularity <= address) by (nonlinear_arith)
        requires
            granularity > 0,
    ;
    let aligned: usize = address - address % granularity;
    if aligned >= granularity {
        let c: usize = aligned - granularity;
        if c >= min_addr {
            Some(c)
        } else {
            None
        }
    } else {
        None
    }
}

/// Examines one preceding-search candidate.  The caller queried the region
/// containing `candidate` and passes the report (or `None` on query
/// failure).  A free region is returned at once; a mapped region is skipped
/// by stepping to one granularity unit below its reservation base; the
/// search ends at `min_addr` or on a failed query.
pub fn preceding_search_step(
    candidate: usize,
    min_addr: usize,
    granularity: usize,
    query: Option<RegionReport>,
) -> (r: SearchStep)
    requires
        granularity > 0,
        min_addr <= candidate,
    ensures
        r == preceding_step_result(candidate, min_addr, granularity, query),
        r matches SearchStep::Free(a) ==> min_addr <= a <= candidate && (query matches Some(rep)
            && rep.state == MEM_STATE_FREE),
        r matches SearchStep::Next(n) ==> min_addr <= n,
        r matches SearchStep::Next(n) ==> ((query matches Some(rep) && rep.allocation_base
            <= candidate) ==> n < candidate),
{
    match query {
        None => SearchStep::Exhausted,
        Some(rep) => {
            if rep.state == MEM_STATE_FREE {
                SearchStep::Free(candidate)
            } else if rep.allocation_base < granularity {
                SearchStep::Exhausted
            } else {
                let n: usize = rep.allocation_base - granularity;
                if n >= min_addr {
                    SearchStep::Next(n)
                } else {
                    SearchStep::Exhausted
                }
            }
        },
    }
}

/// First candidate of a following search from `address`: the next
/// granularity boundary strictly above it, or `None` when that already
/// exceeds `max_addr`.
pub fn following_search_start(address: usize, max_addr: usize, granularity: usize) -> (r: Option<
    usize,
>)
    requires
        granularity > 0,
    ensures
        (r matches Some(c) <==> align_down(address as int, granularity as int) + granularity
            <= max_addr),
        r matches Some(c) ==> c == align_down(address as int, granularity as int) + granularity,
{
    assert(address % granularity <= address) by (nonlinear_arith)
        requires
            granularity > 0,
    ;
    let aligned: usize = address - address % granularity;
    if granularity <= usize::MAX - aligned {
        let c: usize = aligned + granularity;
        if c <= max_addr {
            Some(c)
        } else {
            None
        }
    } else {
        None
    }
}

/// Examines one following-search candidate.  A free region is returned at
/// once; a mapped region is skipped by stepping to the first granularity
/// boundary at or past its end; the search ends at `max_addr` or on a
/// failed query.
pub fn following_search_step(
    candidate: usize,
    max_addr: usize,
    granularity: usize,
    query: Option<RegionReport>,
) -> (r: SearchStep)
    requires
        granularity > 0,
        candidate <= max_addr,
    ensures
        r == following_step_result(candidate, max_addr, granularity, query),
        r matches SearchStep::Free(a) ==> candidate <= a <= max_addr && (query matches Some(rep)
            && rep.state == MEM_STATE_FREE),
        r matches SearchStep::Next(n) ==> n <= max_addr,
        r matches SearchStep::Next(n) ==> ((query matches Some(rep) && rep.base + rep.size
            > candidate) ==> n > candidate),
{
    match query {
        None => SearchStep::Exhausted,
        Some(rep) => {
            if rep.state == MEM_STATE_FREE {
                SearchStep::Free(candidate)
            } else {
                match rep.base.checked_add(rep.size) {
                    None => SearchStep::Exhausted,
                    Some(end) => {
                        let rem: usize = end % granularity;
                        if rem == 0 {
                            if end <= max_addr {
                                SearchStep::Next(end)
                            } else {
                                SearchStep::Exhausted
                            }
                        } else if granularity - rem <= usize::MAX - end {
                            let n: usize = end + (granularity - rem);
                            if n <= max_addr {
                                SearchStep::Next(n)
                            } else {
                                SearchStep::Exhausted
                            }
                        } else {
                            SearchStep::Exhausted
                        }
                    },
                }
            }
        },
    }
}

} // verus!
