use near_buffer::locator::following_search_start;
use near_buffer::locator::following_search_step;
use near_buffer::locator::preceding_search_start;
use near_buffer::locator::preceding_search_step;
use near_buffer::locator::SearchStep;
use near_buffer::mapping::RegionReport;

const FREE: u32 = 0x10000;
const COMMIT: u32 = 0x1000;
const GRANULARITY: usize = 0x10000;

struct MappedRegion {
    alloc_base: usize,
    size: usize,
}

/// Answers a region query over a simulated layout: an address inside a
/// mapped reservation reports that reservation as committed; any other
/// address reports a free region.
fn query(layout: &[MappedRegion], addr: usize) -> Option<RegionReport> {
    for r in layout.iter() {
        if addr >= r.alloc_base && addr < r.alloc_base + r.size {
            return Some(RegionReport {
                base: addr - addr % 4096,
                allocation_base: r.alloc_base,
                size: r.alloc_base + r.size - (addr - addr % 4096),
                state: COMMIT,
                protect: 0x04,
            });
        }
    }
    Some(RegionReport {
        base: addr - addr % 4096,
        allocation_base: 0,
        size: 4096,
        state: FREE,
        protect: 0,
    })
}

#[test]
fn free_candidate_is_returned_at_once() {
    let rep = RegionReport {
        base: 0x30000,
        allocation_base: 0,
        size: 0x10000,
        state: FREE,
        protect: 0,
    };
    let step = preceding_search_step(0x30000, 0x10000, GRANULARITY, Some(rep));
    assert_eq!(step, SearchStep::Free(0x30000));
    let step = following_search_step(0x30000, 0x90000, GRANULARITY, Some(rep));
    assert_eq!(step, SearchStep::Free(0x30000));
}

#[test]
fn query_failure_ends_the_search() {
    assert_eq!(preceding_search_step(0x30000, 0x10000, GRANULARITY, None), SearchStep::Exhausted);
    assert_eq!(following_search_step(0x30000, 0x90000, GRANULARITY, None), SearchStep::Exhausted);
}

#[test]
fn mapped_candidate_skips_whole_reservation_backward() {
    let rep = RegionReport {
        base: 0x52000,
        allocation_base: 0x50000,
        size: 0x1000,
        state: COMMIT,
        protect: 0x04,
    };
    let step = preceding_search_step(0x52000, 0x10000, GRANULARITY, Some(rep));
    assert_eq!(step, SearchStep::Next(0x40000));
}

#[test]
fn mapped_candidate_skips_forward_past_region_end() {
    let rep = RegionReport {
        base: 0x50000,
        allocation_base: 0x50000,
        size: 0x18000,
        state: COMMIT,
        protect: 0x04,
    };
    let step = following_search_step(0x50000, 0x100000, GRANULARITY, Some(rep));
    assert_eq!(step, SearchStep::Next(0x70000));
}

#[test]
fn preceding_start_steps_below_the_origin() {
    assert_eq!(preceding_search_start(0x25000, 0x10000, GRANULARITY), Some(0x10000));
    assert_eq!(preceding_search_start(0x15000, 0x10000, GRANULARITY), None);
    assert_eq!(preceding_search_start(0x5000, 0x1000, GRANULARITY), None);
}

#[test]
fn following_start_steps_above_the_origin() {
    assert_eq!(following_search_start(0x15000, 0x30000, GRANULARITY), Some(0x20000));
    assert_eq!(following_search_start(0x25000, 0x30000, GRANULARITY), Some(0x30000));
    assert_eq!(following_search_start(0x2FFFF, 0x2FFFF, GRANULARITY), None);
}

#[test]
fn preceding_search_finds_a_free_region_within_bounds() {
    let layout = [MappedRegion { alloc_base: 0x80000, size: 0x30000 }];
    let min_addr: usize = 0x10000;
    let start: usize = 0xB4000;
    let mut cand: usize = preceding_search_start(start, min_addr, GRANULARITY).unwrap();
    let mut found: Option<usize> = None;
    let mut steps: usize = 0;
    loop {
        steps += 1;
        assert!(steps < 100, "the search must make progress");
        match preceding_search_step(cand, min_addr, GRANULARITY, query(&layout, cand)) {
            SearchStep::Free(a) => {
                found = Some(a);
                break;
            },
            SearchStep::Next(n) => {
                assert!(n >= min_addr);
                assert!(n < cand);
                cand = n;
            },
            SearchStep::Exhausted => break,
        }
    }
    let a = found.unwrap();
    assert!(a >= min_addr);
    assert!(a < start);
    assert_eq!(query(&layout, a).unwrap().state, FREE);
    assert_eq!(a, 0x70000);
}

#[test]
fn following_search_finds_a_free_region_within_bounds() {
    let layout = [MappedRegion { alloc_base: 0x80000, size: 0x30000 }];
    let max_addr: usize = 0x200000;
    let start: usize = 0x84000;
    let mut cand: usize = following_search_start(start, max_addr, GRANULARITY).unwrap();
    let mut found: Option<usize> = None;
    let mut steps: usize = 0;
    loop {
        steps += 1;
        assert!(steps < 100, "the search must make progress");
        match following_search_step(cand, max_addr, GRANULARITY, query(&layout, cand)) {
            SearchStep::Free(a) => {
                found = Some(a);
                break;
            },
            SearchStep::Next(n) => {
                assert!(n <= max_addr);
                assert!(n > cand);
                cand = n;
            },
            SearchStep::Exhausted => break,
        }
    }
    let a = found.unwrap();
    assert!(a > start);
    assert!(a <= max_addr);
    assert_eq!(query(&layout, a).unwrap().state, FREE);
    assert_eq!(a, 0xB0000);
}

#[test]
fn preceding_search_exhausts_when_everything_below_is_mapped() {
    let layout = [MappedRegion { alloc_base: 0x0, size: 0x90000 }];
    let min_addr: usize = 0x10000;
    let mut cand: usize = preceding_search_start(0x84000, min_addr, GRANULARITY).unwrap();
    let mut steps: usize = 0;
    loop {
        steps += 1;
        assert!(steps < 100, "the search must make progress");
        match preceding_search_step(cand, min_addr, GRANULARITY, query(&layout, cand)) {
            SearchStep::Free(_) => panic!("everything below the start is mapped"),
            SearchStep::Next(n) => cand = n,
            SearchStep::Exhausted => break,
        }
    }
}
