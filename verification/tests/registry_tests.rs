use near_buffer::mapping::AddressSpaceInfo;
use near_buffer::registry::AllocateOutcome;
use near_buffer::registry::BlockRegistry;

fn wide_info() -> AddressSpaceInfo {
    AddressSpaceInfo {
        page_size: 4096,
        allocation_granularity: 0x10000,
        min_address: 0x10000,
        max_address: 0x7FFF_FFFF_FFFF,
    }
}

#[test]
fn block_serves_sixty_three_slots_then_misses() {
    let mut reg = BlockRegistry::new();
    let origin: usize = 0x2000_0000;
    let base: usize = 0x2001_0000;
    assert!(reg.can_install(base));
    let first = reg.install_block(base);
    let mut seen: Vec<usize> = vec![first.address];
    for _ in 0..62 {
        match reg.allocate_buffer(origin, &wide_info()) {
            AllocateOutcome::Allocated(s) => seen.push(s.address),
            AllocateOutcome::NeedBlock { .. } => panic!("the block still has free slots"),
        }
    }
    assert_eq!(seen.len(), 63);
    for i in 0..seen.len() {
        for j in 0..seen.len() {
            if i != j {
                assert_ne!(seen[i], seen[j]);
            }
        }
    }
    for &a in seen.iter() {
        assert_eq!(a % 64, 0);
        assert!(a >= base);
        assert!(a < base + 4096);
    }
    match reg.allocate_buffer(origin, &wide_info()) {
        AllocateOutcome::Allocated(_) => panic!("a drained block must not serve"),
        AllocateOutcome::NeedBlock { .. } => {},
    }
}

#[test]
fn addresses_stay_distinct_across_blocks() {
    let mut reg = BlockRegistry::new();
    let origin: usize = 0x2000_0000;
    let mut seen: Vec<usize> = Vec::new();
    seen.push(reg.install_block(0x2001_0000).address);
    seen.push(reg.install_block(0x2003_0000).address);
    for _ in 0..80 {
        match reg.allocate_buffer(origin, &wide_info()) {
            AllocateOutcome::Allocated(s) => seen.push(s.address),
            AllocateOutcome::NeedBlock { .. } => panic!("two blocks hold enough slots"),
        }
    }
    for i in 0..seen.len() {
        for j in 0..seen.len() {
            if i != j {
                assert_ne!(seen[i], seen[j]);
            }
        }
    }
}

#[test]
fn newest_block_is_scanned_first() {
    let mut reg = BlockRegistry::new();
    let origin: usize = 0x2000_0000;
    reg.install_block(0x2001_0000);
    reg.install_block(0x2003_0000);
    match reg.allocate_buffer(origin, &wide_info()) {
        AllocateOutcome::Allocated(s) => {
            assert!(s.address >= 0x2003_0000);
            assert!(s.address < 0x2003_0000 + 4096);
        },
        AllocateOutcome::NeedBlock { .. } => panic!("a block with free slots is registered"),
    }
}

#[test]
fn window_clips_to_reachability_radius() {
    let mut reg = BlockRegistry::new();
    let origin: usize = 0x7FF0_0000_0000;
    match reg.allocate_buffer(origin, &wide_info()) {
        AllocateOutcome::NeedBlock { min_addr, max_addr } => {
            assert_eq!(min_addr, origin - 0x4000_0000);
            assert_eq!(max_addr, origin + 0x4000_0000 - 4095);
        },
        AllocateOutcome::Allocated(_) => panic!("the registry is empty"),
    }
}

#[test]
fn window_keeps_address_space_limits_when_origin_is_low() {
    let mut reg = BlockRegistry::new();
    let origin: usize = 0x2000_0000;
    match reg.allocate_buffer(origin, &wide_info()) {
        AllocateOutcome::NeedBlock { min_addr, max_addr } => {
            assert_eq!(min_addr, 0x10000);
            assert_eq!(max_addr, origin + 0x4000_0000 - 4095);
        },
        AllocateOutcome::Allocated(_) => panic!("the registry is empty"),
    }
}

#[test]
fn block_outside_the_window_is_not_reused() {
    let mut reg = BlockRegistry::new();
    let origin: usize = 0x7FF0_0000_0000;
    let far_base: usize = 0x1000_0000;
    assert!(reg.can_install(far_base));
    reg.install_block(far_base);
    match reg.allocate_buffer(origin, &wide_info()) {
        AllocateOutcome::Allocated(_) => panic!("an unreachable block must not serve"),
        AllocateOutcome::NeedBlock { .. } => {},
    }
    let near_base: usize = origin - 0x10000;
    assert!(reg.can_install(near_base));
    reg.install_block(near_base);
    match reg.allocate_buffer(origin, &wide_info()) {
        AllocateOutcome::Allocated(s) => {
            assert!(s.address >= near_base);
            assert!(s.address < near_base + 4096);
        },
        AllocateOutcome::NeedBlock { .. } => panic!("a reachable block is registered"),
    }
}

#[test]
fn teardown_empties_registry_and_lists_bases_newest_first() {
    let mut reg = BlockRegistry::new();
    reg.install_block(0x2001_0000);
    reg.install_block(0x2003_0000);
    let released = reg.uninitialize_buffer();
    assert_eq!(released, vec![0x2003_0000, 0x2001_0000]);
}

#[test]
fn acquisition_after_teardown_matches_a_first_ever_call() {
    let origin: usize = 0x2000_0000;
    let mut reg = BlockRegistry::new();
    reg.install_block(0x2001_0000);
    reg.uninitialize_buffer();
    let after = reg.allocate_buffer(origin, &wide_info());
    let mut fresh = BlockRegistry::new();
    let first = fresh.allocate_buffer(origin, &wide_info());
    assert_eq!(after, first);
    match after {
        AllocateOutcome::NeedBlock { .. } => {},
        AllocateOutcome::Allocated(_) => panic!("an empty registry has nothing to hand out"),
    }
}

#[test]
fn install_rejects_overlap_and_misalignment() {
    let mut reg = BlockRegistry::new();
    reg.install_block(0x2001_0000);
    assert!(!reg.can_install(0x2001_0000));
    assert!(!reg.can_install(0x2001_0800));
    assert!(!reg.can_install(0x2001_0040 - 0x1000));
    assert!(!reg.can_install(0x2002_0020));
    assert!(reg.can_install(0x2001_1000));
}

#[test]
fn install_hands_out_the_highest_slot_of_the_new_block() {
    let mut reg = BlockRegistry::new();
    let base: usize = 0x2001_0000;
    let s = reg.install_block(base);
    assert_eq!(s.address, base + 64 + 62 * 64);
    assert_eq!(s.address, base + 4096 - 64);
}
