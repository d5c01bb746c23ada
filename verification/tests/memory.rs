use cpu_load_simulator::memory::{
    AllocationPlan, MemoryAdjustment, MemoryPool, MIB, LARGE_BLOCK_MB, MEDIUM_BLOCK_MB,
    SMALL_BLOCK_MB,
};

#[test]
fn new_pool_is_empty() {
    let pool = MemoryPool::new(16_000);
    assert_eq!(pool.current_mb(), 0);
    assert_eq!(pool.block_count(), 0);
    assert_eq!(pool.system_total_memory(), 16_000);
}

#[test]
fn usable_memory_keeps_the_reserve() {
    let pool = MemoryPool::new(16_000);
    assert_eq!(pool.usable_mb(20_000), 14_976);
    assert_eq!(pool.usable_mb(1_000), 1_000);
    assert_eq!(pool.usable_mb(0), 0);
    let small = MemoryPool::new(500);
    assert_eq!(small.usable_mb(300), 0);
}

#[test]
fn block_size_follows_the_shortfall() {
    let pool = MemoryPool::new(16_000);
    assert_eq!(pool.calculate_block_size(0), SMALL_BLOCK_MB);
    assert_eq!(pool.calculate_block_size(255), 64);
    assert_eq!(pool.calculate_block_size(256), MEDIUM_BLOCK_MB);
    assert_eq!(pool.calculate_block_size(1023), 128);
    assert_eq!(pool.calculate_block_size(1024), LARGE_BLOCK_MB);
}

#[test]
fn plans_round_the_block_count_up() {
    let pool = MemoryPool::new(16_000);
    assert_eq!(pool.plan_allocation(100, 0), AllocationPlan { block_size_mb: 64, blocks_needed: 2 });
    assert_eq!(pool.plan_allocation(128, 0), AllocationPlan { block_size_mb: 64, blocks_needed: 2 });
    assert_eq!(pool.plan_allocation(1000, 0), AllocationPlan { block_size_mb: 128, blocks_needed: 8 });
    assert_eq!(pool.plan_allocation(5000, 100), AllocationPlan { block_size_mb: 256, blocks_needed: 20 });
    assert_eq!(pool.plan_allocation(10, 10), AllocationPlan { block_size_mb: 64, blocks_needed: 0 });
}

#[test]
fn new_block_bytes() {
    let pool = MemoryPool::new(16_000);
    let block = pool.create_memory_block(2);
    assert_eq!(block.len(), 2 * MIB);
    assert_eq!(block[0], 1);
    assert_eq!(block[254], 255);
    assert_eq!(block[255], 0);
    assert_eq!(block[999], ((999 % 256 + 1) % 256) as u8);
    assert_eq!(block[1000], (1000 % 256) as u8);
    assert_eq!(block[MIB - 1], 255);
    assert_eq!(block[MIB], 1);
    assert_eq!(block[MIB + 1000], (1000 % 256) as u8);
    assert!(pool.create_memory_block(0).is_empty());
}

#[test]
fn allocation_steps_add_blocks_and_say_when_to_report() {
    let mut pool = MemoryPool::new(16_000);
    let plan = pool.plan_allocation(64, 0);
    assert_eq!(plan, AllocationPlan { block_size_mb: 64, blocks_needed: 1 });
    assert!(pool.fits_block(plan.block_size_mb));
    let notice = pool.allocation_step(plan, 0);
    assert!(notice.report_progress);
    assert!(!notice.pause_after);
    assert_eq!(pool.current_mb(), 64);
    assert_eq!(pool.block_count(), 1);
    assert_eq!(pool.block_len(0), 64 * MIB);
}

#[test]
fn batch_notices() {
    let mut pool = MemoryPool::new(16_000);
    let plan = AllocationPlan { block_size_mb: 0, blocks_needed: 12 };
    let n3 = pool.allocation_step(plan, 3);
    assert!(!n3.report_progress && !n3.pause_after);
    let n5 = pool.allocation_step(plan, 5);
    assert!(n5.report_progress && !n5.pause_after);
    let n9 = pool.allocation_step(plan, 9);
    assert!(!n9.report_progress && n9.pause_after);
    let n11 = pool.allocation_step(plan, 11);
    assert!(n11.report_progress && !n11.pause_after);
}

#[test]
fn adjustment_compares_target_with_held_memory() {
    let mut pool = MemoryPool::new(16_000);
    assert_eq!(pool.adjustment_for(0), MemoryAdjustment::Keep);
    assert_eq!(
        pool.adjustment_for(100),
        MemoryAdjustment::Allocate(AllocationPlan { block_size_mb: 64, blocks_needed: 2 })
    );
    pool.allocation_step(AllocationPlan { block_size_mb: 1, blocks_needed: 3 }, 0);
    pool.allocation_step(AllocationPlan { block_size_mb: 2, blocks_needed: 3 }, 1);
    assert_eq!(pool.current_mb(), 3);
    assert_eq!(pool.adjustment_for(2), MemoryAdjustment::Release);
    assert_eq!(pool.adjustment_for(3), MemoryAdjustment::Keep);
}

#[test]
fn release_drops_last_blocks_down_to_target() {
    let mut pool = MemoryPool::new(16_000);
    let plan = AllocationPlan { block_size_mb: 1, blocks_needed: 4 };
    for i in 0..4 {
        pool.allocation_step(plan, i);
    }
    assert_eq!(pool.current_mb(), 4);
    pool.release_memory_to_target(2);
    assert_eq!(pool.current_mb(), 2);
    assert_eq!(pool.block_count(), 2);
    pool.release_memory_to_target(5);
    assert_eq!(pool.current_mb(), 2);
    pool.release_memory_to_target(0);
    assert_eq!(pool.current_mb(), 0);
    assert_eq!(pool.block_count(), 0);
}

#[test]
fn release_stops_at_first_fit() {
    let mut pool = MemoryPool::new(16_000);
    pool.allocation_step(AllocationPlan { block_size_mb: 3, blocks_needed: 2 }, 0);
    pool.allocation_step(AllocationPlan { block_size_mb: 2, blocks_needed: 2 }, 1);
    // 5 MiB held; a target of 4 drops the last block of 2 MiB
    pool.release_memory_to_target(4);
    assert_eq!(pool.current_mb(), 3);
    assert_eq!(pool.block_count(), 1);
}

#[test]
fn touching_raises_first_bytes_and_keeps_sizes() {
    let mut pool = MemoryPool::new(16_000);
    pool.allocation_step(AllocationPlan { block_size_mb: 1, blocks_needed: 2 }, 0);
    pool.allocation_step(AllocationPlan { block_size_mb: 0, blocks_needed: 2 }, 1);
    assert_eq!(pool.block_byte_at(0, 0), 1);
    pool.touch_blocks();
    assert_eq!(pool.block_byte_at(0, 0), 2);
    assert_eq!(pool.block_byte_at(0, 1), 2);
    assert_eq!(pool.block_len(1), 0);
    assert_eq!(pool.current_mb(), 1);
    for _ in 0..254 {
        pool.touch_blocks();
    }
    assert_eq!(pool.block_byte_at(0, 0), 0);
}

#[test]
fn planned_blocks_reach_the_target_within_one_block() {
    let pool = MemoryPool::new(16_000);
    for (target, current) in [(1000usize, 300usize), (5000, 0), (100, 99), (2000, 1000)] {
        let plan = pool.plan_allocation(target, current);
        let reached = current + plan.blocks_needed * plan.block_size_mb;
        assert!(reached >= target);
        assert!(reached < target + plan.block_size_mb);
    }
}

#[test]
fn release_after_overshoot_keeps_one_block() {
    let mut pool = MemoryPool::new(16_000);
    let plan = pool.plan_allocation(100, 0);
    assert_eq!(plan, AllocationPlan { block_size_mb: 64, blocks_needed: 2 });
    for i in 0..plan.blocks_needed {
        pool.allocation_step(plan, i);
    }
    assert_eq!(pool.current_mb(), 128);
    pool.release_memory_to_target(100);
    assert_eq!(pool.block_count(), 1);
    assert_eq!(pool.current_mb(), 64);
}
