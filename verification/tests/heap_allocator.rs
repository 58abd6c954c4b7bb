use heineos::allocator::list::{align_up, FreeBlock, HeapStats, LinkedListAllocator};

fn stats(a: &LinkedListAllocator) -> (usize, usize, usize, usize, usize) {
    let HeapStats { total, free, used, free_blocks, largest_free_block } = a.stats();
    (total, free, used, free_blocks, largest_free_block)
}

#[test]
fn empty_allocator_has_no_memory() {
    let mut a = LinkedListAllocator::new();
    assert_eq!(stats(&a), (0, 0, 0, 0, 0));
    assert_eq!(a.allocate(8, 8), 0);
}

#[test]
fn fresh_heap_is_one_free_block() {
    let mut a = LinkedListAllocator::new();
    a.init(0x1000, 0x1000);
    assert_eq!(stats(&a), (4096, 4096, 0, 1, 4096));
}

#[test]
fn allocation_sizes_are_adjusted() {
    assert_eq!(LinkedListAllocator::size_align(100, 8), (104, 8));
    assert_eq!(LinkedListAllocator::size_align(1, 1), (16, 8));
    assert_eq!(LinkedListAllocator::size_align(8, 64), (64, 64));
    assert_eq!(align_up(13, 8), Some(16));
    assert_eq!(align_up(16, 8), Some(16));
    assert_eq!(align_up(usize::MAX, 8), None);
}

#[test]
fn allocate_and_free_round_trip() {
    let mut a = LinkedListAllocator::new();
    a.init(0x1000, 0x1000);
    let p = a.allocate(100, 8);
    assert_eq!(p, 0x1000);
    assert_eq!(stats(&a), (4096, 4096 - 104, 104, 1, 4096 - 104));
    let q = a.allocate(8, 64);
    assert_eq!(q % 64, 0);
    assert!(q >= p + 104);
    a.deallocate(p, 100, 8);
    let (total, free, used, _, _) = stats(&a);
    assert_eq!(total, free + used);
    assert!(free >= 4096 - 104 - 64 - 63 + 104);
}

#[test]
fn oversized_request_fails_without_change() {
    let mut a = LinkedListAllocator::new();
    a.init(0x1000, 0x100);
    let before = stats(&a);
    assert_eq!(a.allocate(0x200, 8), 0);
    assert_eq!(stats(&a), before);
}

#[test]
fn freed_neighbours_merge() {
    let mut a = LinkedListAllocator::new();
    a.init(0x1000, 0x1000);
    let p = a.allocate(64, 8);
    let q = a.allocate(64, 8);
    let r = a.allocate(64, 8);
    assert_eq!((p, q, r), (0x1000, 0x1040, 0x1080));
    a.deallocate(p, 64, 8);
    a.deallocate(r, 64, 8);
    assert_eq!(stats(&a).3, 2);
    a.deallocate(q, 64, 8);
    assert_eq!(stats(&a), (4096, 4096, 0, 1, 4096));
}

#[test]
fn free_list_dump_lists_blocks_in_order() {
    let mut a = LinkedListAllocator::new();
    a.init(0x1000, 0x1000);
    let p = a.allocate(64, 8);
    let _q = a.allocate(64, 8);
    a.deallocate(p, 64, 8);
    assert_eq!(
        a.dump_free_list(),
        vec![FreeBlock { start: 0x1000, size: 64 }, FreeBlock { start: 0x1080, size: 0x1000 - 0x80 }]
    );
}

#[test]
fn freeing_the_last_allocation_restores_the_heap() {
    let mut a = LinkedListAllocator::new();
    a.init(0x1000, 0x1000);
    let first = a.allocate(40, 8);
    let _second = a.allocate(24, 4);
    a.deallocate(first, 40, 8);
    let before = stats(&a);
    let blocks = a.dump_free_list();
    let p = a.allocate(32, 8);
    assert_ne!(p, 0);
    a.deallocate(p, 32, 8);
    assert_eq!(stats(&a), before);
    assert_eq!(a.dump_free_list(), blocks);
}

#[test]
fn returned_blocks_change_the_block_count_by_one_at_most() {
    let mut a = LinkedListAllocator::new();
    a.init(0x1000, 0x100);
    let p = a.allocate(16, 8);
    let q = a.allocate(16, 8);
    let r = a.allocate(16, 8);
    assert_eq!((p, q, r), (0x1000, 0x1010, 0x1020));
    assert_eq!(stats(&a).3, 1);
    a.add_free_block(p, 16);
    assert_eq!(stats(&a).3, 2);
    a.add_free_block(r, 16);
    assert_eq!(stats(&a).3, 2);
    a.add_free_block(q, 16);
    assert_eq!(stats(&a).3, 1);
    assert_eq!(stats(&a).1, 0x100);
}
