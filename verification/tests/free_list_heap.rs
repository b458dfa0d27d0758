use flight_controller::free_list::LinkedListAllocator;
use flight_controller::sync::Mutex;

#[test]
fn allocation_before_registration_fails() {
    let mut heap = LinkedListAllocator::new(0x1000, 0x2000);
    assert_eq!(heap.allocate(16, 8), None);
    assert_eq!(heap.allocate(1, 1), None);
    assert_eq!(heap.used_mem(), 0);
    assert_eq!(heap.free_regions(), 0);
}

#[test]
fn exact_fit_succeeds_exactly_once() {
    // Register 256 bytes and ask for all of them at once: the request
    // succeeds, hands back the start of the range, and exhausts the heap.
    let mut heap = LinkedListAllocator::new(0x1000, 0x1100);
    heap.add_free_region(0x1000, 0x100);
    assert_eq!(heap.free_regions(), 1);
    assert_eq!(heap.allocate(0x100, 8), Some(0x1000));
    assert_eq!(heap.used_mem(), 0x100);
    assert_eq!(heap.free_regions(), 0);
    assert_eq!(heap.allocate(8, 8), None);
    assert_eq!(heap.allocate(1, 1), None);
}

#[test]
fn first_fit_splits_and_reinserts_slack() {
    let mut heap = LinkedListAllocator::new(0x1000, 0x10A0);
    heap.add_free_region(0x1000, 0xA0);
    // 16 of 160 bytes: the 144-byte tail slack becomes the new list head.
    assert_eq!(heap.allocate(16, 8), Some(0x1000));
    assert_eq!(heap.free_regions(), 1);
    assert_eq!(heap.allocate(16, 8), Some(0x1010));
    assert_eq!(heap.used_mem(), 32);
}

#[test]
fn small_requests_are_padded_to_a_node() {
    // A 1-byte request with alignment 1 still carves a full node-sized
    // block: freed memory must be able to host a node header again.
    let mut heap = LinkedListAllocator::new(0x1000, 0x1100);
    heap.add_free_region(0x1000, 0x100);
    assert_eq!(heap.allocate(1, 1), Some(0x1000));
    assert_eq!(heap.used_mem(), 16);
    assert_eq!(heap.allocate(1, 1), Some(0x1010));
    assert_eq!(heap.used_mem(), 32);
}

#[test]
fn slack_too_small_for_a_node_rejects_the_block() {
    // 24 registered bytes: a 16-byte allocation would leave 8 bytes of
    // slack, too small to host a node, so the block is rejected and the
    // heap reports out-of-memory; asking for all 24 bytes succeeds.
    let mut heap = LinkedListAllocator::new(0x1000, 0x1018);
    heap.add_free_region(0x1000, 24);
    assert_eq!(heap.allocate(16, 8), None);
    assert_eq!(heap.allocate(24, 8), Some(0x1000));
    assert_eq!(heap.allocate(1, 1), None);
}

#[test]
fn adjacent_free_regions_stay_separate() {
    // Two physically adjacent registrations remain two list entries: the
    // heap never coalesces, so a request spanning both fails even though
    // the total free space would hold it.
    let mut heap = LinkedListAllocator::new(0x1000, 0x1040);
    heap.add_free_region(0x1000, 32);
    heap.add_free_region(0x1020, 32);
    assert_eq!(heap.free_regions(), 2);
    assert_eq!(heap.allocate(64, 8), None);
    assert_eq!(heap.allocate(32, 8), Some(0x1020));
    assert_eq!(heap.allocate(32, 8), Some(0x1000));
}

#[test]
fn freed_blocks_come_back_head_first() {
    // Round trip: free the block just returned, repeat the request, and
    // the same address comes back.  Nothing of what was written into the
    // block while it was live may be assumed to survive: the freed bytes
    // host the allocator's own node header before they are handed out
    // again.
    let mut heap = LinkedListAllocator::new(0x1000, 0x1100);
    heap.add_free_region(0x1000, 0x100);
    let a = heap.allocate(40, 8).unwrap();
    assert_eq!(a, 0x1000);
    heap.deallocate(a, 40, 8);
    assert_eq!(heap.used_mem(), 0);
    assert_eq!(heap.allocate(40, 8), Some(a));
}

#[test]
fn deallocation_makes_memory_reusable() {
    let mut heap = LinkedListAllocator::new(0x1000, 0x1020);
    heap.add_free_region(0x1000, 32);
    let a = heap.allocate(32, 8).unwrap();
    assert_eq!(heap.allocate(16, 8), None);
    heap.deallocate(a, 32, 8);
    assert_eq!(heap.allocate(16, 8), Some(0x1000));
}

#[test]
fn over_aligned_allocation_honors_alignment() {
    let mut heap = LinkedListAllocator::new(0x1008, 0x1108);
    heap.add_free_region(0x1008, 0x100);
    let a = heap.allocate(16, 64).unwrap();
    assert_eq!(a % 64, 0);
    assert_eq!(a, 0x1040);
}

#[test]
fn oversized_requests_fail_without_harm() {
    let mut heap = LinkedListAllocator::new(0x1000, 0x1100);
    heap.add_free_region(0x1000, 0x100);
    assert_eq!(heap.allocate(usize::MAX, 8), None);
    assert_eq!(heap.allocate(usize::MAX - 7, 8), None);
    assert_eq!(heap.allocate(0x100, 8), Some(0x1000));
}

#[test]
fn guarded_heap_interface_allocates_and_frees() {
    let mut heap = LinkedListAllocator::new(0x1000, 0x1100);
    heap.add_free_region(0x1000, 0x100);
    let mut shared = Mutex::new(heap);
    let a = shared.allocate(48, 8).unwrap();
    assert_eq!(a, 0x1000);
    shared.deallocate(a, 48, 8);
    assert_eq!(shared.allocate(48, 8), Some(a));
}
