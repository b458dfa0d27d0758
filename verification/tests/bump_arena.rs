use flight_controller::bump::BumpAllocator;
use flight_controller::layout::checked_align_up;
use flight_controller::sync::Mutex;

#[test]
fn fresh_arena_uses_the_reserved_range() {
    let arena = BumpAllocator::new();
    assert_eq!(arena.low(), 0x3F80_0000);
    assert_eq!(arena.high(), 0x3FBF_FFFF);
    assert_eq!(arena.current(), 0x3F80_0000);
    assert_eq!(arena.used_mem(), 0);
}

#[test]
fn cursor_advances_by_aligned_sizes() {
    // The cursor after successful allocations is the start of the range
    // plus the aligned sizes: padding up to each alignment, then the size.
    let mut arena = BumpAllocator::with_range(0, 1000);
    assert_eq!(arena.allocate(10, 1), Some(0));
    assert_eq!(arena.current(), 10);
    assert_eq!(arena.allocate(10, 4), Some(12));
    assert_eq!(arena.current(), 22);
    assert_eq!(arena.allocate(8, 8), Some(24));
    assert_eq!(arena.current(), 32);
    assert_eq!(arena.used_mem(), 28);
}

#[test]
fn cursor_never_rewinds_while_allocations_live() {
    let mut arena = BumpAllocator::with_range(0, 100);
    arena.allocate(30, 1).unwrap();
    arena.allocate(20, 1).unwrap();
    let before = arena.current();
    arena.deallocate(30);
    assert_eq!(arena.current(), before);
    assert_eq!(arena.used_mem(), 20);
    arena.allocate(10, 1).unwrap();
    assert!(arena.current() >= before);
}

#[test]
fn full_drain_resets_the_arena() {
    // Once the live count returns to zero the cursor goes back to the
    // start: an oversized request still fails, a fitting one succeeds.
    let mut arena = BumpAllocator::with_range(0, 100);
    assert_eq!(arena.allocate(100, 1), Some(0));
    assert_eq!(arena.allocate(1, 1), None);
    arena.deallocate(100);
    assert_eq!(arena.used_mem(), 0);
    assert_eq!(arena.current(), 0);
    assert_eq!(arena.allocate(101, 1), None);
    assert_eq!(arena.allocate(50, 1), Some(0));
}

#[test]
fn failed_allocation_changes_nothing() {
    let mut arena = BumpAllocator::with_range(0, 64);
    arena.allocate(60, 1).unwrap();
    assert_eq!(arena.allocate(8, 1), None);
    assert_eq!(arena.current(), 60);
    assert_eq!(arena.used_mem(), 60);
}

#[test]
fn align_rounds_up_to_the_next_multiple() {
    assert_eq!(BumpAllocator::align(10, 4), 12);
    assert_eq!(BumpAllocator::align(16, 8), 16);
    assert_eq!(BumpAllocator::align(0, 64), 0);
    assert_eq!(BumpAllocator::align(65, 64), 128);
    assert_eq!(BumpAllocator::align(7, 1), 7);
}

#[test]
fn checked_alignment_reports_overflow() {
    assert_eq!(checked_align_up(24, 8), Some(24));
    assert_eq!(checked_align_up(25, 8), Some(32));
    assert_eq!(checked_align_up(usize::MAX - 2, 8), None);
    assert_eq!(checked_align_up(usize::MAX, 1), Some(usize::MAX));
}

#[test]
fn guarded_arena_interface_allocates_and_frees() {
    let mut shared = Mutex::new(BumpAllocator::with_range(0, 256));
    let a = shared.allocate(64, 16).unwrap();
    assert_eq!(a, 0);
    let b = shared.allocate(32, 32).unwrap();
    assert_eq!(b, 64);
    shared.deallocate(64);
    shared.deallocate(32);
    // fully drained: the arena is reusable from its start
    assert_eq!(shared.allocate(128, 1), Some(0));
}
