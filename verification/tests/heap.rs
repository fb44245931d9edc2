use rustcode::kernel::malloc::heap::{BuddyHeap, HEAP_START};
use rustcode::kernel::malloc::order::{block_size, rust_usable_size, to_order};
use rustcode::kernel64::malloc::{
    BumpHeap, HEAP_END, rust_reallocate_inplace, rust_usable_size as bump_usable_size,
};

#[test]
fn buddy_first_allocations_come_from_the_bottom() {
    let mut heap = BuddyHeap::new();
    assert_eq!(heap.rust_allocate(16, 1), 0xC000_0000);
    assert_eq!(heap.rust_allocate(16, 1), 0xC000_0020);
    assert_eq!(heap.rust_allocate(16, 1), 0xC000_0040);
    assert_eq!(HEAP_START, 0xC000_0000);
}

#[test]
fn buddy_aligned_allocation() {
    let mut heap = BuddyHeap::new();
    assert_eq!(heap.rust_allocate(16, 1), 0xC000_0000);
    let p = heap.rust_allocate(16, 4096);
    assert_eq!(p, 0xC000_1000);
    assert_eq!(p % 4096, 0);
}

#[test]
fn buddy_malloc_and_must_allocate() {
    let mut heap = BuddyHeap::new();
    assert_eq!(heap.malloc(16), 0xC000_0000);
    assert_eq!(heap.must_allocate(16, 1), 0xC000_0020);
}

#[test]
fn buddy_free_then_allocate_again() {
    let mut heap = BuddyHeap::new();
    let a = heap.rust_allocate(100, 1);
    assert_eq!(a, 0xC000_0000);
    heap.free(a);
    assert_eq!(heap.rust_allocate(100, 1), 0xC000_0000);
}

#[test]
fn buddy_free_merges_back_to_largest_blocks() {
    let mut heap = BuddyHeap::new();
    let a = heap.rust_allocate(16, 1);
    let b = heap.rust_allocate(16, 1);
    heap.free(a);
    heap.rust_deallocate(b, 16, 1);
    // Only whole halves of the heap serve these requests: the merges put them back.
    assert_eq!(heap.rust_allocate(0x7FF_FFFF, 1), 0xC000_0000);
    assert_eq!(heap.rust_allocate(0x7FF_FFFF, 1), 0xC800_0000);
    assert_eq!(heap.rust_allocate(0x7FF_FFFF, 1), 0);
    assert_eq!(heap.rust_allocate(16, 1), 0);
}

#[test]
fn buddy_request_too_large() {
    let mut heap = BuddyHeap::new();
    assert_eq!(heap.rust_allocate(0x7FFF_FFFF, 1), 0);
    assert_eq!(heap.rust_allocate(16, 1), 0xC000_0000);
}

#[test]
fn buddy_realloc_grows_into_a_new_block() {
    let mut heap = BuddyHeap::new();
    let a = heap.rust_allocate(16, 1);
    let (p, copy) = heap.realloc(a, 100);
    assert_eq!(p, 0xC000_0080);
    assert_eq!(copy, 31);
    // The old block was freed and merged with its free neighbours.
    assert_eq!(heap.rust_allocate(16, 1), 0xC000_0000);
}

#[test]
fn buddy_realloc_shrinks_in_place() {
    let mut heap = BuddyHeap::new();
    let a = heap.rust_allocate(100, 1);
    assert_eq!(heap.realloc(a, 10), (a, 0));
    assert_eq!(heap.rust_reallocate(a, 100, 120, 1), (a, 0));
}

#[test]
fn buddy_reallocate_without_memory() {
    let mut heap = BuddyHeap::new();
    let a = heap.rust_allocate(0x7FF_FFFF, 1);
    let b = heap.rust_allocate(16, 1);
    assert_eq!(a, 0xC000_0000);
    assert_eq!(b, 0xC800_0000);
    assert_eq!(heap.rust_reallocate(b, 16, 0x7FF_FFFF, 1), (0, 0));
}

#[test]
fn buddy_reallocate_inplace_sizes() {
    let mut heap = BuddyHeap::new();
    let a = heap.rust_allocate(100, 1);
    assert_eq!(heap.rust_reallocate_inplace(a, 100, 120, 1), 127);
    assert_eq!(heap.rust_reallocate_inplace(a, 10, 200, 1), 31);
    heap.rust_stats_print();
}

#[test]
fn buddy_orders_and_sizes() {
    assert_eq!(block_size(0), 31);
    assert_eq!(block_size(3), 255);
    assert_eq!(to_order(17, 1), 0);
    assert_eq!(to_order(32, 1), 0);
    assert_eq!(to_order(33, 1), 1);
    assert_eq!(to_order(1, 4096), 7);
    assert_eq!(rust_usable_size(16, 1), 31);
    assert_eq!(rust_usable_size(100, 1), 127);
    assert_eq!(rust_usable_size(0, 4096), 4095);
}

#[test]
fn bump_allocations_round_the_pointer_down() {
    let mut heap = BumpHeap::new();
    assert_eq!(heap.next, 0xC000_0000);
    assert_eq!(heap.rust_allocate(16, 8), 0xC000_0000);
    assert_eq!(heap.next, 0xC000_0010);
    assert_eq!(heap.rust_allocate(8, 16), 0xC000_0010);
    assert_eq!(heap.next, 0xC000_0018);
    assert_eq!(heap.rust_allocate(4, 16), 0xC000_0010);
    assert_eq!(heap.next, 0xC000_0014);
}

#[test]
fn bump_allocation_stops_at_heap_end() {
    let mut heap = BumpHeap { next: 0xCFFF_FFF0 };
    assert_eq!(heap.rust_allocate(0x10, 1), 0);
    assert_eq!(heap.next, 0xCFFF_FFF0);
    assert_eq!(heap.rust_allocate(0xF, 1), 0xCFFF_FFF0);
    assert_eq!(heap.next, 0xCFFF_FFFF);
    assert_eq!(HEAP_END, 0xD000_0000);
}

#[test]
fn bump_reallocate_hands_back_the_old_pointer() {
    let mut heap = BumpHeap::new();
    let p = heap.rust_allocate(16, 1);
    assert_eq!(heap.rust_reallocate(p, 16, 32, 1), (p, 0xC000_0010, 16));
    assert_eq!(heap.rust_reallocate(0, 0, 8, 1), (0, 0xC000_0030, 0));
    assert_eq!(rust_reallocate_inplace(p, 16, 64, 8), 16);
    assert_eq!(bump_usable_size(5, 8), 5);
}

#[test]
fn buddy_free_undoes_an_allocation_on_a_used_heap() {
    let mut heap = BuddyHeap::new();
    let a = heap.rust_allocate(16, 1);
    let b = heap.rust_allocate(300, 1);
    let c = heap.rust_allocate(100, 1);
    heap.free(c);
    assert_eq!(heap.rust_allocate(100, 1), c);
    heap.free(b);
    assert_eq!(heap.rust_allocate(300, 1), b);
    assert_eq!(a, 0xC000_0000);
}

#[test]
fn buddy_blocks_never_overlap_and_are_aligned() {
    let mut heap = BuddyHeap::new();
    let sizes = [16usize, 300, 5, 4000, 100, 31, 32, 1000, 70000, 2];
    let mut blocks: Vec<(usize, usize)> = Vec::new();
    for s in sizes {
        let p = heap.rust_allocate(s, 1);
        assert_ne!(p, 0);
        let len = rust_usable_size(s, 1) + 1;
        assert!(len > s);
        assert_eq!((p - HEAP_START) % len, 0);
        blocks.push((p, p + len));
    }
    for (i, x) in blocks.iter().enumerate() {
        for y in blocks.iter().skip(i + 1) {
            assert!(x.1 <= y.0 || y.1 <= x.0);
        }
    }
}

#[test]
fn bump_allocation_aligns_down_to_a_power_of_two() {
    let mut heap = BumpHeap { next: 0xC000_1234 };
    let p = heap.rust_allocate(1, 0x1000);
    assert_eq!(p, 0xC000_1000);
    assert_eq!(p % 0x1000, 0);
    assert_eq!(heap.next, 0xC000_1001);
}

#[test]
fn buddy_can_allocate() {
    let mut heap = BuddyHeap::new();
    assert!(heap.can_allocate(0x7FF_FFFF, 1));
    assert!(!heap.can_allocate(0x7FFF_FFFF, 1));
    heap.rust_allocate(0x7FF_FFFF, 1);
    heap.rust_allocate(0x7FF_FFFF, 1);
    assert!(!heap.can_allocate(16, 1));
}

#[test]
fn buddy_heap_set_up_once() {
    let mut slot: Option<BuddyHeap> = None;
    rustcode::kernel::malloc::heap::init(&mut slot);
    let p = slot.as_mut().unwrap().rust_allocate(16, 1);
    assert_eq!(p, 0xC000_0000);
    rustcode::kernel::malloc::heap::init(&mut slot);
    // The heap was kept: its first block is still taken.
    assert_eq!(slot.as_mut().unwrap().rust_allocate(16, 1), 0xC000_0020);
}

#[test]
fn buddy_knows_its_allocations() {
    let mut heap = BuddyHeap::new();
    assert!(!heap.is_allocated_ptr(0xC000_0000));
    let a = heap.rust_allocate(16, 1);
    let b = heap.rust_allocate(300, 1);
    assert!(heap.is_allocated_ptr(a));
    assert!(heap.is_allocated_ptr(b));
    assert!(!heap.is_allocated_ptr(a + 32));
    assert!(!heap.is_allocated_ptr(a + 1));
    assert!(!heap.is_allocated_ptr(0x1000));
    assert!(!heap.is_allocated_ptr(0xD000_0000));
    heap.free(b);
    assert!(!heap.is_allocated_ptr(b));
}
