use lib::bump::{BumpAllocator, Layout, LayoutError};

const HEAP_SIZE: usize = 4096;

fn make_allocator() -> (BumpAllocator, Vec<u8>) {
    let mut heap = vec![0u8; HEAP_SIZE];
    let start = heap.as_mut_ptr() as usize;
    let alloc = BumpAllocator::new(start, start + HEAP_SIZE);
    (alloc, heap)
}

#[test]
fn test_alloc_basic() {
    let (mut alloc, _heap) = make_allocator();
    let layout = Layout::from_size_align(16, 8).unwrap();
    let ptr = alloc.allocate(layout);
    assert!(ptr.is_some(), "allocation should succeed");
}

#[test]
fn test_alloc_alignment() {
    let (mut alloc, _heap) = make_allocator();
    for align in [1, 2, 4, 8, 16, 64] {
        let layout = Layout::from_size_align(1, align).unwrap();
        let ptr = alloc.allocate(layout);
        assert!(ptr.is_some());
        assert_eq!(
            ptr.unwrap() % align,
            0,
            "returned address must satisfy align={align}"
        );
    }
}

#[test]
fn test_alloc_no_overlap() {
    let (mut alloc, _heap) = make_allocator();
    let layout = Layout::from_size_align(64, 8).unwrap();
    let p1 = alloc.allocate(layout).unwrap();
    let p2 = alloc.allocate(layout).unwrap();
    assert!(
        p1 + 64 <= p2 || p2 + 64 <= p1,
        "two allocations must not overlap"
    );
}

#[test]
fn test_alloc_oom() {
    let (mut alloc, _heap) = make_allocator();
    let layout = Layout::from_size_align(HEAP_SIZE + 1, 1).unwrap();
    let ptr = alloc.allocate(layout);
    assert!(ptr.is_none(), "should return null when exceeding heap");
}

#[test]
fn test_alloc_fill_heap() {
    let (mut alloc, _heap) = make_allocator();
    let layout = Layout::from_size_align(256, 1).unwrap();
    for i in 0..16 {
        let ptr = alloc.allocate(layout);
        assert!(ptr.is_some(), "allocation #{i} should succeed");
    }
    let ptr = alloc.allocate(layout);
    assert!(ptr.is_none(), "should return null when heap is full");
}

#[test]
fn test_reset() {
    let (mut alloc, _heap) = make_allocator();
    let layout = Layout::from_size_align(HEAP_SIZE, 1).unwrap();
    let p1 = alloc.allocate(layout);
    assert!(p1.is_some());
    alloc.reset();
    let p2 = alloc.allocate(layout);
    assert!(p2.is_some(), "should be able to allocate after reset");
    assert_eq!(
        p1, p2,
        "address after reset should match the first allocation"
    );
}

// Exact addresses on a heap at a fixed, unaligned address range.

#[test]
fn allocation_rounds_next_up_to_the_alignment() {
    let mut alloc = BumpAllocator::new(1001, 2001);
    assert_eq!(alloc.next(), 1001);
    let p = alloc.allocate(Layout::from_size_align(10, 16).unwrap());
    assert_eq!(p, Some(1008));
    assert_eq!(alloc.next(), 1018);
    let q = alloc.allocate(Layout::from_size_align(1, 1).unwrap());
    assert_eq!(q, Some(1018));
    assert_eq!(alloc.next(), 1019);
    let r = alloc.allocate(Layout::from_size_align(4, 8).unwrap());
    assert_eq!(r, Some(1024));
    assert_eq!(alloc.next(), 1028);
}

#[test]
fn allocation_fails_when_padding_does_not_fit() {
    // 8 bytes are left, but rounding 1001 up to 64 leaves no room.
    let mut alloc = BumpAllocator::new(1001, 1009);
    let p = alloc.allocate(Layout::from_size_align(1, 64).unwrap());
    assert_eq!(p, None);
    assert_eq!(alloc.next(), 1001);
    let q = alloc.allocate(Layout::from_size_align(8, 1).unwrap());
    assert_eq!(q, Some(1001));
    assert_eq!(alloc.next(), 1009);
    let r = alloc.allocate(Layout::from_size_align(0, 1).unwrap());
    assert_eq!(r, Some(1009));
    let s = alloc.allocate(Layout::from_size_align(1, 1).unwrap());
    assert_eq!(s, None);
}

#[test]
fn failed_allocation_leaves_state_unchanged() {
    let mut alloc = BumpAllocator::new(0, 100);
    assert_eq!(alloc.allocate(Layout::from_size_align(60, 1).unwrap()), Some(0));
    assert_eq!(alloc.allocate(Layout::from_size_align(60, 1).unwrap()), None);
    assert_eq!(alloc.next(), 60);
    assert_eq!(alloc.heap_start(), 0);
    assert_eq!(alloc.heap_end(), 100);
}

#[test]
fn allocation_past_the_top_of_the_address_space_fails() {
    // A heap that reaches usize::MAX: a block whose end would pass it is refused.
    let mut alloc = BumpAllocator::new(usize::MAX - 10, usize::MAX);
    let p = alloc.allocate(Layout::from_size_align(100, 1).unwrap());
    assert_eq!(p, None);
    assert_eq!(alloc.next(), usize::MAX - 10);
    let q = alloc.allocate(Layout::from_size_align(10, 1).unwrap());
    assert_eq!(q, Some(usize::MAX - 10));
    assert_eq!(alloc.next(), usize::MAX);
    assert_eq!(alloc.allocate(Layout::from_size_align(1, 1).unwrap()), None);
}

#[test]
fn oversized_request_fails_on_a_heap_ending_at_the_top() {
    let start = usize::MAX - HEAP_SIZE;
    let mut alloc = BumpAllocator::new(start, usize::MAX);
    let layout = Layout::from_size_align(HEAP_SIZE + 1, 1).unwrap();
    assert_eq!(alloc.allocate(layout), None);
    let layout = Layout::from_size_align(256, 1).unwrap();
    for _ in 0..16 {
        assert!(alloc.allocate(layout).is_some());
    }
    assert_eq!(alloc.allocate(layout), None);
}

#[test]
fn reset_restores_a_fresh_allocator() {
    let mut used = BumpAllocator::new(4000, 5000);
    let layout = Layout::from_size_align(100, 32).unwrap();
    let _ = used.allocate(layout);
    let _ = used.allocate(layout);
    used.reset();
    assert_eq!(used.next(), 4000);
    let mut fresh = BumpAllocator::new(4000, 5000);
    assert_eq!(used.allocate(layout), fresh.allocate(layout));
    assert_eq!(used.next(), fresh.next());
}

#[test]
fn dealloc_changes_nothing() {
    let mut alloc = BumpAllocator::new(0, 64);
    let layout = Layout::from_size_align(16, 16).unwrap();
    let p = alloc.allocate(layout).unwrap();
    alloc.dealloc(p, layout);
    assert_eq!(alloc.next(), 16);
    assert_eq!(alloc.allocate(layout), Some(16));
}

#[test]
fn layout_requires_a_power_of_two_alignment() {
    assert_eq!(Layout::from_size_align(8, 0).unwrap_err(), LayoutError);
    assert_eq!(Layout::from_size_align(8, 3).unwrap_err(), LayoutError);
    assert_eq!(Layout::from_size_align(8, 12).unwrap_err(), LayoutError);
    let l = Layout::from_size_align(8, 4).unwrap();
    assert_eq!(l.size(), 8);
    assert_eq!(l.align(), 4);
}

#[test]
fn layout_rejects_sizes_past_isize_max() {
    let max = isize::MAX as usize;
    assert!(Layout::from_size_align(max, 1).is_ok());
    assert!(Layout::from_size_align(max + 1, 1).is_err());
    // Rounded up to 8 the size would pass isize::MAX.
    assert!(Layout::from_size_align(max - 3, 8).is_err());
    assert!(Layout::from_size_align(max - 7, 8).is_ok());
}
