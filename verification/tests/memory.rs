use atom_kernel::memory::{AtomHeap, BumpAllocator, FrameAllocator, MemoryPool, FRAMES_MAX, POOL_BLOCKS};

#[test]
fn bump_allocator_without_region_fails() {
    let mut b = BumpAllocator::new();
    assert_eq!(b.heap_start, 0);
    assert_eq!(b.bump_alloc_bytes(8, 8), 0);
    assert_eq!(b.allocations, 0);
}

#[test]
fn bump_allocator_aligns_and_advances() {
    let mut b = BumpAllocator::new();
    b.init(0x1001, 0x100);
    assert_eq!(b.heap_end, 0x1101);
    assert_eq!(b.next, 0x1001);
    assert_eq!(b.bump_alloc_bytes(16, 16), 0x1010);
    assert_eq!(b.next, 0x1020);
    assert_eq!(b.bump_alloc_bytes(8, 8), 0x1020);
    assert_eq!(b.allocations, 2);
}

#[test]
fn bump_allocator_refuses_past_end() {
    let mut b = BumpAllocator::new();
    b.init(0x1000, 0x40);
    assert_eq!(b.bump_alloc_bytes(0x40, 8), 0x1000);
    assert_eq!(b.bump_alloc_bytes(1, 1), 0);
    assert_eq!(b.next, 0x1040);
    assert_eq!(b.allocations, 1);
}

#[test]
fn atom_heap_allocates_and_never_frees() {
    let mut b = BumpAllocator::new();
    b.init(0x2000, 0x100);
    let mut h = AtomHeap(b);
    assert_eq!(h.allocate(0x10, 0x8), 0x2000);
    assert_eq!(h.allocate(0x8, 0x20), 0x2020);
    let before = h.0;
    h.dealloc(0x2000, 0x10, 0x8);
    assert_eq!(h.0, before);
    assert_eq!(h.allocate(0x1000, 0x8), 0);
    assert_eq!(h.0, before);
}

#[test]
fn atom_heap_saturates_huge_requests() {
    let mut b = BumpAllocator::new();
    b.init(0x2000, 0x100);
    let mut h = AtomHeap(b);
    assert_eq!(h.allocate(usize::MAX, 1), 0);
    assert_eq!(h.0.next, 0x2000);
}

#[test]
fn memory_pool_hands_out_lowest_free_block() {
    let mut p = MemoryPool::new();
    assert_eq!(p.allocate(), Some(0));
    assert_eq!(p.allocate(), Some(1));
    p.blocks[0] = true;
    assert_eq!(p.allocate(), Some(0));
    assert_eq!(p.allocate(), Some(2));
}

#[test]
fn memory_pool_exhausts() {
    let mut p = MemoryPool::new();
    for i in 0..POOL_BLOCKS {
        assert_eq!(p.allocate(), Some(i));
    }
    assert_eq!(p.allocate(), None);
}

#[test]
fn frame_allocator_empty_pool_fails() {
    let mut fa = FrameAllocator::new();
    assert_eq!(fa.alloc_frame(), None);
    assert_eq!(fa.alloc_contiguous(1), None);
}

#[test]
fn frame_allocator_hands_out_frames_in_order() {
    let mut fa = FrameAllocator::new();
    fa.init(0x100000, 4);
    assert_eq!(fa.alloc_frame(), Some(0x100000));
    assert_eq!(fa.alloc_frame(), Some(0x101000));
    assert_eq!(fa.alloc_frame(), Some(0x102000));
    assert_eq!(fa.alloc_frame(), Some(0x103000));
    assert_eq!(fa.alloc_frame(), None);
}

#[test]
fn frame_allocator_alloc_then_free_restores() {
    let mut fa = FrameAllocator::new();
    fa.init(0x100000, 3);
    let a = fa.alloc_frame().unwrap();
    let b = fa.alloc_frame().unwrap();
    assert_eq!(b, 0x101000);
    fa.free_frame(a);
    assert_eq!(fa.alloc_frame(), Some(a));
    assert_eq!(fa.alloc_frame(), Some(0x102000));
}

#[test]
fn frame_allocator_ignores_foreign_addresses() {
    let mut fa = FrameAllocator::new();
    fa.init(0x100000, 2);
    let a = fa.alloc_frame().unwrap();
    fa.free_frame(a + 1);
    fa.free_frame(0x50000);
    fa.free_frame(0x200000);
    assert_eq!(fa.alloc_frame(), Some(0x101000));
    assert_eq!(fa.alloc_frame(), None);
}

#[test]
fn frame_allocator_contiguous_lowest_run() {
    let mut fa = FrameAllocator::new();
    fa.init(0x100000, 8);
    // Take frames 0..3, then give back frame 1: the free runs are [1] and [3..8].
    for _ in 0..3 {
        fa.alloc_frame().unwrap();
    }
    fa.free_frame(0x101000);
    assert_eq!(fa.alloc_contiguous(2), Some(0x103000));
    assert_eq!(fa.alloc_contiguous(1), Some(0x101000));
    assert_eq!(fa.alloc_contiguous(4), None);
    assert_eq!(fa.alloc_contiguous(3), Some(0x105000));
    assert_eq!(fa.alloc_contiguous(0), None);
}

#[test]
fn frame_allocator_pool_is_capped() {
    let mut fa = FrameAllocator::new();
    fa.init(0x1000, FRAMES_MAX + 10);
    let mut n = 0usize;
    while fa.alloc_frame().is_some() {
        n += 1;
    }
    assert_eq!(n, FRAMES_MAX);
}
