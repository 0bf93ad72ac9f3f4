use atom_kernel::memory::BumpAllocator;
use atom_kernel::slab::{avalanche_hash, bucket_of, slab_class, SlabHeap, SlabLocked, SlabStats, LARGEST_CLASS};
use atom_kernel::slab_trials::{oom_after_n_benchmark, slab_self_test};

fn region(start: usize, size: usize) -> BumpAllocator {
    let mut b = BumpAllocator::new();
    b.init(start, size);
    b
}

#[test]
fn size_classes_and_buckets() {
    let sizes: Vec<usize> = (0..8).map(slab_class).collect();
    assert_eq!(sizes, vec![16, 32, 64, 128, 256, 512, 1024, 2048]);
    assert_eq!(bucket_of(1), Some(0));
    assert_eq!(bucket_of(16), Some(0));
    assert_eq!(bucket_of(17), Some(1));
    assert_eq!(bucket_of(24), Some(1));
    assert_eq!(bucket_of(64), Some(2));
    assert_eq!(bucket_of(2048), Some(7));
    assert_eq!(bucket_of(2049), None);
    assert_eq!(LARGEST_CLASS, 2048);
}

#[test]
fn avalanche_exact_values() {
    assert_eq!(avalanche_hash(24, 8), 0xae182dbe62fa6759);
    assert_eq!(avalanche_hash(64, 8), 0xcca13446be3e5eb5);
    assert_ne!(avalanche_hash(0, 0), 0);
}

#[test]
fn slab_carves_then_reuses_freed_block() {
    let mut bump = region(0x10000, 0x1000);
    let mut heap = SlabHeap::new();
    let p = heap.allocate(24, 8, &mut bump);
    assert_eq!(p, 0x10010);
    let q = heap.allocate(24, 8, &mut bump);
    assert_eq!(q, 0x10040);
    heap.dealloc(p, 24, 8);
    // Last in, first out: the freed block comes back first.
    assert_eq!(heap.allocate(24, 8, &mut bump), p);
    let s = heap.stats();
    assert_eq!(s, SlabStats { alloc_count: 3, dealloc_count: 1, slab_hits: 1, slab_misses: 0, tag_mismatches: 0 });
}

#[test]
fn slab_blocks_are_16_aligned() {
    // An unaligned region start: nodes are still carved on 16-byte bounds.
    let mut bump = region(0x10003, 0x2000);
    let mut heap = SlabHeap::new();
    let sizes = [1usize, 24, 100, 2048, 17, 64];
    let mut blocks = Vec::new();
    for &sz in sizes.iter() {
        let p = heap.allocate(sz, 8, &mut bump);
        assert_ne!(p, 0);
        assert_eq!(p % 16, 0);
        blocks.push((p, sz));
    }
    assert_eq!(blocks[0].0, 0x10020);
    for &(p, sz) in blocks.iter() {
        heap.dealloc(p, sz, 8);
    }
    for &sz in sizes.iter() {
        let p = heap.allocate(sz, 8, &mut bump);
        assert_eq!(p % 16, 0);
    }
    assert_eq!(heap.stats().slab_hits, 6);
}

#[test]
fn slab_round_trip_takes_nothing_from_the_region() {
    let mut bump = region(0x20000, 0x1000);
    let mut heap = SlabHeap::new();
    let p = heap.allocate(100, 16, &mut bump);
    assert_eq!(p % 16, 0);
    let after_first = bump;
    let hits = heap.stats().slab_hits;
    heap.dealloc(p, 100, 16);
    assert_eq!(heap.allocate(100, 16, &mut bump), p);
    assert_eq!(bump, after_first);
    assert_eq!(heap.stats().slab_hits, hits + 1);
}

#[test]
fn slab_detects_double_free() {
    let mut bump = region(0x10000, 0x1000);
    let mut heap = SlabHeap::new();
    let p = heap.allocate(64, 8, &mut bump);
    heap.dealloc(p, 64, 8);
    heap.dealloc(p, 64, 8);
    let s = heap.stats();
    assert_eq!(s.dealloc_count, 2);
    assert_eq!(s.tag_mismatches, 1);
    // The block is on the list once only: one reuse, then a fresh carve.
    let a = heap.allocate(64, 8, &mut bump);
    let b = heap.allocate(64, 8, &mut bump);
    assert_eq!(a, p);
    assert_ne!(b, p);
}

#[test]
fn slab_detects_wrong_layout_on_free() {
    let mut bump = region(0x10000, 0x1000);
    let mut heap = SlabHeap::new();
    let p = heap.allocate(24, 8, &mut bump);
    heap.dealloc(p, 32, 8);
    assert_eq!(heap.stats().tag_mismatches, 1);
    // Not on any list: the next request carves a new node.
    assert_ne!(heap.allocate(24, 8, &mut bump), p);
}

#[test]
fn slab_large_requests_fall_through_to_bump() {
    let mut bump = region(0x10000, 0x2000);
    let mut heap = SlabHeap::new();
    assert_eq!(heap.allocate(4096, 8, &mut bump), 0x10000);
    let s = heap.stats();
    assert_eq!(s.slab_misses, 1);
    assert_eq!(s.slab_hits, 0);
    heap.dealloc(0x10000, 4096, 8);
    assert_eq!(heap.stats().tag_mismatches, 1);
}

#[test]
fn slab_out_of_backing_memory() {
    let mut bump = region(0x10000, 0x20);
    let mut heap = SlabHeap::new();
    assert_eq!(heap.allocate(24, 8, &mut bump), 0);
    let mut none = BumpAllocator::new();
    assert_eq!(heap.allocate(24, 8, &mut none), 0);
}

#[test]
fn slab_locked_wraps_heap_and_region() {
    let mut s = SlabLocked::new();
    assert_eq!(s.allocate(24, 8), 0);
    s.init(0x40000, 0x1000);
    let p = s.allocate(100, 8);
    assert_eq!(p, 0x40010);
    s.dealloc(p, 100, 8);
    assert_eq!(s.allocate(100, 8), p);
    let st = s.stats();
    assert_eq!(st.alloc_count, 3);
    assert_eq!(st.dealloc_count, 1);
    assert_eq!(st.slab_hits, 1);
}

#[test]
fn self_test_reports_round_trip() {
    let out = slab_self_test(0x100000, 0x10000);
    let text = String::from_utf8(out).unwrap();
    assert_eq!(
        text,
        "slab_self_test: pass1_alloc=64 pass1_hits=0 dealloc=64 pass2_hits=64 misses=0 mismatch=0\n\
         slab_self_test: GATE PASS (free-list round-trip OK)\n"
    );
}

#[test]
fn self_test_small_region_reports_oom() {
    let out = slab_self_test(0x100000, 48 * 63);
    assert_eq!(String::from_utf8(out).unwrap(), "slab_self_test: OOM during pass 1\n");
    let out = slab_self_test(0, 0x10000);
    assert_eq!(String::from_utf8(out).unwrap(), "slab_self_test: OOM during pass 1\n");
    // Exactly enough room for 64 nodes.
    let out = slab_self_test(0x100000, 48 * 64);
    assert!(String::from_utf8(out).unwrap().ends_with("GATE PASS (free-list round-trip OK)\n"));
}

#[test]
fn oom_benchmark_slab_outlasts_bump() {
    let out = oom_after_n_benchmark(0x200000, 256 * 1024, 0x240000, 256 * 1024);
    assert_eq!(
        String::from_utf8(out).unwrap(),
        "oom_after_n: slab=100000 (oom=no, capped=100000)  bump=4096 (oom=yes)\n\
         oom_after_n: GATE PASS — slab ran indefinitely, bump OOMed\n"
    );
}

#[test]
fn oom_benchmark_tiny_slab_region_fails() {
    let out = oom_after_n_benchmark(0x200000, 64, 0x240000, 640);
    assert_eq!(
        String::from_utf8(out).unwrap(),
        "oom_after_n: slab=0 (oom=yes, capped=100000)  bump=10 (oom=yes)\n\
         oom_after_n: GATE FAIL — slab did not beat bump\n"
    );
}

#[test]
fn oom_benchmark_both_run_out_slab_longer() {
    // Unaligned bump region: the first block starts at the next multiple of 8.
    let out = oom_after_n_benchmark(0x200000, 0x1000, 0, 0);
    assert_eq!(
        String::from_utf8(out).unwrap(),
        "oom_after_n: slab=100000 (oom=no, capped=100000)  bump=0 (oom=yes)\n\
         oom_after_n: GATE PASS — slab ran indefinitely, bump OOMed\n"
    );
    let out = oom_after_n_benchmark(0x200000, 0x1000, 0x300001, 200);
    assert!(String::from_utf8(out).unwrap().contains("bump=3 (oom=yes)"));
}
