use vstd::prelude::*;
use vstd::string::StringSliceAdditionalSpecFns;
use crate::memory::{BumpAllocator, bump_step, round_up};
use crate::slab::{SlabHeap, SlabHeader, is_bucket_of, class_size, avalanche_spec, NUM_CLASSES};
use crate::system::append;

verus! {

/// The bytes of the text `s`.
pub open spec fn text(s: &str) -> Seq<u8> {
    s.spec_bytes()
}

/// The decimal digits of `n`, most significant first.
pub open spec fn decimal(n: nat) -> Seq<u8>
    decreases n,
{
    if n < 10 {
        seq![(0x30 + n) as u8]
    } else {
        decimal(n / 10) + seq![(0x30 + n % 10) as u8]
    }
}

pub(crate) fn push_decimal(out: &mut Vec<u8>, n: u64)
    ensures
        final(out)@ == old(out)@ + decimal(n as nat),
    decreases n,
{
    if n >= 10 {
        push_decimal(out, n / 10);
    }
    out.push(0x30 + (n % 10) as u8);
    assert(out@ =~= old(out)@ + decimal(n as nat));
}

/// Allocate-and-free cycles each trial of the out-of-memory benchmark runs
/// at most.
pub const OOM_TRIAL_CAP: usize = 100000;

/// A bump allocator freshly pointed at `start..start + size`.
pub open spec fn fresh_bump(start: usize, size: usize) -> BumpAllocator {
    BumpAllocator { heap_start: start, heap_end: (start + size) as usize, next: start, allocations: 0 }
}

/// The slab trial on the region `start..start + size`: cycles of a 64-byte
/// allocation and its free, up to the cap, and whether it ran out. The first
/// allocation carves a node from the region; every later one gets the same
/// node back from the free list, so the trial runs out only when the first
/// node does not fit.
pub open spec fn slab_trial(start: usize, size: usize) -> (nat, bool) {
    if bump_step(fresh_bump(start, size), 80, 16).0 == 0 {
        (0, true)
    } else {
        (OOM_TRIAL_CAP as nat, false)
    }
}

/// The bump trial on the region `start..start + size`: 64-byte allocations
/// aligned to 8 until the region is exhausted, up to the cap, and whether it
/// ran out. Frees give nothing back, so it fits as many blocks as the region
/// holds after the first aligned address.
pub open spec fn bump_trial(start: usize, size: usize) -> (nat, bool) {
    let first = round_up(start as int, 8);
    let end = start + size;
    let fit: nat = if start != 0 && first <= end { ((end - first) / 64) as nat } else { 0 };
    if fit < OOM_TRIAL_CAP { (fit, true) } else { (OOM_TRIAL_CAP as nat, false) }
}

fn slab_trial_run(start: usize, size: usize) -> (r: (usize, bool))
    requires
        start + size + 96 <= usize::MAX,
    ensures
        (r.0 as nat, r.1) == slab_trial(start, size),
{
    let mut bump = BumpAllocator::new();
    bump.init(start, size);
    let ghost b0 = bump;
    assert(b0 == fresh_bump(start, size));
    let mut heap = SlabHeap::new();
    let ghost node0 = bump_step(b0, 80, 16).0;
    assert(is_bucket_of(64, 2));
    let mut n: usize = 0;
    while n < OOM_TRIAL_CAP
        invariant
            heap.wf(),
            n <= OOM_TRIAL_CAP,
            b0 == fresh_bump(start, size),
            start + size + 96 <= usize::MAX,
            node0 == bump_step(b0, 80, 16).0,
            is_bucket_of(64, 2),
            n == 0 ==> bump == b0 && heap.free_list(2).len() == 0,
            n > 0 ==> node0 != 0 && heap.free_list(2) == seq![node0] && bump == bump_step(b0, 80, 16).1,
            forall|b: int| 0 <= b < NUM_CLASSES && b != 2 ==> #[trigger] heap.free_list(b).len() == 0,
            forall|m: int| #[trigger] heap.header_at(m) == (SlabHeader { tag: 0, bucket_plus_one: 0 }),
        decreases OOM_TRIAL_CAP - n,
    {
        proof {
            assert forall|b: int| #[trigger] is_bucket_of(64, b) implies b == 2 by {
                if b < 2 {
                    assert(64 <= class_size(b));
                } else if b > 2 {
                    assert(64 > class_size(2));
                }
            }
        }
        let p = heap.allocate(64, 8, &mut bump);
        if p == 0 {
            return (n, true);
        }
        let ghost h1 = heap;
        assert(h1.header_at(p - 16) == (SlabHeader { tag: avalanche_spec(64, 8), bucket_plus_one: 3 }));
        heap.dealloc(p, 64, 8);
        assert(heap.free_list(2) =~= seq![node0]);
        n = n + 1;
    }
    (n, false)
}

fn bump_trial_run(start: usize, size: usize) -> (r: (usize, bool))
    requires
        start + size + 72 <= usize::MAX,
    ensures
        (r.0 as nat, r.1) == bump_trial(start, size),
{
    let mut bump = BumpAllocator::new();
    bump.init(start, size);
    let ghost first = round_up(start as int, 8);
    let ghost end = start + size;
    let mut n: usize = 0;
    while n < OOM_TRIAL_CAP
        invariant
            n <= OOM_TRIAL_CAP,
            start + size + 72 <= usize::MAX,
            first == round_up(start as int, 8),
            end == start + size,
            first % 8 == 0,
            start <= first < start + 8,
            bump.heap_start == start,
            bump.heap_end == end,
            bump.allocations == n,
            n == 0 ==> bump.next == start,
            n > 0 ==> start != 0 && bump.next == first + 64 * n && first + 64 * n <= end,
        decreases OOM_TRIAL_CAP - n,
    {
        proof {
            if n > 0 {
                assert(round_up(bump.next as int, 8) == bump.next) by {
                    assert((first + 64 * n) % 8 == 0);
                }
            }
        }
        let p = bump.bump_alloc_bytes(64, 8);
        if p == 0 {
            proof {
                if start != 0 && first <= end {
                    assert((end - first) / 64 == n) by (nonlinear_arith)
                        requires
                            first + 64 * n <= end,
                            first + 64 * (n + 1) > end;
                }
            }
            return (n, true);
        }
        n = n + 1;
    }
    proof {
        assert((end - first) / 64 >= OOM_TRIAL_CAP) by (nonlinear_arith)
            requires
                first + 64 * OOM_TRIAL_CAP <= end;
    }
    (n, false)
}

/// `yes` or `no`.
pub open spec fn yes_no(b: bool) -> Seq<u8> {
    if b { text("yes") } else { text("no") }
}

/// The verdict line of the benchmark.
pub open spec fn oom_verdict(n_slab: nat, slab_oom: bool, n_bump: nat, bump_oom: bool) -> Seq<u8> {
    if !slab_oom && bump_oom {
        text("oom_after_n: GATE PASS — slab ran indefinitely, bump OOMed\n")
    } else if slab_oom && bump_oom && n_slab > n_bump {
        text("oom_after_n: GATE PARTIAL — both OOMed but slab outlasted bump\n")
    } else {
        text("oom_after_n: GATE FAIL — slab did not beat bump\n")
    }
}

/// The full output of the benchmark for the given trial outcomes.
pub open spec fn oom_report(n_slab: nat, slab_oom: bool, n_bump: nat, bump_oom: bool) -> Seq<u8> {
    text("oom_after_n: slab=") + decimal(n_slab) + text(" (oom=") + yes_no(slab_oom)
        + text(", capped=") + decimal(OOM_TRIAL_CAP as nat) + text(")  bump=") + decimal(n_bump)
        + text(" (oom=") + yes_no(bump_oom) + text(")\n")
        + oom_verdict(n_slab, slab_oom, n_bump, bump_oom)
}

fn push_yes_no(out: &mut Vec<u8>, b: bool)
    ensures
        final(out)@ == old(out)@ + yes_no(b),
{
    if b {
        append(out, "yes".as_bytes());
    } else {
        append(out, "no".as_bytes());
    }
}

/// How many allocate-and-free cycles of 64 bytes a slab heap and a bump
/// allocator each sustain on their own region before running out, up to
/// `OOM_TRIAL_CAP`, and the text that reports it: the counts, then the
/// verdict.
pub fn oom_after_n_benchmark(
    slab_region_start: usize,
    slab_region_size: usize,
    bump_region_start: usize,
    bump_region_size: usize,
) -> (report: Vec<u8>)
    requires
        slab_region_start + slab_region_size + 96 <= usize::MAX,
        bump_region_start + bump_region_size + 72 <= usize::MAX,
    ensures
        report@ == ({
            let (ns, so) = slab_trial(slab_region_start, slab_region_size);
            let (nb, bo) = bump_trial(bump_region_start, bump_region_size);
            oom_report(ns, so, nb, bo)
        }),
{
    let (n_slab, slab_oom) = slab_trial_run(slab_region_start, slab_region_size);
    let (n_bump, bump_oom) = bump_trial_run(bump_region_start, bump_region_size);
    let mut out: Vec<u8> = Vec::new();
    append(&mut out, "oom_after_n: slab=".as_bytes());
    push_decimal(&mut out, n_slab as u64);
    append(&mut out, " (oom=".as_bytes());
    push_yes_no(&mut out, slab_oom);
    append(&mut out, ", capped=".as_bytes());
    push_decimal(&mut out, OOM_TRIAL_CAP as u64);
    append(&mut out, ")  bump=".as_bytes());
    push_decimal(&mut out, n_bump as u64);
    append(&mut out, " (oom=".as_bytes());
    push_yes_no(&mut out, bump_oom);
    append(&mut out, ")\n".as_bytes());
    if !slab_oom && bump_oom {
        append(&mut out, "oom_after_n: GATE PASS — slab ran indefinitely, bump OOMed\n".as_bytes());
    } else if slab_oom && bump_oom && n_slab > n_bump {
        append(&mut out, "oom_after_n: GATE PARTIAL — both OOMed but slab outlasted bump\n".as_bytes());
    } else {
        append(&mut out, "oom_after_n: GATE FAIL — slab did not beat bump\n".as_bytes());
    }
    assert(out@ =~= oom_report(n_slab as nat, slab_oom, n_bump as nat, bump_oom));
    out
}

/// Blocks each pass of the self-test takes.
pub const SELF_TEST_BLOCKS: usize = 64;

/// The self-test's 64 nodes of 48 bytes (a 16-byte header and a 32-byte
/// class) fit in the region `start..start + size` after its first
/// 16-aligned address.
pub open spec fn self_test_fits(start: usize, size: usize) -> bool {
    start != 0 && round_up(start as int, 16) + 48 * SELF_TEST_BLOCKS <= start + size
}

/// The report of a self-test whose free-list round trip worked.
pub open spec fn self_test_report() -> Seq<u8> {
    text("slab_self_test: pass1_alloc=") + decimal(64) + text(" pass1_hits=") + decimal(0)
        + text(" dealloc=") + decimal(64) + text(" pass2_hits=") + decimal(64)
        + text(" misses=") + decimal(0) + text(" mismatch=") + decimal(0) + text("\n")
        + text("slab_self_test: GATE PASS (free-list round-trip OK)\n")
}

/// The header the self-test's requests stamp on a live node.
pub open spec fn self_test_header() -> SlabHeader {
    SlabHeader { tag: avalanche_spec(24, 8), bucket_plus_one: 2 }
}

/// Node `j` of the self-test's region: the nodes sit back to back from
/// the first 16-aligned address.
pub open spec fn self_test_node(start: usize, j: int) -> int {
    round_up(start as int, 16) + 48 * j
}

/// `m` is one of the nodes `lo..hi` of the self-test's region.
pub open spec fn is_node_in(start: usize, m: int, lo: int, hi: int) -> bool {
    exists|j: int| lo <= j < hi && m == #[trigger] self_test_node(start, j)
}

/// Exercises a slab heap on the private region `region_start..region_start
/// + region_size`: 64 requests of 24 bytes, all freed, then 64 more, which
/// must all come back from the free list; returns the report. When the
/// region cannot hold the first 64 nodes, the report says so instead.
pub fn slab_self_test(region_start: usize, region_size: usize) -> (report: Vec<u8>)
    requires
        region_start + region_size + 64 <= usize::MAX,
    ensures
        report@ == (if self_test_fits(region_start, region_size) {
            self_test_report()
        } else {
            text("slab_self_test: OOM during pass 1\n")
        }),
{
    let mut bump = BumpAllocator::new();
    bump.init(region_start, region_size);
    let mut heap = SlabHeap::new();
    let ghost start = region_start;
    let ghost end = region_start + region_size;
    let ghost first = round_up(start as int, 16);
    let ghost zero = SlabHeader { tag: 0, bucket_plus_one: 0 };
    assert(is_bucket_of(24, 1));
    proof {
        assert forall|b: int| #[trigger] is_bucket_of(24, b) implies b == 1 by {
            if b < 1 {
                assert(24 <= class_size(b));
            } else if b > 1 {
                assert(24 > class_size(1));
            }
        }
    }
    let mut ptrs: Vec<usize> = Vec::new();
    let mut i: usize = 0;
    while i < SELF_TEST_BLOCKS
        invariant
            heap.wf(),
            i <= SELF_TEST_BLOCKS,
            region_start + region_size + 64 <= usize::MAX,
            start == region_start,
            end == region_start + region_size,
            first == round_up(start as int, 16),
            zero == (SlabHeader { tag: 0, bucket_plus_one: 0 }),
            first % 16 == 0,
            start <= first < start + 16,
            is_bucket_of(24, 1),
            forall|b: int| #[trigger] is_bucket_of(24, b) ==> b == 1,
            bump.heap_start == start,
            bump.heap_end == end,
            bump.allocations == i,
            i == 0 ==> bump.next == start,
            i > 0 ==> start != 0 && bump.next == first + 48 * i && first + 48 * i <= end,
            ptrs@.len() == i,
            forall|j: int| 0 <= j < i ==> #[trigger] ptrs@[j] == self_test_node(start, j) + 16,
            forall|b: int| 0 <= b < NUM_CLASSES ==> #[trigger] heap.free_list(b).len() == 0,
            forall|m: int| #[trigger] heap.header_at(m)
                == (if is_node_in(start, m, 0, i as int) { self_test_header() } else { zero }),
            heap.stats_spec().alloc_count == i,
            heap.stats_spec().dealloc_count == 0,
            heap.stats_spec().slab_hits == 0,
            heap.stats_spec().slab_misses == 0,
            heap.stats_spec().tag_mismatches == 0,
        decreases SELF_TEST_BLOCKS - i,
    {
        proof {
            if i > 0 {
                assert(round_up(bump.next as int, 16) == bump.next) by {
                    assert((first + 48 * i) % 16 == 0);
                }
            }
        }
        let p = heap.allocate(24, 8, &mut bump);
        if p == 0 {
            let mut out: Vec<u8> = Vec::new();
            append(&mut out, "slab_self_test: OOM during pass 1\n".as_bytes());
            proof {
                assert(!self_test_fits(region_start, region_size)) by (nonlinear_arith)
                    requires
                        i < 64,
                        start == 0 || first + 48 * (i + 1) > end,
                        end == region_start + region_size,
                        first == round_up(start as int, 16),
                        start == region_start;
            }
            return out;
        }
        ptrs.push(p);
        proof {
            let node = self_test_node(start, i as int);
            assert forall|m: int| #[trigger] heap.header_at(m)
                == (if is_node_in(start, m, 0, i as int + 1) { self_test_header() } else { zero }) by {
                if m == node {
                    assert(is_node_in(start, m, 0, i as int + 1));
                } else {
                    if is_node_in(start, m, 0, i as int + 1) {
                        let j = choose|j: int| 0 <= j < i + 1 && m == #[trigger] self_test_node(start, j);
                        assert(j != i);
                        assert(is_node_in(start, m, 0, i as int));
                    }
                    if is_node_in(start, m, 0, i as int) {
                        let j = choose|j: int| 0 <= j < i && m == #[trigger] self_test_node(start, j);
                        assert(is_node_in(start, m, 0, i as int + 1));
                    }
                }
            }
        }
        i = i + 1;
    }
    assert(self_test_fits(region_start, region_size));
    let stats1 = heap.stats();
    let stats1_alloc = stats1.alloc_count;
    let stats1_hits = stats1.slab_hits;
    // Free every block, oldest first.
    let mut i: usize = 0;
    while i < SELF_TEST_BLOCKS
        invariant
            heap.wf(),
            i <= SELF_TEST_BLOCKS,
            start == region_start,
            first == round_up(start as int, 16),
            first + 48 * 64 <= usize::MAX,
            zero == (SlabHeader { tag: 0, bucket_plus_one: 0 }),
            ptrs@.len() == SELF_TEST_BLOCKS,
            forall|j: int| 0 <= j < SELF_TEST_BLOCKS ==> #[trigger] ptrs@[j] == self_test_node(start, j) + 16,
            heap.free_list(1) == Seq::new(i as nat, |j: int| self_test_node(start, j) as usize),
            forall|b: int| 0 <= b < NUM_CLASSES && b != 1 ==> #[trigger] heap.free_list(b).len() == 0,
            forall|m: int| #[trigger] heap.header_at(m)
                == (if is_node_in(start, m, i as int, 64) { self_test_header() } else { zero }),
            heap.stats_spec().alloc_count == 64,
            heap.stats_spec().dealloc_count == i,
            heap.stats_spec().slab_hits == 0,
            heap.stats_spec().slab_misses == 0,
            heap.stats_spec().tag_mismatches == 0,
        decreases SELF_TEST_BLOCKS - i,
    {
        let p = ptrs[i];
        let ghost node = self_test_node(start, i as int);
        let ghost h0 = heap;
        assert(is_node_in(start, node, i as int, 64));
        assert(h0.header_at(node) == self_test_header());
        heap.dealloc(p, 24, 8);
        proof {
            assert(heap.free_list(1) =~= Seq::new(i as nat + 1, |j: int| self_test_node(start, j) as usize));
            assert forall|m: int| #[trigger] heap.header_at(m)
                == (if is_node_in(start, m, i as int + 1, 64) { self_test_header() } else { zero }) by {
                if m == node {
                    assert(heap.header_at(m) == zero);
                    if is_node_in(start, m, i as int + 1, 64) {
                        let j = choose|j: int| i + 1 <= j < 64 && m == #[trigger] self_test_node(start, j);
                        assert(false);
                    }
                } else {
                    assert(heap.header_at(m) == h0.header_at(m));
                    assert(h0.header_at(m) == (if is_node_in(start, m, i as int, 64) { self_test_header() } else { zero }));
                    if is_node_in(start, m, i as int, 64) {
                        let j = choose|j: int| i <= j < 64 && m == #[trigger] self_test_node(start, j);
                        assert(j != i);
                        assert(is_node_in(start, m, i as int + 1, 64));
                    }
                    if is_node_in(start, m, i as int + 1, 64) {
                        let j = choose|j: int| i + 1 <= j < 64 && m == #[trigger] self_test_node(start, j);
                        assert(is_node_in(start, m, i as int, 64));
                    }
                }
            }
        }
        i = i + 1;
    }
    let stats_mid = heap.stats();
    let stats1_dealloc = stats_mid.dealloc_count;
    // Take 64 blocks again: each must come from the free list.
    let mut i: usize = 0;
    while i < SELF_TEST_BLOCKS
        invariant
            heap.wf(),
            i <= SELF_TEST_BLOCKS,
            start == region_start,
            first == round_up(start as int, 16),
            first + 48 * 64 <= usize::MAX,
            is_bucket_of(24, 1),
            forall|b: int| #[trigger] is_bucket_of(24, b) ==> b == 1,
            ptrs@.len() == SELF_TEST_BLOCKS,
            heap.free_list(1) == Seq::new((64 - i) as nat, |j: int| self_test_node(start, j) as usize),
            heap.stats_spec().alloc_count == 64 + i,
            heap.stats_spec().dealloc_count == 64,
            heap.stats_spec().slab_hits == i,
            heap.stats_spec().slab_misses == 0,
            heap.stats_spec().tag_mismatches == 0,
        decreases SELF_TEST_BLOCKS - i,
    {
        let p = heap.allocate(24, 8, &mut bump);
        if p == 0 {
            let mut out: Vec<u8> = Vec::new();
            append(&mut out, "slab_self_test: OOM during pass 2 (free-list broken)\n".as_bytes());
            return out;
        }
        assert(heap.free_list(1) =~= Seq::new((64 - i - 1) as nat, |j: int| self_test_node(start, j) as usize));
        ptrs.set(i, p);
        i = i + 1;
    }
    let stats2 = heap.stats();
    let stats2_hits = stats2.slab_hits;
    let stats2_misses = stats2.slab_misses;
    let stats2_mismatch = stats2.tag_mismatches;
    let mut out: Vec<u8> = Vec::new();
    append(&mut out, "slab_self_test: pass1_alloc=".as_bytes());
    push_decimal(&mut out, stats1_alloc as u64);
    append(&mut out, " pass1_hits=".as_bytes());
    push_decimal(&mut out, stats1_hits as u64);
    append(&mut out, " dealloc=".as_bytes());
    push_decimal(&mut out, stats1_dealloc as u64);
    append(&mut out, " pass2_hits=".as_bytes());
    push_decimal(&mut out, stats2_hits as u64);
    append(&mut out, " misses=".as_bytes());
    push_decimal(&mut out, stats2_misses as u64);
    append(&mut out, " mismatch=".as_bytes());
    push_decimal(&mut out, stats2_mismatch as u64);
    append(&mut out, "\n".as_bytes());
    if stats2_hits >= stats1_hits + SELF_TEST_BLOCKS && stats2_mismatch == 0 {
        append(&mut out, "slab_self_test: GATE PASS (free-list round-trip OK)\n".as_bytes());
    } else {
        append(&mut out, "slab_self_test: GATE FAIL (free-list round-trip broken)\n".as_bytes());
    }
    // Give the second pass's blocks back, leaving the region clean.
    let mut i: usize = 0;
    while i < SELF_TEST_BLOCKS
        invariant
            heap.wf(),
            i <= SELF_TEST_BLOCKS,
            ptrs@.len() == SELF_TEST_BLOCKS,
        decreases SELF_TEST_BLOCKS - i,
    {
        if ptrs[i] >= 16 {
            heap.dealloc(ptrs[i], 24, 8);
        }
        i = i + 1;
    }
    assert(out@ =~= self_test_report());
    out
}

} // verus!
