use vstd::prelude::*;
use crate::memory::{BumpAllocator, bump_can_try, bump_step, round_up};

verus! {

/// Number of size classes.
pub const NUM_CLASSES: usize = 8;
/// Bytes of the header in front of every slab node.
pub const HEADER_BYTES: usize = 16;
/// Alignment of the nodes carved from the backing region.
pub const NODE_ALIGN: usize = 16;
/// Largest request served from a size class.
pub const LARGEST_CLASS: usize = 2048;

/// Usable bytes of size class `i`: 16, 32, 64, ..., 2048.
pub open spec fn class_size(i: int) -> int {
    if i == 0 { 16 } else if i == 1 { 32 } else if i == 2 { 64 } else if i == 3 { 128 }
    else if i == 4 { 256 } else if i == 5 { 512 } else if i == 6 { 1024 } else { 2048 }
}

/// Usable bytes of size class `i`.
pub fn slab_class(i: usize) -> (c: usize)
    requires
        i < NUM_CLASSES,
    ensures
        c == class_size(i as int),
{
    match i {
        0 => 16,
        1 => 32,
        2 => 64,
        3 => 128,
        4 => 256,
        5 => 512,
        6 => 1024,
        _ => 2048,
    }
}

/// `i` is the smallest class whose usable bytes hold `size`.
pub open spec fn is_bucket_of(size: int, i: int) -> bool {
    &&& 0 <= i < NUM_CLASSES
    &&& size <= class_size(i)
    &&& forall|j: int| 0 <= j < i ==> size > #[trigger] class_size(j)
}

/// The smallest size class whose usable bytes hold `size`, or `None` when
/// `size` is above the largest class.
pub fn bucket_of(size: usize) -> (r: Option<usize>)
    requires
        size <= isize::MAX,
    ensures
        match r {
            Some(i) => is_bucket_of(size as int, i as int),
            None => size > LARGEST_CLASS,
        },
{
    let mut i: usize = 0;
    while i < NUM_CLASSES
        invariant
            i <= NUM_CLASSES,
            size <= isize::MAX,
            forall|j: int| 0 <= j < i ==> size > #[trigger] class_size(j),
        decreases NUM_CLASSES - i,
    {
        let cls = slab_class(i);
        if size + HEADER_BYTES <= cls + HEADER_BYTES && size <= cls {
            return Some(i);
        }
        i = i + 1;
    }
    assert(size > class_size(7));
    None
}

/// The tag stamped in the header of a live node for a request of `size`
/// bytes aligned to `align`: two multiply-xorshift rounds, with the top and
/// bottom bits forced on.
pub open spec fn avalanche_spec(size: usize, align: usize) -> u64 {
    let x0 = (size as u64).wrapping_mul(0x9E3779B97F4A7C15u64) ^ ((align as u64) << 32u64);
    let x1 = x0 ^ (x0 >> 27u64);
    let x2 = x1.wrapping_mul(0x2545F4914F6CDD1Du64);
    let x3 = x2 ^ (x2 >> 28u64);
    x3 | 0x8000_0000_0000_0001u64
}

/// Computes `avalanche_spec(size, align)`.
pub fn avalanche_hash(size: usize, align: usize) -> (h: u64)
    ensures
        h == avalanche_spec(size, align),
        h != 0,
{
    let mut x = (size as u64).wrapping_mul(0x9E3779B97F4A7C15u64) ^ ((align as u64) << 32u64);
    x = x ^ (x >> 27u64);
    x = x.wrapping_mul(0x2545F4914F6CDD1Du64);
    x = x ^ (x >> 28u64);
    let h = x | 0x8000_0000_0000_0001u64;
    assert(h != 0) by (bit_vector)
        requires h == x | 0x8000_0000_0000_0001u64;
    h
}

/// Header of a node: the tag, and the class index plus one (0 marks a node
/// that is not live in a class).
#[derive(Debug, Clone, Copy, PartialEq, Eq, Structural)]
pub struct SlabHeader {
    pub tag: u64,
    pub bucket_plus_one: u8,
}

/// A header record: the node address it sits at, and its contents.
#[derive(Debug, Clone, Copy)]
pub struct HeaderRecord {
    pub node: usize,
    pub header: SlabHeader,
}

/// A slab heap: one LIFO free list of node addresses per size class, and
/// the headers stamped on nodes. A node is `HEADER_BYTES` of header followed
/// by the usable bytes of its class; callers get the address just past the
/// header. Requests above the largest class fall through to the backing
/// bump region and carry no header.
pub struct SlabHeap {
    buckets: Vec<Vec<usize>>,
    headers: Vec<HeaderRecord>,
    alloc_count: usize,
    dealloc_count: usize,
    slab_hits: usize,
    slab_misses: usize,
    tag_mismatches: usize,
}

/// A counter after one `fetch_add(1)`: it wraps at `usize::MAX`.
pub open spec fn bumped(c: usize) -> usize {
    if c == usize::MAX { 0 } else { (c + 1) as usize }
}

fn bump_counter(c: usize) -> (r: usize)
    ensures
        r == bumped(c),
{
    if c == usize::MAX { 0 } else { c + 1 }
}

impl SlabHeap {
    pub closed spec fn wf(&self) -> bool {
        &&& self.buckets@.len() == NUM_CLASSES
        &&& forall|b: int, k: int| 0 <= b < NUM_CLASSES && 0 <= k < self.buckets@[b]@.len() ==>
            #[trigger] self.buckets@[b]@[k] + HEADER_BYTES + class_size(b) <= usize::MAX
                && self.buckets@[b]@[k] % NODE_ALIGN == 0
        &&& forall|k: int| 0 <= k < self.headers@.len() ==> {
            let r = #[trigger] self.headers@[k];
            r.header.tag != 0 ==> 1 <= r.header.bucket_plus_one <= NUM_CLASSES
                && r.node + HEADER_BYTES + class_size(r.header.bucket_plus_one - 1) <= usize::MAX
                && r.node % NODE_ALIGN == 0
        }
        &&& forall|k: int, l: int| 0 <= k < l < self.headers@.len() ==>
            #[trigger] self.headers@[k].node != #[trigger] self.headers@[l].node
    }

    /// Free list of class `b`, oldest first; the last entry is popped next.
    pub closed spec fn free_list(&self, b: int) -> Seq<usize> {
        self.buckets@[b]@
    }

    /// The header at node address `node`; one never written reads as zero.
    pub closed spec fn header_at(&self, node: int) -> SlabHeader {
        if exists|k: int| 0 <= k < self.headers@.len() && #[trigger] self.headers@[k].node == node {
            self.headers@[choose|k: int| 0 <= k < self.headers@.len() && #[trigger] self.headers@[k].node == node].header
        } else {
            SlabHeader { tag: 0, bucket_plus_one: 0 }
        }
    }

    pub closed spec fn stats_spec(&self) -> SlabStats {
        SlabStats {
            alloc_count: self.alloc_count,
            dealloc_count: self.dealloc_count,
            slab_hits: self.slab_hits,
            slab_misses: self.slab_misses,
            tag_mismatches: self.tag_mismatches,
        }
    }

    /// Every free list as in `other`.
    pub open spec fn same_lists(&self, other: &Self) -> bool {
        forall|b: int| 0 <= b < NUM_CLASSES ==> #[trigger] self.free_list(b) == other.free_list(b)
    }

    /// Every header as in `other`.
    pub open spec fn same_headers(&self, other: &Self) -> bool {
        forall|n: int| #[trigger] self.header_at(n) == other.header_at(n)
    }

    /// Empty free lists, no headers, counters at zero.
    pub fn new() -> (h: Self)
        ensures
            h.wf(),
            forall|b: int| 0 <= b < NUM_CLASSES ==> #[trigger] h.free_list(b).len() == 0,
            forall|n: int| #[trigger] h.header_at(n) == (SlabHeader { tag: 0, bucket_plus_one: 0 }),
            h.stats_spec() == (SlabStats { alloc_count: 0, dealloc_count: 0, slab_hits: 0, slab_misses: 0, tag_mismatches: 0 }),
    {
        let mut buckets: Vec<Vec<usize>> = Vec::new();
        let mut i: usize = 0;
        while i < NUM_CLASSES
            invariant
                i <= NUM_CLASSES,
                buckets@.len() == i,
                forall|b: int| 0 <= b < i ==> #[trigger] buckets@[b]@.len() == 0,
            decreases NUM_CLASSES - i,
        {
            buckets.push(Vec::new());
            i = i + 1;
        }
        SlabHeap {
            buckets,
            headers: Vec::new(),
            alloc_count: 0,
            dealloc_count: 0,
            slab_hits: 0,
            slab_misses: 0,
            tag_mismatches: 0,
        }
    }

    fn find_header(&self, node: usize) -> (r: Option<usize>)
        requires
            self.wf(),
        ensures
            match r {
                Some(k) => k < self.headers@.len() && self.headers@[k as int].node == node,
                None => forall|k: int| 0 <= k < self.headers@.len() ==> #[trigger] self.headers@[k].node != node,
            },
    {
        let mut k: usize = 0;
        while k < self.headers.len()
            invariant
                k <= self.headers@.len(),
                forall|j: int| 0 <= j < k ==> #[trigger] self.headers@[j].node != node,
            decreases self.headers@.len() - k,
        {
            if self.headers[k].node == node {
                return Some(k);
            }
            k = k + 1;
        }
        None
    }

    proof fn lemma_header_at(&self, k: int)
        requires
            self.wf(),
            0 <= k < self.headers@.len(),
        ensures
            self.header_at(self.headers@[k].node as int) == self.headers@[k].header,
    {
        let node = self.headers@[k].node as int;
        let c = choose|j: int| 0 <= j < self.headers@.len() && #[trigger] self.headers@[j].node == node;
        if c != k {
            if c < k {
                assert(self.headers@[c].node != self.headers@[k].node);
            } else {
                assert(self.headers@[k].node != self.headers@[c].node);
            }
        }
    }

    proof fn lemma_same_headers(&self, other: &Self)
        requires
            self.headers@ == other.headers@,
        ensures
            self.same_headers(other),
    {
    }

    fn read_header(&self, node: usize) -> (h: SlabHeader)
        requires
            self.wf(),
        ensures
            h == self.header_at(node as int),
    {
        match self.find_header(node) {
            Some(k) => {
                proof { self.lemma_header_at(k as int); }
                self.headers[k].header
            },
            None => SlabHeader { tag: 0, bucket_plus_one: 0 },
        }
    }

    fn write_header(&mut self, node: usize, header: SlabHeader)
        requires
            old(self).wf(),
            header.tag != 0 ==> 1 <= header.bucket_plus_one <= NUM_CLASSES
                && node + HEADER_BYTES + class_size(header.bucket_plus_one - 1) <= usize::MAX
                && node % NODE_ALIGN == 0,
        ensures
            final(self).wf(),
            forall|n: int| #[trigger] final(self).header_at(n) == (if n == node { header } else { old(self).header_at(n) }),
            final(self).same_lists(&*old(self)),
            final(self).stats_spec() == old(self).stats_spec(),
    {
        let ghost old_headers = self.headers@;
        match self.find_header(node) {
            Some(k) => {
                self.headers.set(k, HeaderRecord { node, header });
                proof {
                    assert forall|n: int| #[trigger] self.header_at(n) == (if n == node { header } else { old(self).header_at(n) }) by {
                        if n == node {
                            self.lemma_header_at(k as int);
                        } else {
                            if exists|j: int| 0 <= j < old_headers.len() && #[trigger] old_headers[j].node == n {
                                let j = choose|j: int| 0 <= j < old_headers.len() && #[trigger] old_headers[j].node == n;
                                old(self).lemma_header_at(j);
                                self.lemma_header_at(j);
                            } else {
                                assert(!exists|j: int| 0 <= j < self.headers@.len() && #[trigger] self.headers@[j].node == n) by {
                                    if exists|j: int| 0 <= j < self.headers@.len() && #[trigger] self.headers@[j].node == n {
                                        let j = choose|j: int| 0 <= j < self.headers@.len() && #[trigger] self.headers@[j].node == n;
                                        assert(old_headers[j].node == n);
                                    }
                                }
                            }
                        }
                    }
                }
            },
            None => {
                self.headers.push(HeaderRecord { node, header });
                proof {
                    let last = old_headers.len() as int;
                    assert forall|n: int| #[trigger] self.header_at(n) == (if n == node { header } else { old(self).header_at(n) }) by {
                        if n == node {
                            self.lemma_header_at(last);
                        } else {
                            if exists|j: int| 0 <= j < old_headers.len() && #[trigger] old_headers[j].node == n {
                                let j = choose|j: int| 0 <= j < old_headers.len() && #[trigger] old_headers[j].node == n;
                                old(self).lemma_header_at(j);
                                self.lemma_header_at(j);
                            } else {
                                assert(!exists|j: int| 0 <= j < self.headers@.len() && #[trigger] self.headers@[j].node == n) by {
                                    if exists|j: int| 0 <= j < self.headers@.len() && #[trigger] self.headers@[j].node == n {
                                        let j = choose|j: int| 0 <= j < self.headers@.len() && #[trigger] self.headers@[j].node == n;
                                        if j < last {
                                            assert(old_headers[j].node == n);
                                        }
                                    }
                                }
                            }
                        }
                    }
                }
            },
        }
    }
}

/// Memory a request of `size` bytes aligned to `align` needs from the
/// backing region to be computed without overflow: for a request above the
/// largest class, the request itself; for a class whose free list is empty,
/// a fresh node of that class.
pub open spec fn slab_request_ok(heap: &SlabHeap, bump: BumpAllocator, size: usize, align: usize) -> bool {
    &&& size <= isize::MAX
    &&& align > 0
    &&& size > LARGEST_CLASS ==> bump_can_try(bump, size, align)
    &&& forall|b: int| #[trigger] is_bucket_of(size as int, b) && heap.free_list(b).len() == 0 ==>
        bump_can_try(bump, (HEADER_BYTES + class_size(b)) as usize, NODE_ALIGN)
}

/// The outcome of `SlabHeap::allocate` for a request of `size` bytes
/// aligned to `align`: from heap `h0` and backing region `b0` to heap `h1`,
/// region `b1` and returned address `r`.
pub open spec fn allocate_post(h0: SlabHeap, b0: BumpAllocator, size: usize, align: usize, h1: SlabHeap, b1: BumpAllocator, r: usize) -> bool {
    &&& h1.wf()
    &&& size <= LARGEST_CLASS && r != 0 ==> r % NODE_ALIGN == 0
    &&& h1.stats_spec().alloc_count == bumped(h0.stats_spec().alloc_count)
    &&& h1.stats_spec().dealloc_count == h0.stats_spec().dealloc_count
    &&& h1.stats_spec().tag_mismatches == h0.stats_spec().tag_mismatches
    &&& size > LARGEST_CLASS ==> {
        &&& (r, b1) == bump_step(b0, size, align)
        &&& h1.stats_spec().slab_misses == bumped(h0.stats_spec().slab_misses)
        &&& h1.stats_spec().slab_hits == h0.stats_spec().slab_hits
        &&& h1.same_lists(&h0)
        &&& h1.same_headers(&h0)
    }
    &&& forall|b: int| #[trigger] is_bucket_of(size as int, b) ==> {
        let list = h0.free_list(b);
        &&& h1.stats_spec().slab_misses == h0.stats_spec().slab_misses
        &&& forall|c: int| 0 <= c < NUM_CLASSES && c != b ==> #[trigger] h1.free_list(c) == h0.free_list(c)
        &&& list.len() > 0 ==> {
            &&& r == list.last() + HEADER_BYTES
            &&& h1.free_list(b) == list.drop_last()
            &&& h1.stats_spec().slab_hits == bumped(h0.stats_spec().slab_hits)
            &&& b1 == b0
            &&& forall|n: int| #[trigger] h1.header_at(n) == (if n == list.last() {
                    SlabHeader { tag: avalanche_spec(size, align), bucket_plus_one: (b + 1) as u8 }
                } else { h0.header_at(n) })
        }
        &&& list.len() == 0 ==> {
            let (node, nb) = bump_step(b0, (HEADER_BYTES + class_size(b)) as usize, NODE_ALIGN);
            &&& b1 == nb
            &&& h1.free_list(b) == list
            &&& h1.stats_spec().slab_hits == h0.stats_spec().slab_hits
            &&& node == 0 ==> r == 0 && h1.same_headers(&h0)
            &&& node != 0 ==> r == node + HEADER_BYTES
                && forall|n: int| #[trigger] h1.header_at(n) == (if n == node {
                    SlabHeader { tag: avalanche_spec(size, align), bucket_plus_one: (b + 1) as u8 }
                } else { h0.header_at(n) })
        }
    }
}

impl SlabHeap {
    /// Serves `size` bytes aligned to `align` and returns the usable
    /// address, or 0 on failure. A request above the largest class goes to
    /// the backing region unchanged (a miss). Otherwise the smallest class
    /// that holds it pops the newest node of its free list (a hit), or, when
    /// that list is empty, carves a fresh 16-aligned node from the backing
    /// region; the node's header is stamped with the request's tag and the
    /// class, and the address past the header is returned.
    pub fn allocate(&mut self, size: usize, align: usize, bump: &mut BumpAllocator) -> (r: usize)
        requires
            old(self).wf(),
            slab_request_ok(&*old(self), *old(bump), size, align),
        ensures
            allocate_post(*old(self), *old(bump), size, align, *final(self), *final(bump), r),
    {
        self.alloc_count = bump_counter(self.alloc_count);
        let bucket_idx = match bucket_of(size) {
            Some(i) => i,
            None => {
                self.slab_misses = bump_counter(self.slab_misses);
                return bump.bump_alloc_bytes(size, align);
            }
        };
        assert(is_bucket_of(size as int, bucket_idx as int));
        proof {
            assert forall|b: int| #[trigger] is_bucket_of(size as int, b) implies b == bucket_idx by {
                if b < bucket_idx {
                    assert(size > class_size(b));
                } else if b > bucket_idx {
                    assert(size > class_size(bucket_idx as int));
                }
            }
        }
        let ghost list = self.free_list(bucket_idx as int);
        let node: usize;
        if self.buckets[bucket_idx].len() > 0 {
            node = self.buckets[bucket_idx].pop().unwrap();
            self.slab_hits = bump_counter(self.slab_hits);
            assert(node == list.last());
        } else {
            let class_size_bytes = slab_class(bucket_idx);
            node = bump.bump_alloc_bytes(HEADER_BYTES + class_size_bytes, NODE_ALIGN);
            if node == 0 {
                return 0;
            }
            proof {
                lemma_round_up_aligned(old(bump).next as int, NODE_ALIGN as int);
            }
        }
        proof {
            self.lemma_same_headers(&*old(self));
        }
        let tag = avalanche_hash(size, align);
        self.write_header(node, SlabHeader { tag, bucket_plus_one: (bucket_idx + 1) as u8 });
        node + HEADER_BYTES
    }
}

proof fn lemma_round_up_aligned(n: int, a: int)
    requires
        n >= 0,
        a > 0,
    ensures
        round_up(n, a) % a == 0,
{
    if n % a != 0 {
        vstd::arithmetic::div_mod::lemma_fundamental_div_mod(n, a);
        assert(n + a - n % a == a * (n / a + 1)) by (nonlinear_arith)
            requires n == a * (n / a) + n % a;
        vstd::arithmetic::div_mod::lemma_mod_multiples_basic(n / a + 1, a);
        assert((n / a + 1) * a == a * (n / a + 1)) by (nonlinear_arith);
    }
}

/// The outcome of `SlabHeap::dealloc` of `ptr` for a request of `size`
/// bytes aligned to `align`: from heap `h0` to heap `h1`.
pub open spec fn dealloc_post(h0: SlabHeap, ptr: usize, size: usize, align: usize, h1: SlabHeap) -> bool {
    &&& h1.wf()
    &&& h1.stats_spec().dealloc_count == bumped(h0.stats_spec().dealloc_count)
    &&& h1.stats_spec().alloc_count == h0.stats_spec().alloc_count
    &&& h1.stats_spec().slab_hits == h0.stats_spec().slab_hits
    &&& h1.stats_spec().slab_misses == h0.stats_spec().slab_misses
    &&& ({
        let node = ptr - HEADER_BYTES;
        let h = h0.header_at(node);
        let b = h.bucket_plus_one - 1;
        &&& h.tag != avalanche_spec(size, align) ==> {
            &&& h1.stats_spec().tag_mismatches == bumped(h0.stats_spec().tag_mismatches)
            &&& h1.same_lists(&h0)
            &&& h1.same_headers(&h0)
        }
        &&& h.tag == avalanche_spec(size, align) ==> {
            &&& 0 <= b < NUM_CLASSES
            &&& h1.stats_spec().tag_mismatches == h0.stats_spec().tag_mismatches
            &&& h1.free_list(b) == h0.free_list(b).push(node as usize)
            &&& forall|c: int| 0 <= c < NUM_CLASSES && c != b ==> #[trigger] h1.free_list(c) == h0.free_list(c)
            &&& forall|n: int| #[trigger] h1.header_at(n) == (if n == node {
                    SlabHeader { tag: 0, bucket_plus_one: 0 }
                } else { h0.header_at(n) })
        }
    })
}

impl SlabHeap {
    /// Takes back the block at `ptr` for a request of `size` bytes aligned
    /// to `align`. When the header in front of `ptr` carries the tag of that
    /// request, the node goes on top of its class's free list and its
    /// header is cleared; otherwise (a double free, a foreign pointer, a
    /// block from the backing region, or a wrong size) the block is kept
    /// out of every list and a tag mismatch is counted.
    pub fn dealloc(&mut self, ptr: usize, size: usize, align: usize)
        requires
            old(self).wf(),
            ptr >= HEADER_BYTES,
        ensures
            dealloc_post(*old(self), ptr, size, align, *final(self)),
    {
        self.dealloc_count = bump_counter(self.dealloc_count);
        let node = ptr - HEADER_BYTES;
        let h = self.read_header(node);
        let expected = avalanche_hash(size, align);
        if h.tag != expected {
            self.tag_mismatches = bump_counter(self.tag_mismatches);
            proof {
                self.lemma_same_headers(&*old(self));
            }
            return;
        }
        proof {
            let k = choose|k: int| 0 <= k < self.headers@.len() && #[trigger] self.headers@[k].node == node;
            if !exists|k: int| 0 <= k < self.headers@.len() && #[trigger] self.headers@[k].node == node {
                assert(h.tag == 0);
            } else {
                self.lemma_header_at(k);
            }
        }
        let bucket_idx = (h.bucket_plus_one - 1) as usize;
        self.buckets[bucket_idx].push(node);
        proof {
            self.lemma_same_headers(&*old(self));
        }
        self.write_header(node, SlabHeader { tag: 0, bucket_plus_one: 0 });
    }

    /// A snapshot of the counters.
    pub fn stats(&self) -> (s: SlabStats)
        ensures
            s == self.stats_spec(),
    {
        SlabStats {
            alloc_count: self.alloc_count,
            dealloc_count: self.dealloc_count,
            slab_hits: self.slab_hits,
            slab_misses: self.slab_misses,
            tag_mismatches: self.tag_mismatches,
        }
    }
}

/// A slab heap together with its backing bump region: the state the kernel
/// allocator serializes behind its lock.
pub struct SlabLocked {
    pub heap: SlabHeap,
    pub bump: BumpAllocator,
}

impl SlabLocked {
    /// Empty lists, zero counters, no backing region.
    pub fn new() -> (s: Self)
        ensures
            s.heap.wf(),
            forall|b: int| 0 <= b < NUM_CLASSES ==> #[trigger] s.heap.free_list(b).len() == 0,
            s.heap.stats_spec() == (SlabStats { alloc_count: 0, dealloc_count: 0, slab_hits: 0, slab_misses: 0, tag_mismatches: 0 }),
            s.bump == BumpAllocator::new_spec(),
    {
        SlabLocked { heap: SlabHeap::new(), bump: BumpAllocator::new() }
    }

    /// Points the backing region at `start..start + size`.
    pub fn init(&mut self, start: usize, size: usize)
        requires
            start + size <= usize::MAX,
        ensures
            final(self).heap == old(self).heap,
            final(self).bump == (BumpAllocator { heap_start: start, heap_end: (start + size) as usize, next: start, ..old(self).bump }),
    {
        self.bump.init(start, size);
    }

    /// Serves a request through the slab heap; see `SlabHeap::allocate`.
    pub fn allocate(&mut self, size: usize, align: usize) -> (r: usize)
        requires
            old(self).heap.wf(),
            slab_request_ok(&old(self).heap, old(self).bump, size, align),
        ensures
            allocate_post(old(self).heap, old(self).bump, size, align, final(self).heap, final(self).bump, r),
    {
        let SlabLocked { heap, bump } = self;
        heap.allocate(size, align, bump)
    }

    /// Returns a block through the slab heap; see `SlabHeap::dealloc`.
    pub fn dealloc(&mut self, ptr: usize, size: usize, align: usize)
        requires
            old(self).heap.wf(),
            ptr >= HEADER_BYTES,
        ensures
            dealloc_post(old(self).heap, ptr, size, align, final(self).heap),
            final(self).bump == old(self).bump,
    {
        self.heap.dealloc(ptr, size, align);
    }

    /// A snapshot of the counters.
    pub fn stats(&self) -> (s: SlabStats)
        ensures
            s == self.heap.stats_spec(),
    {
        self.heap.stats()
    }
}

/// A block that was taken back without a mismatch cannot be taken back a
/// second time: its header was cleared, and no request tag is zero, so the
/// second free is counted as a mismatch and changes no list.
pub proof fn law_double_free_detected(h: SlabHeader, size: usize, align: usize)
    requires
        h == (SlabHeader { tag: 0, bucket_plus_one: 0 }),
    ensures
        h.tag != avalanche_spec(size, align),
{
    let x0 = (size as u64).wrapping_mul(0x9E3779B97F4A7C15u64) ^ ((align as u64) << 32u64);
    let x1 = x0 ^ (x0 >> 27u64);
    let x2 = x1.wrapping_mul(0x2545F4914F6CDD1Du64);
    let x3 = x2 ^ (x2 >> 28u64);
    assert(x3 | 0x8000_0000_0000_0001u64 != 0) by (bit_vector);
}

/// Last in, first out: the node a free pushes onto its class's list is the
/// one the next request of that class pops, and the address handed out is
/// the one that was freed.
pub proof fn law_free_then_alloc_same_block(list: Seq<usize>, ptr: usize)
    requires
        ptr >= HEADER_BYTES,
    ensures
        list.push((ptr - HEADER_BYTES) as usize).last() + HEADER_BYTES == ptr,
        list.push((ptr - HEADER_BYTES) as usize).drop_last() == list,
{
    assert(list.push((ptr - HEADER_BYTES) as usize).drop_last() =~= list);
}

/// The size class that serves `size`.
pub open spec fn class_of(size: int) -> int {
    if size <= 16 { 0 } else if size <= 32 { 1 } else if size <= 64 { 2 } else if size <= 128 { 3 }
    else if size <= 256 { 4 } else if size <= 512 { 5 } else if size <= 1024 { 6 } else { 7 }
}

proof fn lemma_class_of(size: int)
    requires
        0 <= size <= LARGEST_CLASS,
    ensures
        is_bucket_of(size, class_of(size)),
{
}

/// A round trip through the slab heap: a block served for a request of at
/// most the largest class, then freed with the same size and alignment, is
/// the very block the next such request gets back. That request takes
/// nothing from the backing region, counts one hit more, and leaves every
/// free list as it was after the first request.
pub proof fn law_slab_round_trip(
    h0: SlabHeap, b0: BumpAllocator, size: usize, align: usize, h1: SlabHeap, b1: BumpAllocator, p: usize,
    h2: SlabHeap, h3: SlabHeap, b3: BumpAllocator, r: usize,
)
    requires
        size <= LARGEST_CLASS,
        allocate_post(h0, b0, size, align, h1, b1, p),
        p != 0,
        dealloc_post(h1, p, size, align, h2),
        allocate_post(h2, b1, size, align, h3, b3, r),
    ensures
        r == p,
        p % NODE_ALIGN == 0,
        b3 == b1,
        h3.stats_spec().slab_hits == bumped(h1.stats_spec().slab_hits),
        h3.stats_spec().slab_misses == h1.stats_spec().slab_misses,
        h3.stats_spec().alloc_count == bumped(h1.stats_spec().alloc_count),
        h3.stats_spec().dealloc_count == bumped(h1.stats_spec().dealloc_count),
        h3.same_lists(&h1),
{
    let b = class_of(size as int);
    lemma_class_of(size as int);
    let node = p - HEADER_BYTES;
    let hdr = SlabHeader { tag: avalanche_spec(size, align), bucket_plus_one: (b + 1) as u8 };
    let list0 = h0.free_list(b);
    if list0.len() > 0 {
        assert(h1.header_at(list0.last() as int) == hdr);
    } else {
        let (nd, nb) = bump_step(b0, (HEADER_BYTES + class_size(b)) as usize, NODE_ALIGN);
        assert(nd != 0);
        assert(h1.header_at(nd as int) == hdr);
    }
    assert(h1.header_at(node) == hdr);
    assert(h2.free_list(b) == h1.free_list(b).push(node as usize));
    assert(h2.free_list(b).last() == node);
    assert(h2.free_list(b).drop_last() =~= h1.free_list(b));
    assert forall|c: int| 0 <= c < NUM_CLASSES implies #[trigger] h3.free_list(c) == h1.free_list(c) by {
        if c != b {
            assert(h2.free_list(c) == h1.free_list(c));
        }
    }
}

/// Counters of a slab heap.
#[derive(Debug, Clone, Copy, PartialEq, Eq, Structural)]
pub struct SlabStats {
    pub alloc_count: usize,
    pub dealloc_count: usize,
    pub slab_hits: usize,
    pub slab_misses: usize,
    pub tag_mismatches: usize,
}

} // verus!
