use vstd::prelude::*;

verus! {

/// `n` rounded up to the next multiple of `align`.
pub open spec fn round_up(n: int, align: int) -> int
    recommends
        align > 0,
{
    if n % align == 0 {
        n
    } else {
        n + align - n % align
    }
}

/// Rounding `n` up to a multiple of `align` in machine arithmetic, as
/// `n + align - n % align`, stays within `usize`.
pub open spec fn round_up_fits(n: usize, align: usize) -> bool {
    n % align == 0 || n + align <= usize::MAX
}

/// A bump allocator over the address range `heap_start..heap_end`.
/// Addresses are handed out in increasing order and never reused.
#[derive(Debug, Clone, Copy, PartialEq, Eq, Structural)]
pub struct BumpAllocator {
    pub heap_start: usize,
    pub heap_end: usize,
    pub next: usize,
    pub allocations: usize,
}

/// A bump request of `size` bytes aligned to `align` can be computed
/// without overflow from the state `b`.
pub open spec fn bump_can_try(b: BumpAllocator, size: usize, align: usize) -> bool {
    &&& align > 0
    &&& b.heap_start != 0 ==> round_up_fits(b.next, align)
    &&& b.heap_start != 0 ==> round_up(b.next as int, align as int) + size <= usize::MAX
    &&& b.allocations < usize::MAX
}

/// The address returned by a bump request, and the allocator after it:
/// 0 and no change when there is no region or the block would pass
/// `heap_end`.
pub open spec fn bump_step(b: BumpAllocator, size: usize, align: usize) -> (usize, BumpAllocator) {
    let start = round_up(b.next as int, align as int);
    if b.heap_start != 0 && start + size <= b.heap_end {
        (start as usize, BumpAllocator { next: (start + size) as usize, allocations: (b.allocations + 1) as usize, ..b })
    } else {
        (0, b)
    }
}

impl BumpAllocator {
    /// The allocator with no region.
    pub open spec fn new_spec() -> Self {
        BumpAllocator { heap_start: 0, heap_end: 0, next: 0, allocations: 0 }
    }

    /// An allocator with no region; every allocation from it fails.
    pub fn new() -> (b: Self)
        ensures
            b == Self::new_spec(),
    {
        BumpAllocator { heap_start: 0, heap_end: 0, next: 0, allocations: 0 }
    }

    /// Points the allocator at the region `start..start + size`; the count of
    /// allocations is kept.
    pub fn init(&mut self, start: usize, size: usize)
        requires
            start + size <= usize::MAX,
        ensures
            final(self).heap_start == start,
            final(self).heap_end == start + size,
            final(self).next == start,
            final(self).allocations == old(self).allocations,
    {
        self.heap_start = start;
        self.heap_end = start + size;
        self.next = start;
    }

    /// Takes `size` bytes aligned to `align` from the region. Returns the
    /// start address, or 0 when the allocator has no region or the request
    /// does not fit before `heap_end`.
    pub fn bump_alloc_bytes(&mut self, size: usize, align: usize) -> (r: usize)
        requires
            bump_can_try(*old(self), size, align),
        ensures
            (r, *final(self)) == bump_step(*old(self), size, align),
    {
        if self.heap_start == 0 {
            return 0;
        }
        let next = self.next;
        let rem = next % align;
        let start = if rem == 0 { next } else { next + align - rem };
        let end = start + size;
        if end <= self.heap_end {
            self.next = end;
            self.allocations = self.allocations + 1;
            start
        } else {
            0
        }
    }
}

/// The global-heap policy over a bump region: aligned, saturating bounds
/// check, and frees that never give memory back.
pub struct AtomHeap(pub BumpAllocator);

impl AtomHeap {
    /// Takes `size` bytes aligned to `align`. The end of the block is
    /// computed with saturation; returns the start address, or 0 when that
    /// end lies past `heap_end`.
    pub fn allocate(&mut self, size: usize, align: usize) -> (r: usize)
        requires
            align > 0,
            round_up_fits(old(self).0.next, align),
            old(self).0.allocations < usize::MAX,
        ensures
            ({
                let start = round_up(old(self).0.next as int, align as int);
                let end = if start + size <= usize::MAX { start + size } else { usize::MAX as int };
                let fits = end <= old(self).0.heap_end;
                &&& fits ==> r == start && final(self).0.next == end
                        && final(self).0.allocations == old(self).0.allocations + 1
                        && final(self).0.heap_start == old(self).0.heap_start
                        && final(self).0.heap_end == old(self).0.heap_end
                &&& !fits ==> r == 0 && *final(self) == *old(self)
            }),
    {
        let next = self.0.next;
        let remainder = next % align;
        let alloc_start = if remainder == 0 { next } else { next + align - remainder };
        let alloc_end = alloc_start.saturating_add(size);
        if alloc_end <= self.0.heap_end {
            self.0.next = alloc_end;
            self.0.allocations = self.0.allocations + 1;
            alloc_start
        } else {
            0
        }
    }

    /// Frees nothing: a bump region cannot take single blocks back, so the
    /// state is left as it was.
    pub fn dealloc(&mut self, ptr: usize, size: usize, align: usize)
        ensures
            *final(self) == *old(self),
    {
    }
}

/// Number of blocks in a `MemoryPool`.
pub const POOL_BLOCKS: usize = 1024;

/// A pool of 1024 numbered blocks; `true` marks a free block.
pub struct MemoryPool {
    pub blocks: [bool; 1024],
}

impl MemoryPool {
    /// All blocks free.
    pub fn new() -> (p: Self)
        ensures
            forall|i: int| 0 <= i < POOL_BLOCKS ==> p.blocks[i],
    {
        MemoryPool { blocks: [true; 1024] }
    }

    /// Takes the lowest-numbered free block, or returns `None` when every
    /// block is taken.
    pub fn allocate(&mut self) -> (r: Option<usize>)
        ensures
            match r {
                Some(i) => {
                    &&& i < POOL_BLOCKS
                    &&& old(self).blocks[i as int]
                    &&& forall|j: int| 0 <= j < i ==> !old(self).blocks[j]
                    &&& final(self).blocks@ == old(self).blocks@.update(i as int, false)
                },
                None => {
                    &&& forall|j: int| 0 <= j < POOL_BLOCKS ==> !old(self).blocks[j]
                    &&& final(self).blocks@ == old(self).blocks@
                },
            },
    {
        let mut i: usize = 0;
        while i < POOL_BLOCKS
            invariant
                i <= POOL_BLOCKS,
                self.blocks@ == old(self).blocks@,
                forall|j: int| 0 <= j < i ==> !old(self).blocks[j],
            decreases POOL_BLOCKS - i,
        {
            if self.blocks[i] {
                self.blocks[i] = false;
                return Some(i);
            }
            i = i + 1;
        }
        None
    }
}

/// Bytes in one physical frame.
pub const FRAME_SIZE: usize = 4096;
/// The most frames a `FrameAllocator` tracks.
pub const FRAMES_MAX: usize = 16384;

/// Hands out 4 KiB physical frames from the pool `base..base + count * 4096`.
pub struct FrameAllocator {
    base: usize,
    count: usize,
    frames: [bool; 16384],
}

impl FrameAllocator {
    pub closed spec fn wf(&self) -> bool {
        &&& self.count <= FRAMES_MAX
        &&& self.base + self.count * FRAME_SIZE <= usize::MAX
    }

    /// Physical address of the first frame.
    pub closed spec fn base_spec(&self) -> nat {
        self.base as nat
    }

    /// Number of frames in the pool.
    pub closed spec fn count_spec(&self) -> nat {
        self.count as nat
    }

    /// Frame `i` of the pool is free.
    pub closed spec fn is_free(&self, i: int) -> bool {
        0 <= i < self.count && self.frames[i]
    }

    /// Only frames of the pool can be free.
    pub proof fn lemma_free_in_pool(&self, i: int)
        ensures
            self.is_free(i) ==> 0 <= i < self.count_spec(),
    {
    }

    /// Physical address of frame `i`.
    pub open spec fn frame_addr(&self, i: int) -> int {
        self.base_spec() + i * FRAME_SIZE
    }

    /// Frames `start..start + n` all lie in the pool and are free.
    pub open spec fn run_free(&self, start: int, n: int) -> bool {
        &&& 0 <= start
        &&& start + n <= self.count_spec()
        &&& forall|k: int| start <= k < start + n ==> #[trigger] self.is_free(k)
    }

    /// Same pool, and freedom changed only as `changed` says.
    pub open spec fn same_pool(&self, other: &Self) -> bool {
        self.base_spec() == other.base_spec() && self.count_spec() == other.count_spec()
    }

    /// An allocator with an empty pool: no frame is free.
    pub fn new() -> (a: Self)
        ensures
            a.wf(),
            a.count_spec() == 0,
            a.base_spec() == 0,
            forall|i: int| !#[trigger] a.is_free(i),
    {
        FrameAllocator { base: 0, count: 0, frames: [true; 16384] }
    }

    /// Takes the pool `base_phys..`, of `num_frames` frames but at most
    /// `FRAMES_MAX`, with every frame free.
    pub fn init(&mut self, base_phys: usize, num_frames: usize)
        requires
            base_phys + (if num_frames < FRAMES_MAX { num_frames } else { FRAMES_MAX }) * FRAME_SIZE <= usize::MAX,
        ensures
            final(self).wf(),
            final(self).base_spec() == base_phys,
            final(self).count_spec() == (if num_frames < FRAMES_MAX { num_frames } else { FRAMES_MAX }),
            forall|i: int| #[trigger] final(self).is_free(i) == (0 <= i < final(self).count_spec()),
    {
        self.base = base_phys;
        self.count = if num_frames < FRAMES_MAX { num_frames } else { FRAMES_MAX };
        let mut i: usize = 0;
        while i < FRAMES_MAX
            invariant
                i <= FRAMES_MAX,
                self.base == base_phys,
                self.count == (if num_frames < FRAMES_MAX { num_frames } else { FRAMES_MAX }),
                forall|j: int| 0 <= j < i ==> self.frames[j] == (j < self.count),
            decreases FRAMES_MAX - i,
        {
            self.frames[i] = i < self.count;
            i = i + 1;
        }
    }

    /// Takes the lowest free frame and returns its physical address, or
    /// `None` when every frame of the pool is in use.
    pub fn alloc_frame(&mut self) -> (r: Option<u64>)
        requires
            old(self).wf(),
        ensures
            final(self).wf(),
            final(self).same_pool(&*old(self)),
            match r {
                Some(a) => exists|i: int| {
                    &&& #[trigger] old(self).is_free(i)
                    &&& a == old(self).frame_addr(i)
                    &&& forall|j: int| 0 <= j < i ==> !old(self).is_free(j)
                    &&& forall|j: int| #[trigger] final(self).is_free(j) == (old(self).is_free(j) && j != i)
                },
                None => {
                    &&& forall|j: int| !#[trigger] old(self).is_free(j)
                    &&& forall|j: int| #[trigger] final(self).is_free(j) == old(self).is_free(j)
                },
            },
    {
        let mut i: usize = 0;
        while i < self.count
            invariant
                self.wf(),
                self.base == old(self).base,
                self.count == old(self).count,
                self.frames@ == old(self).frames@,
                i <= self.count,
                forall|j: int| 0 <= j < i ==> !old(self).is_free(j),
            decreases self.count - i,
        {
            if self.frames[i] {
                self.frames[i] = false;
                proof {
                    assert(i * FRAME_SIZE <= self.count * FRAME_SIZE) by (nonlinear_arith)
                        requires i <= self.count;
                }
                let a = (self.base + i * FRAME_SIZE) as u64;
                assert(old(self).is_free(i as int));
                return Some(a);
            }
            i = i + 1;
        }
        None
    }

    /// Takes the lowest-starting run of `n` adjacent free frames and returns
    /// the physical address of its first frame, or `None` when `n` is 0 or
    /// no such run exists.
    pub fn alloc_contiguous(&mut self, n: usize) -> (r: Option<u64>)
        requires
            old(self).wf(),
        ensures
            final(self).wf(),
            final(self).same_pool(&*old(self)),
            match r {
                Some(a) => exists|s: int| {
                    &&& #[trigger] old(self).run_free(s, n as int)
                    &&& a == old(self).frame_addr(s)
                    &&& n > 0
                    &&& forall|t: int| 0 <= t < s ==> !old(self).run_free(t, n as int)
                    &&& forall|j: int| #[trigger] final(self).is_free(j) == (old(self).is_free(j) && !(s <= j < s + n))
                },
                None => {
                    &&& (n == 0 || forall|t: int| !#[trigger] old(self).run_free(t, n as int))
                    &&& forall|j: int| #[trigger] final(self).is_free(j) == old(self).is_free(j)
                },
            },
    {
        if n == 0 {
            return None;
        }
        let mut run_start: usize = 0;
        let mut run_len: usize = 0;
        let mut i: usize = 0;
        while i < self.count
            invariant
                self.wf(),
                self.base == old(self).base,
                self.count == old(self).count,
                self.frames@ == old(self).frames@,
                n > 0,
                i <= self.count,
                run_len < n,
                run_len <= i,
                run_len > 0 ==> run_start + run_len == i,
                forall|k: int| i - run_len <= k < i ==> old(self).is_free(k),
                i - run_len > 0 ==> !old(self).is_free(i - run_len - 1),
                forall|t: int| 0 <= t && t + n <= i ==> !#[trigger] old(self).run_free(t, n as int),
            decreases self.count - i,
        {
            if self.frames[i] {
                if run_len == 0 {
                    run_start = i;
                }
                run_len = run_len + 1;
                if run_len == n {
                    let ghost s = run_start as int;
                    assert(old(self).run_free(s, n as int));
                    assert forall|t: int| 0 <= t < s implies !old(self).run_free(t, n as int) by {
                        if old(self).run_free(t, n as int) {
                            if t + n <= i {
                            } else {
                                assert(old(self).is_free(s - 1));
                            }
                        }
                    }
                    let mut j: usize = run_start;
                    while j < run_start + n
                        invariant
                            self.wf(),
                            self.base == old(self).base,
                            self.count == old(self).count,
                            s == run_start,
                            run_start + n <= self.count,
                            run_start <= j <= run_start + n,
                            forall|k: int| 0 <= k < FRAMES_MAX ==>
                                self.frames[k] == (if run_start <= k < j { false } else { old(self).frames[k] }),
                        decreases run_start + n - j,
                    {
                        self.frames[j] = false;
                        j = j + 1;
                    }
                    proof {
                        assert(run_start * FRAME_SIZE <= self.count * FRAME_SIZE) by (nonlinear_arith)
                            requires run_start <= self.count;
                    }
                    let a = (self.base + run_start * FRAME_SIZE) as u64;
                    assert forall|j: int| #[trigger] self.is_free(j) == (old(self).is_free(j) && !(s <= j < s + n)) by {}
                    return Some(a);
                }
            } else {
                run_len = 0;
            }
            proof {
                assert forall|t: int| 0 <= t && t + n <= i + 1 implies !#[trigger] old(self).run_free(t, n as int) by {
                    if t + n == i + 1 && old(self).run_free(t, n as int) {
                        assert(old(self).is_free(i as int));
                        assert(old(self).is_free(i - run_len - 1));
                    }
                }
            }
            i = i + 1;
        }
        proof {
            assert forall|t: int| !#[trigger] old(self).run_free(t, n as int) by {
                if old(self).run_free(t, n as int) {
                    assert(t + n <= i);
                }
            }
        }
        None
    }

    /// Returns the frame at physical address `phys` to the pool. An address
    /// that is not the start of a pool frame is ignored.
    pub fn free_frame(&mut self, phys: u64)
        requires
            old(self).wf(),
        ensures
            final(self).wf(),
            final(self).same_pool(&*old(self)),
            ({
                let off = phys as int;
                let i = (off - old(self).base_spec()) / (FRAME_SIZE as int);
                let in_pool = old(self).base_spec() <= off && 0 <= i < old(self).count_spec()
                    && old(self).frame_addr(i) == off;
                &&& in_pool ==> forall|j: int| #[trigger] final(self).is_free(j) == (old(self).is_free(j) || j == i)
                &&& !in_pool ==> forall|j: int| #[trigger] final(self).is_free(j) == old(self).is_free(j)
            }),
    {
        if self.count == 0 {
            return;
        }
        let base = self.base as u64;
        if phys < base {
            return;
        }
        let i = (phys - base) / (FRAME_SIZE as u64);
        if i < self.count as u64 {
            let iu = i as usize;
            proof {
                assert(iu * FRAME_SIZE <= self.count * FRAME_SIZE) by (nonlinear_arith)
                    requires iu <= self.count;
            }
            if (self.base + iu * FRAME_SIZE) as u64 == phys {
                self.frames[iu] = true;
            }
        }
    }
}

/// A frame taken by `alloc_frame` and handed back to `free_frame` is free
/// again, and no other frame changed: the pool is back where it started.
pub proof fn law_alloc_then_free_restores(before: FrameAllocator, mid: FrameAllocator, after: FrameAllocator, i: int)
    requires
        before.wf(),
        mid.same_pool(&before),
        after.same_pool(&mid),
        before.is_free(i),
        forall|j: int| #[trigger] mid.is_free(j) == (before.is_free(j) && j != i),
        forall|j: int| #[trigger] after.is_free(j) == (mid.is_free(j) || j == i),
    ensures
        forall|j: int| #[trigger] after.is_free(j) == before.is_free(j),
{
}

} // verus!
