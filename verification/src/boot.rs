use vstd::prelude::*;
use crate::memory::FRAMES_MAX;

verus! {

/// What the bootloader hands the kernel.
#[derive(Debug, Clone, Copy, PartialEq, Eq, Structural)]
pub struct BootInfo {
    pub physical_memory_offset: u64,
    pub kernel_start: u64,
    pub kernel_end: u64,
    pub memory_map_addr: u64,
    pub memory_map_len: u64,
}

/// Kind of a region of physical memory.
#[derive(Debug, Clone, Copy, PartialEq, Eq, Structural)]
pub enum MemoryRegionType {
    Usable,
    Reserved,
    AcpiReclaimable,
    AcpiNvs,
    BadMemory,
    Bootloader,
    Kernel,
    Framebuffer,
}

impl MemoryRegionType {
    /// The numeric code of the kind, 1 to 8 in declaration order.
    pub fn code(&self) -> (c: u32)
        ensures
            1 <= c <= 8,
            (c == 1) == (*self == MemoryRegionType::Usable),
    {
        match self {
            MemoryRegionType::Usable => 1,
            MemoryRegionType::Reserved => 2,
            MemoryRegionType::AcpiReclaimable => 3,
            MemoryRegionType::AcpiNvs => 4,
            MemoryRegionType::BadMemory => 5,
            MemoryRegionType::Bootloader => 6,
            MemoryRegionType::Kernel => 7,
            MemoryRegionType::Framebuffer => 8,
        }
    }
}

/// A half-open range `start..end`.
#[derive(Debug, Clone, Copy, PartialEq, Eq, Structural)]
pub struct MemoryRange {
    pub start: u64,
    pub end: u64,
}

/// A range of physical memory and its kind.
#[derive(Debug, Clone, Copy, PartialEq, Eq, Structural)]
pub struct MemoryRegion {
    pub range: MemoryRange,
    pub region_type: MemoryRegionType,
}

/// Where the kernel image lies.
#[derive(Debug, Clone, Copy, PartialEq, Eq, Structural)]
pub struct KernelInfo {
    pub start: u64,
    pub end: u64,
}

/// Load address of the kernel image: 2 MiB.
pub const KERNEL_LOAD_START: u64 = 0x200000;
/// End of the kernel image: 3 MiB.
pub const KERNEL_LOAD_END: u64 = 0x300000;
/// Where all physical memory is mapped in the higher half.
pub const HIGHER_HALF_OFFSET: u64 = 0xFFFF800000000000;

/// The kernel image location the bootloader assumes.
pub fn load_kernel() -> (k: KernelInfo)
    ensures
        k == (KernelInfo { start: KERNEL_LOAD_START, end: KERNEL_LOAD_END }),
{
    KernelInfo { start: KERNEL_LOAD_START, end: KERNEL_LOAD_END }
}

/// The boot information for `kernel`: physical memory mapped at the
/// higher-half offset, and no memory map yet.
#[allow(non_snake_case)]
pub fn prepare_bootInfo(kernel: KernelInfo) -> (b: BootInfo)
    ensures
        b == (BootInfo {
            physical_memory_offset: HIGHER_HALF_OFFSET,
            kernel_start: kernel.start,
            kernel_end: kernel.end,
            memory_map_addr: 0,
            memory_map_len: 0,
        }),
{
    BootInfo {
        physical_memory_offset: HIGHER_HALF_OFFSET,
        kernel_start: kernel.start,
        kernel_end: kernel.end,
        memory_map_addr: 0,
        memory_map_len: 0,
    }
}

/// Fewest frames a region needs to become the frame pool.
pub const MIN_POOL_FRAMES: u64 = 256;

/// Region `i`, with its range given in frame numbers, may hold the frame
/// pool: it is usable and has at least `MIN_POOL_FRAMES` frames.
pub open spec fn pool_candidate(regions: Seq<MemoryRegion>, i: int) -> bool {
    &&& 0 <= i < regions.len()
    &&& regions[i].region_type == MemoryRegionType::Usable
    &&& regions[i].range.end > regions[i].range.start
    &&& regions[i].range.end - regions[i].range.start >= MIN_POOL_FRAMES
}

/// Frames of region `i`.
pub open spec fn region_frames(regions: Seq<MemoryRegion>, i: int) -> int {
    regions[i].range.end - regions[i].range.start
}

/// Region `k` is the largest candidate, and the first of the largest.
pub open spec fn best_pool(regions: Seq<MemoryRegion>, k: int) -> bool {
    &&& pool_candidate(regions, k)
    &&& forall|i: int| #[trigger] pool_candidate(regions, i) ==> region_frames(regions, i) <= region_frames(regions, k)
    &&& forall|i: int| 0 <= i < k && #[trigger] pool_candidate(regions, i) ==> region_frames(regions, i) < region_frames(regions, k)
}

/// Picks the frame pool from the memory map, whose ranges are given in
/// frame numbers: the largest usable region of at least
/// `MIN_POOL_FRAMES` frames (the first one on a tie). Returns its physical
/// base address and its frame count, cut to `FRAMES_MAX`; `None` when no
/// region qualifies.
pub fn select_frame_pool(regions: &[MemoryRegion]) -> (r: Option<(usize, usize)>)
    requires
        forall|i: int| #[trigger] pool_candidate(regions@, i) ==> regions@[i].range.start * 4096 <= usize::MAX,
    ensures
        match r {
            Some((base, n)) => exists|k: int| #[trigger] best_pool(regions@, k)
                && base == regions@[k].range.start * 4096
                && n == (if region_frames(regions@, k) < FRAMES_MAX { region_frames(regions@, k) } else { FRAMES_MAX as int }),
            None => forall|i: int| !#[trigger] pool_candidate(regions@, i),
        },
{
    let mut best_start: u64 = 0;
    let mut best_len: u64 = 0;
    let mut best: Option<usize> = None;
    let mut i: usize = 0;
    while i < regions.len()
        invariant
            i <= regions@.len(),
            forall|j: int| #[trigger] pool_candidate(regions@, j) ==> regions@[j].range.start * 4096 <= usize::MAX,
            match best {
                Some(k) => k < i && pool_candidate(regions@, k as int)
                    && best_len == region_frames(regions@, k as int)
                    && best_start == regions@[k as int].range.start
                    && forall|j: int| 0 <= j < k && #[trigger] pool_candidate(regions@, j) ==> region_frames(regions@, j) < best_len,
                None => best_len == 0,
            },
            forall|j: int| 0 <= j < i && #[trigger] pool_candidate(regions@, j) ==> region_frames(regions@, j) <= best_len,
        decreases regions@.len() - i,
    {
        let region = regions[i];
        let usable = match region.region_type {
            MemoryRegionType::Usable => true,
            _ => false,
        };
        if usable {
            let s = region.range.start;
            let e = region.range.end;
            if e > s {
                let len = e - s;
                if len > best_len && len >= MIN_POOL_FRAMES {
                    best_len = len;
                    best_start = s;
                    best = Some(i);
                }
            }
        }
        i = i + 1;
    }
    match best {
        None => {
            assert forall|j: int| !#[trigger] pool_candidate(regions@, j) by {
                if pool_candidate(regions@, j) {
                    assert(region_frames(regions@, j) >= MIN_POOL_FRAMES);
                }
            }
            None
        },
        Some(k) => {
            assert(best_pool(regions@, k as int));
            let base = (best_start * 4096) as usize;
            let n = if best_len < FRAMES_MAX as u64 { best_len as usize } else { FRAMES_MAX };
            Some((base, n))
        },
    }
}

} // verus!
