use vstd::prelude::*;
use crate::memory::FrameAllocator;
use crate::paging::{ADDR_MASK, FLAG_PRESENT, FLAG_HUGE, FLAGS_USER_RW, index_at, walk_index, walk_step_spec, WalkStep};

verus! {

/// One piece of memory work of a segment mapping, for the caller to do on
/// the page tables in physical memory.
#[derive(Debug, Clone, Copy, PartialEq, Eq, Structural)]
pub enum MapAction {
    /// Read entry `index` of the table at physical address `table` and hand
    /// it to the next step.
    Read { table: u64, index: usize },
    /// Fill the frame at physical address `frame` with zeros.
    Zero { frame: u64 },
    /// Store `value` in entry `index` of the table at `table`.
    Write { table: u64, index: usize, value: u64 },
    /// A missing table could not be made: no frame was left.
    OutOfFrames,
    /// Every page of the segment is mapped.
    Done,
}

/// Where a segment mapping stands.
#[derive(Debug, Clone, Copy, PartialEq, Eq, Structural)]
pub enum MapPhase {
    /// About to read the entry of the current table, or at the last level
    /// to write the page's entry.
    Walk,
    /// Waiting for the entry just asked for.
    AwaitEntry,
    /// A fresh zeroed frame, to link into the current entry as the next table.
    Link(u64),
    /// Stopped for want of a frame.
    Failed,
}

/// The state of a segment mapping, as its contract sees it.
pub struct MapperView {
    /// Physical address of the top-level table.
    pub root: u64,
    /// Page-aligned start and end of the virtual range.
    pub start: u64,
    pub end: u64,
    /// Page-aligned physical address the start maps to.
    pub pstart: u64,
    /// The page being mapped, and the frame it maps to.
    pub vaddr: u64,
    pub paddr: u64,
    /// Level of `table`: 0 the top-level table, 3 the last level.
    pub level: u8,
    pub table: u64,
    pub phase: MapPhase,
}

/// Maps the pages of a virtual range one after another onto consecutive
/// frames, walking the four table levels of each page and making missing
/// tables from fresh frames. It does no memory access itself: each step
/// hands the caller one `MapAction`.
pub struct SegmentMapper {
    root: u64,
    start: u64,
    end: u64,
    pstart: u64,
    vaddr: u64,
    paddr: u64,
    level: u8,
    table: u64,
    phase: MapPhase,
}

/// The page-aligned start of `v`.
pub open spec fn page_floor(v: u64) -> u64 {
    v & !0xFFFu64
}

/// The page-aligned end of the range of `size` bytes from `v`.
pub open spec fn page_ceil_end(v: u64, size: usize) -> u64 {
    ((v + size + 0xFFF) as u64) & !0xFFFu64
}

/// The last-level entry that maps a page to the frame at `p`: present,
/// writable, user-accessible, executable.
pub open spec fn leaf_entry(p: u64) -> u64 {
    (p & ADDR_MASK) | FLAGS_USER_RW
}

/// The upper-level entry that links in the table at frame `f`.
pub open spec fn link_entry(f: u64) -> u64 {
    f | FLAGS_USER_RW
}

/// The index `v` uses in a table of `level`.
pub open spec fn level_index(v: u64, level: u8) -> usize {
    index_at(v, (39 - 9 * level) as u64) as usize
}

/// What the walk does at the state `m` in phase `Walk`: with the range
/// done, `Done`; above the last level, read the entry; at the last level,
/// write the page's entry and move to the next page from the top.
pub open spec fn walk_post(m: MapperView, m2: MapperView, a: MapAction) -> bool {
    if m.level == 0 && m.vaddr >= m.end {
        a == MapAction::Done && m2 == m
    } else if m.level < 3 {
        &&& a == (MapAction::Read { table: m.table, index: level_index(m.vaddr, m.level) })
        &&& m2 == (MapperView { phase: MapPhase::AwaitEntry, ..m })
    } else {
        &&& a == (MapAction::Write { table: m.table, index: level_index(m.vaddr, 3), value: leaf_entry(m.paddr) })
        &&& m2 == (MapperView {
            vaddr: (m.vaddr + 4096) as u64,
            paddr: (m.paddr + 4096) as u64,
            level: 0,
            table: m.root,
            phase: MapPhase::Walk,
            ..m
        })
    }
}

/// One step of a mapping from state `m` with frame allocator `fa` and the
/// answer `entry` to the last read: the state `m2`, allocator `fa2` and the
/// action `a` after it.
pub open spec fn next_post(m: MapperView, fa: FrameAllocator, entry: u64, m2: MapperView, fa2: FrameAllocator, a: MapAction) -> bool {
    match m.phase {
        MapPhase::Failed => a == MapAction::OutOfFrames && m2 == m && fa2 == fa,
        MapPhase::Link(f) => {
            &&& a == (MapAction::Write { table: m.table, index: level_index(m.vaddr, m.level), value: link_entry(f) })
            &&& m2 == (MapperView { level: (m.level + 1) as u8, table: f, phase: MapPhase::Walk, ..m })
            &&& fa2 == fa
        },
        MapPhase::Walk => walk_post(m, m2, a) && fa2 == fa,
        MapPhase::AwaitEntry =>
            if entry & FLAG_PRESENT != 0 {
                &&& walk_post(MapperView {
                        level: (m.level + 1) as u8,
                        table: entry & ADDR_MASK,
                        phase: MapPhase::Walk,
                        ..m
                    }, m2, a)
                &&& fa2 == fa
            } else {
                match a {
                    MapAction::Zero { frame } => {
                        &&& exists|i: int| {
                            &&& #[trigger] fa.is_free(i)
                            &&& frame == fa.frame_addr(i)
                            &&& forall|j: int| 0 <= j < i ==> !fa.is_free(j)
                            &&& forall|j: int| #[trigger] fa2.is_free(j) == (fa.is_free(j) && j != i)
                        }
                        &&& m2 == (MapperView { phase: MapPhase::Link(frame), ..m })
                    },
                    MapAction::OutOfFrames => {
                        &&& forall|j: int| !#[trigger] fa.is_free(j)
                        &&& forall|j: int| #[trigger] fa2.is_free(j) == fa.is_free(j)
                        &&& m2 == (MapperView { phase: MapPhase::Failed, ..m })
                    },
                    _ => false,
                }
            },
    }
}

impl View for SegmentMapper {
    type V = MapperView;

    closed spec fn view(&self) -> MapperView {
        MapperView {
            root: self.root,
            start: self.start,
            end: self.end,
            pstart: self.pstart,
            vaddr: self.vaddr,
            paddr: self.paddr,
            level: self.level,
            table: self.table,
            phase: self.phase,
        }
    }
}

impl MapperView {
    /// Pages mapped so far.
    pub open spec fn pages_done(self) -> int {
        (self.vaddr - self.start) / 4096
    }

    /// Pages in the range.
    pub open spec fn npages(self) -> int {
        (self.end - self.start) / 4096
    }

    pub open spec fn wf(self) -> bool {
        &&& self.level <= 3
        &&& self.start <= self.vaddr <= self.end
        &&& (self.vaddr - self.start) % 4096 == 0
        &&& (self.end - self.start) % 4096 == 0
        &&& self.paddr == self.pstart + (self.vaddr - self.start)
        &&& self.pstart + (self.end - self.start) <= u64::MAX
        &&& (self.level > 0 || self.phase != MapPhase::Walk) ==> self.vaddr < self.end
        &&& (self.phase == MapPhase::AwaitEntry || self.phase is Link) ==> self.level < 3
    }
}

/// Starts mapping the `size` bytes from `vaddr` to the frames from
/// `paddr`, in the address space whose top-level table is at `pml4_phys`:
/// the range is widened to whole pages, and page `k` of it goes to the
/// frame `k` pages after `paddr`'s.
pub fn map_segment(pml4_phys: u64, vaddr: u64, paddr: u64, size: usize) -> (m: SegmentMapper)
    requires
        vaddr + size + 0xFFF <= u64::MAX,
        page_floor(paddr) + (page_ceil_end(vaddr, size) - page_floor(vaddr)) <= u64::MAX,
    ensures
        m@.wf(),
        m@ == (MapperView {
            root: pml4_phys,
            start: page_floor(vaddr),
            end: page_ceil_end(vaddr, size),
            pstart: page_floor(paddr),
            vaddr: page_floor(vaddr),
            paddr: page_floor(paddr),
            level: 0,
            table: pml4_phys,
            phase: MapPhase::Walk,
        }),
{
    let start = vaddr & !0xFFFu64;
    let up: u64 = vaddr + size as u64 + 0xFFF;
    let end = up & !0xFFFu64;
    let pstart = paddr & !0xFFFu64;
    assert(start <= end && (end - start) % 4096 == 0) by (bit_vector)
        requires
            up >= vaddr,
            start == vaddr & !0xFFFu64,
            end == up & !0xFFFu64;
    SegmentMapper {
        root: pml4_phys,
        start,
        end,
        pstart,
        vaddr: start,
        paddr: pstart,
        level: 0,
        table: pml4_phys,
        phase: MapPhase::Walk,
    }
}

impl SegmentMapper {
    fn walk(&mut self) -> (a: MapAction)
        requires
            old(self)@.wf(),
            old(self)@.phase == MapPhase::Walk,
        ensures
            final(self)@.wf(),
            walk_post(old(self)@, final(self)@, a),
    {
        if self.level == 0 && self.vaddr >= self.end {
            return MapAction::Done;
        }
        let index = walk_index(self.level, self.vaddr);
        if self.level < 3 {
            self.phase = MapPhase::AwaitEntry;
            MapAction::Read { table: self.table, index }
        } else {
            let p = self.paddr;
            let a = MapAction::Write { table: self.table, index, value: (p & ADDR_MASK) | FLAGS_USER_RW };
            self.vaddr = self.vaddr + 4096;
            self.paddr = self.paddr + 4096;
            self.level = 0;
            self.table = self.root;
            a
        }
    }

    /// The next piece of work. After a `Read`, `entry` must be the entry
    /// read; otherwise it is not looked at. A present entry is followed to
    /// its table; a missing one gets a fresh frame from `fa`, which is
    /// zeroed and then linked in. `OutOfFrames` and `Done` repeat forever.
    pub fn next(&mut self, fa: &mut FrameAllocator, entry: u64) -> (a: MapAction)
        requires
            old(self)@.wf(),
            old(fa).wf(),
        ensures
            final(self)@.wf(),
            final(fa).wf(),
            final(fa).same_pool(&*old(fa)),
            next_post(old(self)@, *old(fa), entry, final(self)@, *final(fa), a),
    {
        match self.phase {
            MapPhase::Failed => MapAction::OutOfFrames,
            MapPhase::Link(f) => {
                let index = walk_index(self.level, self.vaddr);
                let a = MapAction::Write { table: self.table, index, value: f | FLAGS_USER_RW };
                self.level = self.level + 1;
                self.table = f;
                self.phase = MapPhase::Walk;
                a
            },
            MapPhase::Walk => self.walk(),
            MapPhase::AwaitEntry => {
                if entry & FLAG_PRESENT != 0 {
                    self.level = self.level + 1;
                    self.table = entry & ADDR_MASK;
                    self.phase = MapPhase::Walk;
                    self.walk()
                } else {
                    match fa.alloc_frame() {
                        Some(f) => {
                            self.phase = MapPhase::Link(f);
                            MapAction::Zero { frame: f }
                        },
                        None => {
                            self.phase = MapPhase::Failed;
                            MapAction::OutOfFrames
                        },
                    }
                }
            },
        }
    }
}

/// A walk step keeps count of the pages mapped: a page-entry write maps
/// page `k` of the range, `k` the pages done before it, to the frame `k`
/// pages after the first, and counts it; a read leaves the count alone;
/// `Done` comes exactly when every page is mapped.
pub proof fn law_pages_mapped_in_order(m: MapperView, m2: MapperView, a: MapAction)
    requires
        m.wf(),
        m.phase == MapPhase::Walk,
        walk_post(m, m2, a),
    ensures
        m2.wf(),
        m2.npages() == m.npages(),
        a matches MapAction::Write { index, value, .. } ==> {
            &&& index == level_index((m.start + 4096 * m.pages_done()) as u64, 3)
            &&& value == leaf_entry((m.pstart + 4096 * m.pages_done()) as u64)
            &&& m2.pages_done() == m.pages_done() + 1
        },
        !(a is Write) ==> m2.pages_done() == m.pages_done(),
        (a == MapAction::Done) == (m.level == 0 && m.pages_done() == m.npages()),
        m2.pages_done() <= m2.npages(),
{
    assert(m.vaddr == m.start + 4096 * m.pages_done());
    assert(m.end == m.start + 4096 * m.npages());
    if m.level == 3 {
        assert((m2.vaddr - m2.start) == (m.vaddr - m.start) + 4096);
        assert(m2.pages_done() == m.pages_done() + 1);
    }
}

/// Page-table memory: the entry at index `i` of the table at physical
/// address `t`.
pub type TableMemory = spec_fn(u64, int) -> u64;

/// The memory after the caller does `a`.
pub open spec fn mem_after(mem: TableMemory, a: MapAction) -> TableMemory {
    match a {
        MapAction::Write { table, index, value } =>
            |t: u64, i: int| if t == table && i == index { value } else { mem(t, i) },
        MapAction::Zero { frame } => |t: u64, i: int| if t == frame { 0u64 } else { mem(t, i) },
        _ => mem,
    }
}

/// What a walk of `v` from the table `table` at `level` finds in `mem`:
/// the entry it stops at and the outcome code of `walk_step_spec`.
pub open spec fn walk_from(mem: TableMemory, table: u64, v: u64, level: u8) -> (u64, u8)
    decreases 3 - level,
{
    if level > 3 {
        (0, 0)
    } else {
        match walk_step_spec(level, mem(table, level_index(v, level) as int)) {
            WalkStep::Descend(t) => if level < 3 { walk_from(mem, t, v, (level + 1) as u8) } else { (0, 0) },
            WalkStep::Done(r, c) => (r, c),
        }
    }
}

/// The table a walk of `v` from `root` reaches at level `j` in `mem`.
pub open spec fn path_table(mem: TableMemory, root: u64, v: u64, j: nat) -> u64
    decreases j,
{
    if j == 0 {
        root
    } else {
        mem(path_table(mem, root, v, (j - 1) as nat), level_index(v, (j - 1) as u8) as int) & ADDR_MASK
    }
}

/// The entry a walk of `v` from `root` reads at level `j` in `mem`.
pub open spec fn path_entry(mem: TableMemory, root: u64, v: u64, j: nat) -> u64 {
    mem(path_table(mem, root, v, j), level_index(v, j as u8) as int)
}

/// The walk of `v` from `root` goes down to level `level` through present
/// entries that are not large pages, and the tables it meets are distinct.
pub open spec fn path_ok(mem: TableMemory, root: u64, v: u64, level: nat) -> bool {
    &&& forall|j: nat| j < level ==> #[trigger] path_entry(mem, root, v, j) & FLAG_PRESENT != 0
    &&& forall|j: nat| 1 <= j < level ==> #[trigger] path_entry(mem, root, v, j) & FLAG_HUGE == 0
    &&& forall|j: nat, k: nat| j < k <= level ==> path_table(mem, root, v, j) != path_table(mem, root, v, k)
}

/// `t` is one of the tables a walk of `v` from `root` meets down to level
/// `level`.
pub open spec fn on_path(mem: TableMemory, root: u64, v: u64, level: nat, t: u64) -> bool {
    exists|j: nat| j <= level && #[trigger] path_table(mem, root, v, j) == t
}

/// The page in progress of the mapping `m` is consistent with `mem`: the
/// walk of its address reaches the mapper's current table, and a frame
/// about to be linked in is zeroed, aligned, and off that walk.
pub open spec fn page_inv(m: MapperView, mem: TableMemory) -> bool {
    &&& path_ok(mem, m.root, m.vaddr, m.level as nat)
    &&& path_table(mem, m.root, m.vaddr, m.level as nat) == m.table
    &&& m.phase matches MapPhase::Link(f) ==> {
        &&& f & !ADDR_MASK == 0
        &&& !on_path(mem, m.root, m.vaddr, m.level as nat, f)
        &&& forall|i: int| #[trigger] mem(f, i) == 0
    }
}

/// The walk of `v` from `root` in `mem` goes down four levels through
/// present entries that are not large pages, meeting distinct tables, and
/// ends at the last-level entry that maps `v`'s page to the frame at `p`.
pub open spec fn page_mapped(mem: TableMemory, root: u64, v: u64, p: u64) -> bool {
    path_ok(mem, root, v, 3) && path_entry(mem, root, v, 3) == leaf_entry(p)
}

/// Action `a` changes entry `i` of the table at `t`.
pub open spec fn touches(a: MapAction, t: u64, i: int) -> bool {
    match a {
        MapAction::Write { table, index, .. } => table == t && index == i,
        MapAction::Zero { frame } => frame == t,
        _ => false,
    }
}

/// Action `a` changes none of the entries the walk of `v` from `root`
/// reads in `mem`.
pub open spec fn off_walk(a: MapAction, mem: TableMemory, root: u64, v: u64) -> bool {
    forall|j: nat| j <= 3 ==> !touches(a, #[trigger] path_table(mem, root, v, j), level_index(v, j as u8) as int)
}

/// Memory that keeps the entries a walk of `v` from `root` reads above
/// `level` keeps the tables that walk meets down to `level`.
proof fn lemma_path_kept(mem: TableMemory, mem2: TableMemory, root: u64, v: u64, level: nat)
    requires
        forall|j: nat| j < level ==> mem2(#[trigger] path_table(mem, root, v, j), level_index(v, j as u8) as int)
            == mem(path_table(mem, root, v, j), level_index(v, j as u8) as int),
    ensures
        forall|j: nat| j <= level ==> #[trigger] path_table(mem2, root, v, j) == path_table(mem, root, v, j),
        forall|j: nat| j < level ==> #[trigger] path_entry(mem2, root, v, j) == path_entry(mem, root, v, j),
    decreases level,
{
    if level > 0 {
        let l1 = (level - 1) as nat;
        lemma_path_kept(mem, mem2, root, v, l1);
        assert(path_table(mem2, root, v, l1) == path_table(mem, root, v, l1));
        assert(path_table(mem2, root, v, level) == path_table(mem, root, v, level));
    }
}

/// A walk down a path that is `path_ok` to the last level stops at the
/// last-level entry, as a 4 KiB leaf.
proof fn lemma_walk_path(mem: TableMemory, root: u64, v: u64)
    requires
        path_ok(mem, root, v, 3),
    ensures
        walk_from(mem, root, v, 0) == (path_entry(mem, root, v, 3), 0u8),
{
    let e0 = path_entry(mem, root, v, 0);
    let e1 = path_entry(mem, root, v, 1);
    let e2 = path_entry(mem, root, v, 2);
    assert(e0 & FLAG_PRESENT != 0);
    assert(e1 & FLAG_PRESENT != 0 && e1 & FLAG_HUGE == 0);
    assert(e2 & FLAG_PRESENT != 0 && e2 & FLAG_HUGE == 0);
    assert(walk_from(mem, path_table(mem, root, v, 3), v, 3) == (path_entry(mem, root, v, 3), 0u8));
    assert(walk_from(mem, path_table(mem, root, v, 2), v, 2) == (path_entry(mem, root, v, 3), 0u8));
    assert(walk_from(mem, path_table(mem, root, v, 1), v, 1) == (path_entry(mem, root, v, 3), 0u8));
}

proof fn lemma_walk_step(m: MapperView, mem: TableMemory, m2: MapperView, a: MapAction)
    requires
        m.level <= 3,
        page_inv(m, mem),
        m.phase == MapPhase::Walk,
        walk_post(m, m2, a),
    ensures
        page_inv(m2, mem_after(mem, a)),
        a is Write ==> walk_from(mem_after(mem, a), m.root, m.vaddr, 0) == (leaf_entry(m.paddr), 0u8),
        a is Write ==> page_mapped(mem_after(mem, a), m.root, m.vaddr, m.paddr),
{
    let mem2 = mem_after(mem, a);
    if m.level == 3 {
        let t3 = path_table(mem, m.root, m.vaddr, 3);
        assert forall|j: nat| j < 3 implies mem2(#[trigger] path_table(mem, m.root, m.vaddr, j), level_index(m.vaddr, j as u8) as int)
            == mem(path_table(mem, m.root, m.vaddr, j), level_index(m.vaddr, j as u8) as int) by {
            assert(path_table(mem, m.root, m.vaddr, j) != t3);
        }
        lemma_path_kept(mem, mem2, m.root, m.vaddr, 3);
        assert(path_table(mem2, m.root, m.vaddr, 3) == t3);
        assert(path_entry(mem2, m.root, m.vaddr, 3) == leaf_entry(m.paddr));
        assert forall|j: nat| j < 3 implies #[trigger] path_entry(mem2, m.root, m.vaddr, j) & FLAG_PRESENT != 0 by {
            assert(path_entry(mem, m.root, m.vaddr, j) & FLAG_PRESENT != 0);
        }
        assert forall|j: nat| 1 <= j < 3 implies #[trigger] path_entry(mem2, m.root, m.vaddr, j) & FLAG_HUGE == 0 by {
            assert(path_entry(mem, m.root, m.vaddr, j) & FLAG_HUGE == 0);
        }
        assert forall|j: nat, k: nat| j < k <= 3 implies path_table(mem2, m.root, m.vaddr, j) != path_table(mem2, m.root, m.vaddr, k) by {
            assert(path_table(mem, m.root, m.vaddr, j) != path_table(mem, m.root, m.vaddr, k));
        }
        lemma_walk_path(mem2, m.root, m.vaddr);
    }
}

/// Mapping keeps the walk of the page in progress in step with the page
/// tables, when the caller does each action on them and answers each read
/// from them: every step keeps `page_inv`, and the write that completes a
/// page leaves a walk of that page's address ending at the entry that maps
/// it to its frame. This holds when every present entry followed down is
/// not a large page and leads to a table off the walk so far, and every
/// fresh frame is page-aligned, addressable by an entry, and off the walk
/// so far.
pub proof fn law_map_step_keeps_walk(
    m: MapperView, mem: TableMemory, entry: u64, fa: FrameAllocator, m2: MapperView, fa2: FrameAllocator, a: MapAction,
)
    requires
        m.wf(),
        page_inv(m, mem),
        next_post(m, fa, entry, m2, fa2, a),
        m.phase == MapPhase::AwaitEntry ==> entry == mem(m.table, level_index(m.vaddr, m.level) as int),
        m.phase == MapPhase::AwaitEntry && entry & FLAG_PRESENT != 0 ==> {
            &&& (m.level >= 1 ==> entry & FLAG_HUGE == 0)
            &&& !on_path(mem, m.root, m.vaddr, m.level as nat, entry & ADDR_MASK)
        },
        a matches MapAction::Zero { frame } ==> frame & !ADDR_MASK == 0 && !on_path(mem, m.root, m.vaddr, m.level as nat, frame),
    ensures
        page_inv(m2, mem_after(mem, a)),
        a is Write && m2.level == 0 ==> walk_from(mem_after(mem, a), m.root, m.vaddr, 0) == (leaf_entry(m.paddr), 0u8),
        a is Write && m2.level == 0 ==> page_mapped(mem_after(mem, a), m.root, m.vaddr, m.paddr),
{
    let v = m.vaddr;
    let root = m.root;
    let lv = m.level as nat;
    let mem2 = mem_after(mem, a);
    match m.phase {
        MapPhase::Failed => {},
        MapPhase::Walk => {
            lemma_walk_step(m, mem, m2, a);
        },
        MapPhase::Link(f) => {
            let tl = path_table(mem, root, v, lv);
            assert forall|j: nat| j < lv implies mem2(#[trigger] path_table(mem, root, v, j), level_index(v, j as u8) as int)
                == mem(path_table(mem, root, v, j), level_index(v, j as u8) as int) by {
                assert(path_table(mem, root, v, j) != tl);
            }
            lemma_path_kept(mem, mem2, root, v, lv);
            let e = link_entry(f);
            assert(path_entry(mem2, root, v, lv) == e);
            assert(e & ADDR_MASK == f && e & FLAG_PRESENT != 0 && e & FLAG_HUGE == 0) by (bit_vector)
                requires
                    f & !0x000F_FFFF_FFFF_F000u64 == 0,
                    e == f | 0x7u64;
            assert(path_table(mem2, root, v, lv + 1) == f);
            assert forall|j: nat| j < lv + 1 implies #[trigger] path_entry(mem2, root, v, j) & FLAG_PRESENT != 0 by {
                if j < lv {
                    assert(path_entry(mem, root, v, j) & FLAG_PRESENT != 0);
                }
            }
            assert forall|j: nat| 1 <= j < lv + 1 implies #[trigger] path_entry(mem2, root, v, j) & FLAG_HUGE == 0 by {
                if j < lv {
                    assert(path_entry(mem, root, v, j) & FLAG_HUGE == 0);
                }
            }
            assert forall|j: nat, k: nat| j < k <= lv + 1 implies path_table(mem2, root, v, j) != path_table(mem2, root, v, k) by {
                if k <= lv {
                    assert(path_table(mem, root, v, j) != path_table(mem, root, v, k));
                } else {
                    assert(path_table(mem2, root, v, j) == path_table(mem, root, v, j));
                }
            }
        },
        MapPhase::AwaitEntry => {
            if entry & FLAG_PRESENT != 0 {
                let mid = MapperView { level: (m.level + 1) as u8, table: entry & ADDR_MASK, phase: MapPhase::Walk, ..m };
                assert(path_entry(mem, root, v, lv) == entry);
                assert(path_table(mem, root, v, lv + 1) == entry & ADDR_MASK);
                assert forall|j: nat, k: nat| j < k <= lv + 1 implies path_table(mem, root, v, j) != path_table(mem, root, v, k) by {
                    if k == lv + 1 {
                        if path_table(mem, root, v, j) == entry & ADDR_MASK {
                            assert(on_path(mem, root, v, lv, entry & ADDR_MASK));
                        }
                    }
                }
                assert(page_inv(mid, mem));
                lemma_walk_step(mid, mem, m2, a);
            } else {
                if let MapAction::Zero { frame } = a {
                    assert forall|j: nat| j < lv implies mem2(#[trigger] path_table(mem, root, v, j), level_index(v, j as u8) as int)
                        == mem(path_table(mem, root, v, j), level_index(v, j as u8) as int) by {
                        assert(path_table(mem, root, v, j) != frame);
                    }
                    lemma_path_kept(mem, mem2, root, v, lv);
                    assert(!on_path(mem2, root, v, lv, frame)) by {
                        if on_path(mem2, root, v, lv, frame) {
                            let j = choose|j: nat| j <= lv && #[trigger] path_table(mem2, root, v, j) == frame;
                            assert(path_table(mem, root, v, j) == frame);
                        }
                    }
                    assert forall|j: nat| j < lv implies #[trigger] path_entry(mem2, root, v, j) & FLAG_PRESENT != 0 by {
                        assert(path_entry(mem, root, v, j) & FLAG_PRESENT != 0);
                    }
                    assert forall|j: nat| 1 <= j < lv implies #[trigger] path_entry(mem2, root, v, j) & FLAG_HUGE == 0 by {
                        assert(path_entry(mem, root, v, j) & FLAG_HUGE == 0);
                    }
                    assert forall|j: nat, k: nat| j < k <= lv implies path_table(mem2, root, v, j) != path_table(mem2, root, v, k) by {
                        assert(path_table(mem, root, v, j) != path_table(mem, root, v, k));
                    }
                }
            }
        },
    }
}

/// An action that changes no entry the walk of a mapped page reads leaves
/// that page mapped.
proof fn lemma_mapped_kept(mem: TableMemory, a: MapAction, root: u64, v: u64, p: u64)
    requires
        page_mapped(mem, root, v, p),
        off_walk(a, mem, root, v),
    ensures
        page_mapped(mem_after(mem, a), root, v, p),
{
    let mem2 = mem_after(mem, a);
    assert forall|j: nat| j < 3 implies mem2(#[trigger] path_table(mem, root, v, j), level_index(v, j as u8) as int)
        == mem(path_table(mem, root, v, j), level_index(v, j as u8) as int) by {
        assert(!touches(a, path_table(mem, root, v, j), level_index(v, j as u8) as int));
    }
    lemma_path_kept(mem, mem2, root, v, 3);
    assert(!touches(a, path_table(mem, root, v, 3), level_index(v, 3u8) as int));
    assert(path_entry(mem2, root, v, 3) == path_entry(mem, root, v, 3));
    assert forall|j: nat| j < 3 implies #[trigger] path_entry(mem2, root, v, j) & FLAG_PRESENT != 0 by {
        assert(path_entry(mem, root, v, j) & FLAG_PRESENT != 0);
    }
    assert forall|j: nat| 1 <= j < 3 implies #[trigger] path_entry(mem2, root, v, j) & FLAG_HUGE == 0 by {
        assert(path_entry(mem, root, v, j) & FLAG_HUGE == 0);
    }
    assert forall|j: nat, k: nat| j < k <= 3 implies path_table(mem2, root, v, j) != path_table(mem2, root, v, k) by {
        assert(path_table(mem, root, v, j) != path_table(mem, root, v, k));
    }
}

/// Every step keeps the mapping well formed and its range; only the write
/// that completes a page counts a page more.
proof fn lemma_next_wf(m: MapperView, fa: FrameAllocator, entry: u64, m2: MapperView, fa2: FrameAllocator, a: MapAction)
    requires
        m.wf(),
        next_post(m, fa, entry, m2, fa2, a),
    ensures
        m2.wf(),
        m2.root == m.root && m2.start == m.start && m2.end == m.end && m2.pstart == m.pstart,
        a is Write && m2.level == 0 ==> m2.pages_done() == m.pages_done() + 1,
        !(a is Write && m2.level == 0) ==> m2.vaddr == m.vaddr,
        a == MapAction::Done ==> m.pages_done() == m.npages() && m2 == m,
{
    match m.phase {
        MapPhase::Walk => {
            law_pages_mapped_in_order(m, m2, a);
            assert(m.vaddr == m.start + 4096 * m.pages_done());
        },
        MapPhase::AwaitEntry => {
            if entry & FLAG_PRESENT != 0 {
                let mid = MapperView { level: (m.level + 1) as u8, table: entry & ADDR_MASK, phase: MapPhase::Walk, ..m };
                law_pages_mapped_in_order(mid, m2, a);
            }
        },
        _ => {},
    }
}

/// The page tables in `mem` under `root` form a tree whose tables have the
/// levels `lv` gives them (negative: not a table): the root is at the top
/// level; a present entry of a table above the last level leads to a
/// table one level down and, below the top level, is not a large page;
/// and no two present entries of such tables lead to the same table.
pub open spec fn tables_sane(mem: TableMemory, root: u64, lv: spec_fn(u64) -> int) -> bool {
    &&& lv(root) == 0
    &&& forall|t: u64, i: int| #![trigger mem(t, i)]
        0 <= lv(t) < 3 && mem(t, i) & FLAG_PRESENT != 0 ==> {
            &&& lv(mem(t, i) & ADDR_MASK) == lv(t) + 1
            &&& (lv(t) >= 1 ==> mem(t, i) & FLAG_HUGE == 0)
        }
    &&& forall|t1: u64, i1: int, t2: u64, i2: int| #![trigger mem(t1, i1), mem(t2, i2)]
        0 <= lv(t1) < 3 && 0 <= lv(t2) < 3 && mem(t1, i1) & FLAG_PRESENT != 0 && mem(t2, i2) & FLAG_PRESENT != 0
            && mem(t1, i1) & ADDR_MASK == mem(t2, i2) & ADDR_MASK ==> t1 == t2 && i1 == i2
}

/// Every free frame of `fa` is addressable by an entry, page-aligned, and
/// not one of the tables `lv` knows.
pub open spec fn frames_fresh(fa: FrameAllocator, lv: spec_fn(u64) -> int) -> bool {
    forall|j: int| #[trigger] fa.is_free(j) ==> {
        &&& 0 <= fa.frame_addr(j) <= u64::MAX
        &&& (fa.frame_addr(j) as u64) & !ADDR_MASK == 0
        &&& lv(fa.frame_addr(j) as u64) < 0
    }
}

/// Some table index differs between the addresses `v` and `w`.
pub open spec fn indices_differ(v: u64, w: u64) -> bool {
    ||| level_index(v, 0) != level_index(w, 0)
    ||| level_index(v, 1) != level_index(w, 1)
    ||| level_index(v, 2) != level_index(w, 2)
    ||| level_index(v, 3) != level_index(w, 3)
}

/// In sane tables, the walk of `v` down present entries meets the table of
/// each level at that level, and is `path_ok`.
proof fn lemma_path_levels(mem: TableMemory, root: u64, lv: spec_fn(u64) -> int, v: u64, level: nat)
    requires
        tables_sane(mem, root, lv),
        level <= 3,
        forall|j: nat| j < level ==> #[trigger] path_entry(mem, root, v, j) & FLAG_PRESENT != 0,
    ensures
        forall|j: nat| j <= level ==> lv(#[trigger] path_table(mem, root, v, j)) == j,
        path_ok(mem, root, v, level),
    decreases level,
{
    if level > 0 {
        let l1 = (level - 1) as nat;
        lemma_path_levels(mem, root, lv, v, l1);
        let t = path_table(mem, root, v, l1);
        let i = level_index(v, l1 as u8) as int;
        assert(path_entry(mem, root, v, l1) & FLAG_PRESENT != 0);
        assert(mem(t, i) & FLAG_PRESENT != 0);
        assert(lv(t) == l1);
        assert(path_table(mem, root, v, level) == mem(t, i) & ADDR_MASK);
        assert(lv(path_table(mem, root, v, level)) == level);
        assert forall|j: nat| 1 <= j < level implies #[trigger] path_entry(mem, root, v, j) & FLAG_HUGE == 0 by {
            let tj = path_table(mem, root, v, j);
            assert(lv(tj) == j);
            assert(path_entry(mem, root, v, j) & FLAG_PRESENT != 0);
            assert(mem(tj, level_index(v, j as u8) as int) & FLAG_PRESENT != 0);
        }
        assert forall|j: nat, k: nat| j < k <= level implies path_table(mem, root, v, j) != path_table(mem, root, v, k) by {
            assert(lv(path_table(mem, root, v, j)) == j);
            assert(lv(path_table(mem, root, v, k)) == k);
        }
    }
}

/// Distinct pages of a range shorter than 2^48 bytes use different table
/// indices somewhere.
proof fn lemma_pages_differ(m: MapperView, k1: int, k2: int)
    requires
        m.wf(),
        m.end - m.start <= 0x1_0000_0000_0000,
        0 <= k1 < k2 < m.npages(),
    ensures
        indices_differ(page_vaddr(m, k1), page_vaddr(m, k2)),
{
    let a = page_vaddr(m, k1);
    let b = page_vaddr(m, k2);
    assert(m.end == m.start + 4096 * m.npages());
    assert(4096 * k2 < 4096 * m.npages()) by (nonlinear_arith)
        requires k2 < m.npages();
    assert(4096 * k1 < 4096 * k2) by (nonlinear_arith)
        requires k1 < k2;
    assert(a < b);
    assert(b - a == 4096 * (k2 - k1)) by (nonlinear_arith)
        requires a == m.start + 4096 * k1, b == m.start + 4096 * k2;
    assert((b - a) % 4096 == 0) by (nonlinear_arith)
        requires b - a == 4096 * (k2 - k1), k2 > k1;
    assert(b - a < 0x1_0000_0000_0000);
    let d = (b - a) as u64;
    assert(!(index_at(a, 39) == index_at(b, 39) && index_at(a, 30) == index_at(b, 30)
        && index_at(a, 21) == index_at(b, 21) && index_at(a, 12) == index_at(b, 12))) by (bit_vector)
        requires
            a < b,
            d == b - a,
            d % 4096 == 0,
            d < 0x1_0000_0000_0000;
    assert(index_at(a, 39) < 512 && index_at(b, 39) < 512 && index_at(a, 30) < 512 && index_at(b, 30) < 512
        && index_at(a, 21) < 512 && index_at(b, 21) < 512 && index_at(a, 12) < 512 && index_at(b, 12) < 512) by (bit_vector);
}

/// In sane tables, the entry at `level` of the walk of `v` (down present
/// entries; not present itself above the last level) is on no level of the
/// walk of a mapped page `w` whose table indices differ from `v`'s.
proof fn lemma_slot_off_mapped_walk(
    mem: TableMemory, root: u64, lv: spec_fn(u64) -> int, v: u64, level: nat, w: u64, pw: u64, j: nat,
)
    requires
        tables_sane(mem, root, lv),
        level <= 3,
        j <= 3,
        forall|i: nat| i < level ==> #[trigger] path_entry(mem, root, v, i) & FLAG_PRESENT != 0,
        level < 3 ==> path_entry(mem, root, v, level) & FLAG_PRESENT == 0,
        page_mapped(mem, root, w, pw),
        indices_differ(v, w),
    ensures
        !(path_table(mem, root, w, j) == path_table(mem, root, v, level) && level_index(w, j as u8) == level_index(v, level as u8)),
{
    lemma_path_levels(mem, root, lv, v, level);
    assert forall|i: nat| i < 3 implies #[trigger] path_entry(mem, root, w, i) & FLAG_PRESENT != 0 by {
        assert(path_ok(mem, root, w, 3));
    }
    lemma_path_levels(mem, root, lv, w, 3);
    if path_table(mem, root, w, j) == path_table(mem, root, v, level) && level_index(w, j as u8) == level_index(v, level as u8) {
        assert(lv(path_table(mem, root, w, j)) == j);
        assert(lv(path_table(mem, root, v, level)) == level);
        assert(j == level);
        if level < 3 {
            assert(path_entry(mem, root, w, j) == path_entry(mem, root, v, level));
            assert(path_entry(mem, root, w, j) & FLAG_PRESENT != 0);
        } else {
            let tw2 = path_table(mem, root, w, 2);
            let tv2 = path_table(mem, root, v, 2);
            let iw2 = level_index(w, 2) as int;
            let iv2 = level_index(v, 2) as int;
            assert(path_entry(mem, root, w, 2) & FLAG_PRESENT != 0);
            assert(path_entry(mem, root, v, 2) & FLAG_PRESENT != 0);
            assert(lv(tw2) == 2 && lv(tv2) == 2);
            assert(mem(tw2, iw2) & ADDR_MASK == mem(tv2, iv2) & ADDR_MASK);
            assert(tw2 == tv2 && iw2 == iv2);
            let tw1 = path_table(mem, root, w, 1);
            let tv1 = path_table(mem, root, v, 1);
            let iw1 = level_index(w, 1) as int;
            let iv1 = level_index(v, 1) as int;
            assert(path_entry(mem, root, w, 1) & FLAG_PRESENT != 0);
            assert(path_entry(mem, root, v, 1) & FLAG_PRESENT != 0);
            assert(lv(tw1) == 1 && lv(tv1) == 1);
            assert(mem(tw1, iw1) & ADDR_MASK == mem(tv1, iv1) & ADDR_MASK);
            assert(tw1 == tv1 && iw1 == iv1);
            let tw0 = path_table(mem, root, w, 0);
            let tv0 = path_table(mem, root, v, 0);
            let iw0 = level_index(w, 0) as int;
            let iv0 = level_index(v, 0) as int;
            assert(path_entry(mem, root, w, 0) & FLAG_PRESENT != 0);
            assert(path_entry(mem, root, v, 0) & FLAG_PRESENT != 0);
            assert(lv(tw0) == 0 && lv(tv0) == 0);
            assert(mem(tw0, iw0) & ADDR_MASK == mem(tv0, iv0) & ADDR_MASK);
            assert(iw0 == iv0);
        }
    }
}

/// The address of page `k` of the mapping `m`, and the frame it maps to.
pub open spec fn page_vaddr(m: MapperView, k: int) -> u64 {
    (m.start + 4096 * k) as u64
}

pub open spec fn page_paddr(m: MapperView, k: int) -> u64 {
    (m.pstart + 4096 * k) as u64
}

/// The pages of `m` done so far are mapped in `mem`, and its page in
/// progress is in step with `mem`.
pub open spec fn run_inv(m: MapperView, mem: TableMemory) -> bool {
    &&& m.wf()
    &&& page_inv(m, mem)
    &&& forall|k: int| 0 <= k < m.pages_done() ==> #[trigger] page_mapped(mem, m.root, page_vaddr(m, k), page_paddr(m, k))
}

/// What a step from `m` with memory `mem`, answer `entry` and action `a`
/// keeps to: a present entry it follows is not a large page and leads to a
/// table off the walk so far; a fresh frame is page-aligned, addressable by
/// an entry and off the walk so far; and the action changes no entry that
/// the walk of a page already mapped reads.
pub open spec fn step_guarded(m: MapperView, mem: TableMemory, entry: u64, a: MapAction) -> bool {
    &&& m.phase == MapPhase::AwaitEntry && entry & FLAG_PRESENT != 0 ==> {
        &&& (m.level >= 1 ==> entry & FLAG_HUGE == 0)
        &&& !on_path(mem, m.root, m.vaddr, m.level as nat, entry & ADDR_MASK)
    }
    &&& a matches MapAction::Zero { frame } ==> frame & !ADDR_MASK == 0 && !on_path(mem, m.root, m.vaddr, m.level as nat, frame)
    &&& forall|k: int| 0 <= k < m.pages_done() ==> #[trigger] off_walk(a, mem, m.root, page_vaddr(m, k))
}

proof fn lemma_run_inv_step(m: MapperView, mem: TableMemory, fa: FrameAllocator, entry: u64, m2: MapperView, fa2: FrameAllocator, a: MapAction)
    requires
        run_inv(m, mem),
        next_post(m, fa, entry, m2, fa2, a),
        m.phase == MapPhase::AwaitEntry ==> entry == mem(m.table, level_index(m.vaddr, m.level) as int),
        step_guarded(m, mem, entry, a),
    ensures
        run_inv(m2, mem_after(mem, a)),
{
    lemma_next_wf(m, fa, entry, m2, fa2, a);
    law_map_step_keeps_walk(m, mem, entry, fa, m2, fa2, a);
    assert forall|k: int| 0 <= k < m2.pages_done() implies #[trigger] page_mapped(mem_after(mem, a), m2.root, page_vaddr(m2, k), page_paddr(m2, k)) by {
        assert(page_vaddr(m2, k) == page_vaddr(m, k) && page_paddr(m2, k) == page_paddr(m, k));
        if k < m.pages_done() {
            assert(page_mapped(mem, m.root, page_vaddr(m, k), page_paddr(m, k)));
            assert(off_walk(a, mem, m.root, page_vaddr(m, k)));
            lemma_mapped_kept(mem, a, m.root, page_vaddr(m, k), page_paddr(m, k));
        } else {
            assert(m.vaddr == m.start + 4096 * m.pages_done());
            assert(k == m.pages_done());
            assert(m.vaddr == page_vaddr(m, k) && m.paddr == page_paddr(m, k));
        }
    }
}

/// The page tables stay a sane tree under the levels `lv`, free frames stay
/// fresh, and a frame about to be linked in is no table, no longer free,
/// and goes into an entry that is not present.
pub open spec fn tree_inv(m: MapperView, mem: TableMemory, fa: FrameAllocator, lv: spec_fn(u64) -> int) -> bool {
    &&& tables_sane(mem, m.root, lv)
    &&& frames_fresh(fa, lv)
    &&& m.phase matches MapPhase::Link(f) ==> {
        &&& lv(f) < 0
        &&& mem(m.table, level_index(m.vaddr, m.level) as int) & FLAG_PRESENT == 0
        &&& forall|j: int| #[trigger] fa.is_free(j) ==> fa.frame_addr(j) as u64 != f
    }
}

/// A step the caller performs: the action is done on memory, a read is
/// answered from it, and the frame pool stays the same pool.
pub open spec fn step_performed(m: MapperView, mem: TableMemory, fa: FrameAllocator, entry: u64, m2: MapperView, mem2: TableMemory, fa2: FrameAllocator, a: MapAction) -> bool {
    &&& next_post(m, fa, entry, m2, fa2, a)
    &&& fa2.same_pool(&fa)
    &&& mem2 == mem_after(mem, a)
    &&& m.phase == MapPhase::AwaitEntry ==> entry == mem(m.table, level_index(m.vaddr, m.level) as int)
}

proof fn lemma_done_pages_off(m: MapperView, mem: TableMemory, lv: spec_fn(u64) -> int, level: nat, a: MapAction)
    requires
        run_inv(m, mem),
        tables_sane(mem, m.root, lv),
        m.end - m.start <= 0x1_0000_0000_0000,
        m.vaddr < m.end,
        level <= 3,
        forall|i: nat| i < level ==> #[trigger] path_entry(mem, m.root, m.vaddr, i) & FLAG_PRESENT != 0,
        level < 3 ==> path_entry(mem, m.root, m.vaddr, level) & FLAG_PRESENT == 0,
        a matches MapAction::Write { table, index, .. } && table == path_table(mem, m.root, m.vaddr, level)
            && index == level_index(m.vaddr, level as u8),
    ensures
        forall|k: int| 0 <= k < m.pages_done() ==> #[trigger] off_walk(a, mem, m.root, page_vaddr(m, k)),
{
    assert(m.vaddr == m.start + 4096 * m.pages_done());
    assert(m.vaddr == page_vaddr(m, m.pages_done()));
    assert(m.end == m.start + 4096 * m.npages());
    assert(m.pages_done() < m.npages());
    assert forall|k: int| 0 <= k < m.pages_done() implies #[trigger] off_walk(a, mem, m.root, page_vaddr(m, k)) by {
        lemma_pages_differ(m, k, m.pages_done());
        let w = page_vaddr(m, k);
        assert(page_mapped(mem, m.root, w, page_paddr(m, k)));
        assert(indices_differ(m.vaddr, w)) by {
            assert(indices_differ(w, m.vaddr));
        }
        assert forall|j: nat| j <= 3 implies !touches(a, #[trigger] path_table(mem, m.root, w, j), level_index(w, j as u8) as int) by {
            lemma_slot_off_mapped_walk(mem, m.root, lv, m.vaddr, level, w, page_paddr(m, k), j);
        }
    }
}

proof fn lemma_zero_off(m: MapperView, mem: TableMemory, lv: spec_fn(u64) -> int, frame: u64)
    requires
        run_inv(m, mem),
        tables_sane(mem, m.root, lv),
        lv(frame) < 0,
    ensures
        forall|k: int| 0 <= k < m.pages_done() ==> #[trigger] off_walk(MapAction::Zero { frame }, mem, m.root, page_vaddr(m, k)),
        !on_path(mem, m.root, m.vaddr, m.level as nat, frame),
{
    assert forall|k: int| 0 <= k < m.pages_done() implies #[trigger] off_walk(MapAction::Zero { frame }, mem, m.root, page_vaddr(m, k)) by {
        let w = page_vaddr(m, k);
        assert(page_mapped(mem, m.root, w, page_paddr(m, k)));
        assert forall|i: nat| i < 3 implies #[trigger] path_entry(mem, m.root, w, i) & FLAG_PRESENT != 0 by {
            assert(path_ok(mem, m.root, w, 3));
        }
        lemma_path_levels(mem, m.root, lv, w, 3);
        assert forall|j: nat| j <= 3 implies !touches(MapAction::Zero { frame }, #[trigger] path_table(mem, m.root, w, j), level_index(w, j as u8) as int) by {
            assert(lv(path_table(mem, m.root, w, j)) == j);
        }
    }
    assert forall|i: nat| i < m.level ==> #[trigger] path_entry(mem, m.root, m.vaddr, i) & FLAG_PRESENT != 0 by {
        assert(path_ok(mem, m.root, m.vaddr, m.level as nat));
    }
    lemma_path_levels(mem, m.root, lv, m.vaddr, m.level as nat);
    if on_path(mem, m.root, m.vaddr, m.level as nat, frame) {
        let j = choose|j: nat| j <= m.level && #[trigger] path_table(mem, m.root, m.vaddr, j) == frame;
        assert(lv(path_table(mem, m.root, m.vaddr, j)) == j);
    }
}


/// A performed step from a state whose tables are a sane tree and whose
/// free frames are fresh keeps to `step_guarded`, and keeps the tree sane
/// under the levels it returns: those before, with a linked frame at its
/// new level.
proof fn lemma_tree_step(
    m: MapperView, mem: TableMemory, fa: FrameAllocator, lv: spec_fn(u64) -> int, entry: u64,
    m2: MapperView, mem2: TableMemory, fa2: FrameAllocator, a: MapAction,
) -> (lv2: spec_fn(u64) -> int)
    requires
        run_inv(m, mem),
        tree_inv(m, mem, fa, lv),
        m.end - m.start <= 0x1_0000_0000_0000,
        step_performed(m, mem, fa, entry, m2, mem2, fa2, a),
    ensures
        step_guarded(m, mem, entry, a),
        tree_inv(m2, mem2, fa2, lv2),
        forall|t: u64| lv(t) >= 0 ==> #[trigger] lv2(t) == lv(t),
        forall|t: u64, i: int| 0 <= lv(t) < 3 && #[trigger] mem(t, i) & FLAG_PRESENT != 0 ==> mem2(t, i) == mem(t, i),
{
    let root = m.root;
    let v = m.vaddr;
    assert forall|i: nat| i < m.level ==> #[trigger] path_entry(mem, root, v, i) & FLAG_PRESENT != 0 by {
        assert(path_ok(mem, root, v, m.level as nat));
    }
    lemma_path_levels(mem, root, lv, v, m.level as nat);
    assert(lv(m.table) == m.level);
    lemma_next_wf(m, fa, entry, m2, fa2, a);
    match m.phase {
        MapPhase::Failed => {
            lv
        },
        MapPhase::Walk => {
            if a is Write {
                assert(m.level == 3);
                lemma_done_pages_off(m, mem, lv, 3, a);
                assert forall|t: u64, i: int| #![trigger mem2(t, i)] 0 <= lv(t) < 3 implies mem2(t, i) == mem(t, i) by {
                    assert(t != m.table);
                }
                assert(tables_sane(mem2, root, lv));
            }
            lv
        },
        MapPhase::AwaitEntry => {
            assert(m.level < 3);
            assert(entry == path_entry(mem, root, v, m.level as nat));
            if entry & FLAG_PRESENT != 0 {
                assert(lv(entry & ADDR_MASK) == m.level + 1);
                if on_path(mem, root, v, m.level as nat, entry & ADDR_MASK) {
                    let j = choose|j: nat| j <= m.level && #[trigger] path_table(mem, root, v, j) == entry & ADDR_MASK;
                    assert(lv(path_table(mem, root, v, j)) == j);
                }
                if a is Write {
                    assert(m.level == 2);
                    assert(path_table(mem, root, v, 3) == entry & ADDR_MASK);
                    assert forall|i: nat| i < 3 implies #[trigger] path_entry(mem, root, v, i) & FLAG_PRESENT != 0 by {
                        if i < 2 {
                            assert(path_entry(mem, root, v, i) & FLAG_PRESENT != 0);
                        }
                    }
                    lemma_done_pages_off(m, mem, lv, 3, a);
                    lemma_path_levels(mem, root, lv, v, 3);
                    assert forall|t: u64, i: int| #![trigger mem2(t, i)] 0 <= lv(t) < 3 implies mem2(t, i) == mem(t, i) by {
                        assert(t != entry & ADDR_MASK);
                    }
                    assert(tables_sane(mem2, root, lv));
                }
                lv
            } else {
                match a {
                    MapAction::Zero { frame } => {
                        let i = choose|i: int| {
                            &&& #[trigger] fa.is_free(i)
                            &&& frame == fa.frame_addr(i)
                            &&& forall|j: int| 0 <= j < i ==> !fa.is_free(j)
                            &&& forall|j: int| #[trigger] fa2.is_free(j) == (fa.is_free(j) && j != i)
                        };
                        assert(lv(frame) < 0);
                        lemma_zero_off(m, mem, lv, frame);
                        assert forall|t: u64, k: int| #![trigger mem2(t, k)] 0 <= lv(t) < 3 implies mem2(t, k) == mem(t, k) by {
                            assert(t != frame);
                        }
                        assert(tables_sane(mem2, root, lv));
                        assert forall|j: int| #[trigger] fa2.is_free(j) implies fa2.frame_addr(j) as u64 != frame by {
                            assert(fa.is_free(j) && j != i);
                            assert(fa2.frame_addr(j) == fa.frame_addr(j));
                        }
                        assert(frames_fresh(fa2, lv)) by {
                            assert forall|j: int| #[trigger] fa2.is_free(j) implies 0 <= fa2.frame_addr(j) <= u64::MAX
                                && (fa2.frame_addr(j) as u64) & !ADDR_MASK == 0 && lv(fa2.frame_addr(j) as u64) < 0 by {
                                assert(fa.is_free(j));
                                assert(fa2.frame_addr(j) == fa.frame_addr(j));
                            }
                        }
                        assert(m.table != frame);
                        assert(mem2(m.table, level_index(v, m.level) as int) == entry);
                    },
                    _ => {
                        assert(frames_fresh(fa2, lv)) by {
                            assert forall|j: int| #[trigger] fa2.is_free(j) implies 0 <= fa2.frame_addr(j) <= u64::MAX
                                && (fa2.frame_addr(j) as u64) & !ADDR_MASK == 0 && lv(fa2.frame_addr(j) as u64) < 0 by {
                                assert(fa.is_free(j));
                                assert(fa2.frame_addr(j) == fa.frame_addr(j));
                            }
                        }
                    },
                }
                lv
            }
        },
        MapPhase::Link(f) => {
            let l = m.level;
            let t0 = m.table;
            let i0 = level_index(v, l) as int;
            assert(path_table(mem, root, v, l as nat) == t0);
            lemma_done_pages_off(m, mem, lv, l as nat, a);
            let e = link_entry(f);
            assert(e & ADDR_MASK == f && e & FLAG_PRESENT != 0 && e & FLAG_HUGE == 0) by (bit_vector)
                requires
                    f & !0x000F_FFFF_FFFF_F000u64 == 0,
                    e == f | 0x7u64;
            let lv2 = |t: u64| if t == f { l + 1 } else { lv(t) };
            assert(t0 != f);
            assert(root != f);
            assert forall|t: u64, i: int| #![trigger mem2(t, i)] 0 <= lv2(t) < 3 && mem2(t, i) & FLAG_PRESENT != 0 implies {
                &&& lv2(mem2(t, i) & ADDR_MASK) == lv2(t) + 1
                &&& (lv2(t) >= 1 ==> mem2(t, i) & FLAG_HUGE == 0)
            } by {
                if t == f {
                    assert(mem2(t, i) == mem(f, i));
                    assert(mem(f, i) == 0);
                    assert(0u64 & FLAG_PRESENT == 0) by (bit_vector);
                } else if t == t0 && i == i0 {
                } else {
                    assert(mem2(t, i) == mem(t, i));
                    assert(lv(mem(t, i) & ADDR_MASK) == lv(t) + 1);
                }
            }
            assert forall|t1: u64, i1: int, t2: u64, i2: int| #![trigger mem2(t1, i1), mem2(t2, i2)]
                0 <= lv2(t1) < 3 && 0 <= lv2(t2) < 3 && mem2(t1, i1) & FLAG_PRESENT != 0 && mem2(t2, i2) & FLAG_PRESENT != 0
                    && mem2(t1, i1) & ADDR_MASK == mem2(t2, i2) & ADDR_MASK implies t1 == t2 && i1 == i2 by {
                if t1 == f {
                    assert(mem(f, i1) == 0);
                    assert(0u64 & FLAG_PRESENT == 0) by (bit_vector);
                } else if t2 == f {
                    assert(mem(f, i2) == 0);
                    assert(0u64 & FLAG_PRESENT == 0) by (bit_vector);
                } else {
                    let w1 = t1 == t0 && i1 == i0;
                    let w2 = t2 == t0 && i2 == i0;
                    if w1 && !w2 {
                        assert(mem2(t2, i2) == mem(t2, i2));
                        assert(lv(mem(t2, i2) & ADDR_MASK) == lv(t2) + 1);
                    } else if w2 && !w1 {
                        assert(mem2(t1, i1) == mem(t1, i1));
                        assert(lv(mem(t1, i1) & ADDR_MASK) == lv(t1) + 1);
                    } else if !w1 && !w2 {
                        assert(mem2(t1, i1) == mem(t1, i1));
                        assert(mem2(t2, i2) == mem(t2, i2));
                    }
                }
            }
            assert(tables_sane(mem2, root, lv2));
            assert(frames_fresh(fa2, lv2)) by {
                assert forall|j: int| #[trigger] fa2.is_free(j) implies 0 <= fa2.frame_addr(j) <= u64::MAX
                    && (fa2.frame_addr(j) as u64) & !ADDR_MASK == 0 && lv2(fa2.frame_addr(j) as u64) < 0 by {
                    assert(fa.is_free(j));
                    assert(fa2.frame_addr(j) == fa.frame_addr(j));
                    assert(fa.frame_addr(j) as u64 != f);
                }
            }
            assert forall|t: u64, i: int| 0 <= lv(t) < 3 && #[trigger] mem(t, i) & FLAG_PRESENT != 0 implies mem2(t, i) == mem(t, i) by {
                if t == t0 && i == i0 {
                    assert(mem(t0, i0) & FLAG_PRESENT == 0);
                }
            }
            lv2
        },
    }
}


/// Step `i` of a recorded run was performed (see `step_performed`).
pub open spec fn run_step_performed(
    ms: Seq<MapperView>, mems: Seq<TableMemory>, entries: Seq<u64>, fas: Seq<FrameAllocator>, acts: Seq<MapAction>, i: int,
) -> bool {
    step_performed(ms[i], mems[i], fas[i], entries[i], ms[i + 1], mems[i + 1], fas[i + 1], acts[i])
}

/// A recorded run of `n` steps from the state `map_segment` returns, on
/// tables that form a sane tree under `lv` with fresh free frames.
pub open spec fn run_from_start(
    ms: Seq<MapperView>, mems: Seq<TableMemory>, entries: Seq<u64>, fas: Seq<FrameAllocator>, acts: Seq<MapAction>,
    lv: spec_fn(u64) -> int,
) -> bool {
    &&& ms.len() == acts.len() + 1
    &&& mems.len() == acts.len() + 1
    &&& fas.len() == acts.len() + 1
    &&& entries.len() == acts.len()
    &&& ms[0].wf()
    &&& ms[0].vaddr == ms[0].start
    &&& ms[0].level == 0
    &&& ms[0].table == ms[0].root
    &&& ms[0].phase == MapPhase::Walk
    &&& ms[0].end - ms[0].start <= 0x1_0000_0000_0000
    &&& tables_sane(mems[0], ms[0].root, lv)
    &&& frames_fresh(fas[0], lv)
    &&& forall|j: int| 0 <= j < acts.len() ==> #[trigger] run_step_performed(ms, mems, entries, fas, acts, j)
}

proof fn lemma_run_tree(
    ms: Seq<MapperView>, mems: Seq<TableMemory>, entries: Seq<u64>, fas: Seq<FrameAllocator>, acts: Seq<MapAction>,
    lv: spec_fn(u64) -> int, i: int,
) -> (lvi: spec_fn(u64) -> int)
    requires
        run_from_start(ms, mems, entries, fas, acts, lv),
        0 <= i <= acts.len(),
    ensures
        run_inv(ms[i], mems[i]),
        tree_inv(ms[i], mems[i], fas[i], lvi),
        ms[i].root == ms[0].root && ms[i].start == ms[0].start && ms[i].end == ms[0].end && ms[i].pstart == ms[0].pstart,
        forall|t: u64| lv(t) >= 0 ==> #[trigger] lvi(t) == lv(t),
        forall|t: u64, k: int| 0 <= lv(t) < 3 && #[trigger] mems[0](t, k) & FLAG_PRESENT != 0 ==> mems[i](t, k) == mems[0](t, k),
    decreases i,
{
    if i == 0 {
        let m0 = ms[0];
        assert(m0.pages_done() == 0);
        assert(run_inv(m0, mems[0]));
        lv
    } else {
        let lvp = lemma_run_tree(ms, mems, entries, fas, acts, lv, i - 1);
        assert(run_step_performed(ms, mems, entries, fas, acts, i - 1));
        let m = ms[i - 1];
        let lvi = lemma_tree_step(m, mems[i - 1], fas[i - 1], lvp, entries[i - 1], ms[i], mems[i], fas[i], acts[i - 1]);
        lemma_run_inv_step(m, mems[i - 1], fas[i - 1], entries[i - 1], ms[i], fas[i], acts[i - 1]);
        lemma_next_wf(m, fas[i - 1], entries[i - 1], ms[i], fas[i], acts[i - 1]);
        assert forall|t: u64, k: int| 0 <= lv(t) < 3 && #[trigger] mems[0](t, k) & FLAG_PRESENT != 0 implies mems[i](t, k) == mems[0](t, k) by {
            assert(mems[i - 1](t, k) == mems[0](t, k));
            assert(lvp(t) == lv(t));
        }
        lvi
    }
}

/// A whole mapping run. Start from the state `map_segment` returns, on
/// page tables that form a sane tree (each table at one level, every
/// present entry above the last level leading to a table one level down
/// and, below the top, not a large page, no table reached by two entries),
/// with a range under 2^48 bytes and free frames that are page-aligned,
/// addressable and no table; let the caller do each action on the tables
/// and answer each read from them. A run whose last action is `Done`
/// leaves every page `k` of the range walking to the last-level entry that
/// maps it to the frame `k` pages after the first, as a 4 KiB page, and
/// every entry that was present in a table above the last level is
/// unchanged.
pub proof fn law_map_run_maps_every_page(
    ms: Seq<MapperView>, mems: Seq<TableMemory>, entries: Seq<u64>, fas: Seq<FrameAllocator>, acts: Seq<MapAction>,
    lv: spec_fn(u64) -> int,
)
    requires
        run_from_start(ms, mems, entries, fas, acts, lv),
        acts.len() > 0,
        acts.last() == MapAction::Done,
    ensures
        forall|k: int| 0 <= k < ms[0].npages() ==>
            #[trigger] walk_from(mems.last(), ms[0].root, page_vaddr(ms[0], k), 0) == (leaf_entry(page_paddr(ms[0], k)), 0u8),
        forall|t: u64, k: int| 0 <= lv(t) < 3 && #[trigger] mems[0](t, k) & FLAG_PRESENT != 0 ==> mems.last()(t, k) == mems[0](t, k),
{
    let n = acts.len() as int;
    let m0 = ms[0];
    let lvn = lemma_run_tree(ms, mems, entries, fas, acts, lv, n - 1);
    let lvl = lemma_run_tree(ms, mems, entries, fas, acts, lv, n);
    let m = ms[n - 1];
    assert(run_step_performed(ms, mems, entries, fas, acts, n - 1));
    lemma_next_wf(m, fas[n - 1], entries[n - 1], ms[n], fas[n], acts[n - 1]);
    assert(mems[n] == mems[n - 1]);
    assert forall|k: int| 0 <= k < m0.npages() implies
        #[trigger] walk_from(mems.last(), m0.root, page_vaddr(m0, k), 0) == (leaf_entry(page_paddr(m0, k)), 0u8) by {
        assert(page_mapped(mems[n - 1], m.root, page_vaddr(m, k), page_paddr(m, k)));
        lemma_walk_path(mems[n - 1], m0.root, page_vaddr(m0, k));
    }
}

} // verus!
