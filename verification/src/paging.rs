use vstd::prelude::*;

verus! {

/// Bytes in a page.
pub const PAGE_SIZE: u64 = 4096;
/// Physical-address bits 12..52 of an entry.
pub const ADDR_MASK: u64 = 0x000F_FFFF_FFFF_F000;
/// Low twelve bits of an entry: the flags.
pub const FLAGS_MASK: u64 = 0xFFF;
/// Present bit.
pub const FLAG_PRESENT: u64 = 0x1;
/// Page-size bit: a 2 MiB or 1 GiB leaf in a directory.
pub const FLAG_HUGE: u64 = 0x80;
/// Present, writable and user-accessible.
pub const FLAGS_USER_RW: u64 = 0x7;

/// The virtual address at which physical address `phys` is mapped when all
/// of physical memory is mapped at `offset`.
pub fn phys_to_virt(phys: u64, offset: u64) -> (v: u64)
    requires
        phys + offset <= u64::MAX,
    ensures
        v == phys + offset,
{
    phys + offset
}

/// The physical address behind virtual address `virt` in the mapping of
/// all physical memory at `offset`.
pub fn virt_to_phys(virt: u64, offset: u64) -> (p: u64)
    requires
        offset <= virt,
    ensures
        p == virt - offset,
{
    virt - offset
}

/// The two conversions undo each other.
pub proof fn law_phys_virt_round_trip(phys: u64, offset: u64)
    requires
        phys + offset <= u64::MAX,
    ensures
        (phys + offset) - offset == phys,
{
}

/// One 8-byte hardware page-table entry.
#[derive(Debug, Clone, Copy, PartialEq, Eq, Structural)]
pub struct PageTableEntry(pub u64);

/// The entry built from frame address `addr` and flag bits `flags`.
pub open spec fn entry_bits(addr: u64, flags: u64) -> u64 {
    (addr & !FLAGS_MASK) | (flags & FLAGS_MASK)
}

impl PageTableEntry {
    /// The zero entry (not present).
    pub fn empty() -> (e: Self)
        ensures
            e.0 == 0,
    {
        PageTableEntry(0)
    }

    /// Points the entry at the frame `addr` with flag bits `flags`: the low
    /// twelve bits of `addr` and everything above bit 11 of `flags` are
    /// dropped.
    pub fn set_address(&mut self, addr: u64, flags: u64)
        ensures
            final(self).0 == entry_bits(addr, flags),
    {
        self.0 = (addr & !FLAGS_MASK) | (flags & FLAGS_MASK);
    }

    pub fn is_present(&self) -> (b: bool)
        ensures
            b == (self.0 & FLAG_PRESENT != 0),
    {
        (self.0 & FLAG_PRESENT) != 0
    }
}

/// An entry keeps the frame address and the flags it was built from, each
/// cut to its field, and it is present exactly when the present flag was
/// given.
pub proof fn law_entry_fields(addr: u64, flags: u64)
    ensures
        entry_bits(addr, flags) & !FLAGS_MASK == addr & !FLAGS_MASK,
        entry_bits(addr, flags) & FLAGS_MASK == flags & FLAGS_MASK,
        (entry_bits(addr, flags) & FLAG_PRESENT != 0) == (flags & FLAG_PRESENT != 0),
{
    let e = entry_bits(addr, flags);
    assert(e & !0xFFFu64 == addr & !0xFFFu64 && e & 0xFFFu64 == flags & 0xFFFu64
        && ((e & 1u64 != 0) == (flags & 1u64 != 0))) by (bit_vector)
        requires
            e == (addr & !0xFFFu64) | (flags & 0xFFFu64);
}

/// Entries of one table level.
pub const ENTRIES_PER_TABLE: usize = 512;

/// One 4 KiB table of 512 entries.
pub struct PageTable {
    pub entries: [PageTableEntry; 512],
}

impl PageTable {
    /// Every entry zero.
    pub fn new() -> (t: Self)
        ensures
            forall|i: int| 0 <= i < ENTRIES_PER_TABLE ==> #[trigger] t.entries@[i].0 == 0,
    {
        PageTable { entries: [PageTableEntry(0); 512] }
    }

    /// Clears every entry.
    pub fn zero(&mut self)
        ensures
            forall|i: int| 0 <= i < ENTRIES_PER_TABLE ==> #[trigger] final(self).entries@[i].0 == 0,
    {
        let mut i: usize = 0;
        while i < ENTRIES_PER_TABLE
            invariant
                i <= ENTRIES_PER_TABLE,
                forall|j: int| 0 <= j < i ==> #[trigger] self.entries@[j].0 == 0,
            decreases ENTRIES_PER_TABLE - i,
        {
            self.entries[i] = PageTableEntry(0);
            i = i + 1;
        }
    }
}

/// A 64-bit virtual address, split into the four table indices.
#[derive(Debug, Clone, Copy, PartialEq, Eq, Structural)]
pub struct VirtualAddress(pub u64);

/// The nine-bit table index of `v` that starts at bit `shift`.
pub open spec fn index_at(v: u64, shift: u64) -> u64 {
    (v >> shift) & 0x1FF
}

impl VirtualAddress {
    /// Index into the top-level table: bits 39..48.
    pub fn p4_index(&self) -> (i: usize)
        ensures
            i == index_at(self.0, 39),
            i < ENTRIES_PER_TABLE,
    {
        let v = self.0;
        let x = (v >> 39u64) & 0x1FF;
        assert(x < 512) by (bit_vector) requires x == (v >> 39u64) & 0x1FF;
        x as usize
    }

    /// Index into the third-level table: bits 30..39.
    pub fn p3_index(&self) -> (i: usize)
        ensures
            i == index_at(self.0, 30),
            i < ENTRIES_PER_TABLE,
    {
        let v = self.0;
        let x = (v >> 30u64) & 0x1FF;
        assert(x < 512) by (bit_vector) requires x == (v >> 30u64) & 0x1FF;
        x as usize
    }

    /// Index into the second-level table: bits 21..30.
    pub fn p2_index(&self) -> (i: usize)
        ensures
            i == index_at(self.0, 21),
            i < ENTRIES_PER_TABLE,
    {
        let v = self.0;
        let x = (v >> 21u64) & 0x1FF;
        assert(x < 512) by (bit_vector) requires x == (v >> 21u64) & 0x1FF;
        x as usize
    }

    /// Index into the last-level table: bits 12..21.
    pub fn p1_index(&self) -> (i: usize)
        ensures
            i == index_at(self.0, 12),
            i < ENTRIES_PER_TABLE,
    {
        let v = self.0;
        let x = (v >> 12u64) & 0x1FF;
        assert(x < 512) by (bit_vector) requires x == (v >> 12u64) & 0x1FF;
        x as usize
    }
}

/// The four indices and the page offset together give back the low 48
/// bits of the address.
pub proof fn law_indices_recompose(v: u64)
    ensures
        (index_at(v, 39) << 39u64) | (index_at(v, 30) << 30u64) | (index_at(v, 21) << 21u64)
            | (index_at(v, 12) << 12u64) | (v & 0xFFF) == v & 0x0000_FFFF_FFFF_FFFF,
{
    assert((((v >> 39u64) & 0x1FF) << 39u64) | (((v >> 30u64) & 0x1FF) << 30u64) | (((v >> 21u64) & 0x1FF) << 21u64)
        | (((v >> 12u64) & 0x1FF) << 12u64) | (v & 0xFFF) == v & 0x0000_FFFF_FFFF_FFFFu64) by (bit_vector);
}

/// What one step of a table walk does with the entry it read.
#[derive(Debug, Clone, Copy, PartialEq, Eq, Structural)]
pub enum WalkStep {
    /// Read the next-level table at this physical address.
    Descend(u64),
    /// Stop with the raw entry and the outcome code: 0 a 4 KiB leaf, 1 a
    /// 2 MiB leaf, 2 a 1 GiB leaf, 3 a missing top-level entry, 4 a missing
    /// intermediate entry.
    Done(u64, u8),
}

/// The step a walk takes on reading `raw` at `level` (0 the top-level
/// table, 3 the last-level table).
pub open spec fn walk_step_spec(level: u8, raw: u64) -> WalkStep {
    let present = raw & FLAG_PRESENT != 0;
    let huge = raw & FLAG_HUGE != 0;
    if level == 0 {
        if !present { WalkStep::Done(raw, 3) } else { WalkStep::Descend(raw & ADDR_MASK) }
    } else if level == 1 {
        if !present { WalkStep::Done(raw, 4) } else if huge { WalkStep::Done(raw, 2) } else { WalkStep::Descend(raw & ADDR_MASK) }
    } else if level == 2 {
        if !present { WalkStep::Done(raw, 4) } else if huge { WalkStep::Done(raw, 1) } else { WalkStep::Descend(raw & ADDR_MASK) }
    } else {
        WalkStep::Done(raw, 0)
    }
}

/// The decision of a walk on reading entry `raw` at `level`.
pub fn walk_step(level: u8, raw: u64) -> (s: WalkStep)
    requires
        level <= 3,
    ensures
        s == walk_step_spec(level, raw),
{
    let present = raw & FLAG_PRESENT != 0;
    let huge = raw & FLAG_HUGE != 0;
    if level == 0 {
        if !present { WalkStep::Done(raw, 3) } else { WalkStep::Descend(raw & ADDR_MASK) }
    } else if level == 1 {
        if !present { WalkStep::Done(raw, 4) } else if huge { WalkStep::Done(raw, 2) } else { WalkStep::Descend(raw & ADDR_MASK) }
    } else if level == 2 {
        if !present { WalkStep::Done(raw, 4) } else if huge { WalkStep::Done(raw, 1) } else { WalkStep::Descend(raw & ADDR_MASK) }
    } else {
        WalkStep::Done(raw, 0)
    }
}

/// The table index a walk reads at `level` for `vaddr`.
pub fn walk_index(level: u8, vaddr: u64) -> (i: usize)
    requires
        level <= 3,
    ensures
        i < ENTRIES_PER_TABLE,
        i == index_at(vaddr, (39 - 9 * level) as u64),
{
    let va = VirtualAddress(vaddr);
    if level == 0 {
        va.p4_index()
    } else if level == 1 {
        va.p3_index()
    } else if level == 2 {
        va.p2_index()
    } else {
        va.p1_index()
    }
}

} // verus!
