use vstd::prelude::*;

verus! {

/// One 8-byte segment descriptor.
#[derive(Debug, Clone, Copy, PartialEq, Eq, Structural)]
pub struct GdtEntry(pub u64);

/// 64-bit ring-0 code segment descriptor.
pub const KERNEL_CODE_DESCRIPTOR: u64 = 0x00209A0000000000;
/// Ring-0 data segment descriptor.
pub const KERNEL_DATA_DESCRIPTOR: u64 = 0x0000920000000000;
/// 64-bit ring-3 code segment descriptor.
pub const USER_CODE_DESCRIPTOR: u64 = 0x0020FA0000000000;
/// Ring-3 data segment descriptor.
pub const USER_DATA_DESCRIPTOR: u64 = 0x0000F20000000000;
/// Low word of an available 64-bit TSS descriptor with limit 103 and a zero
/// base: present, type 9.
pub const TSS_DESCRIPTOR_BASE_ATTRS: u64 = 0x0000890000000067;

impl GdtEntry {
    pub fn new(value: u64) -> (e: Self)
        ensures
            e.0 == value,
    {
        GdtEntry(value)
    }

    pub fn kernel_code() -> (e: Self)
        ensures
            e.0 == KERNEL_CODE_DESCRIPTOR,
    {
        GdtEntry(KERNEL_CODE_DESCRIPTOR)
    }

    pub fn kernel_data() -> (e: Self)
        ensures
            e.0 == KERNEL_DATA_DESCRIPTOR,
    {
        GdtEntry(KERNEL_DATA_DESCRIPTOR)
    }

    pub fn user_code() -> (e: Self)
        ensures
            e.0 == USER_CODE_DESCRIPTOR,
    {
        GdtEntry(USER_CODE_DESCRIPTOR)
    }

    pub fn user_data() -> (e: Self)
        ensures
            e.0 == USER_DATA_DESCRIPTOR,
    {
        GdtEntry(USER_DATA_DESCRIPTOR)
    }
}

/// The 64-bit task-state segment.
#[derive(Debug, Clone, Copy)]
pub struct TaskStateSegment {
    pub reserved_1: u32,
    /// RSP0, RSP1, RSP2.
    pub privilege_stack_table: [u64; 3],
    pub reserved_2: u64,
    /// IST1 to IST7.
    pub interrupt_stack_table: [u64; 7],
    pub reserved_3: u64,
    pub reserved_4: u16,
    pub iomap_base: u16,
}

impl TaskStateSegment {
    /// Every field zero.
    pub fn new() -> (t: Self)
        ensures
            t.reserved_1 == 0 && t.reserved_2 == 0 && t.reserved_3 == 0 && t.reserved_4 == 0 && t.iomap_base == 0,
            forall|i: int| 0 <= i < 3 ==> t.privilege_stack_table[i] == 0,
            forall|i: int| 0 <= i < 7 ==> t.interrupt_stack_table[i] == 0,
    {
        TaskStateSegment {
            reserved_1: 0,
            privilege_stack_table: [0u64; 3],
            reserved_2: 0,
            interrupt_stack_table: [0u64; 7],
            reserved_3: 0,
            reserved_4: 0,
            iomap_base: 0,
        }
    }
}

/// The 16-byte system descriptor of a TSS.
#[derive(Debug, Clone, Copy, PartialEq, Eq, Structural)]
pub struct TssDescriptor {
    pub low: u64,
    pub high: u64,
}

/// Low word of the descriptor of a TSS at `p`: base bits 0..24 at bit 16,
/// base bits 24..32 at bit 56, over the attribute word.
pub open spec fn tss_low(p: u64) -> u64 {
    TSS_DESCRIPTOR_BASE_ATTRS | ((p & 0xFFFFFF) << 16u64) | (((p >> 24u64) & 0xFF) << 56u64)
}

/// The base address a TSS descriptor encodes.
pub open spec fn tss_base(d: TssDescriptor) -> u64 {
    ((d.low >> 16u64) & 0xFFFFFF) | (((d.low >> 56u64) & 0xFF) << 24u64) | (d.high << 32u64)
}

impl TssDescriptor {
    /// The descriptor of the TSS at address `tss_addr`.
    pub fn new(tss_addr: u64) -> (d: Self)
        ensures
            d.low == tss_low(tss_addr),
            d.high == tss_addr >> 32u64,
    {
        let ptr = tss_addr;
        let low = TSS_DESCRIPTOR_BASE_ATTRS | ((ptr & 0xFFFFFF) << 16u64) | (((ptr >> 24u64) & 0xFF) << 56u64);
        let high = ptr >> 32u64;
        TssDescriptor { low, high }
    }
}

/// A TSS descriptor decodes back to the address it was built from, and
/// keeps limit 103 and the present, type-9 attribute byte.
pub proof fn law_tss_descriptor_round_trip(p: u64)
    ensures
        tss_base(TssDescriptor { low: tss_low(p), high: p >> 32u64 }) == p,
        tss_low(p) & 0xFFFF == 0x67,
        (tss_low(p) >> 40u64) & 0xFF == 0x89,
{
    let low = tss_low(p);
    let high = p >> 32u64;
    assert(((low >> 16u64) & 0xFFFFFF) | (((low >> 56u64) & 0xFF) << 24u64) | (high << 32u64) == p) by (bit_vector)
        requires
            low == 0x0000890000000067u64 | ((p & 0xFFFFFF) << 16u64) | (((p >> 24u64) & 0xFF) << 56u64),
            high == p >> 32u64;
    assert(low & 0xFFFF == 0x67 && (low >> 40u64) & 0xFF == 0x89) by (bit_vector)
        requires
            low == 0x0000890000000067u64 | ((p & 0xFFFFFF) << 16u64) | (((p >> 24u64) & 0xFF) << 56u64);
}

/// Segment selector of the TSS: GDT slot 5.
pub const TSS_SELECTOR: u16 = 0x28;
/// Segment selector of the kernel data segment: GDT slot 2.
pub const KERNEL_DATA_SELECTOR: u16 = 0x10;

/// The kernel's descriptor table: null, kernel code, kernel data, user
/// code, user data, and the TSS.
#[derive(Debug)]
pub struct GlobalDescriptorTable {
    pub null: GdtEntry,
    pub kcode: GdtEntry,
    pub kdata: GdtEntry,
    pub ucode: GdtEntry,
    pub udata: GdtEntry,
    pub tss: TssDescriptor,
}

impl GlobalDescriptorTable {
    /// The five segments, with an empty TSS descriptor.
    pub fn new() -> (g: Self)
        ensures
            g.null.0 == 0,
            g.kcode.0 == KERNEL_CODE_DESCRIPTOR,
            g.kdata.0 == KERNEL_DATA_DESCRIPTOR,
            g.ucode.0 == USER_CODE_DESCRIPTOR,
            g.udata.0 == USER_DATA_DESCRIPTOR,
            g.tss == (TssDescriptor { low: 0, high: 0 }),
    {
        GlobalDescriptorTable {
            null: GdtEntry::new(0),
            kcode: GdtEntry::kernel_code(),
            kdata: GdtEntry::kernel_data(),
            ucode: GdtEntry::user_code(),
            udata: GdtEntry::user_data(),
            tss: TssDescriptor { low: 0, high: 0 },
        }
    }

    /// Points the TSS descriptor at the TSS at `tss_addr`; the segments are
    /// kept.
    pub fn set_tss(&mut self, tss_addr: u64)
        ensures
            final(self).tss.low == tss_low(tss_addr),
            final(self).tss.high == tss_addr >> 32u64,
            final(self).null == old(self).null,
            final(self).kcode == old(self).kcode,
            final(self).kdata == old(self).kdata,
            final(self).ucode == old(self).ucode,
            final(self).udata == old(self).udata,
    {
        self.tss = TssDescriptor::new(tss_addr);
    }
}

} // verus!
