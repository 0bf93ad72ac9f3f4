use vstd::prelude::*;

verus! {

/// Code segment selector every gate uses (GDT slot 1).
pub const GATE_SELECTOR: u16 = 0x08;
/// Present 64-bit interrupt gate, privilege level 0.
pub const GATE_TYPE_ATTR: u8 = 0x8E;

/// One 16-byte interrupt gate.
#[derive(Debug, Clone, Copy, PartialEq, Eq, Structural)]
pub struct IdtEntry {
    pub offset_low: u16,
    pub selector: u16,
    pub ist: u8,
    pub type_attr: u8,
    pub offset_mid: u16,
    pub offset_high: u32,
    pub zero: u32,
}

/// The handler address a gate encodes.
pub open spec fn gate_offset(e: IdtEntry) -> u64 {
    (e.offset_low as u64) | ((e.offset_mid as u64) << 16u64) | ((e.offset_high as u64) << 32u64)
}

/// The entry `e` pointed at `addr`, usable from privilege level `dpl`.
pub open spec fn gate_for(e: IdtEntry, addr: u64, dpl: u8) -> IdtEntry {
    IdtEntry {
        offset_low: addr as u16,
        offset_mid: (addr >> 16u64) as u16,
        offset_high: (addr >> 32u64) as u32,
        selector: GATE_SELECTOR,
        type_attr: GATE_TYPE_ATTR | (dpl << 5u8),
        ..e
    }
}

impl IdtEntry {
    /// A gate with every field zero (not present).
    pub fn new() -> (e: Self)
        ensures
            e == (IdtEntry { offset_low: 0, selector: 0, ist: 0, type_attr: 0, offset_mid: 0, offset_high: 0, zero: 0 }),
    {
        IdtEntry { offset_low: 0, selector: 0, ist: 0, type_attr: 0, offset_mid: 0, offset_high: 0, zero: 0 }
    }

    /// Makes this a present interrupt gate to `addr` in the kernel code
    /// segment, callable from privilege level `dpl`; `ist` and the reserved
    /// word are kept.
    pub fn set_handler_addr(&mut self, addr: u64, dpl: u8)
        ensures
            *final(self) == gate_for(*old(self), addr, dpl),
    {
        self.offset_low = addr as u16;
        self.offset_mid = (addr >> 16u64) as u16;
        self.offset_high = (addr >> 32u64) as u32;
        self.selector = GATE_SELECTOR;
        self.type_attr = GATE_TYPE_ATTR | (dpl << 5u8);
    }
}

/// A gate decodes back to the handler address it was set to, is present,
/// and carries the requested privilege level.
pub proof fn law_gate_round_trip(e: IdtEntry, addr: u64, dpl: u8)
    requires
        dpl <= 3,
    ensures
        gate_offset(gate_for(e, addr, dpl)) == addr,
        gate_for(e, addr, dpl).type_attr & 0x80 != 0,
        (gate_for(e, addr, dpl).type_attr >> 5u8) & 3 == dpl,
{
    let g = gate_for(e, addr, dpl);
    let lo = addr as u16;
    let mid = (addr >> 16u64) as u16;
    let hi = (addr >> 32u64) as u32;
    assert((lo as u64) | ((mid as u64) << 16u64) | ((hi as u64) << 32u64) == addr) by (bit_vector)
        requires
            lo == addr as u16,
            mid == (addr >> 16u64) as u16,
            hi == (addr >> 32u64) as u32;
    let t = g.type_attr;
    assert(t & 0x80 != 0 && (t >> 5u8) & 3 == dpl) by (bit_vector)
        requires
            t == 0x8Eu8 | (dpl << 5u8),
            dpl <= 3;
}

/// A gate pointed at a handler keeps the stack index and the reserved
/// word it had, and uses selector 0x08; a gate that had stack index 0,
/// as every gate of a new table has, asks for no stack switch.
pub proof fn law_gate_keeps_stack_index(e: IdtEntry, addr: u64, dpl: u8)
    ensures
        gate_for(e, addr, dpl).ist == e.ist,
        gate_for(e, addr, dpl).zero == e.zero,
        gate_for(e, addr, dpl).selector == 0x08,
        e.ist == 0 ==> gate_for(e, addr, dpl).ist == 0,
{
}

/// Number of vectors of the table.
pub const IDT_ENTRIES: usize = 256;

/// The interrupt descriptor table: 256 gates.
pub struct Idt {
    pub entries: [IdtEntry; 256],
}

impl Idt {
    /// Every gate zero (not present).
    pub fn new() -> (t: Self)
        ensures
            forall|i: int| 0 <= i < IDT_ENTRIES ==> #[trigger] t.entries@[i]
                == (IdtEntry { offset_low: 0, selector: 0, ist: 0, type_attr: 0, offset_mid: 0, offset_high: 0, zero: 0 }),
    {
        Idt { entries: [IdtEntry { offset_low: 0, selector: 0, ist: 0, type_attr: 0, offset_mid: 0, offset_high: 0, zero: 0 }; 256] }
    }

    /// Installs `handler` for vector `interrupt_id`, reachable from ring 0
    /// only.
    pub fn set_handler(&mut self, interrupt_id: u8, handler: u64)
        ensures
            final(self).entries@ == old(self).entries@.update(interrupt_id as int,
                gate_for(old(self).entries@[interrupt_id as int], handler, 0)),
    {
        self.entries[interrupt_id as usize].set_handler_addr(handler, 0);
    }

    /// Installs `handler` for vector `interrupt_id`, reachable from ring 3.
    pub fn set_handler_user(&mut self, interrupt_id: u8, handler: u64)
        ensures
            final(self).entries@ == old(self).entries@.update(interrupt_id as int,
                gate_for(old(self).entries@[interrupt_id as int], handler, 3)),
    {
        self.entries[interrupt_id as usize].set_handler_addr(handler, 3);
    }
}

/// The operand of the instruction that loads the table: its byte size
/// minus one, and its address.
#[derive(Debug, Clone, Copy, PartialEq, Eq, Structural)]
pub struct IdtDescriptor {
    pub size: u16,
    pub offset: u64,
}

} // verus!
