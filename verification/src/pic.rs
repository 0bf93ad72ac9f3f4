use vstd::prelude::*;
use crate::io::Port;

verus! {

pub const PIC1_COMMAND: u16 = 0x20;
pub const PIC1_DATA: u16 = 0x21;
pub const PIC2_COMMAND: u16 = 0xA0;
pub const PIC2_DATA: u16 = 0xA1;
pub const ICW1_INIT: u8 = 0x10;
pub const ICW1_ICW4: u8 = 0x01;
pub const ICW4_8086: u8 = 0x01;
/// The end-of-interrupt command.
pub const EOI: u8 = 0x20;

/// A byte to write to an I/O port.
#[derive(Debug, Clone, Copy, PartialEq, Eq, Structural)]
pub struct PortWrite {
    pub port: u16,
    pub value: u8,
}

/// The two cascaded 8259 interrupt controllers, and the vector offsets they
/// were programmed with.
#[derive(Debug, Clone, Copy, PartialEq, Eq, Structural)]
pub struct ChainedPics {
    pub pic1_command: Port,
    pub pic1_data: Port,
    pub pic2_command: Port,
    pub pic2_data: Port,
    pub offset1: u8,
    pub offset2: u8,
}

/// The initialization sequence for vector offsets `o1` and `o2`: start,
/// offsets, cascade wiring, 8086 mode, then every line masked.
pub open spec fn init_sequence(o1: u8, o2: u8) -> Seq<PortWrite> {
    seq![
        PortWrite { port: PIC1_COMMAND, value: 0x11 },
        PortWrite { port: PIC2_COMMAND, value: 0x11 },
        PortWrite { port: PIC1_DATA, value: o1 },
        PortWrite { port: PIC2_DATA, value: o2 },
        PortWrite { port: PIC1_DATA, value: 4 },
        PortWrite { port: PIC2_DATA, value: 2 },
        PortWrite { port: PIC1_DATA, value: ICW4_8086 },
        PortWrite { port: PIC2_DATA, value: ICW4_8086 },
        PortWrite { port: PIC1_DATA, value: 0xFF },
        PortWrite { port: PIC2_DATA, value: 0xFF },
    ]
}

impl ChainedPics {
    /// Both controllers at their standard ports; offsets not yet set.
    pub fn new() -> (p: Self)
        ensures
            p.pic1_command.port == PIC1_COMMAND,
            p.pic1_data.port == PIC1_DATA,
            p.pic2_command.port == PIC2_COMMAND,
            p.pic2_data.port == PIC2_DATA,
            p.offset1 == 0 && p.offset2 == 0,
    {
        ChainedPics {
            pic1_command: Port::new(PIC1_COMMAND),
            pic1_data: Port::new(PIC1_DATA),
            pic2_command: Port::new(PIC2_COMMAND),
            pic2_data: Port::new(PIC2_DATA),
            offset1: 0,
            offset2: 0,
        }
    }

    /// Records the vector offsets and returns the port writes that program
    /// both controllers, in order.
    pub fn initialize(&mut self, offset1: u8, offset2: u8) -> (w: Vec<PortWrite>)
        requires
            old(self).pic1_command.port == PIC1_COMMAND,
            old(self).pic1_data.port == PIC1_DATA,
            old(self).pic2_command.port == PIC2_COMMAND,
            old(self).pic2_data.port == PIC2_DATA,
        ensures
            *final(self) == (ChainedPics { offset1, offset2, ..*old(self) }),
            w@ == init_sequence(offset1, offset2),
    {
        self.offset1 = offset1;
        self.offset2 = offset2;
        assert(0x10u8 | 0x01u8 == 0x11u8) by (bit_vector);
        let mut w: Vec<PortWrite> = Vec::new();
        w.push(PortWrite { port: self.pic1_command.port, value: ICW1_INIT | ICW1_ICW4 });
        w.push(PortWrite { port: self.pic2_command.port, value: ICW1_INIT | ICW1_ICW4 });
        w.push(PortWrite { port: self.pic1_data.port, value: offset1 });
        w.push(PortWrite { port: self.pic2_data.port, value: offset2 });
        w.push(PortWrite { port: self.pic1_data.port, value: 4 });
        w.push(PortWrite { port: self.pic2_data.port, value: 2 });
        w.push(PortWrite { port: self.pic1_data.port, value: ICW4_8086 });
        w.push(PortWrite { port: self.pic2_data.port, value: ICW4_8086 });
        w.push(PortWrite { port: self.pic1_data.port, value: 0xFF });
        w.push(PortWrite { port: self.pic2_data.port, value: 0xFF });
        assert(w@ =~= init_sequence(offset1, offset2));
        w
    }

    /// The data port whose mask register holds line `irq`, if `irq` is a
    /// line (0 to 15).
    pub fn mask_port(&self, irq: u8) -> (r: Option<u16>)
        ensures
            irq < 8 ==> r == Some(self.pic1_data.port),
            8 <= irq < 16 ==> r == Some(self.pic2_data.port),
            irq >= 16 ==> r is None,
    {
        if irq < 8 {
            Some(self.pic1_data.port)
        } else if irq < 16 {
            Some(self.pic2_data.port)
        } else {
            None
        }
    }

    /// The write that unmasks line `irq`, given the mask currently read
    /// from `mask_port(irq)`: that mask with the line's bit cleared. Lines
    /// outside 0 to 15 give no write.
    pub fn unmask(&self, irq: u8, current_mask: u8) -> (r: Option<PortWrite>)
        ensures
            irq < 8 ==> r == Some(PortWrite { port: self.pic1_data.port, value: current_mask & !(1u8 << irq) }),
            8 <= irq < 16 ==> r == Some(PortWrite { port: self.pic2_data.port, value: current_mask & !(1u8 << ((irq - 8) as u8)) }),
            irq >= 16 ==> r is None,
    {
        if irq < 8 {
            Some(PortWrite { port: self.pic1_data.port, value: current_mask & !(1u8 << irq) })
        } else if irq < 16 {
            Some(PortWrite { port: self.pic2_data.port, value: current_mask & !(1u8 << (irq - 8)) })
        } else {
            None
        }
    }

    /// The end-of-interrupt writes for vector `interrupt_id`: the slave
    /// first when the vector is at or above its offset, then the master.
    pub fn notify_end_of_interrupt(&self, interrupt_id: u8) -> (w: Vec<PortWrite>)
        ensures
            interrupt_id >= self.offset2 ==> w@ == seq![
                PortWrite { port: self.pic2_command.port, value: EOI },
                PortWrite { port: self.pic1_command.port, value: EOI },
            ],
            interrupt_id < self.offset2 ==> w@ == seq![PortWrite { port: self.pic1_command.port, value: EOI }],
    {
        let mut w: Vec<PortWrite> = Vec::new();
        if interrupt_id >= self.offset2 {
            w.push(PortWrite { port: self.pic2_command.port, value: EOI });
        }
        w.push(PortWrite { port: self.pic1_command.port, value: EOI });
        proof {
            if interrupt_id >= self.offset2 {
                assert(w@ =~= seq![
                    PortWrite { port: self.pic2_command.port, value: EOI },
                    PortWrite { port: self.pic1_command.port, value: EOI },
                ]);
            } else {
                assert(w@ =~= seq![PortWrite { port: self.pic1_command.port, value: EOI }]);
            }
        }
        w
    }
}

/// Unmasking a line clears exactly that line's bit and keeps every other
/// line's mask bit.
pub proof fn law_unmask_clears_only_its_line(mask: u8, irq: u8, other: u8)
    requires
        irq < 8,
        other < 8,
        other != irq,
    ensures
        (mask & !(1u8 << irq)) & (1u8 << irq) == 0,
        (mask & !(1u8 << irq)) & (1u8 << other) == mask & (1u8 << other),
{
    assert((mask & !(1u8 << irq)) & (1u8 << irq) == 0) by (bit_vector) requires irq < 8u8;
    assert((mask & !(1u8 << irq)) & (1u8 << other) == mask & (1u8 << other)) by (bit_vector)
        requires irq < 8u8, other < 8u8, other != irq;
}

} // verus!
