use vstd::prelude::*;
use crate::io::Port;
use crate::pic::PortWrite;

verus! {

/// A 16550 UART: its six registers from the base port up.
#[derive(Debug, Clone, Copy, PartialEq, Eq, Structural)]
pub struct SerialPort {
    pub data: Port,
    pub interrupt_enable: Port,
    pub fifo_control: Port,
    pub line_control: Port,
    pub modem_control: Port,
    pub line_status: Port,
}

/// The UART programming sequence for the port at `base`: interrupts off,
/// divisor 3 (38400 baud), 8N1, FIFOs on and cleared, RTS/DSR and the
/// interrupt line on.
pub open spec fn serial_init_sequence(base: u16) -> Seq<PortWrite> {
    seq![
        PortWrite { port: (base + 1) as u16, value: 0x00 },
        PortWrite { port: (base + 3) as u16, value: 0x80 },
        PortWrite { port: base, value: 0x03 },
        PortWrite { port: (base + 1) as u16, value: 0x00 },
        PortWrite { port: (base + 3) as u16, value: 0x03 },
        PortWrite { port: (base + 2) as u16, value: 0xC7 },
        PortWrite { port: (base + 4) as u16, value: 0x0B },
    ]
}

impl SerialPort {
    /// The UART whose registers start at port `base`.
    pub fn new(base: u16) -> (s: Self)
        requires
            base + 5 <= u16::MAX,
        ensures
            s.data.port == base,
            s.interrupt_enable.port == base + 1,
            s.fifo_control.port == base + 2,
            s.line_control.port == base + 3,
            s.modem_control.port == base + 4,
            s.line_status.port == base + 5,
    {
        SerialPort {
            data: Port::new(base),
            interrupt_enable: Port::new(base + 1),
            fifo_control: Port::new(base + 2),
            line_control: Port::new(base + 3),
            modem_control: Port::new(base + 4),
            line_status: Port::new(base + 5),
        }
    }

    /// The port writes that program the UART, in order.
    pub fn init(&self) -> (w: Vec<PortWrite>)
        requires
            self.data.port + 5 <= u16::MAX,
            self.interrupt_enable.port == self.data.port + 1,
            self.fifo_control.port == self.data.port + 2,
            self.line_control.port == self.data.port + 3,
            self.modem_control.port == self.data.port + 4,
        ensures
            w@ == serial_init_sequence(self.data.port),
    {
        let mut w: Vec<PortWrite> = Vec::new();
        w.push(PortWrite { port: self.interrupt_enable.port, value: 0x00 });
        w.push(PortWrite { port: self.line_control.port, value: 0x80 });
        w.push(PortWrite { port: self.data.port, value: 0x03 });
        w.push(PortWrite { port: self.interrupt_enable.port, value: 0x00 });
        w.push(PortWrite { port: self.line_control.port, value: 0x03 });
        w.push(PortWrite { port: self.fifo_control.port, value: 0xC7 });
        w.push(PortWrite { port: self.modem_control.port, value: 0x0B });
        assert(w@ =~= serial_init_sequence(self.data.port));
        w
    }

    /// Whether a line-status byte says the transmit holding register is
    /// empty (bit 5), so a byte may be written.
    pub fn is_transmit_empty(line_status: u8) -> (b: bool)
        ensures
            b == (line_status & 0x20 != 0),
    {
        line_status & 0x20 != 0
    }
}

/// Port base of the first serial line.
pub const COM1: u16 = 0x3F8;

} // verus!
