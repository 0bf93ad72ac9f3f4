use atom_kernel::boot::{load_kernel, prepare_bootInfo, select_frame_pool, KernelInfo, MemoryRange, MemoryRegion, MemoryRegionType};
use atom_kernel::gdt::{GdtEntry, GlobalDescriptorTable, TaskStateSegment, TssDescriptor};
use atom_kernel::interrupts::{Idt, IdtEntry};
use atom_kernel::io::{Port, RingBuffer, RING_CAPACITY};
use atom_kernel::keyboard::{record_scancode, scancode_to_ascii, Keyboard};
use atom_kernel::page_table::PageTable as SmallPageTable;
use atom_kernel::paging::{phys_to_virt, virt_to_phys, walk_index, walk_step, PageTable, PageTableEntry, VirtualAddress, WalkStep};
use atom_kernel::pic::{ChainedPics, PortWrite};
use atom_kernel::scheduler_glue::FieldClock;
use atom_kernel::serial::{SerialPort, COM1};
use atom_kernel::syscall::SyscallEffect;
use atom_kernel::trap::TrapFrame;
use atom_kernel::vga::{CellWrite, VgaWriter};

#[test]
fn gdt_descriptors() {
    assert_eq!(GdtEntry::kernel_code().0, 0x00209A0000000000);
    assert_eq!(GdtEntry::kernel_data().0, 0x0000920000000000);
    assert_eq!(GdtEntry::user_code().0, 0x0020FA0000000000);
    assert_eq!(GdtEntry::user_data().0, 0x0000F20000000000);
    assert_eq!(GdtEntry::new(7).0, 7);
    let g = GlobalDescriptorTable::new();
    assert_eq!(g.null.0, 0);
    assert_eq!(g.tss, TssDescriptor { low: 0, high: 0 });
}

#[test]
fn tss_descriptor_encodes_address() {
    let d = TssDescriptor::new(0x1234_5678_9ABC_DEF0);
    assert_eq!(d.low, 0x9A00_89BC_DEF0_0067);
    assert_eq!(d.high, 0x1234_5678);
    // Decoding gives the address back.
    let base = ((d.low >> 16) & 0xFFFFFF) | (((d.low >> 56) & 0xFF) << 24) | (d.high << 32);
    assert_eq!(base, 0x1234_5678_9ABC_DEF0);
    let mut g = GlobalDescriptorTable::new();
    g.set_tss(0x1234_5678_9ABC_DEF0);
    assert_eq!(g.tss, d);
    assert_eq!(g.kcode.0, 0x00209A0000000000);
}

#[test]
fn tss_starts_empty() {
    let t = TaskStateSegment::new();
    assert_eq!(t.privilege_stack_table, [0; 3]);
    assert_eq!(t.interrupt_stack_table, [0; 7]);
    assert_eq!(t.iomap_base, 0);
}

#[test]
fn idt_gates() {
    let mut e = IdtEntry::new();
    e.set_handler_addr(0x1122_3344_5566_7788, 0);
    assert_eq!(e.offset_low, 0x7788);
    assert_eq!(e.offset_mid, 0x5566);
    assert_eq!(e.offset_high, 0x1122_3344);
    assert_eq!(e.selector, 0x08);
    assert_eq!(e.type_attr, 0x8E);
    let mut idt = Idt::new();
    idt.set_handler(32, 0xdead_beef);
    idt.set_handler_user(0x80, 0x1000);
    assert_eq!(idt.entries[32].offset_low, 0xbeef);
    assert_eq!(idt.entries[32].offset_mid, 0xdead);
    assert_eq!(idt.entries[32].type_attr, 0x8E);
    assert_eq!(idt.entries[0x80].type_attr, 0xEE);
    assert_eq!(idt.entries[0x80].offset_low, 0x1000);
    assert_eq!(idt.entries[33], IdtEntry::new());
}

#[test]
fn ring_buffer_is_fifo() {
    let mut r = RingBuffer::new();
    assert_eq!(r.pop(), None);
    r.push(1);
    r.push(2);
    r.push(3);
    assert_eq!(r.len(), 3);
    assert_eq!(r.pop(), Some(1));
    assert_eq!(r.pop(), Some(2));
    r.push(4);
    assert_eq!(r.pop(), Some(3));
    assert_eq!(r.pop(), Some(4));
    assert_eq!(r.pop(), None);
}

#[test]
fn ring_buffer_drops_oldest_when_full() {
    let mut r = RingBuffer::new();
    for i in 0..(RING_CAPACITY + 2) {
        r.push(i as u8);
    }
    assert_eq!(r.len(), RING_CAPACITY);
    assert_eq!(r.pop(), Some(2));
    let mut last = 2u8;
    while let Some(v) = r.pop() {
        last = v;
    }
    assert_eq!(last, (RING_CAPACITY + 1) as u8);
}

#[test]
fn keyboard_translation_and_recording() {
    assert_eq!(scancode_to_ascii(0x1E), Some(b'a'));
    assert_eq!(scancode_to_ascii(0x1C), Some(b'\n'));
    assert_eq!(scancode_to_ascii(0x0E), Some(8));
    assert_eq!(scancode_to_ascii(0x39), Some(b' '));
    assert_eq!(scancode_to_ascii(0x4E), Some(b'>'));
    assert_eq!(scancode_to_ascii(0x3A), None);
    let mut q = RingBuffer::new();
    record_scancode(&mut q, 0x1E);
    record_scancode(&mut q, 0x9E);
    record_scancode(&mut q, 0x30);
    assert_eq!(q.pop(), Some(0x1E));
    assert_eq!(q.pop(), Some(0x30));
    assert_eq!(q.pop(), None);
    let k = Keyboard::new();
    assert_eq!(k.data_port.port, 0x60);
    assert_eq!(k.status_port.port, 0x64);
    assert!(Keyboard::output_full(0x01));
    assert!(!Keyboard::output_full(0x1C));
}

#[test]
fn small_page_table_maps_and_translates() {
    let mut t = SmallPageTable::new();
    assert_eq!(t.translate(0x1000), None);
    assert_eq!(t.map(0x1000, 0x8000), Ok(()));
    assert_eq!(t.map(0x2000, 0x9000), Ok(()));
    assert_eq!(t.translate(0x1000), Some(0x8000));
    assert_eq!(t.translate(0x2000), Some(0x9000));
    assert_eq!(t.translate(0x3000), None);
    // The first mapping of an address wins.
    assert_eq!(t.map(0x1000, 0xA000), Ok(()));
    assert_eq!(t.translate(0x1000), Some(0x8000));
}

#[test]
fn small_page_table_fills_up() {
    let mut t = SmallPageTable::new();
    for i in 0..32usize {
        assert_eq!(t.map(i * 0x1000, i), Ok(()));
    }
    assert_eq!(t.map(0x100000, 1), Err(()));
    assert_eq!(t.translate(31 * 0x1000), Some(31));
}

#[test]
fn paging_entries_and_indices() {
    let mut e = PageTableEntry::empty();
    assert!(!e.is_present());
    e.set_address(0x1234_5FFF, 0x1007);
    assert_eq!(e.0, 0x1234_5007);
    assert!(e.is_present());
    let mut t = PageTable::new();
    t.entries[3] = e;
    t.zero();
    assert_eq!(t.entries[3].0, 0);
    let v = VirtualAddress(0xFFFF_FFFF_8010_2ABC);
    assert_eq!(v.p4_index(), 511);
    assert_eq!(v.p3_index(), 510);
    assert_eq!(v.p2_index(), 0);
    assert_eq!(v.p1_index(), 0x102);
    assert_eq!(walk_index(0, 0x0000_0080_0000_0000), 1);
    assert_eq!(walk_index(3, 0x3000), 3);
    assert_eq!(phys_to_virt(0x1000, 0xFFFF_8000_0000_0000), 0xFFFF_8000_0000_1000);
    assert_eq!(virt_to_phys(0xFFFF_8000_0000_1000, 0xFFFF_8000_0000_0000), 0x1000);
}

#[test]
fn walk_steps() {
    assert_eq!(walk_step(0, 0), WalkStep::Done(0, 3));
    assert_eq!(walk_step(0, 0x5003), WalkStep::Descend(0x5000));
    assert_eq!(walk_step(1, 0x2), WalkStep::Done(0x2, 4));
    assert_eq!(walk_step(1, 0x4000_0083), WalkStep::Done(0x4000_0083, 2));
    assert_eq!(walk_step(2, 0x20_0083), WalkStep::Done(0x20_0083, 1));
    assert_eq!(walk_step(2, 0x8000_0000_0000_7003), WalkStep::Descend(0x7000));
    assert_eq!(walk_step(3, 0x9007), WalkStep::Done(0x9007, 0));
}

#[test]
fn pic_programming() {
    let mut pics = ChainedPics::new();
    let w = pics.initialize(32, 40);
    let expect: Vec<(u16, u8)> = vec![
        (0x20, 0x11), (0xA0, 0x11), (0x21, 32), (0xA1, 40), (0x21, 4), (0xA1, 2),
        (0x21, 1), (0xA1, 1), (0x21, 0xFF), (0xA1, 0xFF),
    ];
    let got: Vec<(u16, u8)> = w.iter().map(|p| (p.port, p.value)).collect();
    assert_eq!(got, expect);
    assert_eq!(pics.offset1, 32);
    assert_eq!(pics.offset2, 40);
    assert_eq!(pics.unmask(0, 0xFF), Some(PortWrite { port: 0x21, value: 0xFE }));
    assert_eq!(pics.unmask(1, 0xFE), Some(PortWrite { port: 0x21, value: 0xFC }));
    assert_eq!(pics.unmask(12, 0xFF), Some(PortWrite { port: 0xA1, value: 0xEF }));
    assert_eq!(pics.unmask(16, 0xFF), None);
    assert_eq!(pics.mask_port(3), Some(0x21));
    assert_eq!(pics.mask_port(9), Some(0xA1));
    assert_eq!(pics.notify_end_of_interrupt(32), vec![PortWrite { port: 0x20, value: 0x20 }]);
    assert_eq!(
        pics.notify_end_of_interrupt(44),
        vec![PortWrite { port: 0xA0, value: 0x20 }, PortWrite { port: 0x20, value: 0x20 }]
    );
}

#[test]
fn serial_programming() {
    let s = SerialPort::new(COM1);
    assert_eq!(s.line_status.port, 0x3FD);
    let got: Vec<(u16, u8)> = s.init().iter().map(|p| (p.port, p.value)).collect();
    assert_eq!(
        got,
        vec![(0x3F9, 0x00), (0x3FB, 0x80), (0x3F8, 0x03), (0x3F9, 0x00), (0x3FB, 0x03), (0x3FA, 0xC7), (0x3FC, 0x0B)]
    );
    assert!(SerialPort::is_transmit_empty(0x60));
    assert!(!SerialPort::is_transmit_empty(0x40));
    assert_eq!(Port::new(0x3F8).port, 0x3F8);
}

fn cells_of(e: &[SyscallEffect]) -> Vec<CellWrite> {
    e.iter().filter_map(|x| if let SyscallEffect::Vga(c) = x { Some(*c) } else { None }).collect()
}

fn serial_of(e: &[SyscallEffect]) -> Vec<u8> {
    e.iter().filter_map(|x| if let SyscallEffect::Serial(b) = x { Some(*b) } else { None }).collect()
}

#[test]
fn vga_byte_goes_to_serial_before_the_screen() {
    let mut w = VgaWriter::new();
    assert_eq!(
        w.write_byte(b'Q'),
        vec![
            SyscallEffect::Serial(b'Q'),
            SyscallEffect::Vga(CellWrite { offset: 0, value: b'Q' }),
            SyscallEffect::Vga(CellWrite { offset: 1, value: 0x0f }),
        ]
    );
    // A line feed goes to the serial line and writes no cell.
    assert_eq!(w.write_byte(b'\n'), vec![SyscallEffect::Serial(b'\n')]);
    let e = w.write_string("ab");
    assert_eq!(
        e,
        vec![
            SyscallEffect::Serial(b'a'),
            SyscallEffect::Vga(CellWrite { offset: 160, value: b'a' }),
            SyscallEffect::Vga(CellWrite { offset: 161, value: 0x0f }),
            SyscallEffect::Serial(b'b'),
            SyscallEffect::Vga(CellWrite { offset: 162, value: b'b' }),
            SyscallEffect::Vga(CellWrite { offset: 163, value: 0x0f }),
        ]
    );
}

#[test]
fn vga_writes_cells_and_wraps() {
    let mut w = VgaWriter::new();
    let e = w.write_string("Hi");
    assert_eq!(serial_of(&e), b"Hi".to_vec());
    assert_eq!(
        cells_of(&e),
        vec![
            CellWrite { offset: 0, value: b'H' },
            CellWrite { offset: 1, value: 0x0f },
            CellWrite { offset: 2, value: b'i' },
            CellWrite { offset: 3, value: 0x0f },
        ]
    );
    let cells = cells_of(&w.write_string("\nx"));
    assert_eq!(cells, vec![CellWrite { offset: 160, value: b'x' }, CellWrite { offset: 161, value: 0x0f }]);
    let cells = cells_of(&w.write_byte(8));
    assert_eq!(cells, vec![CellWrite { offset: 160, value: b' ' }, CellWrite { offset: 161, value: 0x0f }]);
    // Backspace at the start of a row goes to the end of the previous row.
    let cells = cells_of(&w.write_byte(8));
    assert_eq!(cells, vec![CellWrite { offset: 158, value: b' ' }, CellWrite { offset: 159, value: 0x0f }]);
}

#[test]
fn vga_long_line_wraps_and_bottom_clears() {
    let mut w = VgaWriter::new();
    let line: String = std::iter::repeat('a').take(81).collect();
    let cells = cells_of(&w.write_string(&line));
    assert_eq!(cells.len(), 162);
    assert_eq!(cells[160], CellWrite { offset: 160, value: b'a' });
    let mut total = 0usize;
    for _ in 0..24 {
        total += cells_of(&w.write_byte(b'\n')).len();
    }
    // The line feed below the last row clears the screen.
    assert_eq!(total, 4000);
    let cells = cells_of(&w.write_byte(b'z'));
    assert_eq!(cells[0], CellWrite { offset: 0, value: b'z' });
    let clear = w.clear_screen();
    assert_eq!(clear.len(), 4000);
    assert_eq!(clear[0], CellWrite { offset: 0, value: b' ' });
    assert_eq!(clear[3999], CellWrite { offset: 3999, value: 0x0f });
}

#[test]
fn trap_frames() {
    let f = TrapFrame::new_user(0x400000, 0x7000);
    assert_eq!((f.rip, f.rsp, f.cs, f.ss, f.rflags, f.rax), (0x400000, 0x7000, 0x1B, 0x23, 0x202, 0));
    let k = TrapFrame::new_kernel(0x1000, 0x2000);
    assert_eq!((k.cs, k.ss), (0x08, 0x10));
    let e = TrapFrame::empty();
    assert_eq!((e.rip, e.cs, e.rflags), (0, 0, 0));
}

#[test]
fn field_clock_period() {
    let mut c = FieldClock::new();
    assert!(c.maybe_evolve(0));
    assert!(!c.maybe_evolve(5));
    assert!(c.maybe_evolve(20));
    c.set_evolution_divisor(0);
    assert!(c.maybe_evolve(7));
    c.set_evolution_divisor(3);
    assert!(c.maybe_evolve(9));
    assert!(!c.maybe_evolve(10));
}

#[test]
fn boot_info_and_frame_pool() {
    let k = load_kernel();
    assert_eq!(k, KernelInfo { start: 0x200000, end: 0x300000 });
    let b = prepare_bootInfo(k);
    assert_eq!(b.physical_memory_offset, 0xFFFF800000000000);
    assert_eq!((b.kernel_start, b.kernel_end, b.memory_map_addr, b.memory_map_len), (0x200000, 0x300000, 0, 0));
    let r = |s: u64, e: u64, t: MemoryRegionType| MemoryRegion { range: MemoryRange { start: s, end: e }, region_type: t };
    let map = vec![
        r(0, 100, MemoryRegionType::Usable),
        r(256, 1000, MemoryRegionType::Reserved),
        r(1000, 1500, MemoryRegionType::Usable),
        r(2000, 2500, MemoryRegionType::Usable),
        r(3000, 3300, MemoryRegionType::Usable),
    ];
    assert_eq!(select_frame_pool(&map), Some((1000 * 4096, 500)));
    let big = vec![r(10, 10 + 20000, MemoryRegionType::Usable)];
    assert_eq!(select_frame_pool(&big), Some((10 * 4096, 16384)));
    let none = vec![r(0, 255, MemoryRegionType::Usable), r(300, 900, MemoryRegionType::Kernel)];
    assert_eq!(select_frame_pool(&none), None);
    assert_eq!(MemoryRegionType::Usable.code(), 1);
    assert_eq!(MemoryRegionType::Framebuffer.code(), 8);
}
