use atom_kernel::context::{Context, TaskState};
use atom_kernel::exec::{complete_exec, ExecPlan, USER_STACK_TOP};
use atom_kernel::fs::AtomNode;
use atom_kernel::memory::MemoryPool;
use atom_kernel::syscall::{
    dispatch, user_string_arg, KernelState, SyscallEffect, IPC_MAP_VADDR, SYSCALL_ERROR, SYS_ALLOC, SYS_CLEAR,
    SYS_CLOSE, SYS_EXEC, SYS_EXIT, SYS_IPC_RECV, SYS_IPC_SEND, SYS_LIST_DIR, SYS_OPEN, SYS_PRINT, SYS_READ,
    SYS_READ_FILE, SYS_TRUNCATE, SYS_WRITE, SYS_WRITE_FILE, SYS_YIELD,
};
use atom_kernel::system::exception_report;
use atom_kernel::trap::TrapFrame;
use atom_kernel::vga::CellWrite;

struct Machine {
    ctx: Context,
    mem: MemoryPool,
    frame: TrapFrame,
    k: KernelState,
}

impl Machine {
    fn new() -> Self {
        Machine { ctx: Context::new(1, 0x8000, 0x9000, 0x1000), mem: MemoryPool::new(), frame: TrapFrame::new_user(0x400000, 0x7000), k: KernelState::new() }
    }

    fn call(&mut self, n: u64, a0: u64, a1: u64, user: &[u8]) -> (u64, Vec<SyscallEffect>) {
        self.frame.rax = n;
        self.frame.rdi = a0;
        self.frame.rsi = a1;
        let e = dispatch(&mut self.ctx, &mut self.mem, &mut self.frame, &mut self.k, user);
        (self.frame.rax, e)
    }
}

fn serial_bytes(e: &[SyscallEffect]) -> Vec<u8> {
    e.iter().filter_map(|x| if let SyscallEffect::Serial(b) = x { Some(*b) } else { None }).collect()
}

fn vga_cells(e: &[SyscallEffect]) -> Vec<CellWrite> {
    e.iter().filter_map(|x| if let SyscallEffect::Vga(c) = x { Some(*c) } else { None }).collect()
}

#[test]
fn yield_exit_and_unknown_calls() {
    let mut m = Machine::new();
    assert_eq!(m.call(SYS_YIELD, 0, 0, &[]).0, 0);
    assert_eq!(m.call(99, 0, 0, &[]).0, SYSCALL_ERROR);
    assert_eq!(m.call(0, 0, 0, &[]).0, SYSCALL_ERROR);
    assert_eq!(m.call(SYS_EXIT, 0, 0, &[]).0, 0);
    assert_eq!(m.ctx.state, TaskState::Terminated);
    // Only rax changes in the frame.
    assert_eq!(m.frame.rip, 0x400000);
}

#[test]
fn no_saved_frame_is_left_alone() {
    let mut m = Machine::new();
    m.ctx.rsp = 0;
    m.frame.rax = SYS_EXIT;
    let e = dispatch(&mut m.ctx, &mut m.mem, &mut m.frame, &mut m.k, &[]);
    assert!(e.is_empty());
    assert_eq!(m.frame.rax, SYS_EXIT);
    assert_eq!(m.ctx.state, TaskState::Ready);
}

#[test]
fn alloc_takes_lowest_block() {
    let mut m = Machine::new();
    assert_eq!(m.call(SYS_ALLOC, 0, 0, &[]).0, 0);
    assert_eq!(m.call(SYS_ALLOC, 0, 0, &[]).0, 1);
    m.mem.blocks = [false; 1024];
    assert_eq!(m.call(SYS_ALLOC, 0, 0, &[]).0, SYSCALL_ERROR);
}

#[test]
fn read_skips_untranslatable_scancodes() {
    let mut m = Machine::new();
    assert_eq!(m.call(SYS_READ, 0, 0, &[]).0, 0);
    m.k.keyboard.push(0x3A);
    m.k.keyboard.push(0x23);
    m.k.keyboard.push(0x17);
    assert_eq!(m.call(SYS_READ, 0, 0, &[]).0, b'h' as u64);
    assert_eq!(m.call(SYS_READ, 0, 0, &[]).0, b'i' as u64);
    assert_eq!(m.call(SYS_READ, 0, 0, &[]).0, 0);
}

#[test]
fn write_prints_on_serial_and_screen() {
    let mut m = Machine::new();
    let (r, e) = m.call(SYS_WRITE, b'A' as u64, 0, &[]);
    assert_eq!(r, 1);
    assert_eq!(e, vec![
        SyscallEffect::Serial(b'A'),
        SyscallEffect::Vga(CellWrite { offset: 0, value: b'A' }),
        SyscallEffect::Vga(CellWrite { offset: 1, value: 0x0f }),
    ]);
    // A byte that is not a character by itself prints nothing, but succeeds.
    let (r, e) = m.call(SYS_WRITE, 0xC3, 0, &[]);
    assert_eq!(r, 1);
    assert!(e.is_empty());
    // Only the low byte of the argument counts.
    let (_, e) = m.call(SYS_WRITE, 0x142, 0, &[]);
    assert_eq!(serial_bytes(&e), vec![0x42]);
}

#[test]
fn console_cursor_persists_across_calls() {
    let mut m = Machine::new();
    m.call(SYS_WRITE, b'A' as u64, 0, &[]);
    let (_, e) = m.call(SYS_WRITE, b'B' as u64, 0, &[]);
    assert_eq!(vga_cells(&e), vec![CellWrite { offset: 2, value: b'B' }, CellWrite { offset: 3, value: 0x0f }]);
    m.call(SYS_WRITE, b'\n' as u64, 0, &[]);
    let (_, e) = m.call(SYS_WRITE, b'C' as u64, 0, &[]);
    assert_eq!(vga_cells(&e)[0], CellWrite { offset: 160, value: b'C' });
    // A listing continues where the last write stopped.
    let (_, e) = m.call(SYS_LIST_DIR, 0, 0, &[]);
    assert_eq!(serial_bytes(&e), b"\n".to_vec());
    let (_, e) = m.call(SYS_WRITE, b'E' as u64, 0, &[]);
    assert_eq!(vga_cells(&e)[0], CellWrite { offset: 320, value: b'E' });
    // Clearing the screen sends the cursor home.
    m.call(SYS_CLEAR, 0, 0, &[]);
    let (_, e) = m.call(SYS_WRITE, b'D' as u64, 0, &[]);
    assert_eq!(vga_cells(&e)[0], CellWrite { offset: 0, value: b'D' });
}

#[test]
fn print_goes_to_serial_only() {
    let mut m = Machine::new();
    let (r, e) = m.call(SYS_PRINT, b'x' as u64, 0, &[]);
    assert_eq!((r, e), (0, vec![SyscallEffect::Serial(b'x')]));
}

#[test]
fn clear_blanks_the_screen() {
    let mut m = Machine::new();
    let (r, e) = m.call(SYS_CLEAR, 0, 0, &[]);
    assert_eq!(r, 0);
    let cells = vga_cells(&e);
    assert_eq!(cells.len(), 4000);
    assert!(serial_bytes(&e).is_empty());
    assert_eq!(cells[2], CellWrite { offset: 2, value: b' ' });
}

#[test]
fn open_write_read_round_trip() {
    let mut m = Machine::new();
    let (fd, _) = m.call(SYS_OPEN, 0, 0, b"notes");
    assert_eq!(fd, 0);
    assert_eq!(m.ctx.open_files[0], (1, 0));
    assert_eq!(m.call(SYS_WRITE_FILE, fd, b'h' as u64, &[]).0, 1);
    assert_eq!(m.call(SYS_WRITE_FILE, fd, b'i' as u64, &[]).0, 1);
    assert_eq!(m.call(SYS_READ_FILE, fd, 0, &[]).0, b'h' as u64);
    assert_eq!(m.call(SYS_READ_FILE, fd, 0, &[]).0, b'i' as u64);
    assert_eq!(m.call(SYS_READ_FILE, fd, 0, &[]).0, SYSCALL_ERROR);
    // A second open of the same name gets a new descriptor on the same file.
    let (fd2, _) = m.call(SYS_OPEN, 0, 0, b"notes");
    assert_eq!(fd2, 1);
    assert_eq!(m.call(SYS_READ_FILE, fd2, 0, &[]).0, b'h' as u64);
    match &m.k.root_fs {
        AtomNode::Directory(ch) => {
            assert_eq!(ch.len(), 1);
            assert_eq!(ch[0].0, "notes");
        }
        AtomNode::File(_) => panic!("root is a directory"),
    }
}

#[test]
fn read_after_write_at_end_of_file() {
    let mut m = Machine::new();
    let (fd, _) = m.call(SYS_OPEN, 0, 0, b"log");
    for b in b"abc" {
        m.call(SYS_WRITE_FILE, fd, *b as u64, &[]);
    }
    for _ in 0..3 {
        m.call(SYS_READ_FILE, fd, 0, &[]);
    }
    m.call(SYS_WRITE_FILE, fd, b'z' as u64, &[]);
    assert_eq!(m.call(SYS_READ_FILE, fd, 0, &[]).0, b'z' as u64);
}

#[test]
fn truncate_and_close() {
    let mut m = Machine::new();
    let (fd, _) = m.call(SYS_OPEN, 0, 0, b"t");
    m.call(SYS_WRITE_FILE, fd, b'1' as u64, &[]);
    m.call(SYS_READ_FILE, fd, 0, &[]);
    assert_eq!(m.call(SYS_TRUNCATE, fd, 0, &[]).0, 0);
    assert_eq!(m.ctx.open_files[fd as usize].1, 0);
    assert_eq!(m.call(SYS_READ_FILE, fd, 0, &[]).0, SYSCALL_ERROR);
    assert_eq!(m.call(SYS_CLOSE, fd, 0, &[]).0, 0);
    assert_eq!(m.ctx.open_files[fd as usize], (0, 0));
    assert_eq!(m.call(SYS_READ_FILE, fd, 0, &[]).0, SYSCALL_ERROR);
    assert_eq!(m.call(SYS_WRITE_FILE, fd, 1, &[]).0, SYSCALL_ERROR);
    assert_eq!(m.call(SYS_TRUNCATE, fd, 0, &[]).0, SYSCALL_ERROR);
    assert_eq!(m.call(SYS_CLOSE, 16, 0, &[]).0, SYSCALL_ERROR);
    assert_eq!(m.call(SYS_READ_FILE, 16, 0, &[]).0, SYSCALL_ERROR);
}

#[test]
fn open_rejects_bad_names_and_directories() {
    let mut m = Machine::new();
    // Not UTF-8: refused, nothing created.
    assert_eq!(m.call(SYS_OPEN, 0, 0, &[0xFF, 0x61]).0, SYSCALL_ERROR);
    match &m.k.root_fs {
        AtomNode::Directory(ch) => assert!(ch.is_empty()),
        AtomNode::File(_) => panic!("root is a directory"),
    }
    if let AtomNode::Directory(ch) = &mut m.k.root_fs {
        ch.push((String::from("bin"), AtomNode::new_dir()));
    }
    assert_eq!(m.call(SYS_OPEN, 0, 0, b"bin").0, SYSCALL_ERROR);
    assert!(m.ctx.open_files.iter().all(|f| *f == (0, 0)));
}

#[test]
fn open_runs_out_of_descriptors() {
    let mut m = Machine::new();
    for i in 0..16u64 {
        assert_eq!(m.call(SYS_OPEN, 0, 0, b"f").0, i);
    }
    assert_eq!(m.call(SYS_OPEN, 0, 0, b"f").0, SYSCALL_ERROR);
    m.call(SYS_CLOSE, 5, 0, &[]);
    assert_eq!(m.call(SYS_OPEN, 0, 0, b"g").0, 5);
    assert_eq!(m.ctx.open_files[5], (2, 0));
}

#[test]
fn list_dir_prints_names() {
    let mut m = Machine::new();
    m.call(SYS_OPEN, 0, 0, b"a");
    if let AtomNode::Directory(ch) = &mut m.k.root_fs {
        ch.push((String::from("d"), AtomNode::new_dir()));
    }
    let (r, e) = m.call(SYS_LIST_DIR, 0, 0, &[]);
    assert_eq!(r, 0);
    assert_eq!(serial_bytes(&e), b"a  d/  \n".to_vec());
    let cells = vga_cells(&e);
    assert_eq!(cells[0], CellWrite { offset: 0, value: b'a' });
    assert_eq!(cells.len(), 14);
}

#[test]
fn ipc_send_then_receive() {
    let mut m = Machine::new();
    assert_eq!(m.call(SYS_IPC_RECV, 0, 0, &[]), (0, vec![]));
    assert_eq!(m.call(SYS_IPC_SEND, 1, 0, b"ping").0, 0);
    let (r, e) = m.call(SYS_IPC_RECV, 0, 0, &[]);
    assert_eq!(r, IPC_MAP_VADDR);
    assert_eq!(e, vec![SyscallEffect::MapMessage(b"ping".to_vec())]);
    assert_eq!(m.call(SYS_IPC_RECV, 0, 0, &[]), (0, vec![]));
    assert_eq!(m.call(SYS_IPC_SEND, 16, 0, b"x").0, SYSCALL_ERROR);
    m.ctx.id = 20;
    assert_eq!(m.call(SYS_IPC_RECV, 0, 0, &[]).0, SYSCALL_ERROR);
}

#[test]
fn user_string_locations() {
    let mut f = TrapFrame::empty();
    f.rdi = 0x1000;
    f.rsi = 0x2000;
    f.rax = SYS_OPEN;
    assert_eq!(user_string_arg(&f), Some((0x1000, Some(255))));
    f.rax = SYS_EXEC;
    assert_eq!(user_string_arg(&f), Some((0x1000, None)));
    f.rax = SYS_IPC_SEND;
    assert_eq!(user_string_arg(&f), Some((0x2000, Some(255))));
    f.rax = SYS_WRITE;
    assert_eq!(user_string_arg(&f), None);
}

fn le(v: u64, n: usize) -> Vec<u8> {
    v.to_le_bytes()[..n].to_vec()
}

/// A small ELF image: header, then one program header per entry of `segs`
/// (type, offset, vaddr, filesz, memsz).
fn elf(entry: u64, segs: &[(u32, u64, u64, u64, u64)]) -> Vec<u8> {
    let mut b = vec![0x7F, b'E', b'L', b'F'];
    b.resize(64, 0);
    b[24..32].copy_from_slice(&le(entry, 8));
    b[32..40].copy_from_slice(&le(64, 8));
    b[56..58].copy_from_slice(&le(segs.len() as u64, 2));
    for (t, off, va, fs, ms) in segs {
        let mut p = vec![0u8; 56];
        p[0..4].copy_from_slice(&le(*t as u64, 4));
        p[8..16].copy_from_slice(&le(*off, 8));
        p[16..24].copy_from_slice(&le(*va, 8));
        p[32..40].copy_from_slice(&le(*fs, 8));
        p[40..48].copy_from_slice(&le(*ms, 8));
        b.extend(p);
    }
    b.resize(b.len() + 0x100, 0xAB);
    b
}

#[test]
fn exec_plans_the_span_and_completes() {
    let mut m = Machine::new();
    let image = elf(0x8010_0000, &[
        (1, 0x80, 0x8010_0000, 0x20, 0x24c5),
        (4, 0, 0, 0, 0),
        (1, 0xA0, 0x8010_24d0, 0x10, 0x30),
    ]);
    if let AtomNode::Directory(ch) = &mut m.k.root_fs {
        ch.push((String::from("shell.elf"), AtomNode::File(image)));
    }
    m.call(SYS_OPEN, 0, 0, b"other");
    let (r, e) = m.call(SYS_EXEC, 0, 0, b"shell.elf");
    assert_eq!(r, SYSCALL_ERROR);
    assert_eq!(e.len(), 1);
    let plan: ExecPlan = match &e[0] {
        SyscallEffect::Exec(p) => p.clone(),
        _ => panic!("expected a load"),
    };
    assert_eq!(plan.file, 0);
    assert_eq!(plan.entry, 0x8010_0000);
    assert_eq!(plan.span_start, 0x8010_0000);
    assert_eq!(plan.span_bytes, 0x3000);
    assert_eq!(plan.span_nframes, 3);
    assert_eq!(plan.segments.len(), 2);
    assert_eq!((plan.segments[1].offset, plan.segments[1].vaddr, plan.segments[1].filesz, plan.segments[1].memsz), (0xA0, 0x8010_24d0, 0x10, 0x30));
    // The caller builds the address space, then finishes the call.
    let mut frame = m.frame;
    complete_exec(&mut m.ctx, &mut frame, plan.entry, 0x55000);
    assert_eq!((frame.rip, frame.rax), (0x8010_0000, 0));
    assert_eq!(m.ctx.page_table_root, 0x55000);
    assert!(m.ctx.open_files.iter().all(|f| *f == (0, 0)));
    assert_eq!(USER_STACK_TOP, 0xFFFFFFFF80100000);
}

#[test]
fn exec_refuses_bad_images_and_names() {
    let mut m = Machine::new();
    let no_load = elf(0x1000, &[(4, 0, 0, 0, 0)]);
    let past_end = elf(0x1000, &[(1, 0x10000, 0x1000, 0x10, 0x10)]);
    let mut not_elf = elf(0x1000, &[(1, 0x80, 0x1000, 0x10, 0x10)]);
    not_elf[1] = b'X';
    if let AtomNode::Directory(ch) = &mut m.k.root_fs {
        ch.push((String::from("a"), AtomNode::File(no_load)));
        ch.push((String::from("b"), AtomNode::File(past_end)));
        ch.push((String::from("c"), AtomNode::File(not_elf)));
        ch.push((String::from("d"), AtomNode::new_dir()));
        ch.push((String::from("e"), AtomNode::File(vec![0x7F, b'E', b'L', b'F'])));
    }
    for name in [&b"a"[..], b"b", b"c", b"d", b"e", b"missing", &[0xFF][..]] {
        let (r, e) = m.call(SYS_EXEC, 0, 0, name);
        assert_eq!(r, SYSCALL_ERROR);
        assert!(e.is_empty());
    }
}

#[test]
fn exception_report_text() {
    let e = exception_report(14);
    let text = b"\n!! CPU EXCEPTION 0E (#PF) -- HALTING".to_vec();
    let banner = b"\n!! CPU EXCEPTION -- HALTING\n".to_vec();
    let mut serial = text.clone();
    serial.extend(&banner);
    assert_eq!(serial_bytes(&e), serial);
    let cells = vga_cells(&e);
    // The leading line feed moves to row 1.
    assert_eq!(cells[0], CellWrite { offset: 160, value: b'!' });
    let e = exception_report(0x115);
    assert!(serial_bytes(&e).starts_with(b"\n!! CPU EXCEPTION 15 (??)"));
    let e = exception_report(2);
    assert!(serial_bytes(&e).starts_with(b"\n!! CPU EXCEPTION 02 (NMI)"));
}
