use vstd::prelude::*;
use vstd::string::StringSliceAdditionalSpecFns;
use vstd::utf8::{valid_utf8, decode_utf8, encode_utf8, encode_utf8_decode_utf8};
use crate::context::{Context, TaskState, MAX_OPEN_FILES};
use crate::fs::{AtomNode, first_named, root_file, file_replaced, lemma_first_named_exists};
use crate::io::RingBuffer;
use crate::keyboard::{scancode_ascii, scancode_to_ascii};
use crate::memory::{MemoryPool, POOL_BLOCKS};
use crate::trap::TrapFrame;
use crate::atoms::compare;
use crate::vga::{CellWrite, VgaWriter, clear_writes, console_run, console_step};
use crate::exec::{ExecPlan, plan_load, loadable, plan_matches};

verus! {

pub const SYS_YIELD: u64 = 1;
pub const SYS_ALLOC: u64 = 2;
pub const SYS_EXIT: u64 = 3;
pub const SYS_READ: u64 = 4;
pub const SYS_WRITE: u64 = 5;
pub const SYS_OPEN: u64 = 6;
pub const SYS_READ_FILE: u64 = 7;
pub const SYS_WRITE_FILE: u64 = 8;
pub const SYS_CLOSE: u64 = 9;
pub const SYS_LIST_DIR: u64 = 10;
pub const SYS_CLEAR: u64 = 11;
pub const SYS_TRUNCATE: u64 = 12;
pub const SYS_EXEC: u64 = 13;
pub const SYS_PRINT: u64 = 14;
pub const SYS_IPC_SEND: u64 = 15;
pub const SYS_IPC_RECV: u64 = 16;

/// The value a failed system call returns.
pub const SYSCALL_ERROR: u64 = 0xFFFF_FFFF_FFFF_FFFF;
/// Where a received message is mapped in the receiver.
pub const IPC_MAP_VADDR: u64 = 0x300000;
/// Longest file name or message read from user memory, in bytes.
pub const MAX_USER_STRING: usize = 255;
/// Number of mailboxes, one per task id below it.
pub const NUM_MAILBOXES: usize = 16;

/// Wraps `core::str::from_utf8`: the bytes as a string slice when they
/// are well-formed UTF-8. The standard library documents that it returns
/// `Ok` exactly for valid UTF-8, with the same bytes.
#[verifier::external_body]
fn str_from_utf8(b: &[u8]) -> (r: Option<&str>)
    ensures
        r is Some <==> valid_utf8(b@),
        r matches Some(s) ==> s.spec_bytes() == b@,
{
    core::str::from_utf8(b).ok()
}

/// A byte for the serial line, or a cell write for the text screen.
#[derive(Debug, Clone, PartialEq, Eq)]
pub enum SyscallEffect {
    /// Send this byte on the serial line.
    Serial(u8),
    /// Store this byte in the text buffer.
    Vga(CellWrite),
    /// Load the program the plan describes into a fresh address space.
    Exec(ExecPlan),
    /// Map a copy of this message at `IPC_MAP_VADDR` in the caller.
    MapMessage(Vec<u8>),
}

/// Console output of `bytes` from the cursor of `w`: for each byte, the
/// byte on the serial line, then its cell writes, appended to `out`.
pub fn emit_console(w: &mut VgaWriter, bytes: &[u8], out: &mut Vec<SyscallEffect>)
    requires
        old(w).wf(),
    ensures
        final(w).wf(),
        ({
            let (c, r, e) = console_run(old(w).col(), old(w).row(), bytes@);
            &&& final(w).col() == c && final(w).row() == r
            &&& final(out)@ == old(out)@ + e
        }),
{
    let mut i: usize = 0;
    while i < bytes.len()
        invariant
            i <= bytes@.len(),
            w.wf(),
            ({
                let (c, r, e) = console_run(old(w).col(), old(w).row(), bytes@.take(i as int));
                &&& w.col() == c && w.row() == r
                &&& out@ == old(out)@ + e
            }),
        decreases bytes@.len() - i,
    {
        let b = bytes[i];
        let mut more = w.write_byte(b);
        out.append(&mut more);
        assert(bytes@.take(i as int + 1).drop_last() =~= bytes@.take(i as int));
        proof {
            let (c0, r0, e0) = console_run(old(w).col(), old(w).row(), bytes@.take(i as int));
            let (c1, r1, e1) = console_step(c0, r0, b);
            assert(out@ =~= old(out)@ + (e0 + e1));
        }
        i = i + 1;
    }
    assert(bytes@.take(i as int) =~= bytes@);
}

/// The shared kernel state system calls act on: the keyboard queue, the
/// root directory, one mailbox per task id below `NUM_MAILBOXES`, and the
/// console cursor, which stays where the last output left it.
pub struct KernelState {
    pub keyboard: RingBuffer,
    pub root_fs: AtomNode,
    pub mailboxes: Vec<Option<Vec<u8>>>,
    pub console: VgaWriter,
}

impl KernelState {
    pub open spec fn wf(&self) -> bool {
        self.keyboard.wf() && self.mailboxes@.len() == NUM_MAILBOXES && self.console.wf()
    }

    /// An empty keyboard queue, an empty root directory, empty mailboxes,
    /// the console cursor at the top left.
    pub fn new() -> (k: Self)
        ensures
            k.wf(),
            k.keyboard@.len() == 0,
            k.console.col() == 0 && k.console.row() == 0,
            k.root_fs matches AtomNode::Directory(c) && c@.len() == 0,
            forall|i: int| 0 <= i < NUM_MAILBOXES ==> #[trigger] k.mailboxes@[i] is None,
    {
        let mut mailboxes: Vec<Option<Vec<u8>>> = Vec::new();
        let mut i: usize = 0;
        while i < NUM_MAILBOXES
            invariant
                i <= NUM_MAILBOXES,
                mailboxes@.len() == i,
                forall|j: int| 0 <= j < i ==> #[trigger] mailboxes@[j] is None,
            decreases NUM_MAILBOXES - i,
        {
            mailboxes.push(None);
            i = i + 1;
        }
        KernelState { keyboard: RingBuffer::new(), root_fs: AtomNode::new_dir(), mailboxes, console: VgaWriter::new() }
    }
}

/// What `SYS_READ` gives from the keyboard queue `q`: scancodes without a
/// character are dropped until one with a character is found, which is
/// returned and consumed; 0 when the queue runs out.
pub open spec fn read_key(q: Seq<u8>) -> (u8, Seq<u8>)
    decreases q.len(),
{
    if q.len() == 0 {
        (0, q)
    } else {
        match scancode_ascii(q[0]) {
            Some(a) => (a, q.skip(1)),
            None => read_key(q.skip(1)),
        }
    }
}

/// Pops keyboard scancodes until one translates to a character; returns it,
/// or 0 when the queue empties first.
pub fn read_keyboard(q: &mut RingBuffer) -> (a: u8)
    requires
        old(q).wf(),
    ensures
        final(q).wf(),
        (a, final(q)@) == read_key(old(q)@),
{
    loop
        invariant
            q.wf(),
            read_key(q@) == read_key(old(q)@),
        decreases q@.len(),
    {
        match q.pop() {
            Some(sc) => {
                match scancode_to_ascii(sc) {
                    Some(a) => {
                        return a;
                    },
                    None => {},
                }
            },
            None => {
                return 0;
            },
        }
    }
}

/// The bytes of a string, as UTF-8.
pub open spec fn string_bytes(s: String) -> Seq<u8> {
    encode_utf8(s@)
}

/// The text `SYS_LIST_DIR` prints for `children`: each name, a `/` after a
/// directory, two spaces.
pub open spec fn list_text(children: Seq<(String, AtomNode)>) -> Seq<u8>
    decreases children.len(),
{
    if children.len() == 0 {
        Seq::empty()
    } else {
        let last = children.last();
        list_text(children.drop_last()) + string_bytes(last.0)
            + (if last.1 is Directory { seq![0x2Fu8] } else { Seq::<u8>::empty() })
            + seq![0x20u8, 0x20u8]
    }
}

/// The full listing of the root `fs`, ending in a line feed.
pub open spec fn listing(fs: AtomNode) -> Seq<u8> {
    match fs {
        AtomNode::Directory(ch) => list_text(ch@) + seq![0x0Au8],
        AtomNode::File(_) => seq![0x0Au8],
    }
}

fn build_listing(fs: &AtomNode) -> (t: Vec<u8>)
    ensures
        t@ == listing(*fs),
{
    let mut t: Vec<u8> = Vec::new();
    match fs {
        AtomNode::Directory(children) => {
            let mut i: usize = 0;
            while i < children.len()
                invariant
                    i <= children@.len(),
                    t@ == list_text(children@.take(i as int)),
                decreases children@.len() - i,
            {
                let name_bytes = children[i].0.as_str().as_bytes();
                let ghost before = t@;
                let mut k: usize = 0;
                while k < name_bytes.len()
                    invariant
                        k <= name_bytes@.len(),
                        t@ == before + name_bytes@.take(k as int),
                    decreases name_bytes@.len() - k,
                {
                    t.push(name_bytes[k]);
                    assert(name_bytes@.take(k as int + 1) =~= name_bytes@.take(k as int).push(name_bytes@[k as int]));
                    k = k + 1;
                }
                assert(name_bytes@.take(k as int) =~= name_bytes@);
                let is_dir = match &children[i].1 {
                    AtomNode::Directory(_) => true,
                    AtomNode::File(_) => false,
                };
                if is_dir {
                    t.push(0x2F);
                }
                t.push(0x20);
                t.push(0x20);
                proof {
                    let ch = children@.take(i as int + 1);
                    assert(ch.drop_last() =~= children@.take(i as int));
                    assert(ch.last() == children@[i as int]);
                    if is_dir {
                        assert(t@ =~= list_text(ch));
                    } else {
                        assert(t@ =~= list_text(ch));
                    }
                }
                i = i + 1;
            }
            assert(children@.take(i as int) =~= children@);
        },
        AtomNode::File(_) => {},
    }
    t.push(0x0A);
    assert(t@ =~= listing(*fs));
    t
}

/// `c2` is the task `c` with at most its descriptor slots changed.
pub open spec fn same_task(c: Context, c2: Context) -> bool {
    &&& c2.rsp == c.rsp
    &&& c2.kernel_stack == c.kernel_stack
    &&& c2.state == c.state
    &&& c2.id == c.id
    &&& c2.page_table_root == c.page_table_root
    &&& c2.saved_state == c.saved_state
}

/// Slot `k` is the lowest free descriptor slot of `files`.
pub open spec fn first_free_fd(files: Seq<(u64, usize)>, k: int) -> bool {
    &&& 0 <= k < MAX_OPEN_FILES
    &&& files[k].0 == 0
    &&& forall|j: int| 0 <= j < k ==> #[trigger] files[j].0 != 0
}

/// Some descriptor slot of `files` is free.
pub open spec fn has_free_fd(files: Seq<(u64, usize)>) -> bool {
    exists|k: int| 0 <= k < MAX_OPEN_FILES && #[trigger] files[k].0 == 0
}

/// Opening handle `h` in task `c`: the lowest free slot gets `(h, 0)` and
/// its number is returned; with every slot taken, the call fails and the
/// task is unchanged.
pub open spec fn assign_fd(c: Context, c2: Context, h: u64, rax: u64) -> bool {
    if has_free_fd(c.open_files@) {
        &&& first_free_fd(c.open_files@, rax as int)
        &&& same_task(c, c2)
        &&& c2.open_files@ == c.open_files@.update(rax as int, (h, 0usize))
    } else {
        rax == SYSCALL_ERROR && c2 == c
    }
}

fn give_fd(ctx: &mut Context, h: u64) -> (rax: u64)
    ensures
        assign_fd(*old(ctx), *final(ctx), h, rax),
{
    let mut i: usize = 0;
    while i < MAX_OPEN_FILES
        invariant
            i <= MAX_OPEN_FILES,
            *ctx == *old(ctx),
            forall|j: int| 0 <= j < i ==> #[trigger] ctx.open_files@[j].0 != 0,
        decreases MAX_OPEN_FILES - i,
    {
        if ctx.open_files[i].0 == 0 {
            ctx.open_files[i] = (h, 0);
            assert(ctx.open_files@ =~= old(ctx).open_files@.update(i as int, (h, 0usize)));
            return i as u64;
        }
        i = i + 1;
    }
    assert(!has_free_fd(old(ctx).open_files@));
    SYSCALL_ERROR
}

/// `SYS_OPEN` of the file `name` in the root `fs`: an existing file of that
/// name is opened, a missing one is created empty and opened, and a
/// directory of that name makes the call fail.
pub open spec fn open_post(c: Context, fs: AtomNode, name: Seq<char>, c2: Context, fs2: AtomNode, rax: u64) -> bool {
    match fs {
        AtomNode::File(_) => rax == SYSCALL_ERROR && c2 == c && fs2 == fs,
        AtomNode::Directory(ch) =>
            if exists|i: int| #[trigger] first_named(ch@, name, i) {
                let i = choose|i: int| #[trigger] first_named(ch@, name, i);
                &&& fs2 == fs
                &&& if ch@[i].1 is File {
                        assign_fd(c, c2, (i + 1) as u64, rax)
                    } else {
                        rax == SYSCALL_ERROR && c2 == c
                    }
            } else {
                &&& fs2 matches AtomNode::Directory(ch2) && {
                    &&& ch2@.len() == ch@.len() + 1
                    &&& ch2@.take(ch@.len() as int) == ch@
                    &&& ch2@.last().0@ == name
                    &&& ch2@.last().1 matches AtomNode::File(d) && d@.len() == 0
                }
                &&& assign_fd(c, c2, (ch@.len() + 1) as u64, rax)
            },
    }
}

fn sys_open(ctx: &mut Context, fs: &mut AtomNode, name: &str) -> (rax: u64)
    ensures
        open_post(*old(ctx), *old(fs), name@, *final(ctx), *final(fs), rax),
{
    let r = fs.get_or_create_file(name);
    proof {
        if let AtomNode::Directory(ch) = *old(fs) {
            assert(ch.len() == ch@.len());
            if exists|i: int| #[trigger] first_named(ch@, name@, i) {
                let i = choose|i: int| #[trigger] first_named(ch@, name@, i);
                assert(first_named(ch@, name@, i));
            } else {
                assert(forall|j: int| 0 <= j < ch@.len() ==> #[trigger] ch@[j].0@ != name@) by {
                    assert forall|j: int| 0 <= j < ch@.len() implies #[trigger] ch@[j].0@ != name@ by {
                        if ch@[j].0@ == name@ {
                            lemma_first_named_exists(ch@, name@, j);
                        }
                    }
                }
                assert(fs->Directory_0.len() == fs->Directory_0@.len());
            }
        }
    }
    match r {
        Some(idx) => give_fd(ctx, idx as u64 + 1),
        None => SYSCALL_ERROR,
    }
}

/// `SYS_READ_FILE` on descriptor `fd`: the byte at the cursor, which then
/// advances; the call fails at the end of the file and on a closed or
/// invalid descriptor.
pub open spec fn read_file_post(c: Context, fs: AtomNode, fd: u64, c2: Context, rax: u64) -> bool {
    if fd < MAX_OPEN_FILES && c.open_files[fd as int].0 != 0 {
        let (h, cur) = c.open_files[fd as int];
        match root_file(fs, h) {
            Some(d) =>
                if cur < d.len() {
                    &&& rax == d[cur as int] as u64
                    &&& same_task(c, c2)
                    &&& c2.open_files@ == c.open_files@.update(fd as int, (h, (cur + 1) as usize))
                } else {
                    rax == SYSCALL_ERROR && c2 == c
                },
            None => rax == SYSCALL_ERROR && c2 == c,
        }
    } else {
        rax == SYSCALL_ERROR && c2 == c
    }
}

fn sys_read_file(ctx: &mut Context, fs: &AtomNode, fd: u64) -> (rax: u64)
    ensures
        read_file_post(*old(ctx), *fs, fd, *final(ctx), rax),
{
    if fd >= MAX_OPEN_FILES as u64 {
        return SYSCALL_ERROR;
    }
    let i = fd as usize;
    let (h, cur) = ctx.open_files[i];
    if h == 0 {
        return SYSCALL_ERROR;
    }
    match fs.file_bytes(h) {
        Some(data) => {
            if cur < data.len() {
                let v = data[cur];
                ctx.open_files[i] = (h, cur + 1);
                assert(ctx.open_files@ =~= old(ctx).open_files@.update(fd as int, (h, (cur + 1) as usize)));
                v as u64
            } else {
                SYSCALL_ERROR
            }
        },
        None => SYSCALL_ERROR,
    }
}

/// `SYS_WRITE_FILE` of byte `b` on descriptor `fd`: appended to the file;
/// the call fails on a closed or invalid descriptor.
pub open spec fn write_file_post(c: Context, fs: AtomNode, fd: u64, b: u8, fs2: AtomNode, rax: u64) -> bool {
    if fd < MAX_OPEN_FILES && c.open_files[fd as int].0 != 0
        && root_file(fs, c.open_files[fd as int].0) is Some {
        let h = c.open_files[fd as int].0;
        rax == 1 && file_replaced(fs, fs2, h, root_file(fs, h)->Some_0.push(b))
    } else {
        rax == SYSCALL_ERROR && fs2 == fs
    }
}

fn sys_write_file(ctx: &Context, fs: &mut AtomNode, fd: u64, b: u8) -> (rax: u64)
    ensures
        write_file_post(*ctx, *old(fs), fd, b, *final(fs), rax),
{
    if fd >= MAX_OPEN_FILES as u64 {
        return SYSCALL_ERROR;
    }
    let h = ctx.open_files[fd as usize].0;
    if h == 0 {
        return SYSCALL_ERROR;
    }
    if fs.file_push(h, b) { 1 } else { SYSCALL_ERROR }
}

/// `SYS_CLOSE` of descriptor `fd`: its slot is freed; the call fails when
/// `fd` is out of range.
pub open spec fn close_post(c: Context, fd: u64, c2: Context, rax: u64) -> bool {
    if fd < MAX_OPEN_FILES {
        &&& rax == 0
        &&& same_task(c, c2)
        &&& c2.open_files@ == c.open_files@.update(fd as int, (0u64, 0usize))
    } else {
        rax == SYSCALL_ERROR && c2 == c
    }
}

fn sys_close(ctx: &mut Context, fd: u64) -> (rax: u64)
    ensures
        close_post(*old(ctx), fd, *final(ctx), rax),
{
    if fd >= MAX_OPEN_FILES as u64 {
        return SYSCALL_ERROR;
    }
    ctx.open_files[fd as usize] = (0, 0);
    assert(ctx.open_files@ =~= old(ctx).open_files@.update(fd as int, (0u64, 0usize)));
    0
}

/// `SYS_TRUNCATE` on descriptor `fd`: the file is emptied and the cursor
/// rewound; the call fails on a closed or invalid descriptor.
pub open spec fn truncate_post(c: Context, fs: AtomNode, fd: u64, c2: Context, fs2: AtomNode, rax: u64) -> bool {
    if fd < MAX_OPEN_FILES && c.open_files[fd as int].0 != 0
        && root_file(fs, c.open_files[fd as int].0) is Some {
        let h = c.open_files[fd as int].0;
        &&& rax == 0
        &&& file_replaced(fs, fs2, h, Seq::empty())
        &&& same_task(c, c2)
        &&& c2.open_files@ == c.open_files@.update(fd as int, (h, 0usize))
    } else {
        rax == SYSCALL_ERROR && fs2 == fs && c2 == c
    }
}

fn sys_truncate(ctx: &mut Context, fs: &mut AtomNode, fd: u64) -> (rax: u64)
    ensures
        truncate_post(*old(ctx), *old(fs), fd, *final(ctx), *final(fs), rax),
{
    if fd >= MAX_OPEN_FILES as u64 {
        return SYSCALL_ERROR;
    }
    let i = fd as usize;
    let h = ctx.open_files[i].0;
    if h == 0 {
        return SYSCALL_ERROR;
    }
    if fs.file_clear(h) {
        ctx.open_files[i] = (h, 0);
        assert(ctx.open_files@ =~= old(ctx).open_files@.update(fd as int, (h, 0usize)));
        0
    } else {
        SYSCALL_ERROR
    }
}

/// What `SYS_WRITE` of byte `b` prints with the console cursor at `col`,
/// `row`, and where it leaves the cursor: the byte on the console when it
/// is a whole UTF-8 character by itself, nothing otherwise.
pub open spec fn write_effects(col: int, row: int, b: u8) -> (int, int, Seq<SyscallEffect>) {
    if valid_utf8(seq![b]) { console_run(col, row, seq![b]) } else { (col, row, Seq::empty()) }
}

fn sys_write(w: &mut VgaWriter, b: u8) -> (e: Vec<SyscallEffect>)
    requires
        old(w).wf(),
    ensures
        final(w).wf(),
        (final(w).col(), final(w).row(), e@) == write_effects(old(w).col(), old(w).row(), b),
{
    let mut e: Vec<SyscallEffect> = Vec::new();
    let bytes = [b];
    let one: &[u8] = &bytes;
    assert(one@ == seq![b]);
    if let Some(s) = str_from_utf8(one) {
        emit_console(w, s.as_bytes(), &mut e);
    }
    e
}

fn sys_list_dir(w: &mut VgaWriter, fs: &AtomNode) -> (e: Vec<SyscallEffect>)
    requires
        old(w).wf(),
    ensures
        final(w).wf(),
        (final(w).col(), final(w).row(), e@) == console_run(old(w).col(), old(w).row(), listing(*fs)),
{
    let mut e: Vec<SyscallEffect> = Vec::new();
    let text = build_listing(fs);
    emit_console(w, text.as_slice(), &mut e);
    e
}

fn sys_clear(w: &mut VgaWriter) -> (e: Vec<SyscallEffect>)
    ensures
        final(w).wf(),
        final(w).col() == 0 && final(w).row() == 0,
        e@ == clear_writes().map_values(|x: CellWrite| SyscallEffect::Vga(x)),
{
    let cells = w.clear_screen();
    let mut e: Vec<SyscallEffect> = Vec::new();
    let mut k: usize = 0;
    while k < cells.len()
        invariant
            k <= cells@.len(),
            e@ == cells@.take(k as int).map_values(|x: CellWrite| SyscallEffect::Vga(x)),
        decreases cells@.len() - k,
    {
        e.push(SyscallEffect::Vga(cells[k]));
        assert(cells@.take(k as int + 1).map_values(|x: CellWrite| SyscallEffect::Vga(x))
            =~= cells@.take(k as int).map_values(|x: CellWrite| SyscallEffect::Vga(x)).push(SyscallEffect::Vga(cells@[k as int])));
        k = k + 1;
    }
    assert(cells@.take(k as int) =~= cells@);
    e
}

/// What `SYS_EXEC` of the name in `user` asks for: when the name is valid
/// UTF-8 and the first child of the root `fs` with that name is a file
/// holding a loadable image, one `Exec` with that image's plan; nothing
/// otherwise.
pub open spec fn exec_effects(fs: AtomNode, user: Seq<u8>, e: Seq<SyscallEffect>) -> bool {
    let name = decode_utf8(user);
    match fs {
        AtomNode::Directory(ch) =>
            if valid_utf8(user) && exists|i: int| #[trigger] first_named(ch@, name, i) {
                let i = choose|i: int| #[trigger] first_named(ch@, name, i);
                match ch@[i].1 {
                    AtomNode::File(d) =>
                        if loadable(d@) {
                            e.len() == 1 && (e[0] matches SyscallEffect::Exec(p) && plan_matches(d@, i as usize, p))
                        } else {
                            e.len() == 0
                        },
                    AtomNode::Directory(_) => e.len() == 0,
                }
            } else {
                e.len() == 0
            },
        AtomNode::File(_) => e.len() == 0,
    }
}

fn sys_exec(fs: &AtomNode, user: &[u8]) -> (e: Vec<SyscallEffect>)
    ensures
        exec_effects(*fs, user@, e@),
{
    let mut e: Vec<SyscallEffect> = Vec::new();
    let s = match str_from_utf8(user) {
        Some(s) => s,
        None => return e,
    };
    proof {
        encode_utf8_decode_utf8(s@);
    }
    let name = s.to_owned();
    let children = match fs {
        AtomNode::Directory(children) => children,
        AtomNode::File(_) => return e,
    };
    match fs.find_child(&name) {
        Some((i, _)) => {
            match &children[i].1 {
                AtomNode::File(data) => {
                    match plan_load(data.as_slice(), i) {
                        Some(plan) => {
                            e.push(SyscallEffect::Exec(plan));
                        },
                        None => {},
                    }
                },
                AtomNode::Directory(_) => {},
            }
        },
        None => {
            proof {
                if exists|i: int| #[trigger] first_named(children@, name@, i) {
                    let i = choose|i: int| #[trigger] first_named(children@, name@, i);
                    assert(children@[i].0@ == name@);
                }
            }
        },
    }
    e
}

/// The messages waiting in the mailboxes `mb`, as byte sequences.
pub open spec fn mail_view(mb: Seq<Option<Vec<u8>>>) -> Seq<Option<Seq<u8>>> {
    mb.map_values(|o: Option<Vec<u8>>| match o {
        Some(v) => Some(v@),
        None => None,
    })
}

fn sys_ipc_send(mailboxes: &mut Vec<Option<Vec<u8>>>, target: u64, msg: &[u8]) -> (rax: u64)
    requires
        old(mailboxes)@.len() == NUM_MAILBOXES,
    ensures
        final(mailboxes)@.len() == NUM_MAILBOXES,
        target < NUM_MAILBOXES ==> rax == 0
            && mail_view(final(mailboxes)@) == mail_view(old(mailboxes)@).update(target as int, Some(msg@)),
        target >= NUM_MAILBOXES ==> rax == SYSCALL_ERROR && *final(mailboxes) == *old(mailboxes),
{
    if target >= NUM_MAILBOXES as u64 {
        return SYSCALL_ERROR;
    }
    let mut v: Vec<u8> = Vec::new();
    let mut k: usize = 0;
    while k < msg.len()
        invariant
            k <= msg@.len(),
            v@ == msg@.take(k as int),
        decreases msg@.len() - k,
    {
        v.push(msg[k]);
        assert(msg@.take(k as int + 1) =~= msg@.take(k as int).push(msg@[k as int]));
        k = k + 1;
    }
    assert(msg@.take(k as int) =~= msg@);
    mailboxes[target as usize] = Some(v);
    assert(mail_view(mailboxes@) =~= mail_view(old(mailboxes)@).update(target as int, Some(msg@)));
    0
}

fn sys_ipc_recv(mailboxes: &mut Vec<Option<Vec<u8>>>, pid: usize) -> (r: (u64, Option<Vec<u8>>))
    requires
        old(mailboxes)@.len() == NUM_MAILBOXES,
    ensures
        final(mailboxes)@.len() == NUM_MAILBOXES,
        pid >= NUM_MAILBOXES ==> r.0 == SYSCALL_ERROR && r.1 is None && *final(mailboxes) == *old(mailboxes),
        pid < NUM_MAILBOXES ==> match old(mailboxes)@[pid as int] {
            Some(m) => {
                &&& r.0 == IPC_MAP_VADDR
                &&& (r.1 matches Some(v) && v@ == m@)
                &&& mail_view(final(mailboxes)@) == mail_view(old(mailboxes)@).update(pid as int, None)
            },
            None => r.0 == 0 && r.1 is None && *final(mailboxes) == *old(mailboxes),
        },
{
    if pid >= NUM_MAILBOXES {
        return (SYSCALL_ERROR, None);
    }
    if mailboxes[pid].is_none() {
        return (0, None);
    }
    let taken = mailboxes[pid].take();
    assert(mail_view(mailboxes@) =~= mail_view(old(mailboxes)@).update(pid as int, None));
    (IPC_MAP_VADDR, taken)
}

/// Whether system-call number `n` selects call `k`, tested as the
/// dispatcher always has: `n < k + 1` and not `n < k`.
fn selects(n: u64, k: u64) -> (b: bool)
    requires
        k < u64::MAX,
    ensures
        b == (n == k),
{
    compare(&n, &(k + 1)) && !compare(&n, &k)
}

/// `SYS_ALLOC` on the pool blocks `b`: the lowest free block is taken and
/// its number returned; with none free, the call fails and `b` stays.
pub open spec fn alloc_post(b: Seq<bool>, b2: Seq<bool>, rax: u64) -> bool {
    if exists|j: int| 0 <= j < POOL_BLOCKS && #[trigger] b[j] {
        &&& rax < POOL_BLOCKS
        &&& b[rax as int]
        &&& forall|j: int| 0 <= j < rax ==> !#[trigger] b[j]
        &&& b2 == b.update(rax as int, false)
    } else {
        rax == SYSCALL_ERROR && b2 == b
    }
}

/// What one system call does, read from the saved frame `f` of task `c`:
/// the call number in `rax`, its arguments in `rdi` and `rsi`, and `user`
/// the string that the calls taking one read from the caller's memory.
/// `c2`, `pool2`, `k2` are the task, the pool blocks and the kernel state
/// after the call, `rax` its result and `e` the output it asks for.
pub open spec fn syscall_post(
    c: Context, pool: Seq<bool>, f: TrapFrame, k: KernelState, user: Seq<u8>,
    c2: Context, pool2: Seq<bool>, k2: KernelState, rax: u64, e: Seq<SyscallEffect>,
) -> bool {
    let n = f.rax;
    let a0 = f.rdi;
    let a1 = f.rsi;
    let k_same = k2 == k;
    if n == SYS_YIELD {
        c2 == c && pool2 == pool && k_same && rax == 0 && e.len() == 0
    } else if n == SYS_ALLOC {
        c2 == c && k_same && e.len() == 0 && alloc_post(pool, pool2, rax)
    } else if n == SYS_EXIT {
        &&& c2 == (Context { state: TaskState::Terminated, ..c })
        &&& pool2 == pool && k_same && rax == 0 && e.len() == 0
    } else if n == SYS_READ {
        let (ch, q) = read_key(k.keyboard@);
        &&& c2 == c && pool2 == pool && e.len() == 0
        &&& rax == ch as u64
        &&& k2.keyboard@ == q
        &&& k2.root_fs == k.root_fs && k2.mailboxes == k.mailboxes && k2.console == k.console
    } else if n == SYS_WRITE {
        let (col, row, out) = write_effects(k.console.col(), k.console.row(), a0 as u8);
        &&& c2 == c && pool2 == pool && rax == 1 && e == out
        &&& k2.console.col() == col && k2.console.row() == row
        &&& k2.keyboard == k.keyboard && k2.root_fs == k.root_fs && k2.mailboxes == k.mailboxes
    } else if n == SYS_OPEN {
        &&& pool2 == pool && e.len() == 0
        &&& k2.keyboard == k.keyboard && k2.mailboxes == k.mailboxes && k2.console == k.console
        &&& if valid_utf8(user) {
                open_post(c, k.root_fs, decode_utf8(user), c2, k2.root_fs, rax)
            } else {
                rax == SYSCALL_ERROR && c2 == c && k_same
            }
    } else if n == SYS_READ_FILE {
        pool2 == pool && k_same && e.len() == 0 && read_file_post(c, k.root_fs, a0, c2, rax)
    } else if n == SYS_WRITE_FILE {
        &&& c2 == c && pool2 == pool && e.len() == 0
        &&& k2.keyboard == k.keyboard && k2.mailboxes == k.mailboxes && k2.console == k.console
        &&& write_file_post(c, k.root_fs, a0, a1 as u8, k2.root_fs, rax)
    } else if n == SYS_CLOSE {
        pool2 == pool && k_same && e.len() == 0 && close_post(c, a0, c2, rax)
    } else if n == SYS_LIST_DIR {
        let (col, row, out) = console_run(k.console.col(), k.console.row(), listing(k.root_fs));
        &&& c2 == c && pool2 == pool && rax == 0 && e == out
        &&& k2.console.col() == col && k2.console.row() == row
        &&& k2.keyboard == k.keyboard && k2.root_fs == k.root_fs && k2.mailboxes == k.mailboxes
    } else if n == SYS_CLEAR {
        &&& c2 == c && pool2 == pool && rax == 0
        &&& e == clear_writes().map_values(|x: CellWrite| SyscallEffect::Vga(x))
        &&& k2.console.col() == 0 && k2.console.row() == 0
        &&& k2.keyboard == k.keyboard && k2.root_fs == k.root_fs && k2.mailboxes == k.mailboxes
    } else if n == SYS_TRUNCATE {
        &&& pool2 == pool && e.len() == 0
        &&& k2.keyboard == k.keyboard && k2.mailboxes == k.mailboxes && k2.console == k.console
        &&& truncate_post(c, k.root_fs, a0, c2, k2.root_fs, rax)
    } else if n == SYS_EXEC {
        c2 == c && pool2 == pool && k_same && rax == SYSCALL_ERROR && exec_effects(k.root_fs, user, e)
    } else if n == SYS_PRINT {
        c2 == c && pool2 == pool && k_same && rax == 0 && e == seq![SyscallEffect::Serial(a0 as u8)]
    } else if n == SYS_IPC_SEND {
        &&& c2 == c && pool2 == pool && e.len() == 0
        &&& k2.keyboard == k.keyboard && k2.root_fs == k.root_fs && k2.console == k.console
        &&& if a0 < NUM_MAILBOXES {
                rax == 0 && mail_view(k2.mailboxes@) == mail_view(k.mailboxes@).update(a0 as int, Some(user))
            } else {
                rax == SYSCALL_ERROR && k_same
            }
    } else if n == SYS_IPC_RECV {
        &&& c2 == c && pool2 == pool
        &&& k2.keyboard == k.keyboard && k2.root_fs == k.root_fs && k2.console == k.console
        &&& if c.id < NUM_MAILBOXES {
                match k.mailboxes@[c.id as int] {
                    Some(m) => {
                        &&& rax == IPC_MAP_VADDR
                        &&& e.len() == 1 && (e[0] matches SyscallEffect::MapMessage(v) && v@ == m@)
                        &&& mail_view(k2.mailboxes@) == mail_view(k.mailboxes@).update(c.id as int, None)
                    },
                    None => rax == 0 && e.len() == 0 && k_same,
                }
            } else {
                rax == SYSCALL_ERROR && e.len() == 0 && k_same
            }
    } else {
        c2 == c && pool2 == pool && k_same && rax == SYSCALL_ERROR && e.len() == 0
    }
}

/// A call by task `c` whose saved frame was `f`, with the pool blocks
/// `pool`, kernel state `k` and user string `user`, left `c2`, `pool2`, the
/// frame `f2` and `k2`, and asked for the output `e`. A task with no saved
/// frame (`rsp` 0) is left alone; otherwise only the frame's `rax` changes,
/// as `syscall_post` says.
pub open spec fn dispatch_post(
    c: Context, pool: Seq<bool>, f: TrapFrame, k: KernelState, user: Seq<u8>,
    c2: Context, pool2: Seq<bool>, f2: TrapFrame, k2: KernelState, e: Seq<SyscallEffect>,
) -> bool {
    if c.rsp == 0 {
        c2 == c && f2 == f && pool2 == pool && k2 == k && e.len() == 0
    } else {
        &&& f2 == (TrapFrame { rax: f2.rax, ..f })
        &&& syscall_post(c, pool, f, k, user, c2, pool2, k2, f2.rax, e)
    }
}

/// Runs the system call saved in `frame` for task `ctx`: the result goes
/// to `frame.rax`, and the returned effects are the output it asks for,
/// in order. `user` is the string the call reads from the caller's memory
/// (see `user_string_arg`). `SYS_EXEC` answers with the error value until
/// the load that its `Exec` effect asks for completes (see `complete_exec`).
pub fn dispatch(
    ctx: &mut Context,
    mem: &mut MemoryPool,
    frame: &mut TrapFrame,
    kernel: &mut KernelState,
    user: &[u8],
) -> (effects: Vec<SyscallEffect>)
    requires
        old(kernel).wf(),
    ensures
        final(kernel).wf(),
        dispatch_post(*old(ctx), old(mem).blocks@, *old(frame), *old(kernel), user@,
            *final(ctx), final(mem).blocks@, *final(frame), *final(kernel), effects@),
{
    if ctx.rsp == 0 {
        return Vec::new();
    }
    let n = frame.rax;
    let a0 = frame.rdi;
    let a1 = frame.rsi;
    let mut effects: Vec<SyscallEffect> = Vec::new();
    let rax: u64 = if selects(n, SYS_YIELD) {
        0
    } else if selects(n, SYS_ALLOC) {
        match mem.allocate() {
            Some(i) => i as u64,
            None => SYSCALL_ERROR,
        }
    } else if selects(n, SYS_EXIT) {
        ctx.state = TaskState::Terminated;
        0
    } else if selects(n, SYS_READ) {
        read_keyboard(&mut kernel.keyboard) as u64
    } else if selects(n, SYS_WRITE) {
        effects = sys_write(&mut kernel.console, a0 as u8);
        1
    } else if selects(n, SYS_OPEN) {
        match str_from_utf8(user) {
            Some(s) => {
                proof {
                    encode_utf8_decode_utf8(s@);
                }
                sys_open(ctx, &mut kernel.root_fs, s)
            },
            None => SYSCALL_ERROR,
        }
    } else if selects(n, SYS_READ_FILE) {
        sys_read_file(ctx, &kernel.root_fs, a0)
    } else if selects(n, SYS_WRITE_FILE) {
        sys_write_file(ctx, &mut kernel.root_fs, a0, a1 as u8)
    } else if selects(n, SYS_CLOSE) {
        sys_close(ctx, a0)
    } else if selects(n, SYS_LIST_DIR) {
        effects = sys_list_dir(&mut kernel.console, &kernel.root_fs);
        0
    } else if selects(n, SYS_PRINT) {
        effects.push(SyscallEffect::Serial(a0 as u8));
        0
    } else if selects(n, SYS_CLEAR) {
        effects = sys_clear(&mut kernel.console);
        0
    } else if selects(n, SYS_TRUNCATE) {
        sys_truncate(ctx, &mut kernel.root_fs, a0)
    } else if selects(n, SYS_EXEC) {
        effects = sys_exec(&kernel.root_fs, user);
        SYSCALL_ERROR
    } else if selects(n, SYS_IPC_SEND) {
        sys_ipc_send(&mut kernel.mailboxes, a0, user)
    } else if selects(n, SYS_IPC_RECV) {
        let (r, msg) = sys_ipc_recv(&mut kernel.mailboxes, ctx.id);
        match msg {
            Some(m) => effects.push(SyscallEffect::MapMessage(m)),
            None => {},
        }
        r
    } else {
        SYSCALL_ERROR
    };
    frame.rax = rax;
    effects
}

/// Where the string argument of the call saved in `frame` lies in the
/// caller's memory: its address and the most bytes to read before a NUL
/// (`None`: no limit). `None` for a call that takes no string.
pub fn user_string_arg(frame: &TrapFrame) -> (r: Option<(u64, Option<usize>)>)
    ensures
        r == (if frame.rax == SYS_OPEN {
            Some((frame.rdi, Some(MAX_USER_STRING)))
        } else if frame.rax == SYS_EXEC {
            Some((frame.rdi, None))
        } else if frame.rax == SYS_IPC_SEND {
            Some((frame.rsi, Some(MAX_USER_STRING)))
        } else {
            None
        }),
{
    if frame.rax == SYS_OPEN {
        Some((frame.rdi, Some(MAX_USER_STRING)))
    } else if frame.rax == SYS_EXEC {
        Some((frame.rdi, None))
    } else if frame.rax == SYS_IPC_SEND {
        Some((frame.rsi, Some(MAX_USER_STRING)))
    } else {
        None
    }
}

/// What a read gives back of a write: a byte written through a descriptor
/// whose cursor stands at the end of its file is the byte that a read
/// through the same descriptor returns next.
pub proof fn law_read_after_write(
    c: Context, fs: AtomNode, fd: u64, b: u8, fs2: AtomNode, r1: u64, c2: Context, r2: u64,
)
    requires
        fd < MAX_OPEN_FILES,
        c.open_files[fd as int].0 != 0,
        root_file(fs, c.open_files[fd as int].0) is Some,
        c.open_files[fd as int].1 == root_file(fs, c.open_files[fd as int].0)->Some_0.len(),
        write_file_post(c, fs, fd, b, fs2, r1),
        read_file_post(c, fs2, fd, c2, r2),
    ensures
        r1 == 1,
        r2 == b as u64,
{
    let h = c.open_files[fd as int].0;
    let d = root_file(fs, h)->Some_0;
    if let AtomNode::Directory(ch2) = fs2 {
        assert(ch2@[h - 1].1 is File);
        assert(root_file(fs2, h) == Some(d.push(b)));
    }
}

/// A message sent to a task's mailbox is what that task's next receive
/// maps, and the mailbox is empty after it.
pub proof fn law_ipc_send_then_recv(
    c: Context, pool: Seq<bool>, f: TrapFrame, k: KernelState, msg: Seq<u8>,
    c1: Context, pool1: Seq<bool>, k1: KernelState, r1: u64, e1: Seq<SyscallEffect>,
    c2: Context, pool2: Seq<bool>, f2: TrapFrame, k2: KernelState, r2: u64, e2: Seq<SyscallEffect>,
)
    requires
        k.wf(),
        f.rax == SYS_IPC_SEND,
        f.rdi == c.id as u64,
        c.id < NUM_MAILBOXES,
        syscall_post(c, pool, f, k, msg, c1, pool1, k1, r1, e1),
        f2.rax == SYS_IPC_RECV,
        syscall_post(c1, pool1, f2, k1, Seq::empty(), c2, pool2, k2, r2, e2),
    ensures
        r1 == 0,
        r2 == IPC_MAP_VADDR,
        e2.len() == 1,
        e2[0] matches SyscallEffect::MapMessage(v) && v@ == msg,
        mail_view(k2.mailboxes@)[c.id as int] is None,
{
    let i = c.id as int;
    assert(mail_view(k.mailboxes@).len() == NUM_MAILBOXES);
    assert(mail_view(k1.mailboxes@).len() == NUM_MAILBOXES);
    assert(mail_view(k1.mailboxes@)[i] == Some(msg));
    assert(k1.mailboxes@[i] is Some);
    assert(mail_view(k2.mailboxes@) == mail_view(k1.mailboxes@).update(i, None));
}

} // verus!
