use vstd::prelude::*;
use crate::slab_trials::{decimal, push_decimal, text};
use crate::syscall::{
    SYSCALL_ERROR, SYS_CLEAR, SYS_CLOSE, SYS_LIST_DIR, SYS_READ, SYS_READ_FILE, SYS_TRUNCATE, SYS_WRITE,
    SYS_WRITE_FILE, SYS_YIELD,
};
use crate::system::append;

verus! {

/// Bytes the line buffer holds.
pub const LINE_CAPACITY: usize = 1024;
/// Most bytes of a file name or message the shell hands to the kernel.
pub const MAX_ARG_BYTES: usize = 63;
/// Yields the benchmark times.
pub const BENCH_YIELDS: usize = 10000;
/// Task id of the daemon that `msg` writes to.
pub const DAEMON_ID: u64 = 2;
/// Key that leaves the editor and saves the file.
pub const KEY_ESCAPE: u8 = 0x1B;
/// Key that deletes the last byte of the line.
pub const KEY_BACKSPACE: u8 = 0x08;
/// Key that runs the command on the line.
pub const KEY_ENTER: u8 = 0x0A;

/// Whether keys edit a command line or a file.
#[derive(Debug, Clone, Copy, PartialEq, Eq, Structural)]
pub enum ShellMode {
    Prompt,
    Editor,
}

/// What the shell waits for: the result of the last action it asked for.
#[derive(Debug, Clone, Copy, PartialEq, Eq, Structural)]
pub enum ShellPhase {
    /// Nothing has run yet: the first event starts the benchmark.
    Boot,
    /// The cycle counter before the benchmark's yields.
    BenchStart,
    /// The cycle counter after them; the reading before.
    BenchEnd(u64),
    /// A key from `SYS_READ` (0: none yet).
    AwaitKey,
    /// The descriptor `edit` opened, or the error value.
    EditOpen,
    /// The next byte of the file loaded into the editor, or the error value
    /// at its end.
    EditLoad,
    /// The descriptor `cat` opened, or the error value.
    CatOpen,
    /// The next byte `cat` prints from this descriptor, or the error value.
    CatRead(u64),
    /// The descriptor `echo` opened; its text ends before this index of the
    /// line.
    EchoOpen(usize),
    /// The status of the message `msg` sent.
    SendResult,
}

/// What the shell is told.
#[derive(Debug, Clone, Copy, PartialEq, Eq, Structural)]
pub enum ShellEvent {
    /// The shell starts.
    Start,
    /// The result of the last action of the previous step: a key, a
    /// descriptor, a byte, a status or a cycle count.
    Returned(u64),
}

/// What the shell asks its runner to do; the runner does the actions of a
/// step in order and reports the result of the last one.
#[derive(Debug, Clone, PartialEq, Eq)]
pub enum ShellAction {
    /// System call `number` with `arg0` in `rdi` and `arg1` in `rsi`.
    Call { number: u64, arg0: u64, arg1: u64 },
    /// `SYS_OPEN` of this file name, passed as a NUL-terminated string.
    Open { name: Vec<u8> },
    /// `SYS_IPC_SEND` of this text to task `to`, passed as a
    /// NUL-terminated string.
    Send { to: u64, text: Vec<u8> },
    /// Read the processor's cycle counter.
    ReadClock,
}

/// An action, with its bytes as a sequence.
pub enum ShellCall {
    Call(u64, u64, u64),
    Open(Seq<u8>),
    Send(u64, Seq<u8>),
    ReadClock,
}

impl View for ShellAction {
    type V = ShellCall;

    open spec fn view(&self) -> ShellCall {
        match self {
            ShellAction::Call { number, arg0, arg1 } => ShellCall::Call(*number, *arg0, *arg1),
            ShellAction::Open { name } => ShellCall::Open(name@),
            ShellAction::Send { to, text } => ShellCall::Send(*to, text@),
            ShellAction::ReadClock => ShellCall::ReadClock,
        }
    }
}

/// The actions of a step, by their views.
pub open spec fn calls(a: Seq<ShellAction>) -> Seq<ShellCall> {
    a.map_values(|x: ShellAction| x@)
}

/// The shell's state: its mode, the line being typed (or the file being
/// edited), the descriptor open in the editor, and what it waits for.
pub struct ShellView {
    pub mode: ShellMode,
    pub line: Seq<u8>,
    pub fd: u64,
    pub phase: ShellPhase,
}

/// A system call with its two arguments.
pub open spec fn call(n: u64, a0: u64, a1: u64) -> ShellCall {
    ShellCall::Call(n, a0, a1)
}

/// `SYS_READ`: ask for a key.
pub open spec fn read_call() -> ShellCall {
    call(SYS_READ, 0, 0)
}

/// One `SYS_WRITE` per byte of `s`, in order.
pub open spec fn writes(s: Seq<u8>) -> Seq<ShellCall> {
    s.map_values(|b: u8| call(SYS_WRITE, b as u64, 0))
}

/// One `SYS_WRITE_FILE` to `fd` per byte of `s`, in order.
pub open spec fn file_writes(fd: u64, s: Seq<u8>) -> Seq<ShellCall> {
    s.map_values(|b: u8| call(SYS_WRITE_FILE, fd, b as u64))
}

/// The prompt, `> `.
pub open spec fn prompt_bytes() -> Seq<u8> {
    seq![0x3Eu8, 0x20u8]
}

/// Print the prompt, then ask for a key.
pub open spec fn next_key() -> Seq<ShellCall> {
    writes(prompt_bytes()).push(read_call())
}

/// The benchmark's yields.
pub open spec fn yields() -> Seq<ShellCall> {
    Seq::new(BENCH_YIELDS as nat, |i: int| call(SYS_YIELD, 0, 0))
}

/// Cycles from reading `t0` to reading `t1`, modulo 2^64.
pub open spec fn elapsed(t0: u64, t1: u64) -> u64 {
    if t1 >= t0 { (t1 - t0) as u64 } else { (t1 + 0x1_0000_0000_0000_0000 - t0) as u64 }
}

/// The benchmark's report for `d` cycles.
pub open spec fn bench_text(d: u64) -> Seq<u8> {
    text("10,000 SYS_YIELDs took (CPU cycles): ") + decimal(d as nat) + seq![0x0Au8]
}

/// The argument of a command that starts at index `from` of `line`: the
/// rest of the line, cut to `MAX_ARG_BYTES`.
pub open spec fn arg_of(line: Seq<u8>, from: int) -> Seq<u8> {
    line.subrange(from, if line.len() - from <= MAX_ARG_BYTES { line.len() as int } else { from + MAX_ARG_BYTES })
}

/// `line` begins with `w`.
pub open spec fn has_word(line: Seq<u8>, w: Seq<u8>) -> bool {
    w.len() <= line.len() && line.take(w.len() as int) == w
}

/// The first index from `i` on at which ` > ` stands in `line`, or 0.
pub open spec fn find_gt_from(line: Seq<u8>, i: int) -> int
    decreases line.len() - i,
{
    if i < 0 || i + 2 >= line.len() {
        0
    } else if line[i] == 0x20 && line[i + 1] == 0x3E && line[i + 2] == 0x20 {
        i
    } else {
        find_gt_from(line, i + 1)
    }
}

/// Back to reading keys with an empty line.
pub open spec fn idle(s: ShellView) -> ShellView {
    ShellView { line: Seq::empty(), phase: ShellPhase::AwaitKey, ..s }
}

/// The state of the shell when it is well formed: the line fits its
/// buffer, and `echo`'s text lies inside the line.
pub open spec fn shell_ok(s: ShellView) -> bool {
    &&& s.line.len() <= LINE_CAPACITY
    &&& s.phase matches ShellPhase::EchoOpen(g) ==> 5 <= g && g + 2 < s.line.len()
}

/// What Enter does in the prompt with the line of `s`, after echoing the
/// line feed: `ls` lists the directory, `clear` clears the screen,
/// `edit NAME` and `cat NAME` open the file, `echo TEXT > NAME` opens the
/// file (without ` > `, nothing), `msg TEXT` sends the text to the daemon,
/// `bench` reads the cycle counter; any other nonempty line is an unknown
/// command. Those that end at once print the prompt and ask for a key.
pub open spec fn command(s: ShellView) -> (ShellView, Seq<ShellCall>) {
    let l = s.line;
    if l == text("ls") {
        (idle(s), seq![call(SYS_LIST_DIR, 0, 0)] + next_key())
    } else if l == text("clear") {
        (idle(s), seq![call(SYS_CLEAR, 0, 0)] + next_key())
    } else if l.len() > 5 && has_word(l, text("edit ")) {
        (ShellView { phase: ShellPhase::EditOpen, ..s }, seq![ShellCall::Open(arg_of(l, 5))])
    } else if l.len() > 4 && has_word(l, text("cat ")) {
        (ShellView { phase: ShellPhase::CatOpen, ..s }, seq![ShellCall::Open(arg_of(l, 4))])
    } else if l.len() > 5 && has_word(l, text("echo ")) {
        let g = find_gt_from(l, 5);
        if g > 0 {
            (ShellView { phase: ShellPhase::EchoOpen(g as usize), ..s }, seq![ShellCall::Open(arg_of(l, g + 3))])
        } else {
            (idle(s), next_key())
        }
    } else if l.len() > 4 && has_word(l, text("msg ")) {
        (ShellView { phase: ShellPhase::SendResult, ..s }, seq![ShellCall::Send(DAEMON_ID, arg_of(l, 4))])
    } else if l == text("bench") {
        (ShellView { phase: ShellPhase::BenchStart, ..s }, seq![ShellCall::ReadClock])
    } else if l.len() > 0 {
        (idle(s), writes(text("Unknown command\n")) + next_key())
    } else {
        (idle(s), next_key())
    }
}

/// What key result `v` does: 0 (no key) yields and asks again; a key whose
/// low byte is 0 is skipped. Backspace drops the last byte of the line and
/// echoes; Escape in the editor truncates the open file, writes the buffer
/// to it and closes it, then clears the screen and goes back to the
/// prompt; Enter in the prompt runs the line; any other key joins the line
/// while it has room, and is echoed.
pub open spec fn key_step(s: ShellView, v: u64) -> (ShellView, Seq<ShellCall>) {
    let c = (v % 256) as u8;
    if v == 0 {
        (s, seq![call(SYS_YIELD, 0, 0), read_call()])
    } else if c == 0 {
        (s, seq![read_call()])
    } else if s.mode == ShellMode::Editor && c == KEY_ESCAPE {
        let save = if s.fd != SYSCALL_ERROR {
            seq![call(SYS_TRUNCATE, s.fd, 0)] + file_writes(s.fd, s.line) + seq![call(SYS_CLOSE, s.fd, 0)]
        } else {
            Seq::empty()
        };
        (ShellView { mode: ShellMode::Prompt, line: Seq::empty(), fd: SYSCALL_ERROR, phase: ShellPhase::AwaitKey },
            save + seq![call(SYS_CLEAR, 0, 0)] + next_key())
    } else if c == KEY_BACKSPACE {
        if s.line.len() > 0 {
            (ShellView { line: s.line.drop_last(), ..s }, seq![call(SYS_WRITE, c as u64, 0), read_call()])
        } else {
            (s, seq![read_call()])
        }
    } else if s.mode == ShellMode::Prompt && c == KEY_ENTER {
        let (s2, a) = command(s);
        (s2, seq![call(SYS_WRITE, KEY_ENTER as u64, 0)] + a)
    } else if s.line.len() < LINE_CAPACITY {
        (ShellView { line: s.line.push(c), ..s }, seq![call(SYS_WRITE, c as u64, 0), read_call()])
    } else {
        (s, seq![read_call()])
    }
}

/// What the result `v` of the awaited action does in state `s`.
pub open spec fn on_result(s: ShellView, v: u64) -> (ShellView, Seq<ShellCall>) {
    match s.phase {
        ShellPhase::Boot => (s, Seq::empty()),
        ShellPhase::BenchStart => (ShellView { phase: ShellPhase::BenchEnd(v), ..s }, yields().push(ShellCall::ReadClock)),
        ShellPhase::BenchEnd(t0) => (idle(s), writes(bench_text(elapsed(t0, v))) + next_key()),
        ShellPhase::AwaitKey => key_step(s, v),
        ShellPhase::EditOpen => if v != SYSCALL_ERROR {
            (ShellView { mode: ShellMode::Editor, line: Seq::empty(), fd: v, phase: ShellPhase::EditLoad },
                seq![call(SYS_CLEAR, 0, 0), call(SYS_READ_FILE, v, 0)])
        } else {
            (ShellView { fd: v, ..idle(s) }, writes(text("Failed to open file\n")) + next_key())
        },
        ShellPhase::EditLoad => if v == SYSCALL_ERROR {
            (ShellView { phase: ShellPhase::AwaitKey, ..s }, seq![read_call()])
        } else if s.line.len() < LINE_CAPACITY {
            (ShellView { line: s.line.push((v % 256) as u8), ..s }, seq![call(SYS_WRITE, v, 0), call(SYS_READ_FILE, s.fd, 0)])
        } else {
            (s, seq![call(SYS_READ_FILE, s.fd, 0)])
        },
        ShellPhase::CatOpen => if v != SYSCALL_ERROR {
            (ShellView { phase: ShellPhase::CatRead(v), ..s }, seq![call(SYS_READ_FILE, v, 0)])
        } else {
            (idle(s), writes(text("File not found\n")) + next_key())
        },
        ShellPhase::CatRead(fd) => if v == SYSCALL_ERROR {
            (idle(s), seq![call(SYS_WRITE, KEY_ENTER as u64, 0), call(SYS_CLOSE, fd, 0)] + next_key())
        } else {
            (s, seq![call(SYS_WRITE, v, 0), call(SYS_READ_FILE, fd, 0)])
        },
        ShellPhase::EchoOpen(g) => {
            let save = if v != SYSCALL_ERROR {
                file_writes(v, s.line.subrange(5, g as int))
                    + seq![call(SYS_WRITE_FILE, v, KEY_ENTER as u64), call(SYS_CLOSE, v, 0)]
            } else {
                Seq::empty()
            };
            (idle(s), save + next_key())
        },
        ShellPhase::SendResult => {
            let msg = if v != SYSCALL_ERROR { text("Message sent to Daemon\n") } else { text("Failed to send message\n") };
            (idle(s), writes(msg) + next_key())
        },
    }
}

/// One step of the shell: in `Boot`, any event reads the cycle counter to
/// start the benchmark; otherwise `Start` does nothing and a result goes
/// to `on_result`.
pub open spec fn shell_spec(s: ShellView, ev: ShellEvent) -> (ShellView, Seq<ShellCall>) {
    if s.phase == ShellPhase::Boot {
        (ShellView { phase: ShellPhase::BenchStart, ..s }, seq![ShellCall::ReadClock])
    } else {
        match ev {
            ShellEvent::Start => (s, Seq::empty()),
            ShellEvent::Returned(v) => on_result(s, v),
        }
    }
}

/// The interactive shell of the first user task, as a state machine: its
/// runner performs the actions each step asks for and hands back the
/// result of the last one.
pub struct ShellState {
    mode: ShellMode,
    line: Vec<u8>,
    fd: u64,
    phase: ShellPhase,
}

impl View for ShellState {
    type V = ShellView;

    closed spec fn view(&self) -> ShellView {
        ShellView { mode: self.mode, line: self.line@, fd: self.fd, phase: self.phase }
    }
}

impl ShellState {
    pub open spec fn wf(&self) -> bool {
        shell_ok(self@)
    }

    /// A shell that has not started: prompt mode, an empty line, no file
    /// open.
    pub fn new() -> (s: Self)
        ensures
            s.wf(),
            s@ == (ShellView { mode: ShellMode::Prompt, line: Seq::empty(), fd: SYSCALL_ERROR, phase: ShellPhase::Boot }),
    {
        ShellState { mode: ShellMode::Prompt, line: Vec::new(), fd: SYSCALL_ERROR, phase: ShellPhase::Boot }
    }
}

fn emit(out: &mut Vec<ShellAction>, a: ShellAction)
    ensures
        calls(final(out)@) == calls(old(out)@).push(a@),
{
    let ghost v = a@;
    out.push(a);
    assert(calls(out@) =~= calls(old(out)@).push(v));
}

fn emit_call(out: &mut Vec<ShellAction>, n: u64, a0: u64, a1: u64)
    ensures
        calls(final(out)@) == calls(old(out)@).push(call(n, a0, a1)),
{
    emit(out, ShellAction::Call { number: n, arg0: a0, arg1: a1 });
}

fn emit_writes(out: &mut Vec<ShellAction>, bytes: &[u8])
    ensures
        calls(final(out)@) == calls(old(out)@) + writes(bytes@),
{
    let mut i: usize = 0;
    while i < bytes.len()
        invariant
            i <= bytes@.len(),
            calls(out@) == calls(old(out)@) + writes(bytes@.take(i as int)),
        decreases bytes@.len() - i,
    {
        emit_call(out, SYS_WRITE, bytes[i] as u64, 0);
        assert(writes(bytes@.take(i as int + 1)) =~= writes(bytes@.take(i as int)).push(call(SYS_WRITE, bytes@[i as int] as u64, 0)));
        i = i + 1;
    }
    assert(bytes@.take(i as int) =~= bytes@);
}

fn emit_file_writes(out: &mut Vec<ShellAction>, fd: u64, bytes: &[u8], from: usize, to: usize)
    requires
        from <= to <= bytes@.len(),
    ensures
        calls(final(out)@) == calls(old(out)@) + file_writes(fd, bytes@.subrange(from as int, to as int)),
{
    let mut i: usize = from;
    while i < to
        invariant
            from <= i <= to <= bytes@.len(),
            calls(out@) == calls(old(out)@) + file_writes(fd, bytes@.subrange(from as int, i as int)),
        decreases to - i,
    {
        emit_call(out, SYS_WRITE_FILE, fd, bytes[i] as u64);
        assert(file_writes(fd, bytes@.subrange(from as int, i + 1)) =~= file_writes(fd, bytes@.subrange(from as int, i as int)).push(
            call(SYS_WRITE_FILE, fd, bytes@[i as int] as u64)));
        i = i + 1;
    }
}

fn emit_next_key(out: &mut Vec<ShellAction>)
    ensures
        calls(final(out)@) == calls(old(out)@) + next_key(),
{
    emit_call(out, SYS_WRITE, 0x3E, 0);
    emit_call(out, SYS_WRITE, 0x20, 0);
    emit_call(out, SYS_READ, 0, 0);
    assert(writes(prompt_bytes()) =~= seq![call(SYS_WRITE, 0x3E, 0), call(SYS_WRITE, 0x20, 0)]);
    assert(calls(out@) =~= calls(old(out)@) + next_key());
}

/// Whether `line` begins with `w`.
fn starts_with(line: &[u8], w: &[u8]) -> (b: bool)
    ensures
        b == has_word(line@, w@),
{
    if w.len() > line.len() {
        return false;
    }
    let mut i: usize = 0;
    while i < w.len()
        invariant
            w@.len() <= line@.len(),
            i <= w@.len(),
            forall|j: int| 0 <= j < i ==> line@[j] == w@[j],
        decreases w@.len() - i,
    {
        if line[i] != w[i] {
            assert(line@.take(w@.len() as int)[i as int] != w@[i as int]);
            return false;
        }
        i = i + 1;
    }
    assert(line@.take(w@.len() as int) =~= w@);
    true
}

/// Whether `line` is `w`.
fn is_word(line: &[u8], w: &[u8]) -> (b: bool)
    ensures
        b == (line@ == w@),
{
    let r = line.len() == w.len() && starts_with(line, w);
    proof {
        if line@.len() == w@.len() {
            assert(line@.take(w@.len() as int) =~= line@);
        }
    }
    r
}

/// The first index from 5 on at which ` > ` stands in `line`, or 0.
fn find_gt(line: &[u8]) -> (g: usize)
    ensures
        g == find_gt_from(line@, 5),
{
    let mut i: usize = 5;
    while i < line.len() && line.len() - i > 2
        invariant
            5 <= i,
            find_gt_from(line@, i as int) == find_gt_from(line@, 5),
        decreases line@.len() - i,
    {
        if line[i] == 0x20 && line[i + 1] == 0x3E && line[i + 2] == 0x20 {
            return i;
        }
        i = i + 1;
    }
    0
}

proof fn lemma_find_gt(line: Seq<u8>, i: int)
    requires
        i >= 0,
    ensures
        find_gt_from(line, i) == 0 || (i <= find_gt_from(line, i) && find_gt_from(line, i) + 2 < line.len()),
    decreases line.len() - i,
{
    if i + 2 < line.len() && !(line[i] == 0x20 && line[i + 1] == 0x3E && line[i + 2] == 0x20) {
        lemma_find_gt(line, i + 1);
    }
}

/// The argument of the command on `line` that starts at `from`.
fn arg_bytes(line: &[u8], from: usize) -> (a: Vec<u8>)
    requires
        from <= line@.len(),
    ensures
        a@ == arg_of(line@, from as int),
{
    let end = if line.len() - from <= MAX_ARG_BYTES { line.len() } else { from + MAX_ARG_BYTES };
    let mut a: Vec<u8> = Vec::new();
    let mut i: usize = from;
    while i < end
        invariant
            from <= i <= end <= line@.len(),
            a@ == line@.subrange(from as int, i as int),
        decreases end - i,
    {
        a.push(line[i]);
        assert(line@.subrange(from as int, i + 1) =~= line@.subrange(from as int, i as int).push(line@[i as int]));
        i = i + 1;
    }
    a
}

impl ShellState {
    fn go_idle(&mut self)
        ensures
            final(self)@ == idle(old(self)@),
    {
        self.line = Vec::new();
        self.phase = ShellPhase::AwaitKey;
    }

    /// Enter in the prompt.
    fn run_command(&mut self, out: &mut Vec<ShellAction>)
        requires
            shell_ok(old(self)@),
            old(self)@.mode == ShellMode::Prompt,
        ensures
            shell_ok(final(self)@),
            final(self)@ == command(old(self)@).0,
            calls(final(out)@) == calls(old(out)@) + command(old(self)@).1,
    {
        let ghost before = calls(out@);
        let l = self.line.as_slice();
        if is_word(l, "ls".as_bytes()) {
            emit_call(out, SYS_LIST_DIR, 0, 0);
            emit_next_key(out);
            self.go_idle();
        } else if is_word(l, "clear".as_bytes()) {
            emit_call(out, SYS_CLEAR, 0, 0);
            emit_next_key(out);
            self.go_idle();
        } else if l.len() > 5 && starts_with(l, "edit ".as_bytes()) {
            let name = arg_bytes(l, 5);
            emit(out, ShellAction::Open { name });
            self.phase = ShellPhase::EditOpen;
        } else if l.len() > 4 && starts_with(l, "cat ".as_bytes()) {
            let name = arg_bytes(l, 4);
            emit(out, ShellAction::Open { name });
            self.phase = ShellPhase::CatOpen;
        } else if l.len() > 5 && starts_with(l, "echo ".as_bytes()) {
            let g = find_gt(l);
            proof {
                lemma_find_gt(l@, 5);
            }
            if g > 0 {
                let name = arg_bytes(l, g + 3);
                emit(out, ShellAction::Open { name });
                self.phase = ShellPhase::EchoOpen(g);
            } else {
                emit_next_key(out);
                self.go_idle();
            }
        } else if l.len() > 4 && starts_with(l, "msg ".as_bytes()) {
            let text = arg_bytes(l, 4);
            emit(out, ShellAction::Send { to: DAEMON_ID, text });
            self.phase = ShellPhase::SendResult;
        } else if is_word(l, "bench".as_bytes()) {
            emit(out, ShellAction::ReadClock);
            self.phase = ShellPhase::BenchStart;
        } else {
            if l.len() > 0 {
                emit_writes(out, "Unknown command\n".as_bytes());
            }
            emit_next_key(out);
            self.go_idle();
        }
        assert(calls(out@) =~= before + command(old(self)@).1);
    }

    /// A key result while waiting for a key.
    fn on_key(&mut self, v: u64) -> (out: Vec<ShellAction>)
        requires
            shell_ok(old(self)@),
            old(self)@.phase == ShellPhase::AwaitKey,
        ensures
            shell_ok(final(self)@),
            (final(self)@, calls(out@)) == key_step(old(self)@, v),
    {
        let mut out: Vec<ShellAction> = Vec::new();
        let c = (v & 0xFF) as u8;
        assert(c == (v % 256) as u8) by (bit_vector)
            requires c == (v & 0xFF) as u8;
        if v == 0 {
            emit_call(&mut out, SYS_YIELD, 0, 0);
            emit_call(&mut out, SYS_READ, 0, 0);
        } else if c == 0 {
            emit_call(&mut out, SYS_READ, 0, 0);
        } else if self.mode == ShellMode::Editor && c == KEY_ESCAPE {
            if self.fd != SYSCALL_ERROR {
                let fd = self.fd;
                emit_call(&mut out, SYS_TRUNCATE, fd, 0);
                let n = self.line.len();
                emit_file_writes(&mut out, fd, self.line.as_slice(), 0, n);
                assert(self.line@.subrange(0, n as int) =~= self.line@);
                emit_call(&mut out, SYS_CLOSE, fd, 0);
            }
            emit_call(&mut out, SYS_CLEAR, 0, 0);
            emit_next_key(&mut out);
            self.mode = ShellMode::Prompt;
            self.line = Vec::new();
            self.fd = SYSCALL_ERROR;
            self.phase = ShellPhase::AwaitKey;
        } else if c == KEY_BACKSPACE {
            if self.line.len() > 0 {
                self.line.pop();
                emit_call(&mut out, SYS_WRITE, c as u64, 0);
            }
            emit_call(&mut out, SYS_READ, 0, 0);
        } else if self.mode == ShellMode::Prompt && c == KEY_ENTER {
            emit_call(&mut out, SYS_WRITE, KEY_ENTER as u64, 0);
            self.run_command(&mut out);
        } else if self.line.len() < LINE_CAPACITY {
            self.line.push(c);
            emit_call(&mut out, SYS_WRITE, c as u64, 0);
            emit_call(&mut out, SYS_READ, 0, 0);
        } else {
            emit_call(&mut out, SYS_READ, 0, 0);
        }
        assert(calls(out@) =~= key_step(old(self)@, v).1);
        out
    }

    /// The result `v` of the awaited action.
    fn on_result(&mut self, v: u64) -> (out: Vec<ShellAction>)
        requires
            shell_ok(old(self)@),
        ensures
            shell_ok(final(self)@),
            (final(self)@, calls(out@)) == on_result(old(self)@, v),
    {
        let mut out: Vec<ShellAction> = Vec::new();
        match self.phase {
            ShellPhase::Boot => {},
            ShellPhase::BenchStart => {
                let mut i: usize = 0;
                while i < BENCH_YIELDS
                    invariant
                        i <= BENCH_YIELDS,
                        calls(out@) == Seq::new(i as nat, |k: int| call(SYS_YIELD, 0, 0)),
                    decreases BENCH_YIELDS - i,
                {
                    emit_call(&mut out, SYS_YIELD, 0, 0);
                    assert(calls(out@) =~= Seq::new(i as nat + 1, |k: int| call(SYS_YIELD, 0, 0)));
                    i = i + 1;
                }
                emit(&mut out, ShellAction::ReadClock);
                self.phase = ShellPhase::BenchEnd(v);
            },
            ShellPhase::BenchEnd(t0) => {
                let d = v.wrapping_sub(t0);
                let mut t: Vec<u8> = Vec::new();
                append(&mut t, "10,000 SYS_YIELDs took (CPU cycles): ".as_bytes());
                push_decimal(&mut t, d);
                t.push(0x0A);
                assert(d == elapsed(t0, v));
                assert(t@ =~= bench_text(d));
                emit_writes(&mut out, t.as_slice());
                emit_next_key(&mut out);
                self.go_idle();
            },
            ShellPhase::AwaitKey => {
                return self.on_key(v);
            },
            ShellPhase::EditOpen => {
                if v != SYSCALL_ERROR {
                    emit_call(&mut out, SYS_CLEAR, 0, 0);
                    emit_call(&mut out, SYS_READ_FILE, v, 0);
                    self.mode = ShellMode::Editor;
                    self.line = Vec::new();
                    self.fd = v;
                    self.phase = ShellPhase::EditLoad;
                } else {
                    emit_writes(&mut out, "Failed to open file\n".as_bytes());
                    emit_next_key(&mut out);
                    self.fd = v;
                    self.go_idle();
                }
            },
            ShellPhase::EditLoad => {
                if v == SYSCALL_ERROR {
                    emit_call(&mut out, SYS_READ, 0, 0);
                    self.phase = ShellPhase::AwaitKey;
                } else {
                    if self.line.len() < LINE_CAPACITY {
                        let b = (v & 0xFF) as u8;
                        assert(b == (v % 256) as u8) by (bit_vector)
                            requires b == (v & 0xFF) as u8;
                        self.line.push(b);
                        emit_call(&mut out, SYS_WRITE, v, 0);
                    }
                    emit_call(&mut out, SYS_READ_FILE, self.fd, 0);
                }
            },
            ShellPhase::CatOpen => {
                if v != SYSCALL_ERROR {
                    emit_call(&mut out, SYS_READ_FILE, v, 0);
                    self.phase = ShellPhase::CatRead(v);
                } else {
                    emit_writes(&mut out, "File not found\n".as_bytes());
                    emit_next_key(&mut out);
                    self.go_idle();
                }
            },
            ShellPhase::CatRead(fd) => {
                if v == SYSCALL_ERROR {
                    emit_call(&mut out, SYS_WRITE, KEY_ENTER as u64, 0);
                    emit_call(&mut out, SYS_CLOSE, fd, 0);
                    emit_next_key(&mut out);
                    self.go_idle();
                } else {
                    emit_call(&mut out, SYS_WRITE, v, 0);
                    emit_call(&mut out, SYS_READ_FILE, fd, 0);
                }
            },
            ShellPhase::EchoOpen(g) => {
                if v != SYSCALL_ERROR {
                    emit_file_writes(&mut out, v, self.line.as_slice(), 5, g);
                    emit_call(&mut out, SYS_WRITE_FILE, v, KEY_ENTER as u64);
                    emit_call(&mut out, SYS_CLOSE, v, 0);
                }
                emit_next_key(&mut out);
                self.go_idle();
            },
            ShellPhase::SendResult => {
                if v != SYSCALL_ERROR {
                    emit_writes(&mut out, "Message sent to Daemon\n".as_bytes());
                } else {
                    emit_writes(&mut out, "Failed to send message\n".as_bytes());
                }
                emit_next_key(&mut out);
                self.go_idle();
            },
        }
        assert(calls(out@) =~= on_result(old(self)@, v).1);
        out
    }
}

/// Runs one step of the shell on event `ev` and returns the actions to
/// perform, in order; the result of the last one is the next event.
pub fn shell_step(st: &mut ShellState, ev: ShellEvent) -> (acts: Vec<ShellAction>)
    requires
        old(st).wf(),
    ensures
        final(st).wf(),
        (final(st)@, calls(acts@)) == shell_spec(old(st)@, ev),
{
    if st.phase == ShellPhase::Boot {
        let mut out: Vec<ShellAction> = Vec::new();
        emit(&mut out, ShellAction::ReadClock);
        st.phase = ShellPhase::BenchStart;
        assert(calls(out@) =~= seq![ShellCall::ReadClock]);
        return out;
    }
    match ev {
        ShellEvent::Start => {
            let out: Vec<ShellAction> = Vec::new();
            assert(calls(out@) =~= Seq::<ShellCall>::empty());
            out
        },
        ShellEvent::Returned(v) => st.on_result(v),
    }
}

} // verus!
