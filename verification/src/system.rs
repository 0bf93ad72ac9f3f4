use vstd::prelude::*;
use crate::memory::{MemoryPool, POOL_BLOCKS};
use crate::scheduler::{Scheduler, switch_post, MAX_TASKS};
use crate::context::Context;
use crate::trap::TrapFrame;
use crate::vga::VgaWriter;
use vstd::string::StringSliceAdditionalSpecFns;
use vstd::utf8::encode_utf8;
use crate::syscall::{KernelState, SyscallEffect, dispatch, dispatch_post, emit_console, SYS_YIELD, SYS_EXIT};
use crate::vga::console_run;

verus! {

/// What the CPU must install for the task now current after a switch: its
/// top-level page table and the top of its kernel stack.
#[derive(Debug, Clone, Copy, PartialEq, Eq, Structural)]
pub struct SwitchTarget {
    pub page_table_root: u64,
    pub kernel_stack: u64,
}

/// The switch target of the task in slot `t`, if there is one.
pub open spec fn target_of(t: Option<Context>) -> Option<SwitchTarget> {
    match t {
        Some(c) => Some(SwitchTarget { page_table_root: c.page_table_root, kernel_stack: c.kernel_stack }),
        None => None,
    }
}

/// The blocks of a pool made for one call: all free.
pub open spec fn fresh_pool() -> Seq<bool> {
    Seq::new(POOL_BLOCKS as nat, |i: int| true)
}

/// A system call trapped with stack pointer `rsp` and saved frame `f`, on
/// slots `t0` with current slot `cur`. The current task, if any, runs the
/// call against a fresh pool; `SYS_YIELD` and `SYS_EXIT` then save `rsp`
/// in it and switch. The fast entry resumes on the switch's stack pointer;
/// the interrupt entry always resumes on `rsp`. `t1`, `cur1`, `f2`, `k2`
/// are the slots, current slot, frame and kernel state after, `r` the stack
/// pointer to resume on and `e` the output asked for.
pub open spec fn syscall_step(
    t0: Seq<Option<Context>>, cur: int, rsp: u64, f: TrapFrame, k: KernelState, user: Seq<u8>, fast: bool,
    t1: Seq<Option<Context>>, cur1: int, f2: TrapFrame, k2: KernelState, r: u64, e: Seq<SyscallEffect>,
) -> bool {
    match t0[cur] {
        None => t1 == t0 && cur1 == cur && f2 == f && k2 == k && r == rsp && e.len() == 0,
        Some(c) => exists|c2: Context, pool2: Seq<bool>| {
            &&& #[trigger] dispatch_post(c, fresh_pool(), f, k, user, c2, pool2, f2, k2, e)
            &&& if f.rax == SYS_YIELD || f.rax == SYS_EXIT {
                    let t_mid = t0.update(cur, Some(Context { rsp, ..c2 }));
                    exists|s: u64| #[trigger] switch_post(t_mid, cur, rsp, t1, cur1, s) && r == (if fast { s } else { rsp })
                } else {
                    t1 == t0.update(cur, Some(c2)) && cur1 == cur && r == rsp
                }
        },
    }
}

/// The orchestrator: the scheduler and the block pool.
pub struct System {
    pub scheduler: Scheduler,
    pub memory: MemoryPool,
}

impl System {
    /// An empty scheduler and a pool with every block free.
    pub fn new() -> (s: Self)
        ensures
            s.scheduler.wf(),
            s.scheduler.current() == 0,
            s.scheduler.tasks() == Seq::new(MAX_TASKS as nat, |i: int| None::<Context>),
            forall|i: int| 0 <= i < POOL_BLOCKS ==> s.memory.blocks[i],
    {
        System { scheduler: Scheduler::new(), memory: MemoryPool::new() }
    }

    /// Timer tick: the scheduler's switch from the interrupted stack
    /// pointer to the next one.
    pub fn schedule_tick(&mut self, current_rsp: u64) -> (r: u64)
        requires
            old(self).scheduler.wf(),
        ensures
            final(self).scheduler.wf(),
            switch_post(old(self).scheduler.tasks(), old(self).scheduler.current(), current_rsp,
                final(self).scheduler.tasks(), final(self).scheduler.current(), r),
            final(self).memory.blocks@ == old(self).memory.blocks@,
    {
        self.scheduler.switch_context(current_rsp)
    }

    fn current_target(&self) -> (r: Option<SwitchTarget>)
        requires
            self.scheduler.wf(),
        ensures
            r == target_of(self.scheduler.tasks()[self.scheduler.current()]),
    {
        match self.scheduler.current_task() {
            Some(t) => Some(SwitchTarget { page_table_root: t.page_table_root, kernel_stack: t.kernel_stack }),
            None => None,
        }
    }

    /// Timer interrupt with stack pointer `rsp`: the scheduler's switch, and
    /// when the stack pointer to resume on differs from `rsp`, what to
    /// install for the task now current.
    pub fn on_timer(&mut self, rsp: u64) -> (r: (u64, Option<SwitchTarget>))
        requires
            old(self).scheduler.wf(),
        ensures
            final(self).scheduler.wf(),
            switch_post(old(self).scheduler.tasks(), old(self).scheduler.current(), rsp,
                final(self).scheduler.tasks(), final(self).scheduler.current(), r.0),
            r.1 == (if r.0 != rsp { target_of(final(self).scheduler.tasks()[final(self).scheduler.current()]) } else { None }),
            final(self).memory.blocks@ == old(self).memory.blocks@,
    {
        let new_rsp = self.scheduler.switch_context(rsp);
        let target = if new_rsp != rsp { self.current_target() } else { None };
        (new_rsp, target)
    }

    /// System call trapped with stack pointer `rsp` and saved frame `frame`,
    /// entered by the `syscall` instruction when `fast`, by the software
    /// interrupt otherwise: the stack pointer to resume on, what to install
    /// when it differs from `rsp`, and the output the call asks for.
    pub fn on_syscall(&mut self, rsp: u64, frame: &mut TrapFrame, kernel: &mut KernelState, user: &[u8], fast: bool)
        -> (r: (u64, Option<SwitchTarget>, Vec<SyscallEffect>))
        requires
            old(self).scheduler.wf(),
            old(kernel).wf(),
        ensures
            final(self).scheduler.wf(),
            final(kernel).wf(),
            syscall_step(old(self).scheduler.tasks(), old(self).scheduler.current(), rsp, *old(frame), *old(kernel), user@, fast,
                final(self).scheduler.tasks(), final(self).scheduler.current(), *final(frame), *final(kernel), r.0, r.2@),
            r.1 == (if r.0 != rsp { target_of(final(self).scheduler.tasks()[final(self).scheduler.current()]) } else { None }),
            final(self).memory.blocks@ == old(self).memory.blocks@,
    {
        let n = frame.rax;
        let mut effects: Vec<SyscallEffect> = Vec::new();
        let mut do_switch = false;
        match self.scheduler.current_task_mut() {
            Some(task) => {
                let mut mem = MemoryPool::new();
                assert(mem.blocks@ =~= fresh_pool());
                effects = dispatch(task, &mut mem, frame, kernel, user);
                if n == SYS_YIELD || n == SYS_EXIT {
                    task.rsp = rsp;
                    do_switch = true;
                }
            },
            None => {},
        }
        let new_rsp = if do_switch {
            let s = self.scheduler.switch_context(rsp);
            if fast { s } else { rsp }
        } else {
            rsp
        };
        let target = if new_rsp != rsp { self.current_target() } else { None };
        (new_rsp, target, effects)
    }
}

/// The upper-case hex digit of `n`, for `n < 16`.
pub open spec fn hex_digit(n: u8) -> u8 {
    if n < 10 { (0x30 + n) as u8 } else { (0x41 + (n - 10)) as u8 }
}

fn hex_digit_of(n: u8) -> (d: u8)
    requires
        n < 16,
    ensures
        d == hex_digit(n),
{
    if n < 10 { 0x30 + n } else { 0x41 + (n - 10) }
}

/// The mnemonic of CPU exception vector `v`; `??` for one without one here.
pub open spec fn exception_name(v: u8) -> Seq<char> {
    if v == 0 { "#DE"@ } else if v == 1 { "#DB"@ } else if v == 2 { "NMI"@ } else if v == 3 { "#BP"@ }
    else if v == 4 { "#OF"@ } else if v == 5 { "#BR"@ } else if v == 6 { "#UD"@ } else if v == 7 { "#NM"@ }
    else if v == 8 { "#DF"@ } else if v == 10 { "#TS"@ } else if v == 11 { "#NP"@ } else if v == 12 { "#SS"@ }
    else if v == 13 { "#GP"@ } else if v == 14 { "#PF"@ } else if v == 16 { "#MF"@ } else if v == 17 { "#AC"@ }
    else if v == 18 { "#MC"@ } else if v == 19 { "#XM"@ } else if v == 20 { "#VE"@ } else { "??"@ }
}

fn exception_name_of(v: u8) -> (s: &'static str)
    ensures
        s@ == exception_name(v),
{
    if v == 0 { "#DE" } else if v == 1 { "#DB" } else if v == 2 { "NMI" } else if v == 3 { "#BP" }
    else if v == 4 { "#OF" } else if v == 5 { "#BR" } else if v == 6 { "#UD" } else if v == 7 { "#NM" }
    else if v == 8 { "#DF" } else if v == 10 { "#TS" } else if v == 11 { "#NP" } else if v == 12 { "#SS" }
    else if v == 13 { "#GP" } else if v == 14 { "#PF" } else if v == 16 { "#MF" } else if v == 17 { "#AC" }
    else if v == 18 { "#MC" } else if v == 19 { "#XM" } else if v == 20 { "#VE" } else { "??" }
}

/// The screen text for CPU exception vector `vector`: its low byte as two
/// hex digits and its mnemonic.
pub open spec fn exception_text(vector: u64) -> Seq<u8> {
    let v = vector as u8;
    encode_utf8("\n!! CPU EXCEPTION "@) + seq![hex_digit(v >> 4u8), hex_digit(v & 0xFu8)]
        + encode_utf8(" ("@) + encode_utf8(exception_name(v)) + encode_utf8(") -- HALTING"@)
}

/// The line sent on the serial port after the screen text.
pub open spec fn exception_banner() -> Seq<u8> {
    encode_utf8("\n!! CPU EXCEPTION -- HALTING\n"@)
}

pub(crate) fn append(out: &mut Vec<u8>, b: &[u8])
    ensures
        final(out)@ == old(out)@ + b@,
{
    let mut i: usize = 0;
    while i < b.len()
        invariant
            i <= b@.len(),
            out@ == old(out)@ + b@.take(i as int),
        decreases b@.len() - i,
    {
        out.push(b[i]);
        assert(b@.take(i as int + 1) =~= b@.take(i as int).push(b@[i as int]));
        i = i + 1;
    }
    assert(b@.take(i as int) =~= b@);
}

/// The report of a fatal CPU exception: the text on the console from the
/// top left (each byte also on the serial line), then the banner on the
/// serial line alone.
pub fn exception_report(vector: u64) -> (e: Vec<SyscallEffect>)
    ensures
        e@ == console_run(0, 0, exception_text(vector)).2
            + exception_banner().map_values(|b: u8| SyscallEffect::Serial(b)),
{
    let v = vector as u8;
    let mut text: Vec<u8> = Vec::new();
    append(&mut text, "\n!! CPU EXCEPTION ".as_bytes());
    let hi = (v >> 4u8) & 0xFu8;
    let lo = v & 0xFu8;
    assert(hi < 16 && hi == v >> 4u8) by (bit_vector)
        requires hi == (v >> 4u8) & 0xFu8;
    assert(lo < 16) by (bit_vector)
        requires lo == v & 0xFu8;
    text.push(hex_digit_of(hi));
    text.push(hex_digit_of(lo));
    append(&mut text, " (".as_bytes());
    append(&mut text, exception_name_of(v).as_bytes());
    append(&mut text, ") -- HALTING".as_bytes());
    assert(text@ =~= exception_text(vector));
    let mut e: Vec<SyscallEffect> = Vec::new();
    let mut w = VgaWriter::new();
    emit_console(&mut w, text.as_slice(), &mut e);
    let banner = "\n!! CPU EXCEPTION -- HALTING\n".as_bytes();
    let ghost before = e@;
    let mut i: usize = 0;
    while i < banner.len()
        invariant
            i <= banner@.len(),
            banner@ == exception_banner(),
            e@ == before + banner@.take(i as int).map_values(|b: u8| SyscallEffect::Serial(b)),
        decreases banner@.len() - i,
    {
        e.push(SyscallEffect::Serial(banner[i]));
        assert(banner@.take(i as int + 1).map_values(|b: u8| SyscallEffect::Serial(b))
            =~= banner@.take(i as int).map_values(|b: u8| SyscallEffect::Serial(b)).push(SyscallEffect::Serial(banner@[i as int])));
        i = i + 1;
    }
    assert(banner@.take(i as int) =~= banner@);
    e
}

} // verus!
