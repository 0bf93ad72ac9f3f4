use vstd::prelude::*;

verus! {

/// Saved register state of an interrupted task: the fifteen general-purpose
/// registers pushed by the entry stub, followed by the frame the CPU pushes.
#[derive(Debug, Clone, Copy, PartialEq, Eq, Structural)]
pub struct TrapFrame {
    pub r15: u64,
    pub r14: u64,
    pub r13: u64,
    pub r12: u64,
    pub r11: u64,
    pub r10: u64,
    pub r9: u64,
    pub r8: u64,
    pub rbp: u64,
    pub rdi: u64,
    pub rsi: u64,
    pub rdx: u64,
    pub rcx: u64,
    pub rbx: u64,
    pub rax: u64,
    pub rip: u64,
    pub cs: u64,
    pub rflags: u64,
    pub rsp: u64,
    pub ss: u64,
}

/// Ring-3 code selector (GDT index 3, RPL 3).
pub const USER_CODE_SELECTOR: u64 = 0x1B;
/// Ring-3 stack selector (GDT index 4, RPL 3).
pub const USER_DATA_SELECTOR: u64 = 0x23;
/// Ring-0 code selector (GDT index 1).
pub const KERNEL_CODE_SELECTOR: u64 = 0x08;
/// Ring-0 stack selector (GDT index 2).
pub const KERNEL_DATA_SELECTOR: u64 = 0x10;
/// RFLAGS with IF set and the always-one bit 1.
pub const INITIAL_RFLAGS: u64 = 0x202;

impl TrapFrame {
    /// Every register of the frame is zero.
    pub open spec fn is_zero(&self) -> bool {
        &&& self.r15 == 0 && self.r14 == 0 && self.r13 == 0 && self.r12 == 0
        &&& self.r11 == 0 && self.r10 == 0 && self.r9 == 0 && self.r8 == 0
        &&& self.rbp == 0 && self.rdi == 0 && self.rsi == 0 && self.rdx == 0
        &&& self.rcx == 0 && self.rbx == 0 && self.rax == 0
        &&& self.rip == 0 && self.cs == 0 && self.rflags == 0 && self.rsp == 0 && self.ss == 0
    }

    /// The general-purpose registers are all zero.
    pub open spec fn gprs_zero(&self) -> bool {
        &&& self.r15 == 0 && self.r14 == 0 && self.r13 == 0 && self.r12 == 0
        &&& self.r11 == 0 && self.r10 == 0 && self.r9 == 0 && self.r8 == 0
        &&& self.rbp == 0 && self.rdi == 0 && self.rsi == 0 && self.rdx == 0
        &&& self.rcx == 0 && self.rbx == 0 && self.rax == 0
    }

    /// A frame with every register zero.
    pub fn empty() -> (f: Self)
        ensures
            f.is_zero(),
    {
        TrapFrame {
            r15: 0, r14: 0, r13: 0, r12: 0, r11: 0, r10: 0, r9: 0, r8: 0,
            rbp: 0, rdi: 0, rsi: 0, rdx: 0, rcx: 0, rbx: 0, rax: 0,
            rip: 0, cs: 0, rflags: 0, rsp: 0, ss: 0,
        }
    }

    /// A frame that enters ring 3 at `instruction_pointer` on `stack_pointer`.
    pub fn new_user(instruction_pointer: u64, stack_pointer: u64) -> (f: Self)
        ensures
            f.gprs_zero(),
            f.rip == instruction_pointer,
            f.rsp == stack_pointer,
            f.cs == USER_CODE_SELECTOR,
            f.ss == USER_DATA_SELECTOR,
            f.rflags == INITIAL_RFLAGS,
    {
        let mut frame = Self::empty();
        frame.rip = instruction_pointer;
        frame.rsp = stack_pointer;
        frame.cs = USER_CODE_SELECTOR;
        frame.ss = USER_DATA_SELECTOR;
        frame.rflags = INITIAL_RFLAGS;
        frame
    }

    /// A frame that runs a ring-0 thread at `instruction_pointer` on `stack_pointer`.
    pub fn new_kernel(instruction_pointer: u64, stack_pointer: u64) -> (f: Self)
        ensures
            f.gprs_zero(),
            f.rip == instruction_pointer,
            f.rsp == stack_pointer,
            f.cs == KERNEL_CODE_SELECTOR,
            f.ss == KERNEL_DATA_SELECTOR,
            f.rflags == INITIAL_RFLAGS,
    {
        let mut frame = Self::empty();
        frame.rip = instruction_pointer;
        frame.rsp = stack_pointer;
        frame.cs = KERNEL_CODE_SELECTOR;
        frame.ss = KERNEL_DATA_SELECTOR;
        frame.rflags = INITIAL_RFLAGS;
        frame
    }
}

} // verus!
