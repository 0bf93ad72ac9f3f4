use vstd::prelude::*;
use crate::trap::TrapFrame;

verus! {

/// Scheduling state of a task.
#[derive(Debug, Clone, Copy, PartialEq, Eq, Structural)]
pub enum TaskState {
    Ready,
    Running,
    Blocked,
    Terminated,
    /// Blocked in a trap handler.
    Trapped,
}

/// Number of file-descriptor slots of a task.
pub const MAX_OPEN_FILES: usize = 16;

/// The saved state of one task.
#[derive(Debug, Clone, Copy)]
pub struct Context {
    /// Address of the task's saved `TrapFrame` on its kernel stack.
    pub rsp: u64,
    /// Top of the kernel stack assigned to the task.
    pub kernel_stack: u64,
    pub state: TaskState,
    pub id: usize,
    /// Physical address of the task's top-level page table.
    pub page_table_root: u64,
    /// Descriptor slots: (file handle, cursor); handle 0 marks a free slot.
    pub open_files: [(u64, usize); 16],
    /// A full copy of the saved register frame, when one is kept.
    pub saved_state: Option<TrapFrame>,
}

impl Context {
    /// A ready task with no open files and no saved frame.
    pub fn new(id: usize, rsp: u64, kernel_stack: u64, page_table_root: u64) -> (c: Self)
        ensures
            c.id == id,
            c.rsp == rsp,
            c.kernel_stack == kernel_stack,
            c.page_table_root == page_table_root,
            c.state == TaskState::Ready,
            forall|i: int| 0 <= i < MAX_OPEN_FILES ==> c.open_files[i] == (0u64, 0usize),
            c.saved_state is None,
    {
        Context {
            rsp,
            kernel_stack,
            state: TaskState::Ready,
            id,
            page_table_root,
            open_files: [(0u64, 0usize); 16],
            saved_state: None,
        }
    }

    pub fn set_state(&mut self, state: TaskState)
        ensures
            *final(self) == (Context { state, ..*old(self) }),
    {
        self.state = state;
    }
}

} // verus!
