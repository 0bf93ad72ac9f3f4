use vstd::prelude::*;

pub mod atoms;
pub mod boot;
pub mod context;
pub mod elf;
pub mod exec;
pub mod fs;
pub mod gdt;
pub mod interrupts;
pub mod io;
pub mod keyboard;
pub mod mapper;
pub mod memory;
pub mod page_table;
pub mod paging;
pub mod pic;
pub mod salience_scheduler;
pub mod scheduler;
pub mod serial;
pub mod shell;
pub mod scheduler_glue;
pub mod slab;
pub mod slab_trials;
pub mod syscall;
pub mod system;
pub mod trap;
pub mod vga;

verus! {

} // verus!
