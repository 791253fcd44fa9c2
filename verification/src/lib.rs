use vstd::prelude::*;

pub mod pit;
pub mod task;
pub mod keyboard;
pub mod calc;
pub mod fs;
pub mod memory;
pub mod text;
pub mod history;
pub mod shell;
pub mod command;
pub mod format;
pub mod syscall;
pub mod gdt;
pub mod idt;
pub mod paging;
pub mod port;
pub mod pic;
pub mod serial;
pub mod allocator;
pub mod boot;
pub mod fault;
pub mod console;

verus! {

} // verus!
