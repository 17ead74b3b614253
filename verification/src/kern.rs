//! The kernel: traps, processes, the scheduler and the system calls.

pub mod commands;
pub mod fs;
pub mod fs_calls;
pub mod io_calls;
pub mod irq;
pub mod listing;
pub mod mutex;
pub mod net_calls;
pub mod process;
pub mod scheduler;
pub mod shell;
pub mod syscall;
pub mod traps;
