//! A verified core for a small AArch64 teaching kernel: memory allocation,
//! process scheduling, FAT32 on-disk structures, the system-call interface
//! and the command shells.

use vstd::prelude::*;

pub mod allocator;
pub mod bw_allocator;
pub mod bwsh;
pub mod command;
pub mod decimal;
pub mod fat32;
pub mod kern;
pub mod kernel_api;
pub mod ls;
pub mod path;
pub mod text;
pub mod util;
