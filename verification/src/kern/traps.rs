//! Exception information and the saved register state of a trap.

use vstd::prelude::*;

verus! {

/// The kind of exception, as the vector table reports it.
#[derive(Clone, Copy, Debug, PartialEq, Eq)]
pub enum Kind {
    Synchronous,
    Irq,
    Fiq,
    SError,
}

/// Where the exception was taken from, as the vector table reports it.
#[derive(Clone, Copy, Debug, PartialEq, Eq)]
pub enum Source {
    CurrentSpEl0,
    CurrentSpElx,
    LowerAArch64,
    LowerAArch32,
}

/// Source and kind of an exception.
#[derive(Clone, Copy, Debug, PartialEq, Eq)]
pub struct Info {
    pub source: Source,
    pub kind: Kind,
}

/// Number of general-purpose registers saved in a trap frame.
pub const NUM_X_REGS: usize = 31;

/// The register state saved when a process traps into the kernel.
/// `tpidr` holds the process ID; system calls take their arguments in
/// `x[0..]`, return values in `x[0..]` and the status code in `x[7]`.
#[derive(Clone, Copy, Debug, PartialEq, Eq)]
pub struct TrapFrame {
    pub elr: u64,
    pub spsr: u64,
    pub sp: u64,
    pub tpidr: u64,
    pub ttbr0: u64,
    pub ttbr1: u64,
    pub x: [u64; 31],
}

impl TrapFrame {
    /// A trap frame with every register zero.
    pub fn zeroed() -> (tf: TrapFrame)
        ensures
            tf.elr == 0 && tf.spsr == 0 && tf.sp == 0 && tf.tpidr == 0 && tf.ttbr0 == 0
                && tf.ttbr1 == 0,
            forall|i: int| 0 <= i < NUM_X_REGS ==> tf.x[i] == 0,
    {
        TrapFrame { elr: 0, spsr: 0, sp: 0, tpidr: 0, ttbr0: 0, ttbr1: 0, x: [0u64; 31] }
    }
}

} // verus!
