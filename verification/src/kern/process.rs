//! Processes and their scheduling states.

use vstd::prelude::*;

verus! {

use crate::kern::traps::TrapFrame;

/// Type of a process ID.
pub type Id = u64;

/// An event a waiting process waits for.
#[derive(Clone, Copy, Debug, PartialEq, Eq)]
pub enum WaitEvent {
    /// Sleep from `start` until `end` (microseconds of the system timer).
    Sleep { start: u64, end: u64 },
}

/// The scheduling state of a process.
#[derive(Clone, Copy, Debug, PartialEq, Eq)]
pub enum State {
    /// The process is ready to be scheduled.
    Ready,
    /// The process is waiting on an event to occur before it can be scheduled.
    Waiting(WaitEvent),
    /// The process is currently running.
    Running,
    /// The process is dead (ready to be reclaimed).
    Dead,
}

/// An entry of a process's handle table.
#[derive(Clone, Copy, Debug, PartialEq, Eq)]
pub enum IOHandle {
    /// The console.
    Console,
    /// An open file, by its number in the kernel's table of open files.
    File(u64),
    /// A socket, by its number in the network stack's socket set.
    Socket(u64),
}

/// A process: its saved registers, scheduling state, open handles, memory
/// layout, working directory and arguments.
#[derive(Clone, Debug, PartialEq, Eq)]
pub struct Process {
    pub context: TrapFrame,
    pub state: State,
    pub handles: Vec<IOHandle>,
    pub stack_base: u64,
    pub heap_ptr: u64,
    pub heap_page: u64,
    pub cwd: Vec<u8>,
    pub args: Vec<Vec<u8>>,
}

/// `OsError::Success`'s register code.
pub open spec fn status_ok() -> u64 {
    1
}

/// `b` is `a` with `x0 = x0_value` and `x7 = x7_value`.
pub open spec fn frame_with_result(a: TrapFrame, b: TrapFrame, x0_value: u64, x7_value: u64) -> bool {
    &&& b.elr == a.elr
    &&& b.spsr == a.spsr
    &&& b.sp == a.sp
    &&& b.tpidr == a.tpidr
    &&& b.ttbr0 == a.ttbr0
    &&& b.ttbr1 == a.ttbr1
    &&& b.x@ == a.x@.update(0, x0_value).update(7, x7_value)
}

/// Whether a process is ready to be scheduled at time `now`: a ready
/// process is; a sleeping process is once `now` has reached the end of its
/// sleep; a running or dead process is not.
pub open spec fn ready_at(p: Process, now: u64) -> bool {
    match p.state {
        State::Ready => true,
        State::Waiting(WaitEvent::Sleep { start, end }) => now >= end && now >= start,
        _ => false,
    }
}

/// `q` is process `p` after polling it at time `now`. A sleeper whose sleep
/// is over becomes ready and finds the elapsed whole milliseconds in `x0`
/// and the success code in `x7`; any other process is unchanged.
pub open spec fn polled(p: Process, now: u64, q: Process) -> bool {
    match p.state {
        State::Waiting(WaitEvent::Sleep { start, end }) => if now >= end && now >= start {
            &&& q == Process { context: q.context, state: State::Ready, ..p }
            &&& frame_with_result(p.context, q.context, ((now - start) / 1000) as u64, 1)
        } else {
            q == p
        },
        _ => q == p,
    }
}

impl Process {
    /// Returns whether this process is ready to be scheduled at time `now`,
    /// switching a sleeper whose sleep is over to `Ready` (with its result
    /// registers set).
    pub fn is_ready(&mut self, now: u64) -> (r: bool)
        ensures
            r == ready_at(*old(self), now),
            polled(*old(self), now, *final(self)),
    {
        match self.state {
            State::Ready => true,
            State::Waiting(WaitEvent::Sleep { start, end }) => {
                if now >= end && now >= start {
                    self.context.x[0] = (now - start) / 1000;
                    self.context.x[7] = 1;
                    self.state = State::Ready;
                    true
                } else {
                    false
                }
            },
            _ => false,
        }
    }
}

} // verus!
