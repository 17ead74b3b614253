//! The round-robin process scheduler.

use vstd::prelude::*;

verus! {

use crate::kern::process::{Id, Process, State, ready_at, polled};
use crate::kern::traps::TrapFrame;
use std::collections::VecDeque;

/// Abstract state of a [`Scheduler`]: the queue of processes and the next
/// process ID to hand out (`None` once IDs are exhausted).
pub struct SchedulerView {
    pub processes: Seq<Process>,
    pub last_id: Option<Id>,
}

/// Position of the first process at or after `i` whose ID is `id`
/// (`s.len()` if there is none).
pub open spec fn find_id(s: Seq<Process>, id: Id, i: int) -> int
    decreases s.len() - i,
{
    if i < 0 || i >= s.len() {
        s.len() as int
    } else if s[i].context.tpidr == id {
        i
    } else {
        find_id(s, id, i + 1)
    }
}

/// Position of the first process at or after `i` that is ready at time
/// `now` (`s.len()` if there is none).
pub open spec fn find_ready(s: Seq<Process>, now: u64, i: int) -> int
    decreases s.len() - i,
{
    if i < 0 || i >= s.len() {
        s.len() as int
    } else if ready_at(s[i], now) {
        i
    } else {
        find_ready(s, now, i + 1)
    }
}

/// The IDs of the queued processes are pairwise distinct and below the next
/// ID to hand out.
pub open spec fn ids_unique(v: SchedulerView) -> bool {
    &&& forall|i: int, j: int|
        0 <= i < j < v.processes.len() ==> (#[trigger] v.processes[i]).context.tpidr
            != (#[trigger] v.processes[j]).context.tpidr
    &&& v.last_id matches Some(n) ==> forall|i: int|
        0 <= i < v.processes.len() ==> (#[trigger] v.processes[i]).context.tpidr < n
}

/// `p` with ID `id` saved in its trap frame.
pub open spec fn with_id(p: Process, id: Id) -> Process {
    Process { context: TrapFrame { tpidr: id, ..p.context }, ..p }
}

/// What `add(p)` does: the next ID goes to `p`, which joins the back of the
/// queue; once IDs are exhausted nothing changes.
pub open spec fn add_spec(v: SchedulerView, p: Process) -> (SchedulerView, Option<Id>) {
    match v.last_id {
        Some(id) => (
            SchedulerView {
                processes: v.processes.push(with_id(p, id)),
                last_id: if id < u64::MAX { Some((id + 1) as u64) } else { None },
            },
            Some(id),
        ),
        None => (v, None),
    }
}

/// What `schedule_out(new_state, tf)` does: the process whose ID is in `tf`
/// takes `new_state`, saves `tf` and moves to the back of the queue.
pub open spec fn schedule_out_spec(v: SchedulerView, new_state: State, tf: TrapFrame) -> (
    SchedulerView,
    bool,
) {
    let i = find_id(v.processes, tf.tpidr, 0);
    if i == v.processes.len() {
        (v, false)
    } else {
        (
            SchedulerView {
                processes: v.processes.remove(i).push(
                    Process { state: new_state, context: tf, ..v.processes[i] },
                ),
                ..v
            },
            true,
        )
    }
}

/// `(v2, tf2, r)` is what `switch_to` leaves from `(v, tf)` at time `now`:
/// the first process that is ready becomes `Running`, moves to the front of
/// the queue and has its trap frame restored into `tf`; with no ready
/// process nothing changes and the result is `None`.
pub open spec fn switched(
    v: SchedulerView,
    tf: TrapFrame,
    now: u64,
    v2: SchedulerView,
    tf2: TrapFrame,
    r: Option<Id>,
) -> bool {
    let s = v.processes;
    let i = find_ready(s, now, 0);
    if i == s.len() {
        r is None && v2 == v && tf2 == tf
    } else {
        exists|q: Process| #![trigger polled(s[i], now, q)]
            {
                &&& polled(s[i], now, q)
                &&& v2.processes == seq![Process { state: State::Running, ..q }] + s.remove(i)
                &&& v2.last_id == v.last_id
                &&& tf2 == q.context
                &&& r == Some(q.context.tpidr)
            }
    }
}

/// What `kill(tf)` leaves: the process whose ID is in `tf` is removed and
/// its ID returned; without such a process nothing changes.
pub open spec fn killed(v: SchedulerView, tf: TrapFrame, v2: SchedulerView, r: Option<Id>) -> bool {
    let s = v.processes;
    let i = find_id(s, tf.tpidr, 0);
    if i == s.len() {
        r is None && v2 == v
    } else {
        &&& r == Some(tf.tpidr)
        &&& v2.processes == s.remove(i)
        &&& v2.last_id == v.last_id
    }
}

/// The internal scheduler: a queue of processes, the running one first.
pub struct Scheduler {
    processes: VecDeque<Process>,
    last_id: Option<Id>,
}

impl View for Scheduler {
    type V = SchedulerView;

    closed spec fn view(&self) -> SchedulerView {
        SchedulerView { processes: self.processes@, last_id: self.last_id }
    }
}

proof fn lemma_find_id_props(s: Seq<Process>, id: Id, i: int)
    requires
        0 <= i <= s.len(),
    ensures
        i <= find_id(s, id, i) <= s.len(),
        find_id(s, id, i) < s.len() ==> s[find_id(s, id, i)].context.tpidr == id,
        forall|k: int| i <= k < find_id(s, id, i) ==> s[k].context.tpidr != id,
    decreases s.len() - i,
{
    if i < s.len() && s[i].context.tpidr != id {
        lemma_find_id_props(s, id, i + 1);
    }
}

proof fn lemma_find_ready_props(s: Seq<Process>, now: u64, i: int)
    requires
        0 <= i <= s.len(),
    ensures
        i <= find_ready(s, now, i) <= s.len(),
        find_ready(s, now, i) < s.len() ==> ready_at(s[find_ready(s, now, i)], now),
        forall|k: int| i <= k < find_ready(s, now, i) ==> !ready_at(s[k], now),
    decreases s.len() - i,
{
    if i < s.len() && !ready_at(s[i], now) {
        lemma_find_ready_props(s, now, i + 1);
    }
}

impl Scheduler {
    /// Returns a new `Scheduler` with an empty queue; the first ID is 0.
    pub fn new() -> (s: Scheduler)
        ensures
            s@.processes == Seq::<Process>::empty(),
            s@.last_id == Some(0u64),
    {
        Scheduler { processes: VecDeque::new(), last_id: Some(0) }
    }

    /// Adds a process to the back of the queue and returns its newly
    /// allocated ID, which is saved in its trap frame. Returns `None` once
    /// IDs are exhausted.
    pub fn add(&mut self, process: Process) -> (r: Option<Id>)
        ensures
            (final(self)@, r) == add_spec(old(self)@, process),
    {
        match self.last_id {
            Some(id) => {
                self.last_id = id.checked_add(1);
                let mut process = process;
                process.context.tpidr = id;
                self.processes.push_back(process);
                proof {
                    assert(self@.processes =~= old(self)@.processes.push(with_id(process, id)));
                }
                Some(id)
            },
            None => None,
        }
    }

    /// Index of the first process whose ID is `id`, if any.
    fn position_of(&self, id: Id) -> (r: usize)
        ensures
            r == find_id(self@.processes, id, 0),
    {
        let mut i: usize = 0;
        while i < self.processes.len()
            invariant
                i <= self@.processes.len(),
                find_id(self@.processes, id, i as int) == find_id(self@.processes, id, 0),
            decreases self@.processes.len() - i,
        {
            if self.processes[i].context.tpidr == id {
                return i;
            }
            i = i + 1;
        }
        i
    }

    /// Sets the state of the process whose ID is in `tf` to `new_state`,
    /// saves `tf` into it and moves it to the back of the queue. Returns
    /// `false`, changing nothing, if the queue holds no such process.
    pub fn schedule_out(&mut self, new_state: State, tf: &TrapFrame) -> (r: bool)
        ensures
            (final(self)@, r) == schedule_out_spec(old(self)@, new_state, *tf),
    {
        if self.processes.len() == 0 {
            return false;
        }
        let index = self.position_of(tf.tpidr);
        proof {
            lemma_find_id_props(self@.processes, tf.tpidr, 0);
        }
        if index == self.processes.len() {
            false
        } else {
            let running = self.processes.remove(index);
            match running {
                Some(p) => {
                    let mut p = p;
                    p.state = new_state;
                    p.context = *tf;
                    self.processes.push_back(p);
                    proof {
                        assert(self@.processes =~= old(self)@.processes.remove(index as int).push(
                            Process { state: new_state, context: *tf, ..old(self)@.processes[index as int] },
                        ));
                    }
                    true
                },
                None => false,
            }
        }
    }

    /// Finds the first process that is ready at time `now`, switches it to
    /// `Running`, moves it to the front of the queue and restores its trap
    /// frame into `tf`. Returns its ID, or `None` (changing nothing) if no
    /// process is ready.
    pub fn switch_to(&mut self, tf: &mut TrapFrame, now: u64) -> (r: Option<Id>)
        ensures
            switched(old(self)@, *old(tf), now, final(self)@, *final(tf), r),
    {
        let mut i: usize = 0;
        while i < self.processes.len() && !Scheduler::would_be_ready(&self.processes[i], now)
            invariant
                i <= self@.processes.len(),
                self@ == old(self)@,
                find_ready(self@.processes, now, i as int) == find_ready(self@.processes, now, 0),
            decreases self@.processes.len() - i,
        {
            i = i + 1;
        }
        proof {
            lemma_find_ready_props(self@.processes, now, 0);
        }
        if i == self.processes.len() {
            return None;
        }
        let next = self.processes.remove(i);
        match next {
            Some(p) => {
                let ghost before = p;
                let mut p = p;
                let _ready = p.is_ready(now);
                let ghost q = p;
                p.state = State::Running;
                *tf = p.context;
                let id = p.context.tpidr;
                self.processes.push_front(p);
                proof {
                    assert(before == old(self)@.processes[i as int]);
                    assert(polled(old(self)@.processes[i as int], now, q));
                    assert(self@.processes =~= seq![Process { state: State::Running, ..q }]
                        + old(self)@.processes.remove(i as int));
                    assert(*tf == q.context);
                    assert(id == q.context.tpidr);
                }
                Some(id)
            },
            None => None,
        }
    }

    /// Whether `p` would be ready at time `now`.
    fn would_be_ready(p: &Process, now: u64) -> (r: bool)
        ensures
            r == ready_at(*p, now),
    {
        match p.state {
            State::Ready => true,
            State::Waiting(crate::kern::process::WaitEvent::Sleep { start, end }) => now >= end
                && now >= start,
            _ => false,
        }
    }

    /// Kills the process whose ID is in `tf`: schedules it out as `Dead`,
    /// removes it from the queue and returns its ID. Returns `None`,
    /// changing nothing, if the queue holds no such process.
    pub fn kill(&mut self, tf: &TrapFrame) -> (r: Option<Id>)
        ensures
            killed(old(self)@, *tf, final(self)@, r),
    {
        if self.schedule_out(State::Dead, tf) {
            let dead = self.processes.pop_back();
            proof {
                assert(self@.processes =~= old(self)@.processes.remove(
                    find_id(old(self)@.processes, tf.tpidr, 0),
                ));
            }
            match dead {
                Some(p) => Some(p.context.tpidr),
                None => None,
            }
        } else {
            None
        }
    }

    /// Index of the process whose ID is in `tf`.
    ///
    /// Panics (excluded by the precondition) if the queue holds no such process.
    pub fn find_process(&self, tf: &TrapFrame) -> (r: usize)
        requires
            exists|i: int| 0 <= i < self@.processes.len() && self@.processes[i].context.tpidr == tf.tpidr,
        ensures
            r == find_id(self@.processes, tf.tpidr, 0),
            r < self@.processes.len(),
            self@.processes[r as int].context.tpidr == tf.tpidr,
    {
        proof {
            lemma_find_id_props(self@.processes, tf.tpidr, 0);
            let w = choose|i: int| 0 <= i < self@.processes.len() && self@.processes[i].context.tpidr == tf.tpidr;
            assert(w >= find_id(self@.processes, tf.tpidr, 0));
        }
        self.position_of(tf.tpidr)
    }

    /// Index of the process with ID `pid`, if any.
    pub fn find_process_by_pid(&self, pid: Id) -> (r: Option<usize>)
        ensures
            find_id(self@.processes, pid, 0) <= self@.processes.len(),
            find_id(self@.processes, pid, 0) == self@.processes.len() ==> r is None,
            find_id(self@.processes, pid, 0) < self@.processes.len() ==> r is Some,
            r matches Some(i) ==> i < self@.processes.len() && i == find_id(self@.processes, pid, 0),
    {
        proof {
            lemma_find_id_props(self@.processes, pid, 0);
        }
        let i = self.position_of(pid);
        if i == self.processes.len() {
            None
        } else {
            proof {
                lemma_find_id_props(self@.processes, pid, 0);
            }
            Some(i)
        }
    }

    /// The process at queue position `i`.
    pub fn process(&self, i: usize) -> (r: &Process)
        requires
            i < self@.processes.len(),
        ensures
            *r == self@.processes[i as int],
    {
        &self.processes[i]
    }

    /// Number of queued processes.
    pub fn len(&self) -> (r: usize)
        ensures
            r == self@.processes.len(),
    {
        self.processes.len()
    }

    /// Removes and returns the process at queue position `i`.
    pub fn take_process(&mut self, i: usize) -> (p: Process)
        requires
            i < old(self)@.processes.len(),
        ensures
            p == old(self)@.processes[i as int],
            final(self)@.processes == old(self)@.processes.remove(i as int),
            final(self)@.last_id == old(self)@.last_id,
    {
        self.processes.remove(i).unwrap()
    }

    /// Puts `p` back at queue position `i`.
    pub fn restore_process(&mut self, i: usize, p: Process)
        requires
            i <= old(self)@.processes.len(),
        ensures
            final(self)@.processes == old(self)@.processes.insert(i as int, p),
            final(self)@.last_id == old(self)@.last_id,
    {
        self.processes.insert(i, p);
    }

    /// Replaces the process at queue position `i`.
    pub fn replace_process(&mut self, i: usize, p: Process)
        requires
            i < old(self)@.processes.len(),
        ensures
            final(self)@.processes == old(self)@.processes.update(i as int, p),
            final(self)@.last_id == old(self)@.last_id,
    {
        let _old = self.processes.remove(i);
        self.processes.insert(i, p);
        proof {
            assert(self@.processes =~= old(self)@.processes.update(i as int, p));
        }
    }
}

proof fn lemma_remove_keeps_unique(v: SchedulerView, i: int, v2: SchedulerView)
    requires
        ids_unique(v),
        0 <= i < v.processes.len(),
        v2.processes == v.processes.remove(i),
        v2.last_id == v.last_id,
    ensures
        ids_unique(v2),
{
    let s = v.processes;
    let t = v2.processes;
    assert forall|a: int, b: int| 0 <= a < b < t.len() implies (#[trigger] t[a]).context.tpidr
        != (#[trigger] t[b]).context.tpidr by {
        let a0 = if a < i { a } else { a + 1 };
        let b0 = if b < i { b } else { b + 1 };
        assert(t[a] == s[a0] && t[b] == s[b0]);
        assert(s[a0].context.tpidr != s[b0].context.tpidr);
    }
    if let Some(n) = v.last_id {
        assert forall|a: int| 0 <= a < t.len() implies (#[trigger] t[a]).context.tpidr < n by {
            let a0 = if a < i { a } else { a + 1 };
            assert(t[a] == s[a0]);
        }
    }
}

/// Adding a process keeps the queued process IDs distinct: a new process
/// never receives an ID that a queued process holds.
pub proof fn lemma_add_keeps_ids_unique(v: SchedulerView, p: Process)
    requires
        ids_unique(v),
    ensures
        ids_unique(add_spec(v, p).0),
{
    if let Some(id) = v.last_id {
        let t = add_spec(v, p).0.processes;
        assert forall|a: int, b: int| 0 <= a < b < t.len() implies (#[trigger] t[a]).context.tpidr
            != (#[trigger] t[b]).context.tpidr by {
            if b == t.len() - 1 {
                assert(t[a] == v.processes[a]);
            } else {
                assert(t[a] == v.processes[a] && t[b] == v.processes[b]);
            }
        }
        if id < u64::MAX {
            assert forall|a: int| 0 <= a < t.len() implies (#[trigger] t[a]).context.tpidr < id + 1 by {
                if a < t.len() - 1 {
                    assert(t[a] == v.processes[a]);
                }
            }
        }
    }
}

/// Scheduling a process out keeps the queued process IDs distinct.
pub proof fn lemma_schedule_out_keeps_ids_unique(v: SchedulerView, new_state: State, tf: TrapFrame)
    requires
        ids_unique(v),
    ensures
        ids_unique(schedule_out_spec(v, new_state, tf).0),
{
    let i = find_id(v.processes, tf.tpidr, 0);
    lemma_find_id_props(v.processes, tf.tpidr, 0);
    if i < v.processes.len() {
        let mid = SchedulerView { processes: v.processes.remove(i), ..v };
        lemma_remove_keeps_unique(v, i, mid);
        let t = schedule_out_spec(v, new_state, tf).0.processes;
        let moved = Process { state: new_state, context: tf, ..v.processes[i] };
        assert(t == mid.processes.push(moved));
        assert forall|a: int, b: int| 0 <= a < b < t.len() implies (#[trigger] t[a]).context.tpidr
            != (#[trigger] t[b]).context.tpidr by {
            if b == t.len() - 1 {
                let a0 = if a < i { a } else { a + 1 };
                assert(t[a] == mid.processes[a]);
                assert(mid.processes[a] == v.processes[a0]);
                assert(a0 != i);
            } else {
                assert(t[a] == mid.processes[a] && t[b] == mid.processes[b]);
            }
        }
        if let Some(n) = v.last_id {
            assert forall|a: int| 0 <= a < t.len() implies (#[trigger] t[a]).context.tpidr < n by {
                if a < t.len() - 1 {
                    assert(t[a] == mid.processes[a]);
                } else {
                    assert(v.processes[i].context.tpidr < n);
                }
            }
        }
    }
}

/// Switching to the next process keeps the queued process IDs distinct.
pub proof fn lemma_switch_keeps_ids_unique(
    v: SchedulerView,
    tf: TrapFrame,
    now: u64,
    v2: SchedulerView,
    tf2: TrapFrame,
    r: Option<Id>,
)
    requires
        ids_unique(v),
        switched(v, tf, now, v2, tf2, r),
    ensures
        ids_unique(v2),
{
    let s = v.processes;
    let i = find_ready(s, now, 0);
    lemma_find_ready_props(s, now, 0);
    if i < s.len() {
        let q = choose|q: Process| #![trigger polled(s[i], now, q)]
            {
                &&& polled(s[i], now, q)
                &&& v2.processes == seq![Process { state: State::Running, ..q }] + s.remove(i)
                &&& v2.last_id == v.last_id
                &&& tf2 == q.context
                &&& r == Some(q.context.tpidr)
            };
        assert(q.context.tpidr == s[i].context.tpidr);
        let mid = SchedulerView { processes: s.remove(i), ..v };
        lemma_remove_keeps_unique(v, i, mid);
        let t = v2.processes;
        assert forall|a: int, b: int| 0 <= a < b < t.len() implies (#[trigger] t[a]).context.tpidr
            != (#[trigger] t[b]).context.tpidr by {
            if a == 0 {
                let b0 = if b - 1 < i { b - 1 } else { b };
                assert(t[b] == mid.processes[b - 1]);
                assert(mid.processes[b - 1] == s[b0]);
            } else {
                assert(t[a] == mid.processes[a - 1] && t[b] == mid.processes[b - 1]);
            }
        }
        if let Some(n) = v.last_id {
            assert forall|a: int| 0 <= a < t.len() implies (#[trigger] t[a]).context.tpidr < n by {
                if a > 0 {
                    assert(t[a] == mid.processes[a - 1]);
                } else {
                    assert(s[i].context.tpidr < n);
                }
            }
        }
    }
}

/// Killing a process keeps the queued process IDs distinct, and afterwards
/// no queued process has the killed process's ID.
pub proof fn lemma_kill_removes(v: SchedulerView, tf: TrapFrame, v2: SchedulerView, r: Option<Id>)
    requires
        ids_unique(v),
        killed(v, tf, v2, r),
    ensures
        ids_unique(v2),
        r matches Some(id) ==> forall|k: int|
            0 <= k < v2.processes.len() ==> (#[trigger] v2.processes[k]).context.tpidr != id,
{
    let s = v.processes;
    let i = find_id(s, tf.tpidr, 0);
    lemma_find_id_props(s, tf.tpidr, 0);
    if i < s.len() {
        lemma_remove_keeps_unique(v, i, v2);
        assert forall|k: int| 0 <= k < v2.processes.len() implies (#[trigger] v2.processes[k]).context.tpidr
            != tf.tpidr by {
            let k0 = if k < i { k } else { k + 1 };
            assert(v2.processes[k] == s[k0]);
        }
    }
}

} // verus!
