//! System-call handling: decoding a trap into a call, and the decisions and
//! register results of each call. Work on devices, on user memory and on
//! the network stays with the caller, which hands the results in.

use vstd::prelude::*;

verus! {

use crate::kern::process::{Id, IOHandle, Process, State, WaitEvent};
use crate::kern::scheduler::{Scheduler, find_id, schedule_out_spec, killed};
use crate::kern::traps::TrapFrame;
use crate::kernel_api::{OsError, os_error_code};
use crate::kernel_api::network::SocketStatus;

/// Size of a page of the user address space.
pub const PAGE_SIZE: u64 = 0x1_0000;

/// Lowest address of user space.
pub const USER_IMG_BASE: u64 = 0xffff_ffff_c000_0000;

/// `b` is `a` with the status register `x7` set to `code` and nothing else
/// changed.
pub open spec fn with_status(a: TrapFrame, b: TrapFrame, code: u64) -> bool {
    &&& b == TrapFrame { x: b.x, ..a }
    &&& b.x@ == a.x@.update(7, code)
}

/// `b` is `a` with `x0 = value`, the status register `x7` set to `code`,
/// and nothing else changed.
pub open spec fn with_value_status(a: TrapFrame, b: TrapFrame, value: u64, code: u64) -> bool {
    &&& b == TrapFrame { x: b.x, ..a }
    &&& b.x@ == a.x@.update(0, value).update(7, code)
}

/// Sets `x7` to the code of `e`.
pub fn set_status(tf: &mut TrapFrame, e: OsError)
    ensures
        with_status(*old(tf), *final(tf), os_error_code(e)),
{
    tf.x[7] = e.code();
}

/// Sets `x0` to `value` and `x7` to the success code.
pub fn set_value_ok(tf: &mut TrapFrame, value: u64)
    ensures
        with_value_status(*old(tf), *final(tf), value, 1),
{
    tf.x[0] = value;
    tf.x[7] = 1;
}

/// Returns the current process's ID in `x0`.
pub fn sys_getpid(tf: &mut TrapFrame)
    ensures
        with_value_status(*old(tf), *final(tf), old(tf).tpidr, 1),
{
    let pid = tf.tpidr;
    set_value_ok(tf, pid);
}

/// Returns the current time, `now` microseconds of the system timer, as
/// whole seconds in `x0` and the fractional part in nanoseconds in `x1`.
pub fn sys_time(now: u64, tf: &mut TrapFrame)
    ensures
        final(tf).x@ == old(tf).x@.update(0, now / 1_000_000).update(1, ((now % 1_000_000) * 1000) as u64).update(7, 1),
        *final(tf) == (TrapFrame { x: final(tf).x, ..*old(tf) }),
{
    let seconds = now / 1_000_000;
    let nanoseconds = (now % 1_000_000) * 1000;
    tf.x[0] = seconds;
    tf.x[1] = nanoseconds;
    tf.x[7] = 1;
}

/// The state a process sleeping `ms` milliseconds from time `now` enters.
pub fn sleep_state(ms: u32, now: u64) -> (s: State)
    requires
        now + ms as u64 * 1000 <= u64::MAX,
    ensures
        s == State::Waiting(WaitEvent::Sleep { start: now, end: (now + ms as u64 * 1000) as u64 }),
{
    State::Waiting(WaitEvent::Sleep { start: now, end: now + ms as u64 * 1000 })
}

/// Puts the current process to sleep for `ms` milliseconds from time `now`:
/// it is scheduled out waiting; when it runs again it finds the elapsed
/// milliseconds in `x0`. Returns whether the process was found.
pub fn sys_sleep(ms: u32, now: u64, scheduler: &mut Scheduler, tf: &TrapFrame) -> (r: bool)
    requires
        now + ms as u64 * 1000 <= u64::MAX,
    ensures
        (final(scheduler)@, r) == schedule_out_spec(
            old(scheduler)@,
            State::Waiting(WaitEvent::Sleep { start: now, end: (now + ms as u64 * 1000) as u64 }),
            *tf,
        ),
{
    let state = sleep_state(ms, now);
    scheduler.schedule_out(state, tf)
}

/// Kills the current process.
pub fn sys_exit(scheduler: &mut Scheduler, tf: &TrapFrame) -> (r: Option<Id>)
    ensures
        killed(old(scheduler)@, *tf, final(scheduler)@, r),
{
    scheduler.kill(tf)
}

/// A random number in `[min, max)` from a raw hardware sample.
pub open spec fn rand_in_range_spec(raw: u32, min: u32, max: u32) -> u32 {
    (raw % ((max - min) as u32) + min) as u32
}

/// Maps a raw random sample into `[min, max)`.
pub fn rand_in_range(raw: u32, min: u32, max: u32) -> (r: u32)
    requires
        min < max,
    ensures
        r == rand_in_range_spec(raw, min, max),
        min <= r < max,
{
    raw % (max - min) + min
}

/// Returns a random number in `[min, max)` in `x0`, made from the raw word
/// `raw` drawn from the hardware generator.
///
/// Panics (excluded by the precondition) when the range is empty.
pub fn sys_rand(raw: u32, min: u32, max: u32, tf: &mut TrapFrame)
    requires
        min < max,
    ensures
        with_value_status(*old(tf), *final(tf), rand_in_range_spec(raw, min, max) as u64, 1),
        min <= final(tf).x@[0] < max,
{
    let value = rand_in_range(raw, min, max);
    set_value_ok(tf, value as u64);
}

/// Returns a raw random number (already drawn) in `x0`.
pub fn sys_rrand(value: u32, tf: &mut TrapFrame)
    ensures
        with_value_status(*old(tf), *final(tf), value as u64, 1),
{
    set_value_ok(tf, value as u64);
}

/// Returns the generator's entropy (already read) in `x0`.
pub fn sys_entropy(value: u32, tf: &mut TrapFrame)
    ensures
        with_value_status(*old(tf), *final(tf), value as u64, 1),
{
    set_value_ok(tf, value as u64);
}

/// Growth of the heap's last mapped page `page` towards `target`: the pages
/// mapped, the new last page, and whether the growth stayed below
/// `stack_base`. A page is mapped while the page after the last one starts
/// below `target`.
pub open spec fn heap_growth(page: u64, target: u64, stack_base: u64) -> (Seq<u64>, u64, bool)
    decreases target - page,
{
    if page + PAGE_SIZE < target {
        let np = (page + PAGE_SIZE) as u64;
        if np >= stack_base {
            (Seq::<u64>::empty(), page, false)
        } else {
            let (ps, fp, ok) = heap_growth(np, target, stack_base);
            (seq![np] + ps, fp, ok)
        }
    } else {
        (Seq::<u64>::empty(), page, true)
    }
}

/// Maps heap pages of `p` towards `target`. Returns the pages to map;
/// `p.heap_page` ends at the last page mapped, even when the growth fails.
fn grow_heap(p: &mut Process, target: u64) -> (r: (Vec<u64>, bool))
    requires
        target + PAGE_SIZE <= u64::MAX,
        old(p).heap_page + PAGE_SIZE <= u64::MAX,
    ensures
        ({
            let (ps, fp, ok) = heap_growth(old(p).heap_page, target, old(p).stack_base);
            &&& r.0@ == ps
            &&& r.1 == ok
            &&& *final(p) == Process { heap_page: fp, ..*old(p) }
        }),
{
    let mut pages: Vec<u64> = Vec::new();
    while p.heap_page + PAGE_SIZE < target
        invariant
            target + PAGE_SIZE <= u64::MAX,
            p.heap_page + PAGE_SIZE <= u64::MAX,
            p.stack_base == old(p).stack_base,
            *p == (Process { heap_page: p.heap_page, ..*old(p) }),
            ({
                let (ps, fp, ok) = heap_growth(p.heap_page, target, p.stack_base);
                let (ps0, fp0, ok0) = heap_growth(old(p).heap_page, target, old(p).stack_base);
                &&& pages@ + ps == ps0
                &&& fp == fp0
                &&& ok == ok0
            }),
        decreases target - p.heap_page,
    {
        let next_heap_page = p.heap_page + PAGE_SIZE;
        if next_heap_page >= p.stack_base {
            return (pages, false);
        }
        pages.push(next_heap_page);
        p.heap_page = next_heap_page;
        proof {
            let (ps, fp, ok) = heap_growth(p.heap_page, target, p.stack_base);
            assert(pages@ + ps =~= pages@.drop_last() + (seq![next_heap_page] + ps));
        }
    }
    proof {
        assert(pages@ + Seq::<u64>::empty() =~= pages@);
    }
    (pages, true)
}

/// What `sys_sbrk(size)` does to the process `p`: the pages to map, the
/// resulting process, and the trap frame's result registers.
pub open spec fn sbrk_spec(p: Process, size: u64, tf: TrapFrame, p2: Process, tf2: TrapFrame, pages: Seq<u64>) -> bool {
    let target = (p.heap_ptr + size) as u64;
    let (ps, fp, ok) = heap_growth(p.heap_page, target, p.stack_base);
    &&& pages == ps
    &&& if ok {
        &&& p2 == Process { heap_page: fp, heap_ptr: target, ..p }
        &&& with_value_status(tf, tf2, target, 1)
    } else {
        &&& p2 == Process { heap_page: fp, ..p }
        &&& with_status(tf, tf2, 30)
    }
}

/// Grows the current process's heap by `size` bytes. Returns the pages the
/// caller must map. On success `x0` holds the new end of the heap; when
/// the heap would reach the stack the status is `NoVmSpace` (the pages
/// before that point stay mapped).
///
/// Panics (excluded by the precondition) if the current process is not queued.
pub fn sys_sbrk(scheduler: &mut Scheduler, size: u64, tf: &mut TrapFrame) -> (pages: Vec<u64>)
    requires
        exists|i: int|
            0 <= i < old(scheduler)@.processes.len() && old(scheduler)@.processes[i].context.tpidr
                == old(tf).tpidr,
        forall|i: int|
            0 <= i < old(scheduler)@.processes.len() ==> #[trigger] old(scheduler)@.processes[i].heap_ptr
                + size + PAGE_SIZE <= u64::MAX,
        forall|i: int|
            0 <= i < old(scheduler)@.processes.len() ==> #[trigger] old(scheduler)@.processes[i].heap_page
                + PAGE_SIZE <= u64::MAX,
    ensures
        ({
            let i = find_id(old(scheduler)@.processes, old(tf).tpidr, 0);
            let p = old(scheduler)@.processes[i];
            let p2 = final(scheduler)@.processes[i];
            &&& sbrk_spec(p, size, *old(tf), p2, *final(tf), pages@)
            &&& final(scheduler)@.processes == old(scheduler)@.processes.update(i, p2)
            &&& final(scheduler)@.last_id == old(scheduler)@.last_id
        }),
{
    let i = scheduler.find_process(tf);
    let mut process = scheduler.take_process(i);
    let next_heap_ptr = process.heap_ptr + size;
    let (pages, ok) = grow_heap(&mut process, next_heap_ptr);
    if ok {
        process.heap_ptr = next_heap_ptr;
        set_value_ok(tf, next_heap_ptr);
    } else {
        set_status(tf, OsError::NoVmSpace);
    }
    scheduler.restore_process(i, process);
    proof {
        assert(scheduler@.processes =~= old(scheduler)@.processes.update(i as int, process));
    }
    pages
}

/// What `sys_brk(va)` does to the process `p`.
pub open spec fn brk_spec(p: Process, va: u64, tf: TrapFrame, p2: Process, tf2: TrapFrame, pages: Seq<u64>) -> bool {
    if va >= p.heap_ptr {
        let (ps, fp, ok) = heap_growth(p.heap_page, va, p.stack_base);
        &&& pages == ps
        &&& if ok {
            &&& p2 == Process { heap_page: fp, heap_ptr: va, ..p }
            &&& with_status(tf, tf2, 1)
        } else {
            &&& p2 == Process { heap_page: fp, ..p }
            &&& with_status(tf, tf2, 30)
        }
    } else {
        &&& pages == Seq::<u64>::empty()
        &&& p2 == p
        &&& with_status(tf, tf2, 50)
    }
}

/// Moves the end of the current process's heap up to `va`. Returns the
/// pages the caller must map. Moving it down is refused with `BadAddress`;
/// growing into the stack is refused with `NoVmSpace`.
///
/// Panics (excluded by the precondition) if the current process is not queued.
pub fn sys_brk(scheduler: &mut Scheduler, va: u64, tf: &mut TrapFrame) -> (pages: Vec<u64>)
    requires
        exists|i: int|
            0 <= i < old(scheduler)@.processes.len() && old(scheduler)@.processes[i].context.tpidr
                == old(tf).tpidr,
        va + PAGE_SIZE <= u64::MAX,
        forall|i: int|
            0 <= i < old(scheduler)@.processes.len() ==> #[trigger] old(scheduler)@.processes[i].heap_page
                + PAGE_SIZE <= u64::MAX,
    ensures
        ({
            let i = find_id(old(scheduler)@.processes, old(tf).tpidr, 0);
            let p = old(scheduler)@.processes[i];
            let p2 = final(scheduler)@.processes[i];
            &&& brk_spec(p, va, *old(tf), p2, *final(tf), pages@)
            &&& final(scheduler)@.processes == old(scheduler)@.processes.update(i, p2)
            &&& final(scheduler)@.last_id == old(scheduler)@.last_id
        }),
{
    let i = scheduler.find_process(tf);
    let mut process = scheduler.take_process(i);
    let pages;
    if va >= process.heap_ptr {
        let (ps, ok) = grow_heap(&mut process, va);
        if ok {
            process.heap_ptr = va;
            set_status(tf, OsError::Success);
        } else {
            set_status(tf, OsError::NoVmSpace);
        }
        pages = ps;
    } else {
        set_status(tf, OsError::BadAddress);
        pages = Vec::new();
    }
    scheduler.restore_process(i, process);
    proof {
        assert(scheduler@.processes =~= old(scheduler)@.processes.update(i as int, process));
    }
    pages
}

/// Checks that `[va, va + len)` lies in user space without wrapping around.
pub fn to_user_slice(va: u64, len: u64) -> (r: Result<(), OsError>)
    ensures
        r is Ok <==> (va >= USER_IMG_BASE && va + len <= u64::MAX),
        r is Err ==> r == Err::<(), OsError>(OsError::BadAddress),
{
    let overflow = va.checked_add(len).is_none();
    if va >= USER_IMG_BASE && !overflow {
        Ok(())
    } else {
        Err(OsError::BadAddress)
    }
}

/// Reads `data` from byte `offset` into a buffer of `buf_len` bytes: the
/// bytes copied, or `IoErrorInvalidData` when `offset` is past the end.
pub fn read_from_offset(data: &[u8], offset: u64, buf_len: u64) -> (r: Result<Vec<u8>, OsError>)
    ensures
        offset <= data@.len() ==> r is Ok && r->Ok_0@ == data@.subrange(
            offset as int,
            if data@.len() - offset <= buf_len { data@.len() as int } else { offset + buf_len },
        ),
        offset > data@.len() ==> r == Err::<Vec<u8>, OsError>(OsError::IoErrorInvalidData),
{
    let data_len = data.len();
    if offset <= data_len as u64 {
        let start = offset as usize;
        let avail = data_len - start;
        let n: usize = if (avail as u64) <= buf_len { avail } else { buf_len as usize };
        let mut out: Vec<u8> = Vec::new();
        let mut k: usize = 0;
        while k < n
            invariant
                data_len == data@.len(),
                start + n <= data_len,
                k <= n,
                out@ == data@.subrange(start as int, start + k),
            decreases n - k,
        {
            out.push(data[start + k]);
            k = k + 1;
            proof {
                assert(out@ =~= data@.subrange(start as int, start + k));
            }
        }
        Ok(out)
    } else {
        Err(OsError::IoErrorInvalidData)
    }
}

/// Copies the current working directory of the current process from byte
/// `offset` into a buffer of `len` bytes. Returns the bytes to copy to user
/// memory, and sets `x0` to their number; an offset past the end is
/// `IoErrorInvalidData`.
///
/// Panics (excluded by the precondition) if the current process is not queued.
pub fn sys_getcwd(scheduler: &Scheduler, len: u64, offset: u64, tf: &mut TrapFrame) -> (r: Vec<u8>)
    requires
        exists|i: int|
            0 <= i < scheduler@.processes.len() && scheduler@.processes[i].context.tpidr == old(tf).tpidr,
    ensures
        ({
            let cwd = scheduler@.processes[find_id(scheduler@.processes, old(tf).tpidr, 0)].cwd@;
            if offset <= cwd.len() {
                let end = if cwd.len() - offset <= len { cwd.len() as int } else { offset + len };
                &&& r@ == cwd.subrange(offset as int, end)
                &&& with_value_status(*old(tf), *final(tf), r@.len() as u64, 1)
            } else {
                &&& r@ == Seq::<u8>::empty()
                &&& with_status(*old(tf), *final(tf), 103)
            }
        }),
{
    let i = scheduler.find_process(tf);
    let p = scheduler.process(i);
    match read_from_offset(p.cwd.as_slice(), offset, len) {
        Ok(bytes) => {
            set_value_ok(tf, bytes.len() as u64);
            bytes
        },
        Err(e) => {
            set_status(tf, e);
            Vec::new()
        },
    }
}

/// Returns the number of arguments of the current process in `x0`.
///
/// Panics (excluded by the precondition) if the current process is not queued.
pub fn sys_args_count(scheduler: &Scheduler, tf: &mut TrapFrame)
    requires
        exists|i: int|
            0 <= i < scheduler@.processes.len() && scheduler@.processes[i].context.tpidr == old(tf).tpidr,
    ensures
        with_value_status(
            *old(tf),
            *final(tf),
            scheduler@.processes[find_id(scheduler@.processes, old(tf).tpidr, 0)].args@.len() as u64,
            1,
        ),
{
    let i = scheduler.find_process(tf);
    let n = scheduler.process(i).args.len();
    set_value_ok(tf, n as u64);
}

/// Copies argument `idx` of the current process from byte `offset` into a
/// buffer of `len` bytes. Returns the bytes to copy to user memory and sets
/// `x0` to their number; a missing argument is `NoEntry` and an offset past
/// its end `IoErrorInvalidData`.
///
/// Panics (excluded by the precondition) if the current process is not queued.
pub fn sys_read_arg(scheduler: &Scheduler, idx: u64, len: u64, offset: u64, tf: &mut TrapFrame) -> (r: Vec<u8>)
    requires
        exists|i: int|
            0 <= i < scheduler@.processes.len() && scheduler@.processes[i].context.tpidr == old(tf).tpidr,
    ensures
        ({
            let args = scheduler@.processes[find_id(scheduler@.processes, old(tf).tpidr, 0)].args@;
            if idx >= args.len() {
                &&& r@ == Seq::<u8>::empty()
                &&& with_status(*old(tf), *final(tf), 10)
            } else {
                let arg = args[idx as int]@;
                if offset <= arg.len() {
                    let end = if arg.len() - offset <= len { arg.len() as int } else { offset + len };
                    &&& r@ == arg.subrange(offset as int, end)
                    &&& with_value_status(*old(tf), *final(tf), r@.len() as u64, 1)
                } else {
                    &&& r@ == Seq::<u8>::empty()
                    &&& with_status(*old(tf), *final(tf), 103)
                }
            }
        }),
{
    let i = scheduler.find_process(tf);
    let p = scheduler.process(i);
    if idx >= p.args.len() as u64 {
        set_status(tf, OsError::NoEntry);
        return Vec::new();
    }
    let arg = &p.args[idx as usize];
    match read_from_offset(arg.as_slice(), offset, len) {
        Ok(bytes) => {
            set_value_ok(tf, bytes.len() as u64);
            bytes
        },
        Err(e) => {
            set_status(tf, e);
            Vec::new()
        },
    }
}

/// Appends `arg` to the arguments of the process with ID `pid`; an unknown
/// process is `InvalidPid`.
pub fn sys_push_arg(scheduler: &mut Scheduler, pid: Id, arg: Vec<u8>, tf: &mut TrapFrame)
    ensures
        ({
            let s = old(scheduler)@.processes;
            let i = find_id(s, pid, 0);
            if i == s.len() {
                &&& final(scheduler)@ == old(scheduler)@
                &&& with_status(*old(tf), *final(tf), 4)
            } else {
                &&& final(scheduler)@.processes.len() == s.len()
                &&& final(scheduler)@.processes[i].args@ == s[i].args@.push(arg)
                &&& final(scheduler)@.processes[i] == Process { args: final(scheduler)@.processes[i].args, ..s[i] }
                &&& final(scheduler)@.processes == s.update(i, final(scheduler)@.processes[i])
                &&& final(scheduler)@.last_id == old(scheduler)@.last_id
                &&& with_status(*old(tf), *final(tf), 1)
            }
        }),
{
    match scheduler.find_process_by_pid(pid) {
        Some(i) => {
            let mut p = scheduler.take_process(i);
            p.args.push(arg);
            scheduler.restore_process(i, p);
            proof {
                assert(scheduler@.processes =~= old(scheduler)@.processes.update(i as int, p));
            }
            set_status(tf, OsError::Success);
        },
        None => {
            set_status(tf, OsError::InvalidPid);
        },
    }
}

/// Adds socket `socket` (a new entry of the network stack) to the current
/// process's handle table and returns its index in `x0`.
///
/// Panics (excluded by the precondition) if the current process is not queued.
pub fn sys_sock_create(scheduler: &mut Scheduler, socket: u64, tf: &mut TrapFrame)
    requires
        exists|i: int|
            0 <= i < old(scheduler)@.processes.len() && old(scheduler)@.processes[i].context.tpidr
                == old(tf).tpidr,
    ensures
        ({
            let s = old(scheduler)@.processes;
            let i = find_id(s, old(tf).tpidr, 0);
            let p2 = final(scheduler)@.processes[i];
            &&& p2.handles@ == s[i].handles@.push(IOHandle::Socket(socket))
            &&& p2 == Process { handles: p2.handles, ..s[i] }
            &&& final(scheduler)@.processes == s.update(i, p2)
            &&& final(scheduler)@.last_id == old(scheduler)@.last_id
            &&& with_value_status(*old(tf), *final(tf), s[i].handles@.len() as u64, 1)
        }),
{
    let i = scheduler.find_process(tf);
    let mut p = scheduler.take_process(i);
    let sock_idx = p.handles.len();
    p.handles.push(IOHandle::Socket(socket));
    scheduler.restore_process(i, p);
    proof {
        assert(scheduler@.processes =~= old(scheduler)@.processes.update(i as int, p));
    }
    set_value_ok(tf, sock_idx as u64);
}

/// The socket behind handle `idx` of `handles`, or `InvalidSocket`.
pub open spec fn socket_of(handles: Seq<IOHandle>, idx: u64) -> Result<u64, OsError> {
    if idx < handles.len() {
        match handles[idx as int] {
            IOHandle::Socket(s) => Ok(s),
            _ => Err(OsError::InvalidSocket),
        }
    } else {
        Err(OsError::InvalidSocket)
    }
}

/// Looks up the socket behind handle `idx` of the current process; on
/// failure sets the status to `InvalidSocket`.
///
/// Panics (excluded by the precondition) if the current process is not queued.
pub fn sock_lookup(scheduler: &Scheduler, idx: u64, tf: &mut TrapFrame) -> (r: Result<u64, OsError>)
    requires
        exists|i: int|
            0 <= i < scheduler@.processes.len() && scheduler@.processes[i].context.tpidr == old(tf).tpidr,
    ensures
        r == socket_of(scheduler@.processes[find_id(scheduler@.processes, old(tf).tpidr, 0)].handles@, idx),
        r is Ok ==> *final(tf) == *old(tf),
        r is Err ==> with_status(*old(tf), *final(tf), 200),
{
    let i = scheduler.find_process(tf);
    let p = scheduler.process(i);
    if idx < p.handles.len() as u64 {
        match p.handles[idx as usize] {
            IOHandle::Socket(s) => Ok(s),
            _ => {
                set_status(tf, OsError::InvalidSocket);
                Err(OsError::InvalidSocket)
            },
        }
    } else {
        set_status(tf, OsError::InvalidSocket);
        Err(OsError::InvalidSocket)
    }
}

/// `b` is `a` with a socket's status in the result registers: `x0..x3`
/// are is-active, is-listening, can-send and can-receive (1 or 0), and the
/// status is `Ok`.
pub open spec fn with_sock_status(a: TrapFrame, b: TrapFrame, status: SocketStatus) -> bool {
    &&& b == (TrapFrame { x: b.x, ..a })
    &&& b.x@ == a.x@.update(0, if status.is_active { 1u64 } else { 0u64 }).update(
        1,
        if status.is_listening { 1u64 } else { 0u64 },
    ).update(2, if status.can_send { 1u64 } else { 0u64 }).update(
        3,
        if status.can_recv { 1u64 } else { 0u64 },
    ).update(7, 1u64)
}

/// The status of the socket behind handle `idx` of the calling process:
/// `statuses` holds the network stack's status of each socket, by its
/// number. A handle that is missing or not a socket is `InvalidSocket`.
///
/// Panics (excluded by the precondition) if the calling process is not
/// queued.
pub fn sys_sock_status(scheduler: &Scheduler, idx: u64, statuses: &Vec<SocketStatus>, tf: &mut TrapFrame)
    requires
        exists|i: int|
            0 <= i < scheduler@.processes.len() && scheduler@.processes[i].context.tpidr == old(tf).tpidr,
        socket_of(scheduler@.processes[find_id(scheduler@.processes, old(tf).tpidr, 0)].handles@, idx) matches Ok(
            s,
        ) ==> s < statuses@.len(),
    ensures
        match socket_of(scheduler@.processes[find_id(scheduler@.processes, old(tf).tpidr, 0)].handles@, idx) {
            Ok(s) => with_sock_status(*old(tf), *final(tf), statuses@[s as int]),
            Err(_) => with_status(*old(tf), *final(tf), 200),
        },
{
    match sock_lookup(scheduler, idx, tf) {
        Ok(s) => {
            let n = statuses.len();
            assert(s < n);
            let k = s as usize;
            assert(k == s);
            let status = statuses[k];
            tf.x[0] = if status.is_active { 1 } else { 0 };
            tf.x[1] = if status.is_listening { 1 } else { 0 };
            tf.x[2] = if status.can_send { 1 } else { 0 };
            tf.x[3] = if status.can_recv { 1 } else { 0 };
            tf.x[7] = 1;
        },
        Err(_) => {},
    }
}

/// A decoded system call with its register arguments.
#[derive(Clone, Copy, Debug, PartialEq, Eq)]
pub enum Syscall {
    Sleep { ms: u32 },
    Time,
    Exit,
    Write { handle: u64, va: u64, len: u64 },
    GetPid,
    WriteStr { handle: u64, va: u64, len: u64 },
    Sbrk { size: u64 },
    Rand { min: u32, max: u32 },
    RRand,
    Entropy,
    StartP { pid: u64 },
    Brk { va: u64 },
    ArgsCount,
    ReadArg { idx: u64, buf_va: u64, buf_len: u64, offset: u64 },
    PushArg { pid: u64, va: u64, len: u64 },
    LoadP { va: u64, len: u64 },
    Wait { pid: u64 },
    SockCreate,
    SockStatus { sock: u64 },
    SockConnect { sock: u64, ip: u32, port: u16 },
    SockListen { sock: u64, port: u16 },
    SockSend { sock: u64, va: u64, len: u64 },
    SockRecv { sock: u64, va: u64, len: u64 },
    Open { va: u64, len: u64 },
    Read { handle: u64, va: u64, len: u64 },
    GetDents { path_va: u64, path_len: u64, buf_va: u64, buf_len: u64, offset: u64 },
    Stat { path_va: u64, path_len: u64, buf_va: u64 },
    GetCwd { va: u64, len: u64, offset: u64 },
    ChDir { va: u64, len: u64 },
    Unknown,
}

/// The call that system-call number `num` with registers `x` stands for.
pub open spec fn decode_spec(num: u16, x: Seq<u64>) -> Syscall {
    if num == 1 { Syscall::Sleep { ms: x[0] as u32 } }
    else if num == 2 { Syscall::Time }
    else if num == 3 { Syscall::Exit }
    else if num == 4 { Syscall::Write { handle: x[0], va: x[1], len: x[2] } }
    else if num == 5 { Syscall::GetPid }
    else if num == 6 { Syscall::WriteStr { handle: x[0], va: x[1], len: x[2] } }
    else if num == 7 { Syscall::Sbrk { size: x[0] } }
    else if num == 8 { Syscall::Rand { min: x[0] as u32, max: x[1] as u32 } }
    else if num == 9 { Syscall::RRand }
    else if num == 10 { Syscall::Entropy }
    else if num == 12 { Syscall::StartP { pid: x[0] } }
    else if num == 13 { Syscall::Brk { va: x[0] } }
    else if num == 14 { Syscall::ArgsCount }
    else if num == 15 { Syscall::ReadArg { idx: x[0], buf_va: x[1], buf_len: x[2], offset: x[3] } }
    else if num == 16 { Syscall::PushArg { pid: x[0], va: x[1], len: x[2] } }
    else if num == 17 { Syscall::LoadP { va: x[0], len: x[1] } }
    else if num == 18 { Syscall::Wait { pid: x[0] } }
    else if num == 20 { Syscall::SockCreate }
    else if num == 21 { Syscall::SockStatus { sock: x[0] } }
    else if num == 22 { Syscall::SockConnect { sock: x[0], ip: x[1] as u32, port: x[2] as u16 } }
    else if num == 23 { Syscall::SockListen { sock: x[0], port: x[1] as u16 } }
    else if num == 24 { Syscall::SockSend { sock: x[0], va: x[1], len: x[2] } }
    else if num == 25 { Syscall::SockRecv { sock: x[0], va: x[1], len: x[2] } }
    else if num == 30 { Syscall::Open { va: x[0], len: x[1] } }
    else if num == 31 { Syscall::Read { handle: x[0], va: x[1], len: x[2] } }
    else if num == 32 { Syscall::GetDents { path_va: x[0], path_len: x[1], buf_va: x[2], buf_len: x[3], offset: x[4] } }
    else if num == 33 { Syscall::Stat { path_va: x[0], path_len: x[1], buf_va: x[2] } }
    else if num == 34 { Syscall::GetCwd { va: x[0], len: x[1], offset: x[2] } }
    else if num == 35 { Syscall::ChDir { va: x[0], len: x[1] } }
    else { Syscall::Unknown }
}

/// How the user library issues call `c`: the call number it traps with
/// and the argument registers `x0, x1, ...` it loads, in the order of the
/// library function's own parameters (for `read`: the handle, the
/// buffer's address, the buffer's length).
pub open spec fn user_call(c: Syscall) -> (u16, Seq<u64>) {
    match c {
        Syscall::Sleep { ms } => (1, seq![ms as u64]),
        Syscall::Time => (2, seq![]),
        Syscall::Exit => (3, seq![]),
        Syscall::Write { handle, va, len } => (4, seq![handle, va, len]),
        Syscall::GetPid => (5, seq![]),
        Syscall::WriteStr { handle, va, len } => (6, seq![handle, va, len]),
        Syscall::Sbrk { size } => (7, seq![size]),
        Syscall::Rand { min, max } => (8, seq![min as u64, max as u64]),
        Syscall::RRand => (9, seq![]),
        Syscall::Entropy => (10, seq![]),
        Syscall::StartP { pid } => (12, seq![pid]),
        Syscall::Brk { va } => (13, seq![va]),
        Syscall::ArgsCount => (14, seq![]),
        Syscall::ReadArg { idx, buf_va, buf_len, offset } => (15, seq![idx, buf_va, buf_len, offset]),
        Syscall::PushArg { pid, va, len } => (16, seq![pid, va, len]),
        Syscall::LoadP { va, len } => (17, seq![va, len]),
        Syscall::Wait { pid } => (18, seq![pid]),
        Syscall::SockCreate => (20, seq![]),
        Syscall::SockStatus { sock } => (21, seq![sock]),
        Syscall::SockConnect { sock, ip, port } => (22, seq![sock, ip as u64, port as u64]),
        Syscall::SockListen { sock, port } => (23, seq![sock, port as u64]),
        Syscall::SockSend { sock, va, len } => (24, seq![sock, va, len]),
        Syscall::SockRecv { sock, va, len } => (25, seq![sock, va, len]),
        Syscall::Open { va, len } => (30, seq![va, len]),
        Syscall::Read { handle, va, len } => (31, seq![handle, va, len]),
        Syscall::GetDents { path_va, path_len, buf_va, buf_len, offset } => (
            32,
            seq![path_va, path_len, buf_va, buf_len, offset],
        ),
        Syscall::Stat { path_va, path_len, buf_va } => (33, seq![path_va, path_len, buf_va]),
        Syscall::GetCwd { va, len, offset } => (34, seq![va, len, offset]),
        Syscall::ChDir { va, len } => (35, seq![va, len]),
        Syscall::Unknown => (0, seq![]),
    }
}

/// Decoding undoes the user library's encoding: every call the library
/// issues, with whatever arguments and whatever the registers past its
/// arguments hold, decodes to that very call, each argument taken from
/// the register the library put it in.
pub proof fn lemma_decode_user_call(c: Syscall, rest: Seq<u64>)
    requires
        c != Syscall::Unknown,
    ensures
        decode_spec(user_call(c).0, user_call(c).1 + rest) == c,
{
    let x = user_call(c).1 + rest;
    assert(forall|k: int| 0 <= k < user_call(c).1.len() ==> x[k] == user_call(c).1[k]);
}

/// An unknown call number decodes to nothing: `Unknown` exactly for the
/// numbers the user library does not use.
pub proof fn lemma_decode_unknown(num: u16, x: Seq<u64>)
    ensures
        decode_spec(num, x) == Syscall::Unknown <==> !(1 <= num <= 10 || 12 <= num <= 18 || 20 <= num <= 25
            || 30 <= num <= 35),
{
}

/// Decodes system call `num` from the trap frame. An unknown number sets
/// the status to `Unknown`; otherwise the frame is unchanged.
pub fn handle_syscall(num: u16, tf: &mut TrapFrame) -> (r: Syscall)
    ensures
        r == decode_spec(num, old(tf).x@),
        r != Syscall::Unknown ==> *final(tf) == *old(tf),
        r == Syscall::Unknown ==> with_status(*old(tf), *final(tf), 0),
{
    let x = tf.x;
    let r = if num == 1 { Syscall::Sleep { ms: x[0] as u32 } }
    else if num == 2 { Syscall::Time }
    else if num == 3 { Syscall::Exit }
    else if num == 4 { Syscall::Write { handle: x[0], va: x[1], len: x[2] } }
    else if num == 5 { Syscall::GetPid }
    else if num == 6 { Syscall::WriteStr { handle: x[0], va: x[1], len: x[2] } }
    else if num == 7 { Syscall::Sbrk { size: x[0] } }
    else if num == 8 { Syscall::Rand { min: x[0] as u32, max: x[1] as u32 } }
    else if num == 9 { Syscall::RRand }
    else if num == 10 { Syscall::Entropy }
    else if num == 12 { Syscall::StartP { pid: x[0] } }
    else if num == 13 { Syscall::Brk { va: x[0] } }
    else if num == 14 { Syscall::ArgsCount }
    else if num == 15 { Syscall::ReadArg { idx: x[0], buf_va: x[1], buf_len: x[2], offset: x[3] } }
    else if num == 16 { Syscall::PushArg { pid: x[0], va: x[1], len: x[2] } }
    else if num == 17 { Syscall::LoadP { va: x[0], len: x[1] } }
    else if num == 18 { Syscall::Wait { pid: x[0] } }
    else if num == 20 { Syscall::SockCreate }
    else if num == 21 { Syscall::SockStatus { sock: x[0] } }
    else if num == 22 { Syscall::SockConnect { sock: x[0], ip: x[1] as u32, port: x[2] as u16 } }
    else if num == 23 { Syscall::SockListen { sock: x[0], port: x[1] as u16 } }
    else if num == 24 { Syscall::SockSend { sock: x[0], va: x[1], len: x[2] } }
    else if num == 25 { Syscall::SockRecv { sock: x[0], va: x[1], len: x[2] } }
    else if num == 30 { Syscall::Open { va: x[0], len: x[1] } }
    else if num == 31 { Syscall::Read { handle: x[0], va: x[1], len: x[2] } }
    else if num == 32 { Syscall::GetDents { path_va: x[0], path_len: x[1], buf_va: x[2], buf_len: x[3], offset: x[4] } }
    else if num == 33 { Syscall::Stat { path_va: x[0], path_len: x[1], buf_va: x[2] } }
    else if num == 34 { Syscall::GetCwd { va: x[0], len: x[1], offset: x[2] } }
    else if num == 35 { Syscall::ChDir { va: x[0], len: x[1] } }
    else { Syscall::Unknown };
    if num != 1 && num != 2 && num != 3 && num != 4 && num != 5 && num != 6 && num != 7 && num != 8
        && num != 9 && num != 10 && num != 12 && num != 13 && num != 14 && num != 15 && num != 16
        && num != 17 && num != 18 && num != 20 && num != 21 && num != 22 && num != 23 && num != 24
        && num != 25 && num != 30 && num != 31 && num != 32 && num != 33 && num != 34 && num != 35 {
        set_status(tf, OsError::Unknown);
    }
    r
}

} // verus!
