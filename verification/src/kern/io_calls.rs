//! The file and console system calls: checking what user space handed in,
//! choosing what the call acts on, and setting the result registers from
//! what the file system or the console answered.

use vstd::prelude::*;

verus! {

use crate::kern::process::{IOHandle, Process};
use crate::kern::scheduler::{Scheduler, SchedulerView, find_id, add_spec};
use crate::kern::syscall::{with_status, with_value_status, set_status, set_value_ok, USER_IMG_BASE};
use crate::kern::traps::TrapFrame;
use crate::kernel_api::{OsError, os_error_code, IoErrorKind, os_error_from_io_spec};
use crate::kernel_api::fs::{DirEnt, DirType, Stat, Metadata};
use crate::path::{resolve, parse_path, render, resolve_path};
use crate::text::str_from_utf8;
use vstd::utf8::{valid_utf8, encode_utf8};
use vstd::string::StringSliceAdditionalSpecFns;

/// Size in bytes of a [`Stat`] record in user memory.
pub const STAT_SIZE: u64 = 24;

/// Size in bytes of a [`DirEnt`] record in user memory.
pub const DIRENT_SIZE: u64 = 528;

/// `[va, va + len)` lies in user space without wrapping around.
pub open spec fn user_range(va: u64, len: u64) -> bool {
    va >= USER_IMG_BASE && va + len <= u64::MAX
}

/// Some queued process has ID `pid`.
pub open spec fn queued(v: SchedulerView, pid: u64) -> bool {
    exists|i: int| 0 <= i < v.processes.len() && v.processes[i].context.tpidr == pid
}

/// Position of the process with ID `pid`.
pub open spec fn current_index(v: SchedulerView, pid: u64) -> int {
    find_id(v.processes, pid, 0)
}

/// The process with ID `pid`.
pub open spec fn current(v: SchedulerView, pid: u64) -> Process {
    v.processes[current_index(v, pid)]
}

/// What the caller does next: nothing (the registers hold the result), or
/// the transfer on the console or on an open file.
#[derive(Clone, Copy, Debug, PartialEq, Eq)]
pub enum IoTarget {
    Done,
    Console,
    File(u64),
}

/// Checks that `[va, va + len)` lies in user space; otherwise the status is
/// `BadAddress`.
pub fn check_user_range(va: u64, len: u64, tf: &mut TrapFrame) -> (r: bool)
    ensures
        r == user_range(va, len),
        r ==> *final(tf) == *old(tf),
        !r ==> with_status(*old(tf), *final(tf), 50),
{
    if va >= USER_IMG_BASE && va.checked_add(len).is_some() {
        true
    } else {
        set_status(tf, OsError::BadAddress);
        false
    }
}

/// Checks that a path handed in by user space is UTF-8; otherwise the
/// status is `Utf8Error`.
pub fn check_path(bytes: &[u8], tf: &mut TrapFrame) -> (r: bool)
    ensures
        r == valid_utf8(bytes@),
        r ==> *final(tf) == *old(tf),
        !r ==> with_status(*old(tf), *final(tf), 2),
{
    match str_from_utf8(bytes) {
        Ok(_) => true,
        Err(_) => {
            set_status(tf, OsError::Utf8Error);
            false
        },
    }
}

/// The path a call names, resolved against the working directory of the
/// calling process.
///
/// Panics (excluded by the precondition) if the calling process is not queued.
pub fn working_path(scheduler: &Scheduler, path: &[u8], tf: &TrapFrame) -> (r: Vec<u8>)
    requires
        queued(scheduler@, tf.tpidr),
    ensures
        r@ == render(resolve(parse_path(current(scheduler@, tf.tpidr).cwd@), path@)),
{
    let i = scheduler.find_process(tf);
    resolve_path(scheduler.process(i).cwd.as_slice(), path)
}

/// The target of handle `idx` for a read or a write: the console or a file;
/// a socket is `NotAFile` and a missing handle `NoEntry`.
pub open spec fn handle_target(handles: Seq<IOHandle>, idx: u64) -> Result<IoTarget, OsError> {
    if idx >= handles.len() {
        Err(OsError::NoEntry)
    } else {
        match handles[idx as int] {
            IOHandle::Console => Ok(IoTarget::Console),
            IOHandle::File(f) => Ok(IoTarget::File(f)),
            IOHandle::Socket(_) => Err(OsError::NotAFile),
        }
    }
}

/// The registers after the choice of a target: unchanged for a target, the
/// error's status otherwise.
pub open spec fn target_chosen(t: Result<IoTarget, OsError>, a: TrapFrame, b: TrapFrame, r: IoTarget) -> bool {
    match t {
        Ok(x) => r == x && b == a,
        Err(e) => r == IoTarget::Done && with_status(a, b, os_error_code(e)),
    }
}

fn lookup_target(scheduler: &Scheduler, idx: u64, tf: &mut TrapFrame) -> (r: IoTarget)
    requires
        queued(scheduler@, old(tf).tpidr),
    ensures
        target_chosen(
            handle_target(current(scheduler@, old(tf).tpidr).handles@, idx),
            *old(tf),
            *final(tf),
            r,
        ),
{
    let i = scheduler.find_process(tf);
    let p = scheduler.process(i);
    if idx >= p.handles.len() as u64 {
        set_status(tf, OsError::NoEntry);
        return IoTarget::Done;
    }
    match p.handles[idx as usize] {
        IOHandle::Console => IoTarget::Console,
        IOHandle::File(f) => IoTarget::File(f),
        IOHandle::Socket(_) => {
            set_status(tf, OsError::NotAFile);
            IoTarget::Done
        },
    }
}

/// `read(idx, va, len)`: an empty read returns 0; a buffer outside user
/// space is `BadAddress`; otherwise the handle decides what is read.
///
/// Panics (excluded by the precondition) if the call reads and the calling process is
/// not queued.
pub fn sys_read_target(scheduler: &Scheduler, idx: u64, va: u64, len: u64, tf: &mut TrapFrame) -> (r: IoTarget)
    requires
        len != 0 ==> queued(scheduler@, old(tf).tpidr),
    ensures
        len == 0 ==> r == IoTarget::Done && with_value_status(*old(tf), *final(tf), 0, 1),
        len != 0 && !user_range(va, len) ==> r == IoTarget::Done && with_status(*old(tf), *final(tf), 50),
        len != 0 && user_range(va, len) ==> target_chosen(
            handle_target(current(scheduler@, old(tf).tpidr).handles@, idx),
            *old(tf),
            *final(tf),
            r,
        ),
{
    if len == 0 {
        set_value_ok(tf, 0);
        return IoTarget::Done;
    }
    if !check_user_range(va, len, tf) {
        return IoTarget::Done;
    }
    lookup_target(scheduler, idx, tf)
}

/// `write(idx, va, len)`: the same choice as for a read; the process is
/// looked up only once the buffer is known to lie in user space.
///
/// Panics (excluded by the precondition) if the call writes and the calling process
/// is not queued.
pub fn sys_write_target(scheduler: &Scheduler, idx: u64, va: u64, len: u64, tf: &mut TrapFrame) -> (r: IoTarget)
    requires
        len != 0 && user_range(va, len) ==> queued(scheduler@, old(tf).tpidr),
    ensures
        len == 0 ==> r == IoTarget::Done && with_value_status(*old(tf), *final(tf), 0, 1),
        len != 0 && !user_range(va, len) ==> r == IoTarget::Done && with_status(*old(tf), *final(tf), 50),
        len != 0 && user_range(va, len) ==> target_chosen(
            handle_target(current(scheduler@, old(tf).tpidr).handles@, idx),
            *old(tf),
            *final(tf),
            r,
        ),
{
    if len == 0 {
        set_value_ok(tf, 0);
        return IoTarget::Done;
    }
    if !check_user_range(va, len, tf) {
        return IoTarget::Done;
    }
    lookup_target(scheduler, idx, tf)
}

/// A write to the console: the bytes are printed when they are UTF-8, and
/// their number returned; otherwise the status is `Utf8Error`.
pub fn console_write<'a>(bytes: &'a [u8], tf: &mut TrapFrame) -> (r: Option<&'a str>)
    ensures
        valid_utf8(bytes@) ==> (r matches Some(s) && s.spec_bytes() == bytes@ && with_value_status(
            *old(tf),
            *final(tf),
            bytes@.len() as u64,
            1,
        )),
        !valid_utf8(bytes@) ==> r is None && with_status(*old(tf), *final(tf), 2),
{
    match str_from_utf8(bytes) {
        Ok(s) => {
            set_value_ok(tf, bytes.len() as u64);
            Some(s)
        },
        Err(_) => {
            set_status(tf, OsError::Utf8Error);
            None
        },
    }
}

/// Sets the registers from the outcome of a transfer on a device or file:
/// the number of bytes moved, or the error's status.
pub fn finish_transfer(outcome: Result<u64, IoErrorKind>, tf: &mut TrapFrame)
    ensures
        match outcome {
            Ok(n) => with_value_status(*old(tf), *final(tf), n, 1),
            Err(k) => with_status(*old(tf), *final(tf), os_error_code(os_error_from_io_spec(k))),
        },
{
    match outcome {
        Ok(n) => set_value_ok(tf, n),
        Err(k) => set_status(tf, OsError::from_io(k)),
    }
}

/// The target of handle `idx` for `write_str`: the console or a file; a
/// socket is `IoError` and a missing handle `NoEntry`.
pub open spec fn text_target(handles: Seq<IOHandle>, idx: u64) -> Result<IoTarget, OsError> {
    if idx >= handles.len() {
        Err(OsError::NoEntry)
    } else {
        match handles[idx as int] {
            IOHandle::Console => Ok(IoTarget::Console),
            IOHandle::File(f) => Ok(IoTarget::File(f)),
            IOHandle::Socket(_) => Err(OsError::IoError),
        }
    }
}

/// `write_str(idx, ..)` once the text was read from user memory: text that
/// is not UTF-8 is `InvalidArgument`; otherwise the handle decides where it
/// goes.
///
/// Panics (excluded by the precondition) if the text is UTF-8 and the calling process
/// is not queued.
pub fn sys_write_str_target(scheduler: &Scheduler, idx: u64, bytes: &[u8], tf: &mut TrapFrame) -> (r: IoTarget)
    requires
        valid_utf8(bytes@) ==> queued(scheduler@, old(tf).tpidr),
    ensures
        !valid_utf8(bytes@) ==> r == IoTarget::Done && with_status(*old(tf), *final(tf), 70),
        valid_utf8(bytes@) ==> target_chosen(
            text_target(current(scheduler@, old(tf).tpidr).handles@, idx),
            *old(tf),
            *final(tf),
            r,
        ),
{
    if str_from_utf8(bytes).is_err() {
        set_status(tf, OsError::InvalidArgument);
        return IoTarget::Done;
    }
    let i = scheduler.find_process(tf);
    let p = scheduler.process(i);
    if idx >= p.handles.len() as u64 {
        set_status(tf, OsError::NoEntry);
        return IoTarget::Done;
    }
    match p.handles[idx as usize] {
        IOHandle::Console => IoTarget::Console,
        IOHandle::File(f) => IoTarget::File(f),
        IOHandle::Socket(_) => {
            set_status(tf, OsError::IoError);
            IoTarget::Done
        },
    }
}

/// The state and registers after `open` found `opened`: an error of the
/// file system, an entry that is not a file (`None`: `IoErrorInvalidInput`),
/// or a file (`Some(f)`, by its number in the kernel's table of open
/// files), which is added to the calling process's handles and whose handle
/// index is returned.
pub open spec fn open_done(
    s: SchedulerView,
    s2: SchedulerView,
    tf: TrapFrame,
    tf2: TrapFrame,
    opened: Result<Option<u64>, IoErrorKind>,
) -> bool {
    let i = current_index(s, tf.tpidr);
    match opened {
        Err(k) => s2 == s && with_status(tf, tf2, os_error_code(os_error_from_io_spec(k))),
        Ok(None) => s2 == s && with_status(tf, tf2, 104),
        Ok(Some(f)) => {
            let p2 = s2.processes[i];
            &&& p2.handles@ == s.processes[i].handles@.push(IOHandle::File(f))
            &&& p2 == Process { handles: p2.handles, ..s.processes[i] }
            &&& s2.processes == s.processes.update(i, p2)
            &&& s2.last_id == s.last_id
            &&& with_value_status(tf, tf2, s.processes[i].handles@.len() as u64, 1)
        },
    }
}

/// `open`: sets the registers from what opening the path gave: an error of
/// the file system, an entry that is not a file (`None`: `IoErrorInvalidInput`),
/// or a file (`Some(f)`, by its number in the kernel's table of open files),
/// which is added to the calling process's handles and whose handle index
/// is returned.
///
/// Panics (excluded by the precondition) if the calling process is not queued.
pub fn sys_open_finish(scheduler: &mut Scheduler, opened: Result<Option<u64>, IoErrorKind>, tf: &mut TrapFrame)
    requires
        queued(old(scheduler)@, old(tf).tpidr),
    ensures
        open_done(old(scheduler)@, final(scheduler)@, *old(tf), *final(tf), opened),
{
    match opened {
        Err(k) => set_status(tf, OsError::from_io(k)),
        Ok(None) => set_status(tf, OsError::IoErrorInvalidInput),
        Ok(Some(f)) => {
            let i = scheduler.find_process(tf);
            let mut p = scheduler.take_process(i);
            let idx = p.handles.len();
            p.handles.push(IOHandle::File(f));
            scheduler.restore_process(i, p);
            proof {
                assert(scheduler@.processes =~= old(scheduler)@.processes.update(i as int, p));
            }
            set_value_ok(tf, idx as u64);
        },
    }
}

/// The state and registers after `chdir` to `path` found `opened`: an
/// error of the file system, or whether the entry is a directory. A
/// directory becomes the calling process's working directory; anything
/// else is `NotADir`.
pub open spec fn chdir_done(
    s: SchedulerView,
    s2: SchedulerView,
    tf: TrapFrame,
    tf2: TrapFrame,
    path: Seq<u8>,
    opened: Result<bool, IoErrorKind>,
) -> bool {
    let i = current_index(s, tf.tpidr);
    match opened {
        Err(k) => s2 == s && with_status(tf, tf2, os_error_code(os_error_from_io_spec(k))),
        Ok(false) => s2 == s && with_status(tf, tf2, 90),
        Ok(true) => {
            let p2 = s2.processes[i];
            &&& p2.cwd@ == path
            &&& p2 == Process { cwd: p2.cwd, ..s.processes[i] }
            &&& s2.processes == s.processes.update(i, p2)
            &&& s2.last_id == s.last_id
            &&& with_status(tf, tf2, 1)
        },
    }
}

/// `chdir`: sets the registers from what opening the resolved path `path`
/// gave: an error of the file system, or whether the entry is a directory.
/// A directory becomes the calling process's working directory; anything
/// else is `NotADir`.
///
/// Panics (excluded by the precondition) if the calling process is not queued.
pub fn sys_chdir_finish(
    scheduler: &mut Scheduler,
    path: Vec<u8>,
    opened: Result<bool, IoErrorKind>,
    tf: &mut TrapFrame,
)
    requires
        queued(old(scheduler)@, old(tf).tpidr),
    ensures
        chdir_done(old(scheduler)@, final(scheduler)@, *old(tf), *final(tf), path@, opened),
{
    match opened {
        Err(k) => set_status(tf, OsError::from_io(k)),
        Ok(false) => set_status(tf, OsError::NotADir),
        Ok(true) => {
            let i = scheduler.find_process(tf);
            let mut p = scheduler.take_process(i);
            p.cwd = path;
            scheduler.restore_process(i, p);
            proof {
                assert(scheduler@.processes =~= old(scheduler)@.processes.update(i as int, p));
            }
            set_status(tf, OsError::Success);
        },
    }
}

/// `stat`: the record to write to user memory for an entry with raw
/// metadata `raw` and size `size`, or the error the file system gave.
pub fn sys_stat_finish(opened: Result<((u8, [u16; 5]), u64), IoErrorKind>, tf: &mut TrapFrame) -> (r: Option<Stat>)
    ensures
        match opened {
            Err(k) => r is None && with_status(*old(tf), *final(tf), os_error_code(os_error_from_io_spec(k))),
            Ok((raw, size)) => (r matches Some(st) && st.metadata == Metadata::from_raw_spec(raw) && st.size
                == size && with_status(*old(tf), *final(tf), 1)),
        },
{
    match opened {
        Err(k) => {
            set_status(tf, OsError::from_io(k));
            None
        },
        Ok((raw, size)) => {
            let mut st = Stat::default_stat();
            st.set_metadata_from_raw(raw);
            st.set_size(size);
            set_status(tf, OsError::Success);
            Some(st)
        },
    }
}

/// The user buffer of `getdents` holds `buf_len` records from `buf_va`.
pub open spec fn dents_range(buf_va: u64, buf_len: u64) -> bool {
    user_range(buf_va, (buf_len * DIRENT_SIZE) as u64)
}

/// Checks the buffer of `getdents`; otherwise the status is `BadAddress`.
///
/// Panics (excluded by the precondition) when the buffer's size overflows.
pub fn check_dents_buffer(buf_va: u64, buf_len: u64, tf: &mut TrapFrame) -> (r: bool)
    requires
        buf_len * DIRENT_SIZE <= u64::MAX,
    ensures
        r == dents_range(buf_va, buf_len),
        r ==> *final(tf) == *old(tf),
        !r ==> with_status(*old(tf), *final(tf), 50),
{
    check_user_range(buf_va, buf_len * DIRENT_SIZE, tf)
}

/// The record `getdents` leaves in `old` for an entry named `name` of type
/// `t`: the name is replaced unless it is longer than 512 bytes.
pub open spec fn dent_written(old: DirEnt, name: Seq<u8>, t: DirType, new: DirEnt) -> bool {
    &&& new.dtype() == t
    &&& name.len() <= 512 ==> new.wf() && new.name_bytes() == name && forall|i: int|
        name.len() <= i < 512 ==> new.buffer()[i] == 0
    &&& name.len() > 512 ==> new.name_bytes() == old.name_bytes() && new.buffer() == old.buffer()
        && new.wf() == old.wf()
}

/// Writes one record of `getdents`.
pub(crate) fn write_dent(d: &mut DirEnt, name: &str, t: DirType)
    ensures
        dent_written(*old(d), name.spec_bytes(), t, *final(d)),
{
    let _ = d.set_name(name);
    d.set_d_type(t);
}

/// `getdents` on a directory: fills the records of `buf` with the entries
/// the directory listed (their names, and whether each is a file), as many
/// as fit, and returns their number.
pub fn sys_getdents_dir(buf: &mut Vec<DirEnt>, entries: &Vec<(String, bool)>, tf: &mut TrapFrame)
    ensures
        ({
            let n = if entries@.len() < old(buf)@.len() { entries@.len() } else { old(buf)@.len() };
            &&& final(buf)@.len() == old(buf)@.len()
            &&& forall|i: int| 0 <= i < n ==> dent_written(
                #[trigger] old(buf)@[i],
                encode_utf8(entries@[i].0@),
                entry_type(entries@[i].1),
                final(buf)@[i],
            )
            &&& forall|i: int| n <= i < old(buf)@.len() ==> #[trigger] final(buf)@[i] == old(buf)@[i]
            &&& with_value_status(*old(tf), *final(tf), n as u64, 1)
        }),
{
    let n = if entries.len() < buf.len() { entries.len() } else { buf.len() };
    let mut i: usize = 0;
    while i < n
        invariant
            n <= entries@.len(),
            n <= old(buf)@.len(),
            n == (if entries@.len() < old(buf)@.len() { entries@.len() } else { old(buf)@.len() }),
            buf@.len() == old(buf)@.len(),
            i <= n,
            forall|j: int| 0 <= j < i ==> dent_written(
                #[trigger] old(buf)@[j],
                encode_utf8(entries@[j].0@),
                entry_type(entries@[j].1),
                buf@[j],
            ),
            forall|j: int| i <= j < old(buf)@.len() ==> #[trigger] buf@[j] == old(buf)@[j],
        decreases n - i,
    {
        let t = if entries[i].1 { DirType::File } else { DirType::Dir };
        let mut d = buf[i];
        write_dent(&mut d, entries[i].0.as_str(), t);
        buf.set(i, d);
        i = i + 1;
    }
    set_value_ok(tf, n as u64);
}

/// `getdents` on an entry that is not a directory: from offset 0 the one
/// record is the entry itself, as a file; past it there is nothing.
pub fn sys_getdents_file(buf: &mut Vec<DirEnt>, name: &str, offset: u64, tf: &mut TrapFrame)
    requires
        old(buf)@.len() > 0,
    ensures
        final(buf)@.len() == old(buf)@.len(),
        offset == 0 ==> dent_written(old(buf)@[0], name.spec_bytes(), DirType::File, final(buf)@[0])
            && final(buf)@.skip(1) == old(buf)@.skip(1) && with_value_status(*old(tf), *final(tf), 1, 1),
        offset != 0 ==> final(buf)@ == old(buf)@ && with_value_status(*old(tf), *final(tf), 0, 1),
{
    if offset == 0 {
        let mut d = buf[0];
        write_dent(&mut d, name, DirType::File);
        buf.set(0, d);
        assert(buf@.skip(1) =~= old(buf)@.skip(1));
        set_value_ok(tf, 1);
    } else {
        set_value_ok(tf, 0);
    }
}

/// The type of a listed entry: a file or a directory.
pub open spec fn entry_type(is_file: bool) -> DirType {
    if is_file { DirType::File } else { DirType::Dir }
}

/// `load_p`: sets the registers from the loaded process: it is queued and
/// its new ID returned (`MaxPidExceeded` once IDs are exhausted), or the
/// loader's error is the status.
pub fn sys_load_finish(scheduler: &mut Scheduler, loaded: Result<Process, OsError>, tf: &mut TrapFrame)
    ensures
        match loaded {
            Err(e) => final(scheduler)@ == old(scheduler)@ && with_status(*old(tf), *final(tf), os_error_code(e)),
            Ok(p) => {
                &&& (final(scheduler)@, add_spec(old(scheduler)@, p).1) == add_spec(old(scheduler)@, p)
                &&& match add_spec(old(scheduler)@, p).1 {
                    Some(pid) => with_value_status(*old(tf), *final(tf), pid, 1),
                    None => with_status(*old(tf), *final(tf), 5),
                }
            },
        },
{
    match loaded {
        Err(e) => set_status(tf, e),
        Ok(p) => match scheduler.add(p) {
            Some(pid) => set_value_ok(tf, pid),
            None => set_status(tf, OsError::MaxPidExceeded),
        },
    }
}

} // verus!
