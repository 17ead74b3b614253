//! The file-system system calls: checking the path handed in, resolving
//! it against the caller's working directory, looking it up on the mounted
//! volume, and setting the registers and the process's state from what was
//! found.

use vstd::prelude::*;

verus! {

use crate::fat32::dir::{
    Entry, File, SeekFrom, VFatLfnDirEntry, regular_at, entry_count, entry_name_spec, count_regular, nth_regular_end,
    lemma_count_regular_bounds,
};
use crate::fat32::lookup::{
    open_kind, opened, open_ok, opened_cluster, dir_bytes, walk, components, entry_described, lemma_opened_kind,
    visits, visit_names_ok, next_entries,
};
use crate::fat32::metadata::Metadata as FatMetadata;
use crate::fat32::volume::VFatView;
use crate::kern::fs::FileSystem;
use crate::kern::io_calls::{
    queued, current, user_range, check_user_range, check_path, working_path, sys_open_finish, sys_chdir_finish,
    sys_stat_finish, open_done, chdir_done, STAT_SIZE, DIRENT_SIZE, dents_range, dent_written, entry_type, write_dent,
    sys_getdents_file, IoTarget, handle_target, text_target, target_chosen, sys_read_target, sys_write_target,
    console_write,
};
use crate::fat32::file::{read_ok, read_error, file_read, write_ok, file_written, write_outcome};
use crate::fat32::volume::VFat;
use crate::kern::scheduler::{Scheduler, SchedulerView};
use crate::kern::syscall::{with_status, with_value_status, set_status, set_value_ok, USER_IMG_BASE};
use crate::kern::traps::TrapFrame;
use crate::kernel_api::{IoErrorKind, OsError, os_error_code, os_error_from_io_spec};
use crate::kernel_api::fs::{DirEnt, DirType, Metadata, Stat};
use crate::path::{render, resolve, parse_path};
use vstd::utf8::{valid_utf8, encode_utf8};
use vstd::string::StringSliceAdditionalSpecFns;

/// The path a call made by the process with ID `pid` names: `path`
/// resolved against its working directory.
pub open spec fn resolved(s: SchedulerView, pid: u64, path: Seq<u8>) -> Seq<u8> {
    render(resolve(parse_path(current(s, pid).cwd@), path))
}

/// Checks a path handed in by user space: `None` (its bytes lie outside
/// user space) is `BadAddress`, bytes that are not UTF-8 `Utf8Error`.
pub fn check_user_path(path: Option<&[u8]>, tf: &mut TrapFrame) -> (r: bool)
    ensures
        match path {
            None => !r && with_status(*old(tf), *final(tf), 50),
            Some(b) => r == valid_utf8(b@) && (r ==> *final(tf) == *old(tf)) && (!r ==> with_status(
                *old(tf),
                *final(tf),
                2,
            )),
        },
{
    match path {
        None => {
            set_status(tf, OsError::BadAddress);
            false
        },
        Some(b) => check_path(b, tf),
    }
}

/// `chdir(path)`: a path outside user space or not UTF-8 is refused; else
/// the resolved path becomes the working directory if it names a
/// directory.
///
/// Panics (excluded by the precondition) if the calling process is not queued, or the
/// lookup cannot be made (see [`open_ok`]).
pub fn sys_chdir_exec(scheduler: &mut Scheduler, fs: &FileSystem, path: Option<&[u8]>, tf: &mut TrapFrame)
    requires
        match path {
            Some(b) => valid_utf8(b@) ==> queued(old(scheduler)@, old(tf).tpidr) && (fs.mounted() ==> open_ok(
                fs.mounted_volume()@,
                resolved(old(scheduler)@, old(tf).tpidr, b@),
            )),
            None => true,
        },
    ensures
        match path {
            None => final(scheduler)@ == old(scheduler)@ && with_status(*old(tf), *final(tf), 50),
            Some(b) => if !valid_utf8(b@) {
                final(scheduler)@ == old(scheduler)@ && with_status(*old(tf), *final(tf), 2)
            } else {
                let p = resolved(old(scheduler)@, old(tf).tpidr, b@);
                chdir_done(old(scheduler)@, final(scheduler)@, *old(tf), *final(tf), p, fs.open_kind(p))
            },
        },
{
    if !check_user_path(path, tf) {
        return;
    }
    let b = match path {
        Some(b) => b,
        None => {
            return;
        },
    };
    let target = working_path(scheduler, b, tf);
    let found = fs.open(target.as_slice());
    proof {
        if fs.mounted() {
            lemma_opened_kind(fs.mounted_volume()@, target@, found);
        }
    }
    let kind = match found {
        Ok(Entry::Dir(_)) => Ok(true),
        Ok(Entry::File(_)) => Ok(false),
        Err(e) => Err(e),
    };
    sys_chdir_finish(scheduler, target, kind, tf);
}

/// `open(path)`: a path outside user space or not UTF-8 is refused; else
/// the resolved path is looked up. A file is added to the kernel's table
/// of open files `files` and to the caller's handles, whose index is
/// returned; a directory is `IoErrorInvalidInput`; an error of the lookup
/// is the status.
///
/// Panics (excluded by the precondition) if the calling process is not queued, or the
/// lookup cannot be made (see [`open_ok`]).
pub fn sys_open_exec(
    scheduler: &mut Scheduler,
    fs: &FileSystem,
    files: &mut Vec<File>,
    path: Option<&[u8]>,
    tf: &mut TrapFrame,
)
    requires
        match path {
            Some(b) => valid_utf8(b@) ==> queued(old(scheduler)@, old(tf).tpidr) && (fs.mounted() ==> open_ok(
                fs.mounted_volume()@,
                resolved(old(scheduler)@, old(tf).tpidr, b@),
            )),
            None => true,
        },
        old(files)@.len() < u64::MAX,
    ensures
        match path {
            None => final(scheduler)@ == old(scheduler)@ && final(files)@ == old(files)@ && with_status(
                *old(tf),
                *final(tf),
                50,
            ),
            Some(b) => if !valid_utf8(b@) {
                final(scheduler)@ == old(scheduler)@ && final(files)@ == old(files)@ && with_status(
                    *old(tf),
                    *final(tf),
                    2,
                )
            } else {
                let p = resolved(old(scheduler)@, old(tf).tpidr, b@);
                match fs.open_kind(p) {
                    Err(e) => final(files)@ == old(files)@ && open_done(
                        old(scheduler)@,
                        final(scheduler)@,
                        *old(tf),
                        *final(tf),
                        Err(e),
                    ),
                    Ok(true) => final(files)@ == old(files)@ && open_done(
                        old(scheduler)@,
                        final(scheduler)@,
                        *old(tf),
                        *final(tf),
                        Ok(None),
                    ),
                    Ok(false) => {
                        let v = fs.mounted_volume()@;
                        let t = walk(v, v.rootdir_cluster.0, components(p))->Ok_0;
                        &&& final(files)@.len() == old(files)@.len() + 1
                        &&& final(files)@.take(old(files)@.len() as int) == old(files)@
                        &&& entry_described(
                            Entry::File(final(files)@[old(files)@.len() as int]),
                            t.0,
                            t.1,
                            t.2,
                            v.cluster_size(),
                        )
                        &&& open_done(
                            old(scheduler)@,
                            final(scheduler)@,
                            *old(tf),
                            *final(tf),
                            Ok(Some(old(files)@.len() as u64)),
                        )
                    },
                }
            },
        },
{
    if !check_user_path(path, tf) {
        return;
    }
    let b = match path {
        Some(b) => b,
        None => {
            return;
        },
    };
    let target = working_path(scheduler, b, tf);
    let found = fs.open(target.as_slice());
    proof {
        if fs.mounted() {
            lemma_opened_kind(fs.mounted_volume()@, target@, found);
        }
    }
    match found {
        Err(e) => sys_open_finish(scheduler, Err(e), tf),
        Ok(Entry::Dir(_)) => sys_open_finish(scheduler, Ok(None), tf),
        Ok(Entry::File(f)) => {
            let k = files.len() as u64;
            let ghost before = files@;
            files.push(f);
            assert(files@.take(before.len() as int) =~= before);
            sys_open_finish(scheduler, Ok(Some(k)), tf);
        },
    }
}

/// The record `stat` gives for metadata `m` and size `size`.
pub open spec fn stat_record(m: FatMetadata, size: int) -> (Metadata, int) {
    (
        Metadata::from_raw_spec(
            (
                m.attributes.0,
                [
                    m.creation_timestamp.date.0,
                    m.creation_timestamp.time.0,
                    m.accessed_date.0,
                    m.modification_timestamp.date.0,
                    m.modification_timestamp.time.0,
                ],
            ),
        ),
        size,
    )
}

/// The record `stat` gives is the entry's own metadata, field by field:
/// the attributes, the creation date and time, the access date and the
/// modification date and time each come from the same field of the
/// entry, and the size is the entry's size.
pub proof fn lemma_stat_record_fields(m: FatMetadata, size: int)
    ensures
        stat_record(m, size).0.attributes.0 == m.attributes.0,
        stat_record(m, size).0.creation_timestamp.date.0 == m.creation_timestamp.date.0,
        stat_record(m, size).0.creation_timestamp.time.0 == m.creation_timestamp.time.0,
        stat_record(m, size).0.accessed_date.0 == m.accessed_date.0,
        stat_record(m, size).0.modification_timestamp.date.0 == m.modification_timestamp.date.0,
        stat_record(m, size).0.modification_timestamp.time.0 == m.modification_timestamp.time.0,
        stat_record(m, size).1 == size,
{
}

/// The metadata and size of what opening `path` on `v` finds: zero for the
/// root directory, else the entry's.
pub open spec fn opened_stat(v: VFatView, path: Seq<u8>) -> (Metadata, int) {
    if components(path).len() == 0 {
        stat_record(FatMetadata::zero_spec(), 0)
    } else {
        let t = walk(v, v.rootdir_cluster.0, components(path))->Ok_0;
        let reg = regular_at(t.0, 32 * t.1);
        stat_record(reg.metadata_spec(), reg.file_size as int)
    }
}

/// The metadata and size of an entry.
fn entry_stat(e: &Entry) -> (r: ((u8, [u16; 5]), u64))
    ensures
        ({
            let (m, size) = match *e {
                Entry::File(f) => (f.metadata, f.size as int),
                Entry::Dir(d) => (d.metadata, d.size as int),
            };
            &&& Metadata::from_raw_spec(r.0) == stat_record(m, size).0
            &&& r.1 == size
        }),
{
    match e {
        Entry::File(f) => (f.metadata.raw(), f.size as u64),
        Entry::Dir(d) => (d.metadata.raw(), d.size as u64),
    }
}

/// `stat(path, buf)`: a path outside user space or not UTF-8 is refused,
/// then a record buffer outside user space (`BadAddress`); else the record
/// of what the resolved path names, or the lookup's error.
///
/// Panics (excluded by the precondition) if the calling process is not queued, or the
/// lookup cannot be made (see [`open_ok`]).
pub fn sys_stat_exec(
    scheduler: &Scheduler,
    fs: &FileSystem,
    path: Option<&[u8]>,
    buf_va: u64,
    tf: &mut TrapFrame,
) -> (r: Option<Stat>)
    requires
        match path {
            Some(b) => valid_utf8(b@) ==> queued(scheduler@, old(tf).tpidr) && (fs.mounted() && user_range(
                buf_va,
                STAT_SIZE,
            ) ==> open_ok(fs.mounted_volume()@, resolved(scheduler@, old(tf).tpidr, b@))),
            None => true,
        },
    ensures
        match path {
            None => r is None && with_status(*old(tf), *final(tf), 50),
            Some(b) => if !valid_utf8(b@) {
                r is None && with_status(*old(tf), *final(tf), 2)
            } else if !user_range(buf_va, STAT_SIZE) {
                r is None && with_status(*old(tf), *final(tf), 50)
            } else {
                let p = resolved(scheduler@, old(tf).tpidr, b@);
                match fs.open_kind(p) {
                    Err(e) => r is None && with_status(*old(tf), *final(tf), os_error_code(os_error_from_io_spec(e))),
                    Ok(_) => r matches Some(st) && (st.metadata, st.size as int) == opened_stat(
                        fs.mounted_volume()@,
                        p,
                    ) && with_status(*old(tf), *final(tf), 1),
                }
            },
        },
{
    if !check_user_path(path, tf) {
        return None;
    }
    let b = match path {
        Some(b) => b,
        None => {
            return None;
        },
    };
    let target = working_path(scheduler, b, tf);
    if !check_user_range(buf_va, STAT_SIZE, tf) {
        return None;
    }
    let found = fs.open(target.as_slice());
    proof {
        if fs.mounted() {
            lemma_opened_kind(fs.mounted_volume()@, target@, found);
            reveal(opened);
        }
    }
    match found {
        Err(e) => sys_stat_finish(Err(e), tf),
        Ok(e) => {
            let st = entry_stat(&e);
            sys_stat_finish(Ok(st), tf)
        },
    }
}

/// At most `k` entries are visited.
proof fn lemma_visits_len(b: Seq<u8>, n: int, p: int, k: nat)
    ensures
        visits(b, n, p, k).len() <= k,
    decreases k,
{
    if k > 0 && 0 <= p < n {
        lemma_visits_len(b, n, scan_stop(b, n, p) + 1, (k - 1) as nat);
    }
}

/// Where a scan from entry `p` stops.
spec fn scan_stop(b: Seq<u8>, n: int, p: int) -> int {
    crate::fat32::dir::scan(b, n, p, Seq::empty()).0
}

/// Where `getdents` starts listing the raw entries `b` for `offset`: at the
/// start for 0, else just after the regular entry numbered `offset`
/// (`None` when there is no such entry).
pub open spec fn dents_start(b: Seq<u8>, offset: u64) -> Option<int> {
    let n = entry_count(b);
    if offset == 0 {
        Some(0)
    } else if offset > count_regular(b, n, 0) {
        None
    } else {
        nth_regular_end(b, n, 0, 0, offset as int)
    }
}

/// The directory that opening `path` on `v` finds can be listed from
/// `offset` into `k` records: its chain holds data, ends and fits in
/// memory, and the short names of the entries listed are UTF-8.
pub open spec fn dents_listable(v: VFatView, path: Seq<u8>, offset: u64, k: nat) -> bool {
    let c = opened_cluster(v, path);
    let b = dir_bytes(v, c)->Ok_0;
    &&& c >= 2
    &&& v.chain_ends(c)
    &&& (v.chain(c).0.len() + 1) * v.cluster_size() <= usize::MAX
    &&& dir_bytes(v, c) is Ok
    &&& dents_start(b, offset) matches Some(q) ==> visit_names_ok(b, entry_count(b), q, k)
}

/// The records of `getdents` after listing the raw entries `b` from `q`:
/// one per entry visited, named and typed as the entry; the rest as they
/// were.
pub open spec fn dents_filled(old_buf: Seq<DirEnt>, buf: Seq<DirEnt>, b: Seq<u8>, q: int) -> bool {
    let vs = visits(b, entry_count(b), q, old_buf.len());
    &&& buf.len() == old_buf.len()
    &&& forall|i: int|
        0 <= i < vs.len() ==> dent_written(
            #[trigger] old_buf[i],
            encode_utf8(entry_name_spec(b, vs[i].0, vs[i].1)),
            entry_type(!regular_at(b, 32 * vs[i].0).is_dir_spec()),
            buf[i],
        )
    &&& forall|i: int| vs.len() <= i < old_buf.len() ==> #[trigger] buf[i] == old_buf[i]
}

/// Writes the records of the entries `es` into `buf`.
fn fill_dents(
    buf: &mut Vec<DirEnt>,
    es: &Vec<Entry>,
    Ghost(b): Ghost<Seq<u8>>,
    Ghost(vs): Ghost<Seq<(int, Seq<VFatLfnDirEntry>)>>,
    Ghost(bpc): Ghost<int>,
)
    requires
        es@.len() == vs.len(),
        vs.len() <= old(buf)@.len(),
        forall|i: int| 0 <= i < vs.len() ==> entry_described(#[trigger] es@[i], b, vs[i].0, vs[i].1, bpc),
    ensures
        final(buf)@.len() == old(buf)@.len(),
        forall|i: int|
            0 <= i < vs.len() ==> dent_written(
                #[trigger] old(buf)@[i],
                encode_utf8(entry_name_spec(b, vs[i].0, vs[i].1)),
                entry_type(!regular_at(b, 32 * vs[i].0).is_dir_spec()),
                final(buf)@[i],
            ),
        forall|i: int| vs.len() <= i < old(buf)@.len() ==> #[trigger] final(buf)@[i] == old(buf)@[i],
{
    let n = es.len();
    let mut i: usize = 0;
    while i < n
        invariant
            n == es@.len(),
            es@.len() == vs.len(),
            vs.len() <= old(buf)@.len(),
            buf@.len() == old(buf)@.len(),
            i <= n,
            forall|j: int| 0 <= j < vs.len() ==> entry_described(#[trigger] es@[j], b, vs[j].0, vs[j].1, bpc),
            forall|j: int|
                0 <= j < i ==> dent_written(
                    #[trigger] old(buf)@[j],
                    encode_utf8(entry_name_spec(b, vs[j].0, vs[j].1)),
                    entry_type(!regular_at(b, 32 * vs[j].0).is_dir_spec()),
                    buf@[j],
                ),
            forall|j: int| i <= j < old(buf)@.len() ==> #[trigger] buf@[j] == old(buf)@[j],
        decreases n - i,
    {
        assert(entry_described(es@[i as int], b, vs[i as int].0, vs[i as int].1, bpc));
        let (name, t) = match &es[i] {
            Entry::File(f) => (f.name.as_str(), DirType::File),
            Entry::Dir(d) => (d.name.as_str(), DirType::Dir),
        };
        let mut d = buf[i];
        write_dent(&mut d, name, t);
        buf.set(i, d);
        i = i + 1;
    }
}

/// `getdents(path, buf, offset)`: with no room, nothing; a path outside
/// user space or not UTF-8 is refused, then a record buffer outside user
/// space (`BadAddress`); else what the resolved path names is listed. A
/// directory gives the entries from `offset` on (an offset past its
/// entries is `IoErrorInvalidInput`), as many as fit; a file gives itself
/// at offset 0 and nothing after; an error of the lookup is the status.
/// Returns the number of records filled in `x0`.
///
/// Panics (excluded by the precondition) if the calling process is not queued, the
/// buffer's size overflows, or the directory cannot be listed.
pub fn sys_getdents_exec(
    scheduler: &Scheduler,
    fs: &FileSystem,
    path: Option<&[u8]>,
    buf_va: u64,
    buf: &mut Vec<DirEnt>,
    offset: u64,
    tf: &mut TrapFrame,
)
    requires
        old(buf)@.len() * DIRENT_SIZE <= u64::MAX,
        old(buf)@.len() > 0 ==> match path {
            Some(b) => valid_utf8(b@) ==> queued(scheduler@, old(tf).tpidr) && (fs.mounted() && dents_range(
                buf_va,
                old(buf)@.len() as u64,
            ) ==> {
                let p = resolved(scheduler@, old(tf).tpidr, b@);
                &&& open_ok(fs.mounted_volume()@, p)
                &&& open_kind(fs.mounted_volume()@, p) == Ok::<bool, IoErrorKind>(true) ==> dents_listable(
                    fs.mounted_volume()@,
                    p,
                    offset,
                    old(buf)@.len() as nat,
                )
            }),
            None => true,
        },
    ensures
        final(buf)@.len() == old(buf)@.len(),
        old(buf)@.len() == 0 ==> with_value_status(*old(tf), *final(tf), 0, 1),
        old(buf)@.len() > 0 ==> match path {
            None => final(buf)@ == old(buf)@ && with_status(*old(tf), *final(tf), 50),
            Some(b) => if !valid_utf8(b@) {
                final(buf)@ == old(buf)@ && with_status(*old(tf), *final(tf), 2)
            } else if !dents_range(buf_va, old(buf)@.len() as u64) {
                final(buf)@ == old(buf)@ && with_status(*old(tf), *final(tf), 50)
            } else {
                let p = resolved(scheduler@, old(tf).tpidr, b@);
                let v = fs.mounted_volume()@;
                match fs.open_kind(p) {
                    Err(e) => final(buf)@ == old(buf)@ && with_status(
                        *old(tf),
                        *final(tf),
                        os_error_code(os_error_from_io_spec(e)),
                    ),
                    Ok(true) => {
                        let bytes = dir_bytes(v, opened_cluster(v, p))->Ok_0;
                        match dents_start(bytes, offset) {
                            None => final(buf)@ == old(buf)@ && with_status(*old(tf), *final(tf), 104),
                            Some(q) => dents_filled(old(buf)@, final(buf)@, bytes, q) && with_value_status(
                                *old(tf),
                                *final(tf),
                                visits(bytes, entry_count(bytes), q, old(buf)@.len()).len() as u64,
                                1,
                            ),
                        }
                    },
                    Ok(false) => {
                        let t = walk(v, v.rootdir_cluster.0, components(p))->Ok_0;
                        let name = encode_utf8(entry_name_spec(t.0, t.1, t.2));
                        if offset == 0 {
                            dent_written(old(buf)@[0], name, DirType::File, final(buf)@[0]) && final(buf)@.skip(1)
                                == old(buf)@.skip(1) && with_value_status(*old(tf), *final(tf), 1, 1)
                        } else {
                            final(buf)@ == old(buf)@ && with_value_status(*old(tf), *final(tf), 0, 1)
                        }
                    },
                }
            },
        },
{
    let k = buf.len();
    if k == 0 {
        set_value_ok(tf, 0);
        return;
    }
    let buf_ok = buf_va >= USER_IMG_BASE && buf_va.checked_add(k as u64 * DIRENT_SIZE).is_some();
    if !check_user_path(path, tf) {
        return;
    }
    let b = match path {
        Some(b) => b,
        None => {
            return;
        },
    };
    let target = working_path(scheduler, b, tf);
    if !buf_ok {
        set_status(tf, OsError::BadAddress);
        return;
    }
    let found = fs.open(target.as_slice());
    proof {
        if fs.mounted() {
            lemma_opened_kind(fs.mounted_volume()@, target@, found);
        }
    }
    match found {
        Err(e) => {
            set_status(tf, OsError::from_io(e));
        },
        Ok(Entry::File(f)) => {
            sys_getdents_file(buf, f.name.as_str(), offset, tf);
        },
        Ok(Entry::Dir(d)) => {
            let vfat = match fs.vfat() {
                Some(v) => v,
                None => {
                    return;
                },
            };
            let mut it = match d.entries(vfat) {
                Ok(it) => it,
                Err(_) => {
                    return;
                },
            };
            let ghost bytes = it@.bytes;
            let ghost n = entry_count(bytes);
            proof {
                it.lemma_bounds();
                lemma_count_regular_bounds(bytes, n, 0);
                assert(n <= usize::MAX / 32);
            }
            if offset != 0 {
                match it.seek(SeekFrom::Start(offset)) {
                    Ok(_) => {},
                    Err(e) => {
                        set_status(tf, OsError::from_io(e));
                        return;
                    },
                }
            }
            let ghost q = it@.idx;
            assert(dents_start(bytes, offset) == Some(q));
            let es = next_entries(&mut it, k);
            let ghost vs = visits(bytes, n, q, k as nat);
            proof {
                lemma_visits_len(bytes, n, q, k as nat);
            }
            fill_dents(buf, &es, Ghost(bytes), Ghost(vs), Ghost(vfat@.cluster_size()));
            set_value_ok(tf, es.len() as u64);
        },
    }
}

/// What a `read` leaves to the caller.
pub enum ReadOutcome {
    /// Nothing: the registers hold the result.
    Done,
    /// A byte is to be read from the console into the buffer.
    Console,
    /// These bytes are to be copied to the buffer; the registers hold their
    /// number.
    Bytes(Vec<u8>),
}

/// `read(idx, va, len)`: an empty read returns 0; a buffer outside user
/// space is `BadAddress`; the handle decides the rest: the console is left
/// to the caller, an open file (by its number in `files`) is read at its
/// position, anything else is refused.
///
/// Panics (excluded by the precondition) if the call reads and the calling process is
/// not queued, or the file cannot be read (see [`read_ok`]).
pub fn sys_read_exec(
    scheduler: &Scheduler,
    vfat: &VFat,
    files: &mut Vec<File>,
    idx: u64,
    va: u64,
    len: u64,
    tf: &mut TrapFrame,
) -> (r: ReadOutcome)
    requires
        len <= usize::MAX,
        len != 0 ==> queued(scheduler@, old(tf).tpidr),
        len != 0 && user_range(va, len) ==> (handle_target(current(scheduler@, old(tf).tpidr).handles@, idx) matches Ok(
            IoTarget::File(k),
        ) ==> k < old(files)@.len() && read_ok(old(files)@[k as int], vfat@, len as int)),
    ensures
        final(files)@.len() == old(files)@.len(),
        !(len != 0 && user_range(va, len) && handle_target(current(scheduler@, old(tf).tpidr).handles@, idx) is Ok)
            ==> r is Done && final(files)@ == old(files)@ && (len == 0 ==> with_value_status(*old(tf), *final(tf), 0, 1))
            && (len != 0 && !user_range(va, len) ==> with_status(*old(tf), *final(tf), 50)) && (len != 0 && user_range(
            va,
            len,
        ) ==> target_chosen(
            handle_target(current(scheduler@, old(tf).tpidr).handles@, idx),
            *old(tf),
            *final(tf),
            IoTarget::Done,
        )),
        len != 0 && user_range(va, len) ==> match handle_target(current(scheduler@, old(tf).tpidr).handles@, idx) {
            Ok(IoTarget::Console) => r is Console && final(files)@ == old(files)@ && *final(tf) == *old(tf),
            Ok(IoTarget::File(k)) => {
                let f0 = old(files)@[k as int];
                &&& final(files)@ == old(files)@.update(k as int, final(files)@[k as int])
                &&& match read_error(f0, vfat@, len as int) {
                    Some(e) => r is Done && final(files)@[k as int] == f0 && with_status(
                        *old(tf),
                        *final(tf),
                        os_error_code(os_error_from_io_spec(e)),
                    ),
                    None => r matches ReadOutcome::Bytes(b) && file_read(
                        f0,
                        final(files)@[k as int],
                        vfat@,
                        len as int,
                        Ok(b),
                    ) && with_value_status(*old(tf), *final(tf), b@.len() as u64, 1),
                }
            },
            _ => true,
        },
{
    let ghost ht = handle_target(current(scheduler@, tf.tpidr).handles@, idx);
    let ghost tf0 = *tf;
    let target = sys_read_target(scheduler, idx, va, len, tf);
    proof {
        if len != 0 && user_range(va, len) {
            assert(target_chosen(ht, tf0, *tf, target));
        }
    }
    match target {
        IoTarget::Done => {
            assert(!(len != 0 && user_range(va, len)) || ht is Err);
            ReadOutcome::Done
        },
        IoTarget::Console => ReadOutcome::Console,
        IoTarget::File(k) => {
            assert(ht == Ok::<IoTarget, crate::kernel_api::OsError>(IoTarget::File(k)));
            let nfiles = files.len();
            let kk = k as usize;
            let ghost before = files@;
            assert(k < nfiles);
            let mut f = files.remove(kk);
            let res = f.read(vfat, len as usize);
            files.insert(kk, f);
            assert(files@ =~= before.update(kk as int, files@[kk as int]));
            match res {
                Ok(b) => {
                    set_value_ok(tf, b.len() as u64);
                    ReadOutcome::Bytes(b)
                },
                Err(e) => {
                    set_status(tf, OsError::from_io(e));
                    ReadOutcome::Done
                },
            }
        },
    }
}

/// `write(idx, va, len)` once the `len` bytes at `va` were copied from user
/// memory (when they lie in user space): an empty write returns 0; a
/// buffer outside user space is `BadAddress`; the handle decides the rest.
/// Text for the console is returned to be printed when it is UTF-8 (else
/// `Utf8Error`); an open file (by its number in `files`) is written at its
/// position; anything else is refused.
///
/// Panics (excluded by the precondition) if the call writes and the calling process
/// is not queued, or the file cannot take the bytes (see [`write_ok`]).
pub fn sys_write_exec<'a>(
    scheduler: &Scheduler,
    vfat: &mut VFat,
    files: &mut Vec<File>,
    idx: u64,
    va: u64,
    len: u64,
    bytes: &'a [u8],
    tf: &mut TrapFrame,
) -> (r: Option<&'a str>)
    requires
        len != 0 && user_range(va, len) ==> queued(scheduler@, old(tf).tpidr) && bytes@.len() == len,
        len != 0 && user_range(va, len) ==> (handle_target(current(scheduler@, old(tf).tpidr).handles@, idx) matches Ok(
            IoTarget::File(k),
        ) ==> k < old(files)@.len() && write_ok(old(files)@[k as int], old(vfat)@, bytes@)),
    ensures
        final(files)@.len() == old(files)@.len(),
        !(len != 0 && user_range(va, len) && handle_target(current(scheduler@, old(tf).tpidr).handles@, idx) is Ok)
            ==> r is None && final(files)@ == old(files)@ && final(vfat)@ == old(vfat)@ && (len == 0
            ==> with_value_status(*old(tf), *final(tf), 0, 1)) && (len != 0 && !user_range(va, len) ==> with_status(
            *old(tf),
            *final(tf),
            50,
        )) && (len != 0 && user_range(va, len) ==> target_chosen(
            handle_target(current(scheduler@, old(tf).tpidr).handles@, idx),
            *old(tf),
            *final(tf),
            IoTarget::Done,
        )),
        len != 0 && user_range(va, len) ==> match handle_target(current(scheduler@, old(tf).tpidr).handles@, idx) {
            Ok(IoTarget::Console) => final(files)@ == old(files)@ && final(vfat)@ == old(vfat)@ && if valid_utf8(
                bytes@,
            ) {
                r matches Some(s) && s.spec_bytes() == bytes@ && with_value_status(
                    *old(tf),
                    *final(tf),
                    len,
                    1,
                )
            } else {
                r is None && with_status(*old(tf), *final(tf), 2)
            },
            Ok(IoTarget::File(k)) => {
                let f0 = old(files)@[k as int];
                let res = write_outcome(f0, old(vfat)@, bytes@);
                &&& r is None
                &&& final(vfat)@.wf()
                &&& final(files)@ == old(files)@.update(k as int, final(files)@[k as int])
                &&& file_written(f0, final(files)@[k as int], old(vfat)@, final(vfat)@, bytes@, res)
                &&& match res {
                    Ok(n) => with_value_status(*old(tf), *final(tf), n as u64, 1),
                    Err(e) => with_status(*old(tf), *final(tf), os_error_code(os_error_from_io_spec(e))),
                }
            },
            _ => true,
        },
{
    let ghost ht = handle_target(current(scheduler@, tf.tpidr).handles@, idx);
    let ghost tf0 = *tf;
    let target = sys_write_target(scheduler, idx, va, len, tf);
    proof {
        if len != 0 && user_range(va, len) {
            assert(target_chosen(ht, tf0, *tf, target));
        }
    }
    match target {
        IoTarget::Done => {
            assert(!(len != 0 && user_range(va, len)) || ht is Err);
            None
        },
        IoTarget::Console => console_write(bytes, tf),
        IoTarget::File(k) => {
            assert(ht == Ok::<IoTarget, crate::kernel_api::OsError>(IoTarget::File(k)));
            let nfiles = files.len();
            let kk = k as usize;
            let ghost before = files@;
            assert(k < nfiles);
            let mut f = files.remove(kk);
            let res = f.write(vfat, bytes);
            files.insert(kk, f);
            assert(files@ =~= before.update(kk as int, files@[kk as int]));
            match res {
                Ok(n) => set_value_ok(tf, n as u64),
                Err(e) => set_status(tf, OsError::from_io(e)),
            }
            None
        },
    }
}

} // verus!
