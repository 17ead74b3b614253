//! The kernel shell's commands that read the file system: `cd`, `ls` and
//! `cat`.

use vstd::prelude::*;

verus! {

use crate::command::{
    StdOut, StdErr, ParseError, args_view, ascii_args, ascii_seq, parse_spec, echo_text, lemma_parse_ascii,
};
use crate::fat32::dir::{Dir, Entry, VFatLfnDirEntry, entry_count, regular_at, entry_name_spec};
use crate::fat32::lookup::{
    open_kind, opened, opened_cluster, open_ok, dir_bytes, visits, visit_names_ok, next_entries, walk, components,
    entry_described, lemma_opened_kind,
};
use crate::fat32::volume::VFatView;
use crate::kern::fs::FileSystem;
use crate::kern::listing::{
    ListEntry, ListItem, list_dir, list_file, dir_listing, file_listing, visible, stamps_ok,
};
use crate::kern::shell::{
    Command, LsFlags, LsArgError, LsArgErrorSpec, ls_args, ls_args_spec, ls_error_message, ls_missing, cd_target,
    cd_finish, set_working_dir, CatOutcome, cat_step, Builtin, builtin_spec, builtin_of, echo_exec, pwd_exec,
    unknown_exec, parse_error_message, is_ascii_bytes, MAX_ARGS,
};
use crate::fat32::cluster::{Cluster, cluster_of};
use crate::fat32::file::{read_along, runs_off};
use vstd::utf8::valid_utf8;
use crate::kernel_api::IoErrorKind;
use crate::path::{render, resolve, parse_path};
use crate::text::string_push;
use vstd::string::StringSliceAdditionalSpecFns;
use vstd::utf8::encode_utf8;

/// The argument `cd` goes to: the one given, or `/`.
pub open spec fn cd_arg(args: Seq<Seq<u8>>) -> Seq<u8> {
    if args.len() == 2 {
        args[1]
    } else {
        seq![0x2fu8]
    }
}

/// What `cd` to the path `target`, named `arg` on the command line, does
/// to the working directory (from `cwd0` to `cwd1`) and answers, when
/// opening the path found `opened`.
pub open spec fn cd_outcome(
    cwd0: Seq<u8>,
    cwd1: Seq<u8>,
    target: Seq<u8>,
    arg: Seq<u8>,
    opened: Result<bool, IoErrorKind>,
    r: Result<StdOut, StdErr>,
) -> bool {
    match opened {
        Err(_) => cwd1 == cwd0 && (r matches Err(e) && e.code == 1 && e.result@
            == "cd: no such file or directory: ".spec_bytes() + arg + seq![0x0au8]),
        Ok(false) => cwd1 == cwd0 && (r matches Err(e) && e.code == 1 && e.result@
            == "cd: not a directory: ".spec_bytes() + arg + seq![0x0au8]),
        Ok(true) => cwd1 == target && (r matches Ok(o) && o.code == 0 && o.result@ == Seq::<u8>::empty()),
    }
}

/// `cd`: with more than one argument an error; otherwise the path (`/`
/// without an argument) is resolved against the working directory and, if
/// it names a directory, becomes the working directory.
pub fn cd_exec(fs: &FileSystem, cmd: &Command, cwd: &mut Vec<u8>) -> (r: Result<StdOut, StdErr>)
    requires
        cmd.args@.len() <= 2 && fs.mounted() ==> open_ok(
            fs.mounted_volume()@,
            render(resolve(parse_path(old(cwd)@), cd_arg(args_view(cmd.args@)))),
        ),
    ensures
        cmd.args@.len() > 2 ==> final(cwd)@ == old(cwd)@ && (r matches Err(e) && e.code == 1 && e.result@
            == "cd: too many arguments".spec_bytes() + seq![0x0au8]),
        cmd.args@.len() <= 2 ==> {
            let arg = cd_arg(args_view(cmd.args@));
            let target = render(resolve(parse_path(old(cwd)@), arg));
            cd_outcome(old(cwd)@, final(cwd)@, target, arg, fs.open_kind(target), r)
        },
        shown(r) == (cd_result(fs, args_view(cmd.args@), old(cwd)@).0, cd_result(fs, args_view(cmd.args@), old(cwd)@).1),
        final(cwd)@ == cd_result(fs, args_view(cmd.args@), old(cwd)@).2,
{
    proof {
        reveal(cd_result);
    }
    let (target, arg) = match cd_target(cmd, cwd.as_slice()) {
        Ok(t) => t,
        Err(e) => {
            return Err(e);
        },
    };
    let opened = fs.open(target.as_slice());
    proof {
        if fs.mounted() {
            lemma_opened_kind(fs.mounted_volume()@, target@, opened);
        }
    }
    let kind = match opened {
        Ok(Entry::Dir(_)) => Ok(true),
        Ok(Entry::File(_)) => Ok(false),
        Err(e) => Err(e),
    };
    assert(kind == fs.open_kind(target@));
    cd_finish(cwd, target, arg.as_slice(), kind)
}

/// What a listing shows of the entry visited as `t` among raw entries `b`:
/// a directory's name ends with `/`.
pub open spec fn item_of(b: Seq<u8>, t: (int, Seq<VFatLfnDirEntry>)) -> ListItem {
    let reg = regular_at(b, 32 * t.0);
    let name = entry_name_spec(b, t.0, t.1);
    ListItem {
        name: if reg.is_dir_spec() { name.push('/') } else { name },
        metadata: reg.metadata_spec(),
        size: reg.file_size as usize,
    }
}

/// The items `ls` shows for a directory with raw entries `b`: all entries
/// iterating visits.
pub open spec fn listed_items(b: Seq<u8>) -> Seq<ListItem> {
    let vs = visits(b, entry_count(b), 0, entry_count(b) as nat);
    Seq::new(vs.len(), |i: int| item_of(b, vs[i]))
}

/// The item `ls` shows for the file that opening `path` on `v` finds.
pub open spec fn file_item(v: VFatView, path: Seq<u8>) -> ListItem {
    let t = walk(v, v.rootdir_cluster.0, components(path))->Ok_0;
    item_of(t.0, (t.1, t.2))
}

/// The raw entries of the directory that opening `path` on `v` finds.
pub open spec fn listed_bytes(v: VFatView, path: Seq<u8>) -> Seq<u8> {
    dir_bytes(v, opened_cluster(v, path))->Ok_0
}

/// The directory that opening `path` on `v` finds can be listed with
/// `flags`: its chain holds data, ends and fits in memory, it can be read,
/// its short names are UTF-8, and what the listing shows fits.
pub open spec fn dir_listable(v: VFatView, path: Seq<u8>, flags: LsFlags) -> bool {
    let c = opened_cluster(v, path);
    let b = dir_bytes(v, c)->Ok_0;
    let items = listed_items(b);
    &&& c >= 2
    &&& v.chain_ends(c)
    &&& (v.chain(c).0.len() + 1) * v.cluster_size() <= usize::MAX
    &&& dir_bytes(v, c) is Ok
    &&& visit_names_ok(b, entry_count(b), 0, entry_count(b) as nat)
    &&& forall|i: int| 0 <= i < items.len() ==> encode_utf8((#[trigger] items[i]).name).len() + 2 <= usize::MAX
    &&& flags.long ==> forall|i: int|
        0 <= i < items.len() && visible(items[i], flags.show_hidden) ==> stamps_ok(#[trigger] items[i])
}

/// `ls` can run on the resolved path `path` with `flags`.
#[verifier::opaque]
pub open spec fn ls_ok(fs: &FileSystem, path: Seq<u8>, flags: LsFlags) -> bool {
    fs.mounted() ==> {
        let v = fs.mounted_volume()@;
        &&& open_ok(v, path)
        &&& open_kind(v, path) == Ok::<bool, IoErrorKind>(true) ==> dir_listable(v, path, flags)
        &&& open_kind(v, path) == Ok::<bool, IoErrorKind>(false) ==> (flags.long && visible(
            file_item(v, path),
            flags.show_hidden,
        ) ==> stamps_ok(file_item(v, path)))
    }
}

/// The message of a refused `ls` argument.
pub open spec fn ls_error_text(e: LsArgErrorSpec) -> Seq<u8> {
    match e {
        LsArgErrorSpec::InvalidLong(w) => "ls: invalid option: --".spec_bytes() + w + seq![0x0au8],
        LsArgErrorSpec::InvalidShort(c) => "ls: invalid option: -".spec_bytes() + seq![c] + seq![0x0au8],
        LsArgErrorSpec::TooManyArgs => "ls: too many arguments".spec_bytes() + seq![0x0au8],
    }
}

/// Builds the listing items of the entries `es`.
fn list_entries(es: &Vec<Entry>, Ghost(b): Ghost<Seq<u8>>, Ghost(vs): Ghost<Seq<(int, Seq<VFatLfnDirEntry>)>>, Ghost(
    bpc,
): Ghost<int>) -> (r: Vec<ListEntry>)
    requires
        es@.len() == vs.len(),
        forall|i: int| 0 <= i < vs.len() ==> entry_described(#[trigger] es@[i], b, vs[i].0, vs[i].1, bpc),
    ensures
        r@.len() == vs.len(),
        forall|i: int| 0 <= i < vs.len() ==> (#[trigger] r@[i])@ == item_of(b, vs[i]),
{
    let mut out: Vec<ListEntry> = Vec::new();
    let n = es.len();
    let mut i: usize = 0;
    while i < n
        invariant
            n == es@.len(),
            es@.len() == vs.len(),
            i <= n,
            out@.len() == i,
            forall|j: int| 0 <= j < vs.len() ==> entry_described(#[trigger] es@[j], b, vs[j].0, vs[j].1, bpc),
            forall|j: int| 0 <= j < i ==> (#[trigger] out@[j])@ == item_of(b, vs[j]),
        decreases n - i,
    {
        assert(entry_described(es@[i as int], b, vs[i as int].0, vs[i as int].1, bpc));
        let item = match &es[i] {
            Entry::File(f) => ListEntry { name: f.name.clone(), metadata: f.metadata, size: f.size },
            Entry::Dir(d) => {
                let mut name = d.name.clone();
                string_push(&mut name, '/');
                ListEntry { name, metadata: d.metadata, size: d.size }
            },
        };
        assert(item@ == item_of(b, vs[i as int]));
        out.push(item);
        i = i + 1;
    }
    out
}

/// `ls [-a] [-h] [-l] [path]`: lists the directory the path (`.` by
/// default) names, resolved against the working directory, or the file it
/// names; a path that names nothing is an error, and so is a refused
/// argument.
///
/// Panics (excluded by the precondition) when the directory cannot be listed (see
/// [`ls_ok`]).
pub fn ls_exec(fs: &FileSystem, cmd: &Command, cwd: &[u8]) -> (r: Result<StdOut, StdErr>)
    requires
        ascii_args(args_view(cmd.args@)),
        ls_args_spec(args_view(cmd.args@)) matches Ok((f, path)) ==> ls_ok(
            fs,
            render(resolve(parse_path(cwd@), path)),
            f,
        ),
    ensures
        match ls_args_spec(args_view(cmd.args@)) {
            Err(e) => r matches Err(se) && se.code == 1 && se.result@ == ls_error_text(e),
            Ok((f, path)) => {
                let p = render(resolve(parse_path(cwd@), path));
                match fs.open_kind(p) {
                    Err(_) => r matches Err(se) && se.code == 1 && se.result@
                        == "ls: no such file or directory: ".spec_bytes() + path + seq![0x0au8],
                    Ok(true) => r matches Ok(o) && o.code == 0 && o.result@ == dir_listing(
                        listed_items(listed_bytes(fs.mounted_volume()@, p)),
                        f,
                    ),
                    Ok(false) => r matches Ok(o) && o.code == 0 && o.result@ == file_listing(
                        file_item(fs.mounted_volume()@, p),
                        f,
                    ),
                }
            },
        },
        shown(r) == ls_result(fs, args_view(cmd.args@), cwd@),
{
    proof {
        reveal(ls_result);
        reveal(ls_ok);
    }
    let (flags, path) = match ls_args(cmd) {
        Ok(t) => t,
        Err(e) => {
            let se = ls_error_message(&e);
            return Err(se);
        },
    };
    let target = set_working_dir(path.as_slice(), cwd);
    let opened = fs.open(target.as_slice());
    proof {
        if fs.mounted() {
            lemma_opened_kind(fs.mounted_volume()@, target@, opened);
        }
    }
    match opened {
        Err(_) => Err(ls_missing(path.as_slice())),
        Ok(Entry::File(f)) => {
            let item = ListEntry { name: f.name.clone(), metadata: f.metadata, size: f.size };
            Ok(StdOut { result: list_file(&item, flags), code: 0 })
        },
        Ok(Entry::Dir(d)) => {
            let out = ls_dir(fs, &d, flags, Ghost(target@));
            Ok(StdOut { result: out, code: 0 })
        },
    }
}

/// The listing of directory `d`, which opening `path` found.
fn ls_dir(fs: &FileSystem, d: &Dir, flags: LsFlags, Ghost(path): Ghost<Seq<u8>>) -> (r: Vec<u8>)
    requires
        fs.mounted(),
        open_kind(fs.mounted_volume()@, path) == Ok::<bool, IoErrorKind>(true),
        d.first_cluster.0 == opened_cluster(fs.mounted_volume()@, path),
        dir_listable(fs.mounted_volume()@, path, flags),
        fs.mounted_volume()@.wf(),
    ensures
        r@ == dir_listing(listed_items(listed_bytes(fs.mounted_volume()@, path)), flags),
{
    let vfat = match fs.vfat() {
        Some(v) => v,
        None => {
            return Vec::new();
        },
    };
    let mut it = match d.entries(vfat) {
        Ok(it) => it,
        Err(_) => {
            return Vec::new();
        },
    };
    let ghost b = it@.bytes;
    assert(b == listed_bytes(fs.mounted_volume()@, path));
    proof {
        it.lemma_bounds();
    }
    let n = it.raw_count();
    let es = next_entries(&mut it, n);
    let ghost vs = visits(b, entry_count(b), 0, entry_count(b) as nat);
    let items = list_entries(&es, Ghost(b), Ghost(vs), Ghost(vfat@.cluster_size()));
    assert(items@.map_values(|e: ListEntry| e@) =~= listed_items(b));
    assert forall|i: int| 0 <= i < items@.len() implies encode_utf8((#[trigger] items@[i]).name@).len() + 2
        <= usize::MAX by {
        assert(items@[i]@ == listed_items(b)[i]);
    }
    assert forall|i: int| 0 <= i < items@.len() && flags.long && visible(items@[i]@, flags.show_hidden) implies stamps_ok(
        (#[trigger] items@[i])@,
    ) by {
        assert(items@[i]@ == listed_items(b)[i]);
    }
    list_dir(&items, flags)
}

/// What looking up and reading one argument of `cat` gives.
pub enum CatRead {
    /// The path names nothing (or no volume is mounted).
    Missing,
    /// The path names a directory.
    IsDir,
    /// Reading the file failed.
    Unreadable,
    /// The file's bytes.
    Content(Seq<u8>),
}

/// The file that opening `path` on `v` finds: its first cluster and size.
pub open spec fn opened_file(v: VFatView, path: Seq<u8>) -> (u32, int) {
    let t = walk(v, v.rootdir_cluster.0, components(path))->Ok_0;
    let reg = regular_at(t.0, 32 * t.1);
    (cluster_of(reg.cluster_spec()), reg.file_size as int)
}

/// What `cat` finds at the resolved path `path`: reading a file takes all
/// of its bytes along its chain.
pub open spec fn cat_read(fs: &FileSystem, path: Seq<u8>) -> CatRead {
    if !fs.mounted() {
        CatRead::Missing
    } else {
        let v = fs.mounted_volume()@;
        match open_kind(v, path) {
            Err(_) => CatRead::Missing,
            Ok(true) => CatRead::IsDir,
            Ok(false) => {
                let (c, size) = opened_file(v, path);
                let t = read_along(v, Some(Cluster(c)), 0, size);
                if t.error is Some {
                    CatRead::Unreadable
                } else {
                    CatRead::Content(t.bytes)
                }
            },
        }
    }
}

/// `cat` can open and read the resolved path `path`: the walk can be made,
/// and a file's chain holds its size.
pub open spec fn cat_readable(fs: &FileSystem, path: Seq<u8>) -> bool {
    fs.mounted() ==> {
        let v = fs.mounted_volume()@;
        &&& open_ok(v, path)
        &&& open_kind(v, path) == Ok::<bool, IoErrorKind>(false) ==> {
            let (c, size) = opened_file(v, path);
            !runs_off(v, Some(Cluster(c)), 0, size)
        }
    }
}

/// `o` is the outcome `c` describes.
pub open spec fn outcome_is(o: CatOutcome, c: CatRead) -> bool {
    match (o, c) {
        (CatOutcome::Missing, CatRead::Missing) => true,
        (CatOutcome::IsDir, CatRead::IsDir) => true,
        (CatOutcome::Unreadable, CatRead::Unreadable) => true,
        (CatOutcome::Content(b), CatRead::Content(s)) => b@ == s,
        _ => false,
    }
}

/// Looks up and reads one argument of `cat`, resolved to `path`.
fn cat_open(fs: &FileSystem, path: &[u8]) -> (r: CatOutcome)
    requires
        cat_readable(fs, path@),
    ensures
        outcome_is(r, cat_read(fs, path@)),
{
    let opened = fs.open(path);
    proof {
        if fs.mounted() {
            lemma_opened_kind(fs.mounted_volume()@, path@, opened);
        }
    }
    match opened {
        Err(_) => CatOutcome::Missing,
        Ok(Entry::Dir(_)) => CatOutcome::IsDir,
        Ok(Entry::File(f)) => {
            let mut f = f;
            let vfat = match fs.vfat() {
                Some(v) => v,
                None => {
                    return CatOutcome::Missing;
                },
            };
            proof {
                assert(vfat@.cluster_size() > 0) by (nonlinear_arith)
                    requires
                        vfat@.bytes_per_sector > 0,
                        vfat@.sectors_per_cluster > 0,
                ;
                assert(f.offset == 0 && f.bytes_per_cluster > 0);
                assert(f.offset % f.bytes_per_cluster == 0) by (nonlinear_arith)
                    requires
                        f.offset == 0,
                        f.bytes_per_cluster > 0,
                ;
            }
            let size = f.size;
            match f.read(vfat, size) {
                Ok(bytes) => CatOutcome::Content(bytes),
                Err(_) => CatOutcome::Unreadable,
            }
        },
    }
}

/// What `cat` adds to the text `acc` for argument `arg` that gave `c`, and
/// whether it goes on.
pub open spec fn cat_text(acc: Seq<u8>, arg: Seq<u8>, c: CatRead) -> (Seq<u8>, bool) {
    match c {
        CatRead::Missing => (acc + "cat: ".spec_bytes() + arg + " no such fhe or directory".spec_bytes() + seq![
            0x0au8,
        ], false),
        CatRead::IsDir => (acc + "cat: ".spec_bytes() + arg + ": is a directory".spec_bytes() + seq![0x0au8], false),
        CatRead::Unreadable => (acc + "cat: ".spec_bytes() + arg + ": file could not be opened".spec_bytes() + seq![
            0x0au8,
        ], false),
        CatRead::Content(b) => if valid_utf8(b) {
            (acc + b + seq![0x0au8], true)
        } else {
            (acc + "cat: ".spec_bytes() + arg + ": file not valid UTF-8".spec_bytes() + seq![0x0au8], false)
        },
    }
}

/// The text of `cat` for arguments `args[i..]` after the text `acc`, and
/// whether every one was printed.
pub open spec fn cat_run(fs: &FileSystem, cwd: Seq<u8>, args: Seq<Seq<u8>>, i: int, acc: Seq<u8>) -> (Seq<u8>, bool)
    decreases args.len() - i,
{
    if i < 0 || i >= args.len() {
        (acc, true)
    } else {
        let t = cat_text(acc, args[i], cat_read(fs, render(resolve(parse_path(cwd), args[i]))));
        if t.1 {
            cat_run(fs, cwd, args, i + 1, t.0)
        } else {
            t
        }
    }
}

/// Every argument `cat` reaches from `args[i]` on can be read.
pub open spec fn cat_ok(fs: &FileSystem, cwd: Seq<u8>, args: Seq<Seq<u8>>, i: int) -> bool
    decreases args.len() - i,
{
    if i < 0 || i >= args.len() {
        true
    } else {
        let p = render(resolve(parse_path(cwd), args[i]));
        &&& cat_readable(fs, p)
        &&& (cat_read(fs, p) matches CatRead::Content(b) && valid_utf8(b) ==> cat_ok(fs, cwd, args, i + 1))
    }
}

/// `cat path...`: prints each file, resolved against the working
/// directory, followed by a newline; stops with an error at a path that
/// names nothing or a directory, a file that cannot be read, or one that is
/// not UTF-8.
pub fn cat_exec(fs: &FileSystem, cmd: &Command, cwd: &[u8]) -> (r: Result<StdOut, StdErr>)
    requires
        cat_ok(fs, cwd@, args_view(cmd.args@), 1),
    ensures
        ({
            let (out, ok) = cat_run(fs, cwd@, args_view(cmd.args@), 1, Seq::empty());
            if ok {
                r matches Ok(o) && o.code == 0 && o.result@ == out
            } else {
                r matches Err(e) && e.code == 1 && e.result@ == out
            }
        }),
        shown(r) == cat_result(fs, args_view(cmd.args@), cwd@),
{
    proof {
        reveal(cat_result);
    }
    let ghost a = args_view(cmd.args@);
    let mut result: Vec<u8> = Vec::new();
    let n = cmd.args.len();
    let mut i: usize = 1;
    while i < n
        invariant
            n == cmd.args@.len(),
            a == args_view(cmd.args@),
            1 <= i,
            cat_run(fs, cwd@, a, i as int, result@) == cat_run(fs, cwd@, a, 1, Seq::empty()),
            cat_ok(fs, cwd@, a, i as int),
        decreases n - i,
    {
        let arg = cmd.args[i].as_slice();
        assert(arg@ == a[i as int]);
        let target = set_working_dir(arg, cwd);
        let outcome = cat_open(fs, target.as_slice());
        let ghost c = cat_read(fs, target@);
        let ghost before = result@;
        let ok = cat_step(&mut result, arg, outcome);
        assert((result@, ok) == cat_text(before, arg@, c));
        if !ok {
            proof {
                reveal(cat_result);
            }
            return Err(StdErr { result, code: 1 });
        }
        i = i + 1;
    }
    Ok(StdOut { result, code: 0 })
}

/// The text a command's outcome shows and the status it ends with.
pub open spec fn shown(r: Result<StdOut, StdErr>) -> (Seq<u8>, u8) {
    match r {
        Ok(o) => (o.result@, o.code),
        Err(e) => (e.result@, e.code),
    }
}

/// What `cd` with arguments `args` shows, the status it ends with, and the
/// working directory afterwards (from `cwd`).
#[verifier::opaque]
pub open spec fn cd_result(fs: &FileSystem, args: Seq<Seq<u8>>, cwd: Seq<u8>) -> (Seq<u8>, u8, Seq<u8>) {
    if args.len() > 2 {
        ("cd: too many arguments".spec_bytes() + seq![0x0au8], 1, cwd)
    } else {
        let arg = cd_arg(args);
        let target = render(resolve(parse_path(cwd), arg));
        match fs.open_kind(target) {
            Err(_) => ("cd: no such file or directory: ".spec_bytes() + arg + seq![0x0au8], 1, cwd),
            Ok(false) => ("cd: not a directory: ".spec_bytes() + arg + seq![0x0au8], 1, cwd),
            Ok(true) => (Seq::empty(), 0, target),
        }
    }
}

/// What `ls` with arguments `args` in working directory `cwd` shows and
/// the status it ends with.
#[verifier::opaque]
pub open spec fn ls_result(fs: &FileSystem, args: Seq<Seq<u8>>, cwd: Seq<u8>) -> (Seq<u8>, u8) {
    match ls_args_spec(args) {
        Err(e) => (ls_error_text(e), 1),
        Ok((f, path)) => {
            let p = render(resolve(parse_path(cwd), path));
            match fs.open_kind(p) {
                Err(_) => ("ls: no such file or directory: ".spec_bytes() + path + seq![0x0au8], 1),
                Ok(true) => (dir_listing(listed_items(listed_bytes(fs.mounted_volume()@, p)), f), 0),
                Ok(false) => (file_listing(file_item(fs.mounted_volume()@, p), f), 0),
            }
        },
    }
}

/// What `cat` with arguments `args` in working directory `cwd` shows and
/// the status it ends with.
#[verifier::opaque]
pub open spec fn cat_result(fs: &FileSystem, args: Seq<Seq<u8>>, cwd: Seq<u8>) -> (Seq<u8>, u8) {
    let (out, ok) = cat_run(fs, cwd, args, 1, Seq::empty());
    (out, if ok { 0 } else { 1 })
}

/// What the kernel shell does with a line.
pub enum LineOutcome {
    /// A command ran: the text to print and the status it ended with.
    Ran(Vec<u8>, u8),
    /// The line is no command: the text to print (nothing for an empty
    /// line).
    Refused(Vec<u8>),
    /// The line asks the kernel to panic.
    Panic,
}

/// What the kernel shell does with a line, in the abstract: the text, the
/// status and the working directory afterwards; a refusal; or a panic.
pub enum LineResult {
    Ran(Seq<u8>, u8, Seq<u8>),
    Refused(Seq<u8>),
    Panic,
}

/// What the kernel shell does with `line` in working directory `cwd`.
pub open spec fn line_result(fs: &FileSystem, line: Seq<u8>, cwd: Seq<u8>) -> LineResult {
    match parse_spec(line, Some(MAX_ARGS)) {
        Err(ParseError::Empty) => LineResult::Refused(Seq::empty()),
        Err(ParseError::TooManyArgs) => LineResult::Refused("bwsh: too many arguments".spec_bytes() + seq![0x0au8]),
        Ok(args) => match builtin_spec(args[0]) {
            Builtin::Echo => LineResult::Ran(echo_text(args), 0, cwd),
            Builtin::Pwd => if args.len() != 1 {
                LineResult::Ran("pwd: too many arguments".spec_bytes() + seq![0x0au8], 1, cwd)
            } else {
                LineResult::Ran(cwd + seq![0x0au8], 0, cwd)
            },
            Builtin::Cd => {
                let (t, c, w) = cd_result(fs, args, cwd);
                LineResult::Ran(t, c, w)
            },
            Builtin::Ls => {
                let (t, c) = ls_result(fs, args, cwd);
                LineResult::Ran(t, c, cwd)
            },
            Builtin::Cat => {
                let (t, c) = cat_result(fs, args, cwd);
                LineResult::Ran(t, c, cwd)
            },
            Builtin::Panic => LineResult::Panic,
            Builtin::Unknown => LineResult::Ran(
                "bwsh: command not found: ".spec_bytes() + args[0] + seq![0x0au8],
                1,
                cwd,
            ),
        },
    }
}

/// The commands that read the file system can run on `line` in working
/// directory `cwd`.
pub open spec fn line_ok(fs: &FileSystem, line: Seq<u8>, cwd: Seq<u8>) -> bool {
    match parse_spec(line, Some(MAX_ARGS)) {
        Err(_) => true,
        Ok(args) => match builtin_spec(args[0]) {
            Builtin::Cd => args.len() <= 2 && fs.mounted() ==> open_ok(
                fs.mounted_volume()@,
                render(resolve(parse_path(cwd), cd_arg(args))),
            ),
            Builtin::Ls => ls_args_spec(args) matches Ok((f, path)) ==> ls_ok(
                fs,
                render(resolve(parse_path(cwd), path)),
                f,
            ),
            Builtin::Cat => cat_ok(fs, cwd, args, 1),
            _ => true,
        },
    }
}

/// Runs a line typed at the kernel shell: it is split into arguments and
/// the command its first argument names runs; `cd` may change the working
/// directory `cwd`.
///
/// Panics (excluded by the precondition) when a command that reads the file system
/// cannot run (see [`line_ok`]).
pub fn run_line(fs: &FileSystem, line: &[u8], cwd: &mut Vec<u8>) -> (r: LineOutcome)
    requires
        is_ascii_bytes(line@),
        line_ok(fs, line@, old(cwd)@),
    ensures
        match line_result(fs, line@, old(cwd)@) {
            LineResult::Ran(t, c, w) => r matches LineOutcome::Ran(out, code) && out@ == t && code == c
                && final(cwd)@ == w,
            LineResult::Refused(t) => r matches LineOutcome::Refused(out) && out@ == t && final(cwd)@ == old(cwd)@,
            LineResult::Panic => r is Panic && final(cwd)@ == old(cwd)@,
        },
{
    proof {
        lemma_parse_ascii(line@, 0, Seq::empty(), 0, false, Some(MAX_ARGS));
    }
    let cmd = match Command::parse(line, MAX_ARGS) {
        Ok(c) => c,
        Err(e) => {
            return LineOutcome::Refused(parse_error_message(e));
        },
    };
    let ghost args = args_view(cmd.args@);
    assert(args.len() > 0);
    let name = cmd.path();
    match builtin_of(name.as_slice()) {
        Builtin::Echo => {
            let o = echo_exec(&cmd);
            LineOutcome::Ran(o.result, o.code)
        },
        Builtin::Pwd => {
            let r = pwd_exec(&cmd, cwd.as_slice());
            match r {
                Ok(o) => LineOutcome::Ran(o.result, o.code),
                Err(e) => LineOutcome::Ran(e.result, e.code),
            }
        },
        Builtin::Cd => {
            let r = cd_exec(fs, &cmd, cwd);
            match r {
                Ok(o) => LineOutcome::Ran(o.result, o.code),
                Err(e) => LineOutcome::Ran(e.result, e.code),
            }
        },
        Builtin::Ls => {
            let r = ls_exec(fs, &cmd, cwd.as_slice());
            match r {
                Ok(o) => LineOutcome::Ran(o.result, o.code),
                Err(e) => LineOutcome::Ran(e.result, e.code),
            }
        },
        Builtin::Cat => {
            let r = cat_exec(fs, &cmd, cwd.as_slice());
            match r {
                Ok(o) => LineOutcome::Ran(o.result, o.code),
                Err(e) => LineOutcome::Ran(e.result, e.code),
            }
        },
        Builtin::Panic => LineOutcome::Panic,
        Builtin::Unknown => {
            let e = unknown_exec(&cmd);
            LineOutcome::Ran(e.result, e.code)
        },
    }
}

} // verus!
