//! Looking entries up by name: in one directory, and along an absolute
//! path from the root directory.
//!
//! Names are compared as the directory shows them, ignoring the case of
//! ASCII letters. Along a path, empty components and the components `.`
//! and `..` are skipped.

use vstd::prelude::*;

verus! {

use crate::fat32::cluster::{Cluster, cluster_of};
use crate::fat32::dir::{
    Dir, DirIterator, Entry, VFatLfnDirEntry, entry_count, ent_id, scan, regular_at, entry_name_spec, lemma_scan_bounds,
};
use crate::fat32::metadata::Metadata;
use crate::fat32::names::short_name_ok;
use crate::fat32::volume::{VFat, VFatView};
use crate::kernel_api::IoErrorKind;
use crate::text::str_from_utf8;
use vstd::utf8::{valid_utf8, encode_utf8};
use vstd::string::StringSliceAdditionalSpecFns;

/// The byte with an ASCII capital letter turned into its small letter.
pub open spec fn ascii_lower(c: u8) -> u8 {
    if 0x41 <= c <= 0x5a {
        (c + 0x20) as u8
    } else {
        c
    }
}

/// `a` and `b` are equal up to the case of ASCII letters.
pub open spec fn eq_ignore_ascii_case(a: Seq<u8>, b: Seq<u8>) -> bool {
    &&& a.len() == b.len()
    &&& forall|i: int| 0 <= i < a.len() ==> ascii_lower(#[trigger] a[i]) == ascii_lower(b[i])
}

/// Whether `a` and `b` are equal up to the case of ASCII letters.
pub fn bytes_eq_ignore_ascii_case(a: &[u8], b: &[u8]) -> (r: bool)
    ensures
        r == eq_ignore_ascii_case(a@, b@),
{
    if a.len() != b.len() {
        return false;
    }
    let n = a.len();
    let mut i: usize = 0;
    while i < n
        invariant
            n == a@.len(),
            n == b@.len(),
            i <= n,
            forall|k: int| 0 <= k < i ==> ascii_lower(#[trigger] a@[k]) == ascii_lower(b@[k]),
        decreases n - i,
    {
        let x = a[i];
        let y = b[i];
        let lx: u8 = if 0x41 <= x && x <= 0x5a { x + 0x20 } else { x };
        let ly: u8 = if 0x41 <= y && y <= 0x5a { y + 0x20 } else { y };
        if lx != ly {
            assert(ascii_lower(a@[i as int]) != ascii_lower(b@[i as int]));
            return false;
        }
        i = i + 1;
    }
    true
}

/// The entries a directory lists, as raw bytes: its cluster chain read in
/// full, or the error reading it gives.
pub open spec fn dir_bytes(v: VFatView, c: u32) -> Result<Seq<u8>, IoErrorKind> {
    let w = v.chain(c);
    let d = v.chain_data(w.0);
    match d.1 {
        Some(e) => Err(e),
        None => match w.1 {
            Some(e) => Err(e),
            None => Ok(d.0),
        },
    }
}

/// The first regular entry from entry `p` on, taken in the order the
/// directory is iterated, whose name matches `name`: where it stands and
/// the long-name entries before it.
pub open spec fn find_from(b: Seq<u8>, n: int, p: int, name: Seq<u8>) -> Option<(int, Seq<VFatLfnDirEntry>)>
    decreases n - p,
{
    if p < 0 || p >= n {
        None
    } else {
        let t = scan(b, n, p, Seq::empty());
        if t.0 >= n || ent_id(b, t.0) == 0 {
            None
        } else if eq_ignore_ascii_case(encode_utf8(entry_name_spec(b, t.0, t.1)), name) {
            Some(t)
        } else {
            proof {
                lemma_scan_bounds(b, n, p, Seq::empty());
            }
            find_from(b, n, t.0 + 1, name)
        }
    }
}

/// Every entry the search for `name` from entry `p` on passes has a name
/// that can be decoded (a short name must be UTF-8).
pub open spec fn find_names_ok(b: Seq<u8>, n: int, p: int, name: Seq<u8>) -> bool
    decreases n - p,
{
    if p < 0 || p >= n {
        true
    } else {
        let t = scan(b, n, p, Seq::empty());
        if t.0 >= n || ent_id(b, t.0) == 0 {
            true
        } else {
            let reg = regular_at(b, 32 * t.0);
            &&& t.1.len() == 0 ==> short_name_ok(reg.file_name@, reg.file_ext@)
            &&& !eq_ignore_ascii_case(encode_utf8(entry_name_spec(b, t.0, t.1)), name) ==> {
                proof {
                    lemma_scan_bounds(b, n, p, Seq::empty());
                }
                find_names_ok(b, n, t.0 + 1, name)
            }
        }
    }
}

/// What looking up `name` in the directory starting at cluster `c` finds:
/// the directory's raw entries, the position of the entry and its
/// long-name entries. A name that is not UTF-8 is `InvalidInput`, a name
/// not listed `NotFound`.
#[verifier::opaque]
pub open spec fn find_spec(v: VFatView, c: u32, name: Seq<u8>) -> Result<
    (Seq<u8>, int, Seq<VFatLfnDirEntry>),
    IoErrorKind,
> {
    if !valid_utf8(name) {
        Err(IoErrorKind::InvalidInput)
    } else {
        match dir_bytes(v, c) {
            Err(e) => Err(e),
            Ok(b) => match find_from(b, entry_count(b), 0, name) {
                Some(t) => Ok((b, t.0, t.1)),
                None => Err(IoErrorKind::NotFound),
            },
        }
    }
}

/// The directory at cluster `c` can be searched for `name`: its chain
/// holds data and ends, its size fits in memory, and the names the search
/// passes can be decoded.
pub open spec fn lookup_ok(v: VFatView, c: u32, name: Seq<u8>) -> bool {
    &&& c >= 2
    &&& v.chain_ends(c)
    &&& (v.chain(c).0.len() + 1) * v.cluster_size() <= usize::MAX
    &&& dir_bytes(v, c) matches Ok(b) ==> find_names_ok(b, entry_count(b), 0, name)
}

/// `e` is the entry that iterating raw entries `b` builds for the regular
/// entry at `p` after long-name entries `lfns`, on a volume whose clusters
/// hold `bpc` bytes.
pub open spec fn entry_described(e: Entry, b: Seq<u8>, p: int, lfns: Seq<VFatLfnDirEntry>, bpc: int) -> bool {
    let reg = regular_at(b, 32 * p);
    match e {
        Entry::Dir(d) => {
            &&& reg.is_dir_spec()
            &&& d.name@ == entry_name_spec(b, p, lfns)
            &&& d.metadata == reg.metadata_spec()
            &&& d.first_cluster.0 == cluster_of(reg.cluster_spec())
            &&& d.size == reg.file_size
        },
        Entry::File(f) => {
            &&& !reg.is_dir_spec()
            &&& f.name@ == entry_name_spec(b, p, lfns)
            &&& f.metadata == reg.metadata_spec()
            &&& f.first_cluster.0 == cluster_of(reg.cluster_spec())
            &&& f.size == reg.file_size
            &&& f.offset == 0
            &&& f.current_cluster == Some(f.first_cluster)
            &&& f.bytes_per_cluster == bpc
        },
    }
}

/// The name an entry shows.
pub open spec fn name_of(e: Entry) -> Seq<char> {
    match e {
        Entry::File(f) => f.name@,
        Entry::Dir(d) => d.name@,
    }
}

/// One step of a search: what the scan from entry `p` decides.
proof fn lemma_find_step(b: Seq<u8>, n: int, p: int, name: Seq<u8>)
    requires
        0 <= p <= n,
    ensures
        ({
            let t = scan(b, n, p, Seq::empty());
            &&& p <= t.0 <= n
            &&& t.0 >= n || ent_id(b, t.0) == 0 ==> find_from(b, n, p, name) is None
            &&& t.0 < n && ent_id(b, t.0) != 0 && eq_ignore_ascii_case(
                encode_utf8(entry_name_spec(b, t.0, t.1)),
                name,
            ) ==> find_from(b, n, p, name) == Some(t)
            &&& t.0 < n && ent_id(b, t.0) != 0 && !eq_ignore_ascii_case(
                encode_utf8(entry_name_spec(b, t.0, t.1)),
                name,
            ) ==> find_from(b, n, p, name) == find_from(b, n, t.0 + 1, name) && (find_names_ok(b, n, p, name)
                ==> find_names_ok(b, n, t.0 + 1, name))
            &&& find_names_ok(b, n, p, name) && t.0 < n && ent_id(b, t.0) != 0 && t.1.len() == 0
                ==> short_name_ok(regular_at(b, 32 * t.0).file_name@, regular_at(b, 32 * t.0).file_ext@)
        }),
{
    lemma_scan_bounds(b, n, p, Seq::empty());
}

impl Dir {
    /// Finds the entry named `name` in this directory, ignoring the case of
    /// ASCII letters. A name that is not UTF-8 is `InvalidInput`; a name
    /// that is not listed is `NotFound`; reading the directory can fail with
    /// its own error.
    ///
    /// Panics (excluded by the precondition) when an entry passed has a short name
    /// that is not UTF-8, or the directory starts at cluster 0 or 1; does
    /// not return (excluded by the precondition) when its chain goes round in a cycle.
    pub fn find(&self, vfat: &VFat, name: &[u8]) -> (r: Result<Entry, IoErrorKind>)
        requires
            vfat@.wf(),
            valid_utf8(name@) ==> lookup_ok(vfat@, self.first_cluster.0, name@),
        ensures
            match find_spec(vfat@, self.first_cluster.0, name@) {
                Err(e) => r == Err::<Entry, IoErrorKind>(e),
                Ok(t) => r matches Ok(e) && entry_described(e, t.0, t.1, t.2, vfat@.cluster_size()),
            },
            r matches Ok(Entry::File(f)) ==> f.parent_first_cluster == Some(self.first_cluster),
    {
        proof {
            reveal(find_spec);
        }
        match str_from_utf8(name) {
            Err(_) => {
                return Err(IoErrorKind::InvalidInput);
            },
            Ok(_) => {},
        }
        let mut it = match self.entries(vfat) {
            Ok(it) => it,
            Err(e) => {
                return Err(e);
            },
        };
        let ghost b = it@.bytes;
        let ghost n = entry_count(b);
        proof {
            it.lemma_bounds();
        }
        loop
            invariant
                vfat@.wf(),
                valid_utf8(name@),
                dir_bytes(vfat@, self.first_cluster.0) == Ok::<Seq<u8>, IoErrorKind>(b),
                n == entry_count(b),
                b.len() <= usize::MAX,
                it.wf(),
                it@.bytes == b,
                it@.bytes_per_cluster == vfat@.cluster_size(),
                0 <= it@.offset <= it@.idx <= n,
                find_from(b, n, it@.idx, name@) == find_from(b, n, 0, name@),
                find_names_ok(b, n, it@.idx, name@),
            decreases n - it@.idx,
        {
            let ghost p = it@.idx;
            let ghost t = scan(b, n, p, Seq::empty());
            proof {
                lemma_find_step(b, n, p, name@);
                assert(n <= usize::MAX / 32);
            }
            match it.next_entry() {
                None => {
                    proof {
                        reveal(find_spec);
                    }
                    return Err(IoErrorKind::NotFound);
                },
                Some(e) => {
                    proof {
                        it.lemma_bounds();
                    }
                    let matched = match &e {
                        Entry::File(f) => bytes_eq_ignore_ascii_case(f.name.as_str().as_bytes(), name),
                        Entry::Dir(d) => bytes_eq_ignore_ascii_case(d.name.as_str().as_bytes(), name),
                    };
                    assert(matched == eq_ignore_ascii_case(encode_utf8(entry_name_spec(b, t.0, t.1)), name@));
                    if matched {
                        proof {
                            reveal(find_spec);
                        }
                        let e = match e {
                            Entry::File(f) => Entry::File(crate::fat32::dir::File { parent_first_cluster: Some(self.first_cluster), ..f }),
                            Entry::Dir(d) => Entry::Dir(d),
                        };
                        return Ok(e);
                    }
                },
            }
        }
    }
}

/// The regular entries iterating from entry `p` on visits, at most `k` of
/// them: where each stands and the long-name entries before it.
pub open spec fn visits(b: Seq<u8>, n: int, p: int, k: nat) -> Seq<(int, Seq<VFatLfnDirEntry>)>
    decreases k,
{
    if k == 0 || p < 0 || p >= n {
        Seq::empty()
    } else {
        let t = scan(b, n, p, Seq::empty());
        if t.0 >= n || ent_id(b, t.0) == 0 {
            Seq::empty()
        } else {
            seq![t] + visits(b, n, t.0 + 1, (k - 1) as nat)
        }
    }
}

/// Every entry of those visits whose name is a short name has a short name
/// that is UTF-8.
pub open spec fn visit_names_ok(b: Seq<u8>, n: int, p: int, k: nat) -> bool
    decreases k,
{
    if k == 0 || p < 0 || p >= n {
        true
    } else {
        let t = scan(b, n, p, Seq::empty());
        if t.0 >= n || ent_id(b, t.0) == 0 {
            true
        } else {
            let reg = regular_at(b, 32 * t.0);
            &&& t.1.len() == 0 ==> short_name_ok(reg.file_name@, reg.file_ext@)
            &&& visit_names_ok(b, n, t.0 + 1, (k - 1) as nat)
        }
    }
}

/// Takes up to `k` entries from the iterator: those it visits, in order.
///
/// Panics (excluded by the precondition) when an entry visited has a short name that
/// is not UTF-8.
pub fn next_entries(it: &mut DirIterator, k: usize) -> (r: Vec<Entry>)
    requires
        old(it).wf(),
        visit_names_ok(old(it)@.bytes, entry_count(old(it)@.bytes), old(it)@.idx, k as nat),
        old(it)@.offset + entry_count(old(it)@.bytes) < u64::MAX,
    ensures
        final(it).wf(),
        final(it)@.bytes == old(it)@.bytes,
        final(it)@.bytes_per_cluster == old(it)@.bytes_per_cluster,
        ({
            let vs = visits(old(it)@.bytes, entry_count(old(it)@.bytes), old(it)@.idx, k as nat);
            &&& r@.len() == vs.len()
            &&& forall|i: int|
                0 <= i < vs.len() ==> entry_described(
                    #[trigger] r@[i],
                    old(it)@.bytes,
                    vs[i].0,
                    vs[i].1,
                    old(it)@.bytes_per_cluster,
                )
        }),
{
    let ghost b = it@.bytes;
    let ghost n = entry_count(b);
    let ghost p0 = it@.idx;
    let ghost o0 = it@.offset;
    let ghost all = visits(b, n, p0, k as nat);
    let ghost mut done: Seq<(int, Seq<VFatLfnDirEntry>)> = Seq::empty();
    let mut out: Vec<Entry> = Vec::new();
    let mut j: usize = 0;
    proof {
        it.lemma_bounds();
        assert(done + all =~= all);
    }
    while j < k
        invariant
            it.wf(),
            it@.bytes == b,
            b == old(it)@.bytes,
            it@.bytes_per_cluster == old(it)@.bytes_per_cluster,
            n == entry_count(b),
            0 <= p0,
            p0 == old(it)@.idx,
            all == visits(b, n, p0, k as nat),
            j <= k,
            0 <= it@.idx <= n,
            it@.offset <= o0 + (it@.idx - p0),
            p0 <= it@.idx,
            o0 + n < u64::MAX,
            done + visits(b, n, it@.idx, (k - j) as nat) == all,
            done.len() == j,
            out@.len() == j,
            forall|i: int| 0 <= i < j ==> entry_described(#[trigger] out@[i], b, done[i].0, done[i].1, it@.bytes_per_cluster),
            visit_names_ok(b, n, it@.idx, (k - j) as nat),
        decreases k - j,
    {
        let ghost p = it@.idx;
        let ghost t = scan(b, n, p, Seq::empty());
        proof {
            lemma_scan_bounds(b, n, p, Seq::empty());
        }
        match it.next_entry() {
            None => {
                assert(visits(b, n, p, (k - j) as nat) =~= Seq::<(int, Seq<VFatLfnDirEntry>)>::empty());
                assert(done + Seq::<(int, Seq<VFatLfnDirEntry>)>::empty() =~= done);
                return out;
            },
            Some(e) => {
                proof {
                    it.lemma_bounds();
                    assert(visits(b, n, p, (k - j) as nat) == seq![t] + visits(b, n, t.0 + 1, (k - j - 1) as nat));
                    assert(done.push(t) + visits(b, n, t.0 + 1, (k - j - 1) as nat) =~= done + visits(
                        b,
                        n,
                        p,
                        (k - j) as nat,
                    ));
                    done = done.push(t);
                }
                out.push(e);
                j = j + 1;
            },
        }
    }
    proof {
        assert(visits(b, n, it@.idx, 0) =~= Seq::<(int, Seq<VFatLfnDirEntry>)>::empty());
        assert(done + Seq::<(int, Seq<VFatLfnDirEntry>)>::empty() =~= done);
    }
    out
}

/// A path component the walk looks up: not empty, `.` or `..`.
pub open spec fn kept(c: Seq<u8>) -> bool {
    c.len() > 0 && c != seq![0x2eu8] && c != seq![0x2eu8, 0x2eu8]
}

/// The components of `p[i..]`, `cur` being the component read so far and
/// `acc` those before it.
pub open spec fn split_from(p: Seq<u8>, i: int, cur: Seq<u8>, acc: Seq<Seq<u8>>) -> Seq<Seq<u8>>
    decreases p.len() - i,
{
    if i < 0 || i >= p.len() {
        if kept(cur) { acc.push(cur) } else { acc }
    } else if p[i] == 0x2f {
        split_from(p, i + 1, Seq::empty(), if kept(cur) { acc.push(cur) } else { acc })
    } else {
        split_from(p, i + 1, cur.push(p[i]), acc)
    }
}

/// The components of path `p` that a lookup walks through.
pub open spec fn components(p: Seq<u8>) -> Seq<Seq<u8>> {
    split_from(p, 0, Seq::empty(), Seq::empty())
}

/// The path is absolute: it starts with `/`.
pub open spec fn absolute(p: Seq<u8>) -> bool {
    p.len() > 0 && p[0] == 0x2f
}

/// The bytes of each component.
pub open spec fn parts_view(v: Seq<Vec<u8>>) -> Seq<Seq<u8>> {
    v.map_values(|a: Vec<u8>| a@)
}

fn is_kept(cur: &Vec<u8>) -> (r: bool)
    ensures
        r == kept(cur@),
{
    let n = cur.len();
    if n == 0 {
        return false;
    }
    if n == 1 && cur[0] == 0x2e {
        assert(cur@ =~= seq![0x2eu8]);
        return false;
    }
    if n == 2 && cur[0] == 0x2e && cur[1] == 0x2e {
        assert(cur@ =~= seq![0x2eu8, 0x2eu8]);
        return false;
    }
    assert(cur@ != seq![0x2eu8]) by {
        if cur@ == seq![0x2eu8] {
            assert(cur@[0] == 0x2e);
        }
    }
    assert(cur@ != seq![0x2eu8, 0x2eu8]) by {
        if cur@ == seq![0x2eu8, 0x2eu8] {
            assert(cur@[0] == 0x2e && cur@[1] == 0x2e);
        }
    }
    true
}

/// The components of `path` that a lookup walks through, in order.
pub fn path_components(path: &[u8]) -> (r: Vec<Vec<u8>>)
    ensures
        parts_view(r@) == components(path@),
{
    let mut acc: Vec<Vec<u8>> = Vec::new();
    let mut cur: Vec<u8> = Vec::new();
    let n = path.len();
    let mut i: usize = 0;
    proof {
        assert(parts_view(acc@) =~= Seq::<Seq<u8>>::empty());
        assert(cur@ =~= Seq::<u8>::empty());
    }
    while i < n
        invariant
            n == path@.len(),
            i <= n,
            split_from(path@, i as int, cur@, parts_view(acc@)) == components(path@),
        decreases n - i,
    {
        if path[i] == 0x2f {
            let ghost before = parts_view(acc@);
            let ghost c = cur@;
            if is_kept(&cur) {
                acc.push(cur);
                assert(parts_view(acc@) =~= before.push(c));
            }
            cur = Vec::new();
            assert(cur@ =~= Seq::<u8>::empty());
        } else {
            cur.push(path[i]);
        }
        i = i + 1;
    }
    let ghost before = parts_view(acc@);
    let ghost c = cur@;
    if is_kept(&cur) {
        acc.push(cur);
        assert(parts_view(acc@) =~= before.push(c));
    }
    acc
}

/// What walking components `comps` from the directory at cluster `c`
/// finds: each component but the last must name a directory (else
/// `NotFound`), in which the next is looked up.
pub open spec fn walk(v: VFatView, c: u32, comps: Seq<Seq<u8>>) -> Result<
    (Seq<u8>, int, Seq<VFatLfnDirEntry>),
    IoErrorKind,
>
    decreases comps.len(),
{
    if comps.len() == 0 {
        Err(IoErrorKind::NotFound)
    } else {
        match find_spec(v, c, comps[0]) {
            Err(e) => Err(e),
            Ok(t) => if comps.len() == 1 {
                Ok(t)
            } else {
                let reg = regular_at(t.0, 32 * t.1);
                if !reg.is_dir_spec() {
                    Err(IoErrorKind::NotFound)
                } else {
                    walk(v, cluster_of(reg.cluster_spec()), comps.skip(1))
                }
            },
        }
    }
}

/// Every directory the walk of `comps` from cluster `c` searches can be
/// searched.
pub open spec fn walk_ok(v: VFatView, c: u32, comps: Seq<Seq<u8>>) -> bool
    decreases comps.len(),
{
    if comps.len() == 0 {
        true
    } else {
        &&& valid_utf8(comps[0]) ==> lookup_ok(v, c, comps[0])
        &&& match find_spec(v, c, comps[0]) {
            Ok(t) => {
                let reg = regular_at(t.0, 32 * t.1);
                comps.len() > 1 && reg.is_dir_spec() ==> walk_ok(v, cluster_of(reg.cluster_spec()), comps.skip(1))
            },
            Err(_) => true,
        }
    }
}

/// The first cluster of the directory whose entry the walk of `comps`
/// from cluster `c` ends at.
pub open spec fn walk_dir(v: VFatView, c: u32, comps: Seq<Seq<u8>>) -> u32
    decreases comps.len(),
{
    if comps.len() <= 1 {
        c
    } else {
        match find_spec(v, c, comps[0]) {
            Ok(t) => walk_dir(v, cluster_of(regular_at(t.0, 32 * t.1).cluster_spec()), comps.skip(1)),
            Err(_) => c,
        }
    }
}

/// `r` is what opening `path` on volume `v` gives: `InvalidInput` for a
/// path that is not absolute; the root directory (no name, zero metadata,
/// size 0) for a path without components; else the outcome of the walk
/// from the root directory.
#[verifier::opaque]
pub open spec fn opened(v: VFatView, path: Seq<u8>, r: Result<Entry, IoErrorKind>) -> bool {
    if !absolute(path) {
        r == Err::<Entry, IoErrorKind>(IoErrorKind::InvalidInput)
    } else if components(path).len() == 0 {
        r matches Ok(Entry::Dir(d)) && d.first_cluster == v.rootdir_cluster && d.name@ == Seq::<char>::empty()
            && d.metadata == Metadata::zero_spec() && d.size == 0
    } else {
        match walk(v, v.rootdir_cluster.0, components(path)) {
            Err(e) => r == Err::<Entry, IoErrorKind>(e),
            Ok(t) => r matches Ok(e) && entry_described(e, t.0, t.1, t.2, v.cluster_size()) && (e matches Entry::File(
                f,
            ) ==> f.parent_first_cluster == Some(Cluster(walk_dir(v, v.rootdir_cluster.0, components(path))))),
        }
    }
}

/// What opening `path` on volume `v` finds, by kind: a directory
/// (`true`), a file (`false`), or the error.
pub open spec fn open_kind(v: VFatView, path: Seq<u8>) -> Result<bool, IoErrorKind> {
    if !absolute(path) {
        Err(IoErrorKind::InvalidInput)
    } else if components(path).len() == 0 {
        Ok(true)
    } else {
        match walk(v, v.rootdir_cluster.0, components(path)) {
            Err(e) => Err(e),
            Ok(t) => Ok(regular_at(t.0, 32 * t.1).is_dir_spec()),
        }
    }
}

/// The first cluster of what opening `path` on volume `v` finds: the root
/// directory's, or the entry's.
pub open spec fn opened_cluster(v: VFatView, path: Seq<u8>) -> u32 {
    if components(path).len() == 0 {
        v.rootdir_cluster.0
    } else {
        let t = walk(v, v.rootdir_cluster.0, components(path))->Ok_0;
        cluster_of(regular_at(t.0, 32 * t.1).cluster_spec())
    }
}

/// What an outcome of opening `path` on `v` says of the path's kind and
/// first cluster.
pub proof fn lemma_opened_kind(v: VFatView, path: Seq<u8>, r: Result<Entry, IoErrorKind>)
    requires
        opened(v, path, r),
    ensures
        r is Err ==> open_kind(v, path) is Err,
        r matches Ok(Entry::Dir(d)) ==> open_kind(v, path) == Ok::<bool, IoErrorKind>(true) && d.first_cluster.0
            == opened_cluster(v, path),
        r matches Ok(Entry::File(f)) ==> open_kind(v, path) == Ok::<bool, IoErrorKind>(false)
            && components(path).len() > 0 && walk(v, v.rootdir_cluster.0, components(path)) is Ok && {
            let t = walk(v, v.rootdir_cluster.0, components(path))->Ok_0;
            entry_described(r->Ok_0, t.0, t.1, t.2, v.cluster_size())
        },
        r is Err ==> r == Err::<Entry, IoErrorKind>(open_kind(v, path)->Err_0),
{
    reveal(opened);
}

/// Opening `path` on volume `v` is safe: every directory the walk from the
/// root searches can be searched.
pub open spec fn open_ok(v: VFatView, path: Seq<u8>) -> bool {
    v.wf() && (absolute(path) ==> walk_ok(v, v.rootdir_cluster.0, components(path)))
}

impl VFat {
    /// Opens the entry at the absolute path `path`: the root directory for
    /// a path without components, else the entry the walk from the root
    /// directory finds. A path that is not absolute is `InvalidInput`.
    ///
    /// Panics or does not return (excluded by the precondition) when a directory the
    /// walk searches cannot be searched (see [`Dir::find`]).
    pub fn open(&self, path: &[u8]) -> (r: Result<Entry, IoErrorKind>)
        requires
            open_ok(self@, path@),
        ensures
            opened(self@, path@, r),
    {
        proof {
            reveal(opened);
        }
        if !(path.len() > 0 && path[0] == 0x2f) {
            return Err(IoErrorKind::InvalidInput);
        }
        let comps = path_components(path);
        let ghost all = components(path@);
        if comps.len() == 0 {
            let root = Dir {
                first_cluster: self.rootdir_cluster,
                name: String::new(),
                metadata: Metadata::zeroed(),
                size: 0,
            };
            return Ok(Entry::Dir(root));
        }
        let ncomps = comps.len();
        let mut c: Cluster = self.rootdir_cluster;
        let mut i: usize = 0;
        proof {
            assert(all.skip(0) =~= all);
        }
        loop
            invariant
                self@.wf(),
                absolute(path@),
                components(path@) == all,
                parts_view(comps@) == all,
                all.len() == comps@.len(),
                ncomps == comps@.len(),
                i < ncomps,
                walk(self@, c.0, all.skip(i as int)) == walk(self@, self.rootdir_cluster.0, all),
                walk_dir(self@, c.0, all.skip(i as int)) == walk_dir(self@, self.rootdir_cluster.0, all),
                walk_ok(self@, c.0, all.skip(i as int)),
            decreases comps@.len() - i,
        {
            let ghost rest = all.skip(i as int);
            assert(rest[0] == comps@[i as int]@);
            let d = Dir { first_cluster: c, name: String::new(), metadata: Metadata::zeroed(), size: 0 };
            let e = match d.find(self, comps[i].as_slice()) {
                Ok(e) => e,
                Err(e) => {
                    proof {
                        reveal(opened);
                    }
                    return Err(e);
                },
            };
            if i + 1 == ncomps {
                proof {
                    reveal(opened);
                }
                return Ok(e);
            }
            assert(rest.skip(1) =~= all.skip(i + 1));
            match e {
                Entry::Dir(dd) => {
                    c = dd.first_cluster;
                    i = i + 1;
                },
                Entry::File(_) => {
                    proof {
                        reveal(opened);
                    }
                    return Err(IoErrorKind::NotFound);
                },
            }
        }
    }
}

} // verus!
