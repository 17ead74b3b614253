//! Directory entries and iteration over the entries of a directory.

use vstd::prelude::*;

verus! {

use crate::fat32::bytes::{le_u16, le_u32, read_le_u16, read_le_u32};
use crate::fat32::cluster::{Cluster, cluster_of};
use crate::fat32::metadata::{Metadata, metadata_of};
use crate::fat32::names::{short_name, short_name_ok, short_name_spec, decode_utf16, decode_utf16_lossy};
use crate::kernel_api::IoErrorKind;

/// Size of an on-disk directory entry.
pub const DIR_ENTRY_SIZE: usize = 32;

/// A regular (8.3) directory entry.
#[derive(Clone, Copy, Debug, PartialEq, Eq)]
pub struct VFatRegularDirEntry {
    pub file_name: [u8; 8],
    pub file_ext: [u8; 3],
    pub attributes: u8,
    pub reserved_nt: u8,
    pub creation_time_tenth_of_second: u8,
    pub creation_time: u16,
    pub creation_date: u16,
    pub accessed_date: u16,
    pub cluster_address_high: u16,
    pub modification_time: u16,
    pub modification_date: u16,
    pub cluster_address_low: u16,
    pub file_size: u32,
}

/// The regular entry stored at byte `off` of `b`.
pub open spec fn regular_at(b: Seq<u8>, off: int) -> VFatRegularDirEntry {
    VFatRegularDirEntry {
        file_name: [b[off], b[off + 1], b[off + 2], b[off + 3], b[off + 4], b[off + 5], b[off + 6], b[off + 7]],
        file_ext: [b[off + 8], b[off + 9], b[off + 10]],
        attributes: b[off + 11],
        reserved_nt: b[off + 12],
        creation_time_tenth_of_second: b[off + 13],
        creation_time: le_u16(b, off + 14),
        creation_date: le_u16(b, off + 16),
        accessed_date: le_u16(b, off + 18),
        cluster_address_high: le_u16(b, off + 20),
        modification_time: le_u16(b, off + 22),
        modification_date: le_u16(b, off + 24),
        cluster_address_low: le_u16(b, off + 26),
        file_size: le_u32(b, off + 28),
    }
}

impl VFatRegularDirEntry {
    /// Decodes the regular entry at byte `off` of `b`.
    pub fn parse(b: &[u8], off: usize) -> (r: VFatRegularDirEntry)
        requires
            off + 32 <= b@.len(),
        ensures
            r == regular_at(b@, off as int),
    {
        VFatRegularDirEntry {
            file_name: [b[off], b[off + 1], b[off + 2], b[off + 3], b[off + 4], b[off + 5], b[off + 6], b[off + 7]],
            file_ext: [b[off + 8], b[off + 9], b[off + 10]],
            attributes: b[off + 11],
            reserved_nt: b[off + 12],
            creation_time_tenth_of_second: b[off + 13],
            creation_time: read_le_u16(b, off + 14),
            creation_date: read_le_u16(b, off + 16),
            accessed_date: read_le_u16(b, off + 18),
            cluster_address_high: read_le_u16(b, off + 20),
            modification_time: read_le_u16(b, off + 22),
            modification_date: read_le_u16(b, off + 24),
            cluster_address_low: read_le_u16(b, off + 26),
            file_size: read_le_u32(b, off + 28),
        }
    }

    /// The first cluster: the high and low halves joined.
    pub fn cluster(&self) -> (r: u32)
        ensures
            r == self.cluster_address_high as int * 0x1_0000 + self.cluster_address_low as int,
    {
        let hi = self.cluster_address_high as u32;
        let lo = self.cluster_address_low as u32;
        let r = (hi << 16) | lo;
        assert(r == hi * 0x1_0000 + lo) by (bit_vector)
            requires
                hi < 0x1_0000,
                lo < 0x1_0000,
                r == (hi << 16) | lo,
        ;
        r
    }

    /// Whether the entry is a directory (attribute bit 0x10).
    pub fn is_dir(&self) -> (r: bool)
        ensures
            r == ((self.attributes as int / 16) % 2 == 1),
    {
        let a = self.attributes;
        assert(((a & 0x10) != 0) == ((a / 16) % 2 == 1)) by (bit_vector);
        (a & 0x10) != 0
    }

    /// The entry's metadata: attributes and creation, access and
    /// modification dates and times.
    pub fn metadata(&self) -> (r: Metadata)
        ensures
            r == metadata_of(
                (
                    self.attributes,
                    [
                        self.creation_date,
                        self.creation_time,
                        self.accessed_date,
                        self.modification_date,
                        self.modification_time,
                    ],
                ),
            ),
    {
        Metadata::from_raw(
            (
                self.attributes,
                [
                    self.creation_date,
                    self.creation_time,
                    self.accessed_date,
                    self.modification_date,
                    self.modification_time,
                ],
            ),
        )
    }
}

/// A long-file-name (LFN) directory entry: 13 UTF-16 units of a name.
#[derive(Clone, Copy, Debug, PartialEq, Eq)]
pub struct VFatLfnDirEntry {
    pub sequence_number: u8,
    pub name_1: [u16; 5],
    pub attributes: u8,
    pub lfn_type: u8,
    pub dos_fn_checksum: u8,
    pub name_2: [u16; 6],
    pub always_zero: u16,
    pub name_3: [u16; 2],
}

/// The LFN entry stored at byte `off` of `b`.
pub open spec fn lfn_at(b: Seq<u8>, off: int) -> VFatLfnDirEntry {
    VFatLfnDirEntry {
        sequence_number: b[off],
        name_1: [le_u16(b, off + 1), le_u16(b, off + 3), le_u16(b, off + 5), le_u16(b, off + 7), le_u16(b, off + 9)],
        attributes: b[off + 11],
        lfn_type: b[off + 12],
        dos_fn_checksum: b[off + 13],
        name_2: [
            le_u16(b, off + 14),
            le_u16(b, off + 16),
            le_u16(b, off + 18),
            le_u16(b, off + 20),
            le_u16(b, off + 22),
            le_u16(b, off + 24),
        ],
        always_zero: le_u16(b, off + 26),
        name_3: [le_u16(b, off + 28), le_u16(b, off + 30)],
    }
}

/// The position of an LFN entry in its name (1-based).
pub open spec fn lfn_key(e: VFatLfnDirEntry) -> int {
    e.sequence_number as int % 32
}

/// The 13 name units of an LFN entry.
pub open spec fn lfn_units(e: VFatLfnDirEntry) -> Seq<u16> {
    e.name_1@ + e.name_2@ + e.name_3@
}

impl VFatLfnDirEntry {
    /// Decodes the LFN entry at byte `off` of `b`.
    pub fn parse(b: &[u8], off: usize) -> (r: VFatLfnDirEntry)
        requires
            off + 32 <= b@.len(),
        ensures
            r == lfn_at(b@, off as int),
    {
        VFatLfnDirEntry {
            sequence_number: b[off],
            name_1: [
                read_le_u16(b, off + 1),
                read_le_u16(b, off + 3),
                read_le_u16(b, off + 5),
                read_le_u16(b, off + 7),
                read_le_u16(b, off + 9),
            ],
            attributes: b[off + 11],
            lfn_type: b[off + 12],
            dos_fn_checksum: b[off + 13],
            name_2: [
                read_le_u16(b, off + 14),
                read_le_u16(b, off + 16),
                read_le_u16(b, off + 18),
                read_le_u16(b, off + 20),
                read_le_u16(b, off + 22),
                read_le_u16(b, off + 24),
            ],
            always_zero: read_le_u16(b, off + 26),
            name_3: [read_le_u16(b, off + 28), read_le_u16(b, off + 30)],
        }
    }

    /// The entry's position in its name (the low five bits).
    pub fn sequence_number(&self) -> (r: usize)
        ensures
            r == lfn_key(*self),
    {
        let s = self.sequence_number;
        let r = s & 0x1f;
        assert(r == s % 32) by (bit_vector)
            requires
                r == s & 0x1f,
        ;
        r as usize
    }

    /// Whether the entry is the last of its name (bit 0x40).
    pub fn last_entry(&self) -> (r: bool)
        ensures
            r == ((self.sequence_number as int / 64) % 2 == 1),
    {
        let s = self.sequence_number;
        assert(((s & 0x40) != 0) == ((s / 64) % 2 == 1)) by (bit_vector);
        (s & 0x40) != 0
    }

    /// Whether the entry is deleted, as tested: any bit of `0xe5` set.
    pub fn is_deleted(&self) -> (r: bool)
        ensures
            r == (self.sequence_number & 0xe5 != 0),
    {
        self.sequence_number & 0xe5 != 0
    }

    /// The 13 name units of the entry.
    pub fn units(&self) -> (r: Vec<u16>)
        ensures
            r@ == lfn_units(*self),
    {
        let mut v: Vec<u16> = Vec::new();
        v.push(self.name_1[0]);
        v.push(self.name_1[1]);
        v.push(self.name_1[2]);
        v.push(self.name_1[3]);
        v.push(self.name_1[4]);
        v.push(self.name_2[0]);
        v.push(self.name_2[1]);
        v.push(self.name_2[2]);
        v.push(self.name_2[3]);
        v.push(self.name_2[4]);
        v.push(self.name_2[5]);
        v.push(self.name_3[0]);
        v.push(self.name_3[1]);
        assert(v@ =~= lfn_units(*self));
        v
    }
}

/// The fields common to every kind of directory entry.
#[derive(Clone, Copy, Debug, PartialEq, Eq)]
pub struct VFatUnknownDirEntry {
    pub id: u8,
    pub attributes: u8,
}

impl VFatUnknownDirEntry {
    /// Reads the common fields of the entry at byte `off` of `b`.
    pub fn parse(b: &[u8], off: usize) -> (r: VFatUnknownDirEntry)
        requires
            off + 32 <= b@.len(),
        ensures
            r.id == b@[off as int],
            r.attributes == b@[off + 11],
    {
        VFatUnknownDirEntry { id: b[off], attributes: b[off + 11] }
    }

    /// Whether the entry is part of a long file name.
    pub fn is_lfn(&self) -> (r: bool)
        ensures
            r == (self.attributes == 0x0f),
    {
        self.attributes == 0x0f
    }

    /// Whether the entry is unused (deleted).
    pub fn is_unused(&self) -> (r: bool)
        ensures
            r == (self.id == 0xe5),
    {
        self.id == 0xe5
    }

    /// Whether the entry marks the end of the directory.
    pub fn is_end(&self) -> (r: bool)
        ensures
            r == (self.id == 0x00),
    {
        self.id == 0x00
    }
}

/// First position at or after `i` in `t` whose key exceeds `k`.
pub open spec fn first_greater(t: Seq<VFatLfnDirEntry>, k: int, i: int) -> int
    decreases t.len() - i,
{
    if i < 0 || i >= t.len() {
        t.len() as int
    } else if lfn_key(t[i]) > k {
        i
    } else {
        first_greater(t, k, i + 1)
    }
}

/// `t` with `x` inserted after every entry whose key is not greater.
pub open spec fn insert_sorted(t: Seq<VFatLfnDirEntry>, x: VFatLfnDirEntry) -> Seq<VFatLfnDirEntry> {
    t.insert(first_greater(t, lfn_key(x), 0), x)
}

/// The LFN entries sorted by position, entries of equal position keeping
/// their order.
pub open spec fn sort_lfns(s: Seq<VFatLfnDirEntry>) -> Seq<VFatLfnDirEntry>
    decreases s.len(),
{
    if s.len() == 0 {
        s
    } else {
        insert_sorted(sort_lfns(s.drop_last()), s.last())
    }
}

/// The name units of the entries, in order.
pub open spec fn concat_units(s: Seq<VFatLfnDirEntry>) -> Seq<u16>
    decreases s.len(),
{
    if s.len() == 0 {
        Seq::empty()
    } else {
        concat_units(s.drop_last()) + lfn_units(s.last())
    }
}

/// First position at or after `i` that holds a terminator (0x0000 or 0x00FF).
pub open spec fn first_terminator(u: Seq<u16>, i: int) -> int
    decreases u.len() - i,
{
    if i < 0 || i >= u.len() {
        u.len() as int
    } else if u[i] == 0x0000 || u[i] == 0x00FF {
        i
    } else {
        first_terminator(u, i + 1)
    }
}

/// The name units up to the first terminator among the last 13 units.
pub open spec fn cut_units(u: Seq<u16>) -> Seq<u16> {
    u.subrange(0, first_terminator(u, u.len() - 13))
}

/// The long name the LFN entries spell.
pub open spec fn lfn_name_spec(s: Seq<VFatLfnDirEntry>) -> Seq<char> {
    decode_utf16(cut_units(concat_units(sort_lfns(s))))
}

proof fn lemma_first_greater_bounds(t: Seq<VFatLfnDirEntry>, k: int, i: int)
    requires
        0 <= i <= t.len(),
    ensures
        i <= first_greater(t, k, i) <= t.len(),
    decreases t.len() - i,
{
    if i < t.len() && lfn_key(t[i]) <= k {
        lemma_first_greater_bounds(t, k, i + 1);
    }
}

proof fn lemma_first_terminator_bounds(u: Seq<u16>, i: int)
    requires
        0 <= i <= u.len(),
    ensures
        i <= first_terminator(u, i) <= u.len(),
    decreases u.len() - i,
{
    if i < u.len() && !(u[i] == 0x0000 || u[i] == 0x00FF) {
        lemma_first_terminator_bounds(u, i + 1);
    }
}

proof fn lemma_sorted_len(s: Seq<VFatLfnDirEntry>)
    ensures
        sort_lfns(s).len() == s.len(),
    decreases s.len(),
{
    if s.len() > 0 {
        lemma_sorted_len(s.drop_last());
        lemma_first_greater_bounds(sort_lfns(s.drop_last()), lfn_key(s.last()), 0);
    }
}

proof fn lemma_concat_len(s: Seq<VFatLfnDirEntry>)
    ensures
        concat_units(s).len() == 13 * s.len(),
    decreases s.len(),
{
    if s.len() > 0 {
        lemma_concat_len(s.drop_last());
    }
}

/// The long name spelled by LFN entries: the entries sorted by position,
/// their units joined and cut at the first terminator among the last 13
/// units, then decoded from UTF-16.
pub fn lfn_name(lfns: &Vec<VFatLfnDirEntry>) -> (r: String)
    requires
        lfns@.len() >= 1,
        lfns@.len() * 13 <= usize::MAX,
    ensures
        r@ == lfn_name_spec(lfns@),
{
    let n = lfns.len();
    let mut sorted: Vec<VFatLfnDirEntry> = Vec::new();
    let mut i: usize = 0;
    while i < n
        invariant
            n == lfns@.len(),
            i <= n,
            sorted@ == sort_lfns(lfns@.take(i as int)),
        decreases n - i,
    {
        let x = lfns[i];
        let k = x.sequence_number();
        proof {
            lemma_sorted_len(lfns@.take(i as int));
        }
        let mut p: usize = 0;
        while p < sorted.len() && sorted[p].sequence_number() <= k
            invariant
                p <= sorted@.len(),
                k == lfn_key(x),
                first_greater(sorted@, k as int, p as int) == first_greater(sorted@, k as int, 0),
            decreases sorted@.len() - p,
        {
            p = p + 1;
        }
        sorted.insert(p, x);
        proof {
            let t = lfns@.take(i + 1);
            assert(t.drop_last() =~= lfns@.take(i as int));
            assert(t.last() == x);
        }
        i = i + 1;
    }
    proof {
        assert(lfns@.take(n as int) =~= lfns@);
        lemma_sorted_len(lfns@);
    }
    let mut units: Vec<u16> = Vec::new();
    let mut j: usize = 0;
    while j < n
        invariant
            sorted@.len() == n,
            n * 13 <= usize::MAX,
            j <= n,
            units@ == concat_units(sorted@.take(j as int)),
            units@.len() == 13 * j,
        decreases n - j,
    {
        let u = sorted[j].units();
        let mut q: usize = 0;
        let ghost before = units@;
        while q < 13
            invariant
                q <= 13,
                u@.len() == 13,
                units@ == before + u@.take(q as int),
            decreases 13 - q,
        {
            units.push(u[q]);
            q = q + 1;
            proof {
                assert(units@ =~= before + u@.take(q as int));
            }
        }
        proof {
            let t = sorted@.take(j + 1);
            assert(t.drop_last() =~= sorted@.take(j as int));
            assert(u@.take(13) =~= u@);
        }
        j = j + 1;
    }
    proof {
        assert(sorted@.take(n as int) =~= sorted@);
        lemma_concat_len(sorted@);
    }
    let len = units.len();
    let mut cut = len - 13;
    proof {
        lemma_first_terminator_bounds(units@, (len - 13) as int);
    }
    while cut < len && !(units[cut] == 0x0000 || units[cut] == 0x00FF)
        invariant
            len == units@.len(),
            len >= 13,
            (len - 13) <= cut <= len,
            first_terminator(units@, cut as int) == first_terminator(units@, len - 13),
        decreases len - cut,
    {
        cut = cut + 1;
    }
    units.truncate(cut);
    decode_utf16_lossy(&units)
}

/// Kind byte of entry `p` of the raw directory `b`.
pub open spec fn ent_id(b: Seq<u8>, p: int) -> u8 {
    b[32 * p]
}

/// Attribute byte of entry `p` of the raw directory `b`.
pub open spec fn ent_attr(b: Seq<u8>, p: int) -> u8 {
    b[32 * p + 11]
}

/// Scans entries `p..n` of the raw directory `b`, collecting LFN entries
/// and skipping unused ones, up to the first regular entry or end marker.
/// Returns where the scan stopped (`n` if it ran out) and the LFN entries.
pub open spec fn scan(b: Seq<u8>, n: int, p: int, lfns: Seq<VFatLfnDirEntry>) -> (int, Seq<VFatLfnDirEntry>)
    decreases n - p,
{
    if p < 0 || p >= n {
        (n, lfns)
    } else if ent_id(b, p) == 0 {
        (p, lfns)
    } else if ent_id(b, p) == 0xe5 {
        scan(b, n, p + 1, lfns)
    } else if ent_attr(b, p) == 0x0f {
        scan(b, n, p + 1, lfns.push(lfn_at(b, 32 * p)))
    } else {
        (p, lfns)
    }
}

/// Number of regular entries among entries `p..n` before the first end marker.
pub open spec fn count_regular(b: Seq<u8>, n: int, p: int) -> int
    decreases n - p,
{
    if p < 0 || p >= n {
        0
    } else if ent_id(b, p) == 0 {
        0
    } else if ent_id(b, p) == 0xe5 || ent_attr(b, p) == 0x0f {
        count_regular(b, n, p + 1)
    } else {
        1 + count_regular(b, n, p + 1)
    }
}

/// Position just after the regular entry with 1-based number `target`,
/// counting from `current` at entry `p`; `None` if an end marker or the end
/// of the directory comes first.
pub open spec fn nth_regular_end(b: Seq<u8>, n: int, p: int, current: int, target: int) -> Option<int>
    decreases n - p,
{
    if p < 0 || p >= n {
        None
    } else if ent_id(b, p) == 0 {
        None
    } else if ent_id(b, p) == 0xe5 || ent_attr(b, p) == 0x0f {
        nth_regular_end(b, n, p + 1, current, target)
    } else if target == current + 1 {
        Some(p + 1)
    } else {
        nth_regular_end(b, n, p + 1, current + 1, target)
    }
}

/// A directory: where its entries start, its name, metadata and size.
pub struct Dir {
    pub first_cluster: Cluster,
    pub name: String,
    pub metadata: Metadata,
    pub size: usize,
}

/// A file: where its data starts, its name, metadata and size, the
/// position of a reader or writer in it, and the first cluster of the
/// directory whose entry describes it (when it is known).
pub struct File {
    pub first_cluster: Cluster,
    pub name: String,
    pub metadata: Metadata,
    pub size: usize,
    pub offset: usize,
    pub current_cluster: Option<Cluster>,
    pub bytes_per_cluster: usize,
    pub parent_first_cluster: Option<Cluster>,
}

impl File {
    /// A file positioned at its start.
    pub fn from_parts(
        first_cluster: Cluster,
        name: String,
        metadata: Metadata,
        size: usize,
        bytes_per_cluster: usize,
        parent_first_cluster: Option<Cluster>,
    ) -> (f: File)
        ensures
            f.first_cluster == first_cluster,
            f.name@ == name@,
            f.metadata == metadata,
            f.size == size,
            f.offset == 0,
            f.current_cluster == Some(first_cluster),
            f.bytes_per_cluster == bytes_per_cluster,
            f.parent_first_cluster == parent_first_cluster,
    {
        File {
            first_cluster,
            name,
            metadata,
            size,
            offset: 0,
            current_cluster: Some(first_cluster),
            bytes_per_cluster,
            parent_first_cluster,
        }
    }
}

/// An entry of a directory: a file or a directory.
pub enum Entry {
    File(File),
    Dir(Dir),
}

/// Where a seek is measured from.
#[derive(Clone, Copy, Debug, PartialEq, Eq)]
pub enum SeekFrom {
    Start(u64),
    End(i64),
    Current(i64),
}

/// Iterator over the entries of a directory, read as raw on-disk entries.
pub struct DirIterator {
    dir_entries: Vec<u8>,
    dir_entry_idx: usize,
    offset: u64,
    len: u64,
    bytes_per_cluster: usize,
}

/// The abstract state of a directory iterator.
pub struct DirIteratorView {
    pub bytes: Seq<u8>,
    pub idx: int,
    pub offset: int,
    pub len: int,
    pub bytes_per_cluster: int,
}

impl View for DirIterator {
    type V = DirIteratorView;

    closed spec fn view(&self) -> DirIteratorView {
        DirIteratorView {
            bytes: self.dir_entries@,
            idx: self.dir_entry_idx as int,
            offset: self.offset as int,
            len: self.len as int,
            bytes_per_cluster: self.bytes_per_cluster as int,
        }
    }
}

/// Number of whole entries in `b`.
pub open spec fn entry_count(b: Seq<u8>) -> int {
    b.len() as int / 32
}

/// The entry `next` would build for the regular entry at `p` after LFN
/// entries `lfns`: its name, metadata, first cluster, size and kind.
pub open spec fn entry_name_spec(b: Seq<u8>, p: int, lfns: Seq<VFatLfnDirEntry>) -> Seq<char> {
    let reg = regular_at(b, 32 * p);
    if lfns.len() != 0 {
        lfn_name_spec(lfns)
    } else {
        short_name_spec(reg.file_name@, reg.file_ext@)
    }
}

/// `next` can decode the name of the entry it would return.
pub open spec fn next_name_ok(v: DirIteratorView) -> bool {
    let n = entry_count(v.bytes);
    let (stop, lfns) = scan(v.bytes, n, v.idx, Seq::empty());
    (stop < n && ent_id(v.bytes, stop) != 0 && lfns.len() == 0) ==> {
        let reg = regular_at(v.bytes, 32 * stop);
        short_name_ok(reg.file_name@, reg.file_ext@)
    }
}

/// A scan from entry `p` stops between `p` and `n`, having collected at
/// most one long-name entry per entry passed.
pub proof fn lemma_scan_bounds(b: Seq<u8>, n: int, p: int, lfns: Seq<VFatLfnDirEntry>)
    requires
        0 <= p <= n,
    ensures
        p <= scan(b, n, p, lfns).0 <= n,
        scan(b, n, p, lfns).1.len() >= lfns.len(),
        scan(b, n, p, lfns).1.len() <= lfns.len() + (scan(b, n, p, lfns).0 - p),
    decreases n - p,
{
    if p < n && ent_id(b, p) != 0 {
        if ent_id(b, p) == 0xe5 {
            lemma_scan_bounds(b, n, p + 1, lfns);
        } else if ent_attr(b, p) == 0x0f {
            lemma_scan_bounds(b, n, p + 1, lfns.push(lfn_at(b, 32 * p)));
        }
    }
}

/// Where `next` leaves an iterator in state `v`: past the entry it finds;
/// at the end (its offset its length) after an end marker; where it was
/// when the entries run out.
pub open spec fn next_view(v: DirIteratorView) -> DirIteratorView {
    let n = entry_count(v.bytes);
    let stop = scan(v.bytes, n, v.idx, Seq::empty()).0;
    if stop == n {
        v
    } else if ent_id(v.bytes, stop) == 0 {
        DirIteratorView { idx: n, offset: v.len, ..v }
    } else {
        DirIteratorView { idx: stop + 1, offset: v.offset + 1, ..v }
    }
}

/// Whether `next` finds an entry from state `v`.
pub open spec fn next_found(v: DirIteratorView) -> bool {
    let n = entry_count(v.bytes);
    let stop = scan(v.bytes, n, v.idx, Seq::empty()).0;
    stop < n && ent_id(v.bytes, stop) != 0
}

/// The long-name entries among entries `p..q` that are in use, in order.
pub open spec fn live_lfns(b: Seq<u8>, p: int, q: int) -> Seq<VFatLfnDirEntry>
    decreases q - p,
{
    if p >= q {
        Seq::empty()
    } else if ent_id(b, p) != 0xe5 && ent_attr(b, p) == 0x0f {
        seq![lfn_at(b, 32 * p)] + live_lfns(b, p + 1, q)
    } else {
        live_lfns(b, p + 1, q)
    }
}

/// A scan stops at the first entry from `p` on that is an end marker or a
/// regular entry (neither unused, id `0xE5`, nor a long-name entry,
/// attribute `0x0F`), or at `n` when there is none: every entry it passes
/// is unused or a long-name entry, and the long-name entries in use among
/// them are the ones it collects, in order.
pub proof fn lemma_scan_stops_at_first(b: Seq<u8>, n: int, p: int, lfns: Seq<VFatLfnDirEntry>)
    requires
        0 <= p <= n,
    ensures
        ({
            let stop = scan(b, n, p, lfns).0;
            &&& p <= stop <= n
            &&& forall|j: int|
                p <= j < stop ==> ent_id(b, j) != 0 && (ent_id(b, j) == 0xe5 || ent_attr(b, j) == 0x0f)
            &&& stop < n ==> ent_id(b, stop) == 0 || (ent_id(b, stop) != 0xe5 && ent_attr(b, stop) != 0x0f)
            &&& scan(b, n, p, lfns).1 == lfns + live_lfns(b, p, stop)
        }),
    decreases n - p,
{
    let stop = scan(b, n, p, lfns).0;
    if p < n && ent_id(b, p) != 0 {
        if ent_id(b, p) == 0xe5 {
            lemma_scan_stops_at_first(b, n, p + 1, lfns);
        } else if ent_attr(b, p) == 0x0f {
            let x = lfn_at(b, 32 * p);
            lemma_scan_stops_at_first(b, n, p + 1, lfns.push(x));
            assert(lfns.push(x) + live_lfns(b, p + 1, stop) =~= lfns + (seq![x] + live_lfns(b, p + 1, stop)));
        } else {
            assert(lfns + live_lfns(b, p, stop) =~= lfns);
        }
    } else {
        assert(lfns + live_lfns(b, p, stop) =~= lfns);
    }
}

/// Once `next` has answered `None` it answers `None` again, and moves
/// nothing.
pub proof fn lemma_next_none_stays(v: DirIteratorView)
    requires
        0 <= v.idx <= entry_count(v.bytes),
        !next_found(v),
    ensures
        !next_found(next_view(v)),
        next_view(next_view(v)) == next_view(v),
{
    let n = entry_count(v.bytes);
    lemma_scan_bounds(v.bytes, n, v.idx, Seq::empty());
    let w = next_view(v);
    assert(scan(w.bytes, n, n, Seq::<VFatLfnDirEntry>::empty()).0 == n);
}

impl DirIterator {
    /// Well-formedness: the position lies within the entries.
    pub closed spec fn wf(&self) -> bool {
        &&& self.dir_entry_idx <= entry_count(self.dir_entries@)
        &&& self.dir_entries@.len() <= usize::MAX
    }

    /// A well-formed iterator's position lies within its entries, whose
    /// bytes fit in memory.
    pub proof fn lemma_bounds(&self)
        requires
            self.wf(),
        ensures
            0 <= self@.idx <= entry_count(self@.bytes),
            self@.bytes.len() <= usize::MAX,
    {
    }

    /// An iterator over the raw entries `bytes` (a directory's cluster
    /// chain), positioned at the first entry. Its length is the number of
    /// regular entries before the end marker.
    pub fn from_chain(bytes: Vec<u8>, bytes_per_cluster: usize) -> (it: DirIterator)
        ensures
            it.wf(),
            it@.bytes == bytes@,
            it@.idx == 0,
            it@.offset == 0,
            it@.len == count_regular(bytes@, entry_count(bytes@), 0),
            it@.bytes_per_cluster == bytes_per_cluster,
    {
        let blen = bytes.len();
        let n = blen / 32;
        let mut len: u64 = 0;
        let mut i: usize = 0;
        let mut done = false;
        proof {
            lemma_count_regular_bounds(bytes@, n as int, 0);
            assert(32 * n <= blen) by (nonlinear_arith)
                requires
                    n == blen / 32,
            ;
        }
        while i < n && !done
            invariant
                blen == bytes@.len(),
                n == entry_count(bytes@),
                32 * n <= blen,
                i <= n,
                len <= i,
                done ==> count_regular(bytes@, n as int, i as int) == 0,
                len + count_regular(bytes@, n as int, i as int) == count_regular(bytes@, n as int, 0),
                count_regular(bytes@, n as int, i as int) <= n - i,
            decreases n - i + (if done { 0int } else { 1int }),
        {
            proof {
                lemma_count_regular_bounds(bytes@, n as int, i + 1);
                assert(32 * i + 32 <= 32 * n) by (nonlinear_arith)
                    requires
                        i < n,
                ;
            }
            let id = bytes[32 * i];
            if id == 0 {
                done = true;
            } else {
                if id == 0xe5 || bytes[32 * i + 11] == 0x0f {
                } else {
                    len = len + 1;
                }
                i = i + 1;
            }
        }
        DirIterator { dir_entries: bytes, dir_entry_idx: 0, offset: 0, len, bytes_per_cluster }
    }

    /// The next entry of the directory: its long name (from the LFN entries
    /// before it) or short name, metadata, first cluster, size and kind.
    /// Unused entries are skipped. At the end marker the iterator moves to
    /// the end (its offset becomes its length) and returns `None`; when the
    /// entries run out it returns `None` and stays.
    ///
    /// Panics (excluded by the precondition) if a short name is not UTF-8.
    pub fn next_entry(&mut self) -> (r: Option<Entry>)
        requires
            old(self).wf(),
            next_name_ok(old(self)@),
            old(self)@.offset < u64::MAX,
        ensures
            final(self).wf(),
            final(self)@ == next_view(old(self)@),
            r is Some <==> next_found(old(self)@),
            ({
                let v = old(self)@;
                let n = entry_count(v.bytes);
                let (stop, lfns) = scan(v.bytes, n, v.idx, Seq::empty());
                if stop == n {
                    r is None && final(self)@ == v
                } else if ent_id(v.bytes, stop) == 0 {
                    r is None && final(self)@ == DirIteratorView { idx: n, offset: v.len, ..v }
                } else {
                    let reg = regular_at(v.bytes, 32 * stop);
                    &&& final(self)@ == DirIteratorView { idx: stop + 1, offset: v.offset + 1, ..v }
                    &&& r is Some
                    &&& match r.unwrap() {
                        Entry::Dir(d) => {
                            &&& reg.is_dir_spec()
                            &&& d.name@ == entry_name_spec(v.bytes, stop, lfns)
                            &&& d.metadata == reg.metadata_spec()
                            &&& d.first_cluster.0 == cluster_of(reg.cluster_spec())
                            &&& d.size == reg.file_size
                        },
                        Entry::File(f) => {
                            &&& !reg.is_dir_spec()
                            &&& f.name@ == entry_name_spec(v.bytes, stop, lfns)
                            &&& f.metadata == reg.metadata_spec()
                            &&& f.first_cluster.0 == cluster_of(reg.cluster_spec())
                            &&& f.size == reg.file_size
                            &&& f.offset == 0
                            &&& f.current_cluster == Some(f.first_cluster)
                            &&& f.bytes_per_cluster == v.bytes_per_cluster
                            &&& f.parent_first_cluster is None
                        },
                    }
                }
            }),
    {
        let blen = self.dir_entries.len();
        let n = blen / 32;
        let mut lfn_vec: Vec<VFatLfnDirEntry> = Vec::new();
        let mut position = self.dir_entry_idx;
        proof {
            lemma_scan_bounds(self@.bytes, n as int, position as int, Seq::empty());
            assert(32 * n <= blen) by (nonlinear_arith)
                requires
                    n == blen / 32,
            ;
        }
        while position < n
            invariant
                blen == self@.bytes.len(),
                32 * n <= blen,
                n == entry_count(self@.bytes),
                self@ == old(self)@,
                self.wf(),
                self.dir_entry_idx <= position <= n,
                scan(self@.bytes, n as int, position as int, lfn_vec@) == scan(
                    self@.bytes,
                    n as int,
                    self@.idx,
                    Seq::empty(),
                ),
                lfn_vec@.len() <= position - self.dir_entry_idx,
                next_name_ok(self@),
                self@.offset < u64::MAX,
            decreases n - position,
        {
            proof {
                assert(32 * position + 32 <= 32 * n) by (nonlinear_arith)
                    requires
                        position < n,
                ;
            }
            let base = 32 * position;
            let id = self.dir_entries[base];
            if id == 0 {
                self.dir_entry_idx = n;
                self.offset = self.len;
                return None;
            }
            if id == 0xe5 {
                position = position + 1;
                continue;
            }
            if self.dir_entries[base + 11] == 0x0f {
                let e = VFatLfnDirEntry::parse(self.dir_entries.as_slice(), base);
                lfn_vec.push(e);
                position = position + 1;
                continue;
            }
            let regular = VFatRegularDirEntry::parse(self.dir_entries.as_slice(), base);
            let ghost lfns = lfn_vec@;
            self.dir_entry_idx = position + 1;
            self.offset = self.offset + 1;
            let name = if lfn_vec.len() != 0 {
                lfn_name(&lfn_vec)
            } else {
                short_name(&regular.file_name, &regular.file_ext)
            };
            let metadata = regular.metadata();
            let first_cluster = Cluster::from_raw(regular.cluster());
            let size = regular.file_size as usize;
            if regular.is_dir() {
                return Some(Entry::Dir(Dir { first_cluster, name, metadata, size }));
            } else {
                return Some(
                    Entry::File(File::from_parts(first_cluster, name, metadata, size, self.bytes_per_cluster, None)),
                );
            }
        }
        None
    }

    /// Moves to just after the regular entry with 1-based number `offset`.
    /// An end marker or the end of the entries before it is `InvalidInput`.
    pub fn set_offset(&mut self, offset: u64) -> (r: Result<u64, IoErrorKind>)
        requires
            old(self).wf(),
        ensures
            final(self).wf(),
            ({
                let v = old(self)@;
                match nth_regular_end(v.bytes, entry_count(v.bytes), 0, 0, offset as int) {
                    Some(p) => r == Ok::<u64, IoErrorKind>(offset) && final(self)@ == DirIteratorView {
                        idx: p,
                        offset: offset as int,
                        ..v
                    },
                    None => r == Err::<u64, IoErrorKind>(IoErrorKind::InvalidInput) && final(self)@ == v,
                }
            }),
    {
        let blen = self.dir_entries.len();
        let n = blen / 32;
        let mut current: u64 = 0;
        let mut entry_idx: usize = 0;
        proof {
            assert(32 * n <= blen) by (nonlinear_arith)
                requires
                    n == blen / 32,
            ;
        }
        while entry_idx < n
            invariant
                blen == self@.bytes.len(),
                32 * n <= blen,
                n == entry_count(self@.bytes),
                self@ == old(self)@,
                self.wf(),
                entry_idx <= n,
                current <= entry_idx,
                nth_regular_end(self@.bytes, n as int, entry_idx as int, current as int, offset as int)
                    == nth_regular_end(self@.bytes, n as int, 0, 0, offset as int),
            decreases n - entry_idx,
        {
            proof {
                assert(32 * entry_idx + 32 <= 32 * n) by (nonlinear_arith)
                    requires
                        entry_idx < n,
                ;
            }
            let base = 32 * entry_idx;
            let id = self.dir_entries[base];
            if id == 0 {
                return Err(IoErrorKind::InvalidInput);
            } else if id == 0xe5 || self.dir_entries[base + 11] == 0x0f {
            } else {
                if offset == current + 1 {
                    self.dir_entry_idx = entry_idx + 1;
                    self.offset = offset;
                    return Ok(offset);
                }
                current = current + 1;
            }
            entry_idx = entry_idx + 1;
        }
        Err(IoErrorKind::InvalidInput)
    }

    /// Seeks to an entry offset measured from the start, the end or the
    /// current offset. A target before the start or past the length is
    /// `InvalidInput`; otherwise see [`DirIterator::set_offset`].
    pub fn seek(&mut self, pos: SeekFrom) -> (r: Result<u64, IoErrorKind>)
        requires
            old(self).wf(),
            old(self)@.len <= i64::MAX,
            old(self)@.offset <= i64::MAX,
            pos matches SeekFrom::End(e) ==> i64::MIN <= old(self)@.len + e <= i64::MAX,
            pos matches SeekFrom::Current(c) ==> i64::MIN <= old(self)@.offset + c <= i64::MAX,
        ensures
            final(self).wf(),
            ({
                let v = old(self)@;
                let target: int = match pos {
                    SeekFrom::Start(o) => o as int,
                    SeekFrom::End(e) => v.len + e,
                    SeekFrom::Current(c) => v.offset + c,
                };
                if target < 0 || target > v.len {
                    r == Err::<u64, IoErrorKind>(IoErrorKind::InvalidInput) && final(self)@ == v
                } else {
                    match nth_regular_end(v.bytes, entry_count(v.bytes), 0, 0, target) {
                        Some(p) => r == Ok::<u64, IoErrorKind>(target as u64) && final(self)@
                            == DirIteratorView { idx: p, offset: target, ..v },
                        None => r == Err::<u64, IoErrorKind>(IoErrorKind::InvalidInput) && final(self)@
                            == v,
                    }
                }
            }),
    {
        let offset: u64 = match pos {
            SeekFrom::Start(o) => o,
            SeekFrom::End(e) => {
                let o = self.len as i64 + e;
                if o < 0 {
                    return Err(IoErrorKind::InvalidInput);
                }
                o as u64
            },
            SeekFrom::Current(c) => {
                let o = self.offset as i64 + c;
                if o < 0 {
                    return Err(IoErrorKind::InvalidInput);
                }
                o as u64
            },
        };
        if offset > self.len {
            Err(IoErrorKind::InvalidInput)
        } else {
            self.set_offset(offset)
        }
    }

    /// Number of raw entries the iterator holds, unused and long-name ones
    /// included.
    pub fn raw_count(&self) -> (r: usize)
        ensures
            r == entry_count(self@.bytes),
    {
        self.dir_entries.len() / 32
    }

    /// Number of regular entries of the directory.
    pub fn len(&self) -> (r: u64)
        ensures
            r == self@.len,
    {
        self.len
    }

    /// Number of entries returned so far (or the offset sought to).
    pub fn offset(&self) -> (r: u64)
        ensures
            r == self@.offset,
    {
        self.offset
    }
}

/// The number of regular entries from `p` on is at most the number of
/// entries left.
pub proof fn lemma_count_regular_bounds(b: Seq<u8>, n: int, p: int)
    requires
        0 <= p,
    ensures
        0 <= count_regular(b, n, p),
        p <= n ==> count_regular(b, n, p) <= n - p,
    decreases n - p,
{
    if p < n && ent_id(b, p) != 0 {
        lemma_count_regular_bounds(b, n, p + 1);
    }
}

impl VFatRegularDirEntry {
    /// The entry is a directory.
    pub open spec fn is_dir_spec(self) -> bool {
        (self.attributes as int / 16) % 2 == 1
    }

    /// The entry's first cluster field.
    pub open spec fn cluster_spec(self) -> u32 {
        (self.cluster_address_high as int * 0x1_0000 + self.cluster_address_low as int) as u32
    }

    /// The entry's metadata.
    pub open spec fn metadata_spec(self) -> Metadata {
        metadata_of(
            (
                self.attributes,
                [
                    self.creation_date,
                    self.creation_time,
                    self.accessed_date,
                    self.modification_date,
                    self.modification_time,
                ],
            ),
        )
    }
}

} // verus!
