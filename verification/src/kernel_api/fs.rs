//! File-system records exchanged through system calls.

use vstd::prelude::*;

verus! {

use crate::text::str_from_utf8;
use crate::command::{push_bytes, push_str};
use crate::decimal::{zero_padded, push_zero_padded};
use vstd::utf8::{valid_utf8, decode_utf8};
use vstd::string::StringSliceAdditionalSpecFns;

/// Size of the name buffer of a [`DirEnt`].
pub const DIRENT_NAME_MAX: usize = 512;

/// Index of an open handle in a process's handle table.
#[derive(Clone, Copy, Debug, PartialEq, Eq)]
pub struct HandleDescriptor(pub u64);

impl HandleDescriptor {
    /// The raw table index.
    pub fn raw(&self) -> (r: u64)
        ensures
            r == self.0,
    {
        self.0
    }

    /// A descriptor for table index `raw`.
    pub fn from_raw(raw: u64) -> (r: HandleDescriptor)
        ensures
            r.0 == raw,
    {
        HandleDescriptor(raw)
    }

    /// The descriptor a handle refers to: the standard streams are the first
    /// three table entries.
    pub fn from_handle(handle: Handle) -> (r: HandleDescriptor)
        ensures
            r.0 == handle_raw(handle),
    {
        match handle {
            Handle::StdIn => HandleDescriptor(0),
            Handle::StdOut => HandleDescriptor(1),
            Handle::StdErr => HandleDescriptor(2),
            Handle::File(hd) => hd,
            Handle::Socket(hd) => hd,
        }
    }
}

/// A handle a user program holds.
#[derive(Clone, Copy, Debug, PartialEq, Eq)]
pub enum Handle {
    StdIn,
    StdOut,
    StdErr,
    File(HandleDescriptor),
    Socket(HandleDescriptor),
}

/// The table index a handle stands for.
pub open spec fn handle_raw(h: Handle) -> u64 {
    match h {
        Handle::StdIn => 0,
        Handle::StdOut => 1,
        Handle::StdErr => 2,
        Handle::File(hd) => hd.0,
        Handle::Socket(hd) => hd.0,
    }
}

impl Handle {
    /// The table index this handle stands for.
    pub fn raw(&self) -> (r: u64)
        ensures
            r == handle_raw(*self),
    {
        match self {
            Handle::StdIn => 0,
            Handle::StdOut => 1,
            Handle::StdErr => 2,
            Handle::File(hd) => hd.raw(),
            Handle::Socket(hd) => hd.raw(),
        }
    }
}

/// Kind of a directory entry.
#[derive(Clone, Copy, Debug, PartialEq, Eq)]
pub enum DirType {
    File,
    Dir,
    NoType,
}

/// A directory entry as `getdents` returns it: a type and a name of at most
/// 512 bytes, stored in a fixed buffer.
#[derive(Clone, Copy)]
pub struct DirEnt {
    d_type: DirType,
    name: [u8; 512],
    name_len: u64,
}

impl DirEnt {
    /// The entry's name bytes.
    pub closed spec fn name_bytes(&self) -> Seq<u8> {
        self.name@.subrange(0, self.name_len as int)
    }

    /// The entry's type.
    pub closed spec fn dtype(&self) -> DirType {
        self.d_type
    }

    /// The whole name buffer.
    pub closed spec fn buffer(&self) -> Seq<u8> {
        self.name@
    }

    /// Well-formedness: the name fits in the buffer.
    pub closed spec fn wf(&self) -> bool {
        self.name_len <= 512
    }

    /// An entry of type `d_type` named `name`; the rest of the buffer is zero.
    ///
    /// Panics (excluded by the precondition) if the name is longer than 512 bytes.
    pub fn new(d_type: DirType, name: &str) -> (r: DirEnt)
        requires
            name.spec_bytes().len() <= 512,
        ensures
            r.wf(),
            r.dtype() == d_type,
            r.name_bytes() == name.spec_bytes(),
            forall|i: int| name.spec_bytes().len() <= i < 512 ==> r.buffer()[i] == 0,
    {
        let name_bytes = name.as_bytes();
        let name_len = name_bytes.len();
        let buf = DirEnt::zero_padded(name_bytes);
        let r = DirEnt { d_type, name: buf, name_len: name_len as u64 };
        assert(r.name_bytes() =~= name.spec_bytes());
        r
    }

    /// `bytes` followed by zeros, in a 512-byte buffer.
    fn zero_padded(bytes: &[u8]) -> (r: [u8; 512])
        requires
            bytes@.len() <= 512,
        ensures
            r@.subrange(0, bytes@.len() as int) == bytes@,
            forall|i: int| bytes@.len() <= i < 512 ==> r@[i] == 0,
    {
        let mut buf = [0u8; 512];
        let mut i: usize = 0;
        while i < bytes.len()
            invariant
                bytes@.len() <= 512,
                i <= bytes@.len(),
                buf@.len() == 512,
                forall|k: int| 0 <= k < i ==> buf@[k] == bytes@[k],
                forall|k: int| bytes@.len() <= k < 512 ==> buf@[k] == 0,
            decreases bytes@.len() - i,
        {
            buf[i] = bytes[i];
            i = i + 1;
        }
        assert(buf@.subrange(0, bytes@.len() as int) =~= bytes@);
        buf
    }

    /// The entry's name, if its bytes are UTF-8.
    pub fn name(&self) -> (r: Result<&str, core::str::Utf8Error>)
        requires
            self.wf(),
        ensures
            r is Ok <==> valid_utf8(self.name_bytes()),
            r is Ok ==> r->Ok_0@ == decode_utf8(self.name_bytes()),
    {
        let bytes = vstd::slice::slice_subrange(self.name.as_slice(), 0, self.name_len as usize);
        assert(bytes@ == self.name_bytes());
        str_from_utf8(bytes)
    }

    /// Replaces the name. A name longer than 512 bytes is refused and the
    /// entry is left unchanged.
    pub fn set_name(&mut self, name: &str) -> (r: Result<(), ()>)
        ensures
            name.spec_bytes().len() > 512 ==> r is Err && *final(self) == *old(self),
            name.spec_bytes().len() <= 512 ==> {
                &&& r is Ok
                &&& final(self).wf()
                &&& final(self).name_bytes() == name.spec_bytes()
                &&& final(self).dtype() == old(self).dtype()
                &&& forall|i: int| name.spec_bytes().len() <= i < 512 ==> final(self).buffer()[i] == 0
            },
    {
        let name_bytes = name.as_bytes();
        let name_len = name_bytes.len();
        if name_len > 512 {
            Err(())
        } else {
            self.name = DirEnt::zero_padded(name_bytes);
            self.name_len = name_len as u64;
            assert(self.name_bytes() =~= name.spec_bytes());
            Ok(())
        }
    }

    /// The entry's type.
    pub fn d_type(&self) -> (r: &DirType)
        ensures
            *r == self.dtype(),
    {
        &self.d_type
    }

    /// Replaces the entry's type.
    pub fn set_d_type(&mut self, d_type: DirType)
        ensures
            final(self).dtype() == d_type,
            final(self).name_bytes() == old(self).name_bytes(),
            final(self).buffer() == old(self).buffer(),
            final(self).wf() == old(self).wf(),
    {
        self.d_type = d_type;
    }

    /// An entry of no type with an empty name and a zeroed buffer.
    pub fn default_entry() -> (r: DirEnt)
        ensures
            r.wf(),
            r.dtype() == DirType::NoType,
            r.name_bytes() == Seq::<u8>::empty(),
            forall|i: int| 0 <= i < 512 ==> r.buffer()[i] == 0,
    {
        let r = DirEnt { d_type: DirType::NoType, name: [0u8; 512], name_len: 0 };
        assert(r.name_bytes() =~= Seq::<u8>::empty());
        r
    }
}

/// Reading back a name that was set: an entry whose name bytes are those of
/// the text `name` has a UTF-8 name, and it reads as `name`.
pub proof fn lemma_name_round_trip(e: DirEnt, name: Seq<char>)
    requires
        e.name_bytes() == vstd::utf8::encode_utf8(name),
    ensures
        valid_utf8(e.name_bytes()),
        decode_utf8(e.name_bytes()) == name,
{
    vstd::utf8::encode_utf8_valid_utf8(name);
    vstd::utf8::encode_utf8_decode_utf8(name);
}

/// A date as represented in FAT32 on-disk structures.
#[derive(Clone, Copy, Debug, PartialEq, Eq)]
pub struct Date(pub u16);

/// Time as represented in FAT32 on-disk structures.
#[derive(Clone, Copy, Debug, PartialEq, Eq)]
pub struct Time(pub u16);

/// File attributes as represented in FAT32 on-disk structures.
#[derive(Clone, Copy, Debug, PartialEq, Eq)]
pub struct Attributes(pub u8);

impl Attributes {
    /// The raw attribute byte.
    pub fn value(&self) -> (r: u8)
        ensures
            r == self.0,
    {
        self.0
    }
}

/// A date and a time.
#[derive(Clone, Copy, Debug, PartialEq, Eq)]
pub struct Timestamp {
    pub date: Date,
    pub time: Time,
}

/// Fields of the FAT32 date and time encodings, as the decoders read them.
pub open spec fn ts_year(date: u16) -> int {
    (date as int / 512) + 1980
}

/// The month: bits 5-8 of the date, January being 1.
pub open spec fn ts_month(date: u16) -> int {
    (date as int / 32) % 16
}

pub open spec fn ts_day(date: u16) -> int {
    date as int % 32
}

pub open spec fn ts_hour(time: u16) -> int {
    time as int / 2048
}

pub open spec fn ts_minute(time: u16) -> int {
    (time as int / 32) % 64
}

pub open spec fn ts_second(time: u16) -> int {
    (time as int % 32) * 2
}

impl Timestamp {
    /// Builds a timestamp from raw `(date, time)` words.
    pub fn from_raw(date_time: (u16, u16)) -> (r: Timestamp)
        ensures
            r.date.0 == date_time.0,
            r.time.0 == date_time.1,
    {
        Timestamp { date: Date(date_time.0), time: Time(date_time.1) }
    }

    /// The calendar year; 1980 is the epoch.
    pub fn year(&self) -> (r: usize)
        ensures
            r == ts_year(self.date.0),
    {
        let d = self.date.0 as usize;
        assert((d >> 9) == d / 512) by (bit_vector);
        assert(d / 512 < 128) by (bit_vector)
            requires
                d < 0x10000,
        ;
        (d >> 9) + 1980
    }

    /// The calendar month, January being 1: always in range [1, 12] for a
    /// valid date.
    ///
    /// Panics (excluded by the precondition) when the field exceeds 12.
    pub fn month(&self) -> (r: u8)
        requires
            ts_month(self.date.0) <= 12,
        ensures
            r == ts_month(self.date.0),
    {
        let d = self.date.0;
        let m: u16 = (d & 0x01E0) >> 5;
        assert(m == ((d / 32) % 16)) by (bit_vector)
            requires
                m == (d & 0x01E0) >> 5,
        ;
        m as u8
    }

    /// The day of the month.
    pub fn day(&self) -> (r: u8)
        ensures
            r == ts_day(self.date.0),
    {
        let d = self.date.0;
        let r = (d & 0x1F) as u8;
        assert(r == d % 32) by (bit_vector)
            requires
                r == (d & 0x1F) as u8,
        ;
        r
    }

    /// The hour. Panics (excluded by the precondition) when the field exceeds 24.
    pub fn hour(&self) -> (r: u8)
        requires
            ts_hour(self.time.0) <= 24,
        ensures
            r == ts_hour(self.time.0),
    {
        let t = self.time.0;
        let r = (t >> 11) as u8;
        assert(r == t / 2048) by (bit_vector)
            requires
                r == (t >> 11) as u8,
        ;
        r
    }

    /// The minute. Panics (excluded by the precondition) when the field exceeds 60.
    pub fn minute(&self) -> (r: u8)
        requires
            ts_minute(self.time.0) <= 60,
        ensures
            r == ts_minute(self.time.0),
    {
        let t = self.time.0;
        let r = ((t & 0x07E0) >> 5) as u8;
        assert(r == (t / 32) % 64) by (bit_vector)
            requires
                r == ((t & 0x07E0) >> 5) as u8,
        ;
        r
    }

    /// The second (the field counts two-second steps). Panics (excluded by
    /// the precondition) when the result exceeds 60.
    pub fn second(&self) -> (r: u8)
        requires
            ts_second(self.time.0) <= 60,
        ensures
            r == ts_second(self.time.0),
    {
        let t = self.time.0;
        let f = (t & 0x1F) as u8;
        assert(f == t % 32) by (bit_vector)
            requires
                f == (t & 0x1F) as u8,
        ;
        f * 2
    }
}

/// Metadata of a directory entry.
#[derive(Clone, Copy, Debug, PartialEq, Eq)]
pub struct Metadata {
    pub attributes: Attributes,
    pub creation_timestamp: Timestamp,
    pub accessed_date: Date,
    pub modification_timestamp: Timestamp,
}

/// The attribute flag of weight `weight` (a power of two) is set in `attr`.
pub open spec fn attr_flag(attr: u8, weight: int) -> bool {
    (attr as int / weight) % 2 == 1
}

impl Metadata {
    /// Builds metadata from the raw attribute byte and the raw creation
    /// date, creation time, access date, modification date and modification
    /// time words.
    pub fn from_raw(raw: (u8, [u16; 5])) -> (r: Metadata)
        ensures
            r.attributes.0 == raw.0,
            r.creation_timestamp.date.0 == raw.1[0],
            r.creation_timestamp.time.0 == raw.1[1],
            r.accessed_date.0 == raw.1[2],
            r.modification_timestamp.date.0 == raw.1[3],
            r.modification_timestamp.time.0 == raw.1[4],
    {
        Metadata {
            attributes: Attributes(raw.0),
            creation_timestamp: Timestamp::from_raw((raw.1[0], raw.1[1])),
            accessed_date: Date(raw.1[2]),
            modification_timestamp: Timestamp::from_raw((raw.1[3], raw.1[4])),
        }
    }

    /// Whether the associated entry is read only.
    pub fn read_only(&self) -> (r: bool)
        ensures
            r == attr_flag(self.attributes.0, 1),
    {
        let a = self.attributes.0;
        assert(((a & 0x01) != 0) == ((a / 1) % 2 == 1)) by (bit_vector);
        (a & 0x01) != 0
    }

    /// Whether the entry should be hidden from directory traversals.
    pub fn hidden(&self) -> (r: bool)
        ensures
            r == attr_flag(self.attributes.0, 2),
    {
        let a = self.attributes.0;
        assert((((a & 0x02) >> 1) != 0) == ((a / 2) % 2 == 1)) by (bit_vector);
        ((a & 0x02) >> 1) != 0
    }

    /// Whether the entry is marked as system.
    pub fn system(&self) -> (r: bool)
        ensures
            r == attr_flag(self.attributes.0, 4),
    {
        let a = self.attributes.0;
        assert((((a & 0x04) >> 2) != 0) == ((a / 4) % 2 == 1)) by (bit_vector);
        ((a & 0x04) >> 2) != 0
    }

    /// Whether the entry is a volume ID.
    pub fn volume_id(&self) -> (r: bool)
        ensures
            r == attr_flag(self.attributes.0, 8),
    {
        let a = self.attributes.0;
        assert((((a & 0x08) >> 3) != 0) == ((a / 8) % 2 == 1)) by (bit_vector);
        ((a & 0x08) >> 3) != 0
    }

    /// Whether the entry is a directory.
    pub fn directory(&self) -> (r: bool)
        ensures
            r == attr_flag(self.attributes.0, 16),
    {
        let a = self.attributes.0;
        assert((((a & 0x10) >> 4) != 0) == ((a / 16) % 2 == 1)) by (bit_vector);
        ((a & 0x10) >> 4) != 0
    }

    /// Whether the entry is marked archive.
    pub fn archive(&self) -> (r: bool)
        ensures
            r == attr_flag(self.attributes.0, 32),
    {
        let a = self.attributes.0;
        assert((((a & 0x20) >> 5) != 0) == ((a / 32) % 2 == 1)) by (bit_vector);
        ((a & 0x20) >> 5) != 0
    }

    /// The timestamp when the entry was created.
    pub fn created(&self) -> (r: Timestamp)
        ensures
            r == self.creation_timestamp,
    {
        self.creation_timestamp
    }

    /// The timestamp of the entry's last access: the access date at time 0.
    pub fn accessed(&self) -> (r: Timestamp)
        ensures
            r.date == self.accessed_date,
            r.time.0 == 0,
    {
        Timestamp { time: Time(0), date: self.accessed_date }
    }

    /// The timestamp of the entry's last modification.
    pub fn modified(&self) -> (r: Timestamp)
        ensures
            r == self.modification_timestamp,
    {
        self.modification_timestamp
    }
}

/// What `stat` reports of an entry.
#[derive(Clone, Copy, Debug, PartialEq, Eq)]
pub struct Stat {
    pub metadata: Metadata,
    pub size: u64,
}

impl Stat {
    /// A zeroed record.
    pub fn default_stat() -> (r: Stat)
        ensures
            r.size == 0,
            r.metadata.attributes.0 == 0,
            r.metadata.creation_timestamp.date.0 == 0,
            r.metadata.creation_timestamp.time.0 == 0,
            r.metadata.accessed_date.0 == 0,
            r.metadata.modification_timestamp.date.0 == 0,
            r.metadata.modification_timestamp.time.0 == 0,
    {
        Stat { metadata: Metadata::from_raw((0u8, [0u16; 5])), size: 0 }
    }

    /// The entry's size in bytes.
    pub fn size(&self) -> (r: u64)
        ensures
            r == self.size,
    {
        self.size
    }

    /// The entry's metadata.
    pub fn metadata(&self) -> (r: Metadata)
        ensures
            r == self.metadata,
    {
        self.metadata
    }

    /// Replaces the metadata by the one the raw words describe.
    pub fn set_metadata_from_raw(&mut self, raw: (u8, [u16; 5]))
        ensures
            final(self).metadata == Metadata::from_raw_spec(raw),
            final(self).size == old(self).size,
    {
        self.metadata = Metadata::from_raw(raw);
    }

    /// Replaces the size.
    pub fn set_size(&mut self, raw: u64)
        ensures
            final(self).size == raw,
            final(self).metadata == old(self).metadata,
    {
        self.size = raw;
    }
}

impl Metadata {
    /// The metadata the raw words describe.
    pub open spec fn from_raw_spec(raw: (u8, [u16; 5])) -> Metadata {
        Metadata {
            attributes: Attributes(raw.0),
            creation_timestamp: Timestamp { date: Date(raw.1[0]), time: Time(raw.1[1]) },
            accessed_date: Date(raw.1[2]),
            modification_timestamp: Timestamp { date: Date(raw.1[3]), time: Time(raw.1[4]) },
        }
    }
}

/// The fields of the time word that the text shows are in range: the
/// hour at most 24, minute and second at most 60.
/// Whether the date and time fields are in the ranges their readers
/// accept.
pub fn stamp_in_range(date: u16, time: u16) -> (r: bool)
    ensures
        r == stamp_ok(date, time),
{
    (date / 32) % 16 <= 12 && time / 2048 <= 24 && (time / 32) % 64 <= 60 && (time % 32) * 2 <= 60
}

pub open spec fn stamp_ok(date: u16, time: u16) -> bool {
    ts_month(date) <= 12 && ts_hour(time) <= 24 && ts_minute(time) <= 60 && ts_second(time) <= 60
}

/// The text of a timestamp: `YYYY-MM-DD HH:MM:SS UTC`, each field padded
/// with zeros.
#[verifier::opaque]
pub open spec fn stamp_text(date: u16, time: u16) -> Seq<u8> {
    zero_padded(ts_year(date) as nat, 4) + seq![0x2du8] + zero_padded(ts_month(date) as nat, 2) + seq![0x2du8]
        + zero_padded(ts_day(date) as nat, 2) + seq![0x20u8] + zero_padded(ts_hour(time) as nat, 2) + seq![0x3au8]
        + zero_padded(ts_minute(time) as nat, 2) + seq![0x3au8] + zero_padded(ts_second(time) as nat, 2)
        + " UTC".spec_bytes()
}

/// `c` when `b` holds, `-` otherwise.
pub open spec fn flag_char(b: bool, c: u8) -> u8 {
    if b { c } else { 0x2du8 }
}

/// The attribute letters: directory, file, read-only, hidden, system,
/// volume ID and archive, each `-` when not set.
pub open spec fn flags_text(attr: u8) -> Seq<u8> {
    seq![
        flag_char(attr_flag(attr, 16), 0x64),
        flag_char(!attr_flag(attr, 16), 0x66),
        flag_char(attr_flag(attr, 1), 0x72),
        flag_char(attr_flag(attr, 2), 0x68),
        flag_char(attr_flag(attr, 4), 0x73),
        flag_char(attr_flag(attr, 8), 0x69),
        flag_char(attr_flag(attr, 32), 0x61),
    ]
}

/// The text of metadata: the attribute letters, then the creation and the
/// modification timestamps, each after two spaces.
pub open spec fn metadata_text(attr: u8, created: (u16, u16), modified: (u16, u16)) -> Seq<u8> {
    flags_text(attr) + seq![0x20u8, 0x20u8] + stamp_text(created.0, created.1) + seq![0x20u8, 0x20u8] + stamp_text(
        modified.0,
        modified.1,
    )
}

/// Appends `c` when `b` holds, `-` otherwise.
pub fn push_flag(out: &mut Vec<u8>, b: bool, c: u8)
    ensures
        final(out)@ == old(out)@.push(flag_char(b, c)),
{
    if b {
        out.push(c);
    } else {
        out.push(0x2d);
    }
}

impl Timestamp {
    /// The timestamp as text: `YYYY-MM-DD HH:MM:SS UTC`.
    ///
    /// Panics (excluded by the precondition) when a time field is out of range.
    pub fn text(&self) -> (r: Vec<u8>)
        requires
            stamp_ok(self.date.0, self.time.0),
        ensures
            r@ == stamp_text(self.date.0, self.time.0),
    {
        let mut out: Vec<u8> = Vec::new();
        push_zero_padded(&mut out, self.year() as u64, 4);
        out.push(0x2d);
        push_zero_padded(&mut out, self.month() as u64, 2);
        out.push(0x2d);
        push_zero_padded(&mut out, self.day() as u64, 2);
        out.push(0x20);
        push_zero_padded(&mut out, self.hour() as u64, 2);
        out.push(0x3a);
        push_zero_padded(&mut out, self.minute() as u64, 2);
        out.push(0x3a);
        push_zero_padded(&mut out, self.second() as u64, 2);
        push_str(&mut out, " UTC");
        proof {
            reveal(stamp_text);
        }
        assert(out@ =~= stamp_text(self.date.0, self.time.0));
        out
    }
}

impl Metadata {
    /// The metadata as text: attribute letters, creation and modification
    /// timestamps.
    ///
    /// Panics (excluded by the precondition) when a time field is out of range.
    pub fn text(&self) -> (r: Vec<u8>)
        requires
            stamp_ok(self.creation_timestamp.date.0, self.creation_timestamp.time.0),
            stamp_ok(self.modification_timestamp.date.0, self.modification_timestamp.time.0),
        ensures
            r@ == metadata_text(
                self.attributes.0,
                (self.creation_timestamp.date.0, self.creation_timestamp.time.0),
                (self.modification_timestamp.date.0, self.modification_timestamp.time.0),
            ),
    {
        let mut out: Vec<u8> = Vec::new();
        let dir = self.directory();
        push_flag(&mut out, dir, 0x64);
        push_flag(&mut out, !dir, 0x66);
        push_flag(&mut out, self.read_only(), 0x72);
        push_flag(&mut out, self.hidden(), 0x68);
        push_flag(&mut out, self.system(), 0x73);
        push_flag(&mut out, self.volume_id(), 0x69);
        push_flag(&mut out, self.archive(), 0x61);
        assert(out@ =~= flags_text(self.attributes.0));
        out.push(0x20);
        out.push(0x20);
        let c = self.created().text();
        push_bytes(&mut out, c.as_slice());
        out.push(0x20);
        out.push(0x20);
        let m = self.modified().text();
        push_bytes(&mut out, m.as_slice());
        assert(out@ =~= metadata_text(
            self.attributes.0,
            (self.creation_timestamp.date.0, self.creation_timestamp.time.0),
            (self.modification_timestamp.date.0, self.modification_timestamp.time.0),
        ));
        out
    }
}

} // verus!
