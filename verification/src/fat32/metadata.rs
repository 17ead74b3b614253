//! Metadata of directory entries: attributes and FAT32 timestamps.

use vstd::prelude::*;

verus! {

use crate::kernel_api::fs::{
    ts_year, ts_month, ts_day, ts_hour, ts_minute, ts_second, attr_flag, stamp_ok, stamp_text, flags_text,
    metadata_text, push_flag,
};
use crate::command::{push_bytes, push_str};
use crate::decimal::push_zero_padded;

/// A date as represented in FAT32 on-disk structures: day in bits 0-4,
/// month in bits 5-8, years since 1980 in bits 9-15.
#[derive(Clone, Copy, Debug, PartialEq, Eq)]
pub struct Date(pub u16);

/// Time as represented in FAT32 on-disk structures: two-second steps in
/// bits 0-4, minutes in bits 5-10, hours in bits 11-15.
#[derive(Clone, Copy, Debug, PartialEq, Eq)]
pub struct Time(pub u16);

/// File attributes as represented in FAT32 on-disk structures.
#[derive(Clone, Copy, Debug, PartialEq, Eq)]
pub struct Attributes(pub u8);

impl Attributes {
    /// The raw attribute byte.
    pub fn value(&self) -> (r: u8)
        ensures
            r == self.0,
    {
        self.0
    }
}

/// A structure containing a date and time.
#[derive(Clone, Copy, Debug, PartialEq, Eq)]
pub struct Timestamp {
    pub date: Date,
    pub time: Time,
}

impl Timestamp {
    /// Builds a timestamp from raw `(date, time)` words.
    pub fn from_raw(date_time: (u16, u16)) -> (r: Timestamp)
        ensures
            r.date.0 == date_time.0,
            r.time.0 == date_time.1,
    {
        Timestamp { date: Date(date_time.0), time: Time(date_time.1) }
    }

    /// The calendar year; 1980 is the epoch.
    pub fn year(&self) -> (r: usize)
        ensures
            r == ts_year(self.date.0),
    {
        let d = self.date.0 as usize;
        assert((d >> 9) == d / 512) by (bit_vector);
        assert(d / 512 < 128) by (bit_vector)
            requires
                d < 0x10000,
        ;
        (d >> 9) + 1980
    }

    /// Sets the year. Panics (excluded by the precondition) when the year, truncated
    /// to 16 bits, is before 1980.
    pub fn set_year(&mut self, year: usize)
        requires
            year as u16 >= 1980,
        ensures
            final(self).time == old(self).time,
            final(self).date.0 % 512 == old(self).date.0 % 512,
            final(self).date.0 / 512 == (year as u16 - 1980) % 128,
    {
        let y = year as u16;
        let d = self.date.0;
        let z = y - 1980;
        let nd = (d & !(0x7Fu16 << 9u16)) | (z << 9u16);
        assert(nd % 512 == d % 512 && nd / 512 == z % 128) by (bit_vector)
            requires
                nd == (d & !(0x7Fu16 << 9u16)) | (z << 9u16),
        ;
        self.date = Date(nd);
    }

    /// The calendar month, January being 1: always in range [1, 12] for a
    /// valid date.
    ///
    /// Panics (excluded by the precondition) when the field exceeds 12.
    pub fn month(&self) -> (r: u8)
        requires
            ts_month(self.date.0) <= 12,
        ensures
            r == ts_month(self.date.0),
    {
        let d = self.date.0;
        let m: u16 = (d & 0x01E0) >> 5;
        assert(m == ((d / 32) % 16)) by (bit_vector)
            requires
                m == (d & 0x01E0) >> 5,
        ;
        m as u8
    }

    /// Sets the month. Panics (excluded by the precondition) outside 1..=12.
    pub fn set_month(&mut self, month: u8)
        requires
            1 <= month <= 12,
        ensures
            final(self).time == old(self).time,
            final(self).date.0 % 32 == old(self).date.0 % 32,
            final(self).date.0 / 512 == old(self).date.0 / 512,
            (final(self).date.0 / 32) % 16 == month,
    {
        let d = self.date.0;
        let m = month as u16;
        let nd = (d & !(0xFu16 << 5u16)) | (m << 5u16);
        assert(nd % 32 == d % 32 && nd / 512 == d / 512 && (nd / 32) % 16 == m) by (bit_vector)
            requires
                1 <= m <= 12,
                nd == (d & !(0xFu16 << 5u16)) | (m << 5u16),
        ;
        self.date = Date(nd);
    }

    /// The day of the month.
    pub fn day(&self) -> (r: u8)
        ensures
            r == ts_day(self.date.0),
    {
        let d = self.date.0;
        let r = (d & 0x1F) as u8;
        assert(r == d % 32) by (bit_vector)
            requires
                r == (d & 0x1F) as u8,
        ;
        r
    }

    /// Sets the day. Panics (excluded by the precondition) outside 1..=31.
    pub fn set_day(&mut self, day: u8)
        requires
            1 <= day <= 31,
        ensures
            final(self).time == old(self).time,
            final(self).date.0 / 32 == old(self).date.0 / 32,
            final(self).date.0 % 32 == day,
    {
        let d = self.date.0;
        let dy = day as u16;
        let nd = (d & !0x1Fu16) | dy;
        assert(nd / 32 == d / 32 && nd % 32 == dy) by (bit_vector)
            requires
                1 <= dy <= 31,
                nd == (d & !0x1Fu16) | dy,
        ;
        self.date = Date(nd);
    }

    /// The hour. Panics (excluded by the precondition) when the field exceeds 24.
    pub fn hour(&self) -> (r: u8)
        requires
            ts_hour(self.time.0) <= 24,
        ensures
            r == ts_hour(self.time.0),
    {
        let t = self.time.0;
        let r = (t >> 11) as u8;
        assert(r == t / 2048) by (bit_vector)
            requires
                r == (t >> 11) as u8,
        ;
        r
    }

    /// Sets the hour. Panics (excluded by the precondition) above 24.
    pub fn set_hour(&mut self, hour: u8)
        requires
            hour <= 24,
        ensures
            final(self).date == old(self).date,
            final(self).time.0 % 2048 == old(self).time.0 % 2048,
            final(self).time.0 / 2048 == hour,
    {
        let t = self.time.0;
        let h = hour as u16;
        let nt = (t & !(0x1Fu16 << 11u16)) | (h << 11u16);
        assert(nt % 2048 == t % 2048 && nt / 2048 == h) by (bit_vector)
            requires
                h <= 24,
                nt == (t & !(0x1Fu16 << 11u16)) | (h << 11u16),
        ;
        self.time = Time(nt);
    }

    /// The minute. Panics (excluded by the precondition) when the field exceeds 60.
    pub fn minute(&self) -> (r: u8)
        requires
            ts_minute(self.time.0) <= 60,
        ensures
            r == ts_minute(self.time.0),
    {
        let t = self.time.0;
        let r = ((t & 0x07E0) >> 5) as u8;
        assert(r == (t / 32) % 64) by (bit_vector)
            requires
                r == ((t & 0x07E0) >> 5) as u8,
        ;
        r
    }

    /// Sets the minute. Panics (excluded by the precondition) above 60.
    pub fn set_minute(&mut self, minute: u8)
        requires
            minute <= 60,
        ensures
            final(self).date == old(self).date,
            final(self).time.0 % 32 == old(self).time.0 % 32,
            final(self).time.0 / 2048 == old(self).time.0 / 2048,
            (final(self).time.0 / 32) % 64 == minute,
    {
        let t = self.time.0;
        let m = minute as u16;
        let nt = (t & !(0x3Fu16 << 5u16)) | (m << 5u16);
        assert(nt % 32 == t % 32 && nt / 2048 == t / 2048 && (nt / 32) % 64 == m) by (bit_vector)
            requires
                m <= 60,
                nt == (t & !(0x3Fu16 << 5u16)) | (m << 5u16),
        ;
        self.time = Time(nt);
    }

    /// The second (the field counts two-second steps). Panics (excluded by
    /// the precondition) when the result exceeds 60.
    pub fn second(&self) -> (r: u8)
        requires
            ts_second(self.time.0) <= 60,
        ensures
            r == ts_second(self.time.0),
    {
        let t = self.time.0;
        let f = (t & 0x1F) as u8;
        assert(f == t % 32) by (bit_vector)
            requires
                f == (t & 0x1F) as u8,
        ;
        f * 2
    }

    /// Sets the second (rounded down to an even second). Panics (excluded by
    /// the precondition) above 60.
    pub fn set_second(&mut self, second: u8)
        requires
            second <= 60,
        ensures
            final(self).date == old(self).date,
            final(self).time.0 / 32 == old(self).time.0 / 32,
            final(self).time.0 % 32 == second / 2,
    {
        let t = self.time.0;
        let s = (second / 2) as u16;
        let nt = (t & !0x1Fu16) | s;
        assert(nt / 32 == t / 32 && nt % 32 == s) by (bit_vector)
            requires
                s <= 30,
                nt == (t & !0x1Fu16) | s,
        ;
        self.time = Time(nt);
    }
}

/// Reading a field back after setting it gives the value written: the day,
/// hour and minute exactly, the second rounded down to even, the year when
/// it lies in the 128 years from 1980, and the month.
pub proof fn lemma_timestamp_set_then_get(
    t: Timestamp,
    year: usize,
    month: u8,
    day: u8,
    hour: u8,
    minute: u8,
    second: u8,
    t_year: Timestamp,
    t_month: Timestamp,
    t_day: Timestamp,
    t_hour: Timestamp,
    t_minute: Timestamp,
    t_second: Timestamp,
)
    requires
        1980 <= year < 1980 + 128,
        1 <= month <= 12,
        1 <= day <= 31,
        hour <= 24,
        minute <= 60,
        second <= 60,
        t_year.time == t.time && t_year.date.0 % 512 == t.date.0 % 512 && t_year.date.0 / 512 == (
        year as u16 - 1980) % 128,
        t_month.time == t.time && t_month.date.0 % 32 == t.date.0 % 32 && t_month.date.0 / 512
            == t.date.0 / 512 && (t_month.date.0 / 32) % 16 == month,
        t_day.time == t.time && t_day.date.0 / 32 == t.date.0 / 32 && t_day.date.0 % 32 == day,
        t_hour.date == t.date && t_hour.time.0 % 2048 == t.time.0 % 2048 && t_hour.time.0 / 2048
            == hour,
        t_minute.date == t.date && t_minute.time.0 % 32 == t.time.0 % 32 && t_minute.time.0 / 2048
            == t.time.0 / 2048 && (t_minute.time.0 / 32) % 64 == minute,
        t_second.date == t.date && t_second.time.0 / 32 == t.time.0 / 32 && t_second.time.0 % 32
            == second / 2,
    ensures
        ts_year(t_year.date.0) == year,
        ts_month(t_month.date.0) == month,
        ts_day(t_day.date.0) == day,
        ts_hour(t_hour.time.0) == hour,
        ts_minute(t_minute.time.0) == minute,
        ts_second(t_second.time.0) == second - second % 2,
{
    assert(year as u16 == year);
}

/// Metadata for a directory entry.
#[derive(Clone, Copy, Debug, PartialEq, Eq)]
pub struct Metadata {
    pub attributes: Attributes,
    pub creation_timestamp: Timestamp,
    pub accessed_date: Date,
    pub modification_timestamp: Timestamp,
}

/// The metadata the raw attribute byte and date/time words describe.
pub open spec fn metadata_of(raw: (u8, [u16; 5])) -> Metadata {
    Metadata {
        attributes: Attributes(raw.0),
        creation_timestamp: Timestamp { date: Date(raw.1[0]), time: Time(raw.1[1]) },
        accessed_date: Date(raw.1[2]),
        modification_timestamp: Timestamp { date: Date(raw.1[3]), time: Time(raw.1[4]) },
    }
}

impl Metadata {
    /// Builds metadata from the raw attribute byte and the raw creation
    /// date, creation time, access date, modification date and modification
    /// time words.
    pub fn from_raw(raw: (u8, [u16; 5])) -> (r: Metadata)
        ensures
            r == metadata_of(raw),
    {
        Metadata {
            attributes: Attributes(raw.0),
            creation_timestamp: Timestamp::from_raw((raw.1[0], raw.1[1])),
            accessed_date: Date(raw.1[2]),
            modification_timestamp: Timestamp::from_raw((raw.1[3], raw.1[4])),
        }
    }

    /// Metadata with every field zero.
    pub open spec fn zero_spec() -> Metadata {
        Metadata {
            attributes: Attributes(0),
            creation_timestamp: Timestamp { date: Date(0), time: Time(0) },
            accessed_date: Date(0),
            modification_timestamp: Timestamp { date: Date(0), time: Time(0) },
        }
    }

    /// Metadata with every field zero.
    pub fn zeroed() -> (r: Metadata)
        ensures
            r == Metadata::zero_spec(),
            r.attributes.0 == 0,
            r.creation_timestamp.date.0 == 0 && r.creation_timestamp.time.0 == 0,
            r.accessed_date.0 == 0,
            r.modification_timestamp.date.0 == 0 && r.modification_timestamp.time.0 == 0,
    {
        Metadata {
            attributes: Attributes(0),
            creation_timestamp: Timestamp { date: Date(0), time: Time(0) },
            accessed_date: Date(0),
            modification_timestamp: Timestamp { date: Date(0), time: Time(0) },
        }
    }

    /// The raw attribute byte and date/time words.
    pub fn raw(&self) -> (r: (u8, [u16; 5]))
        ensures
            metadata_of(r) == *self,
    {
        let r = (
            self.attributes.0,
            [
                self.creation_timestamp.date.0,
                self.creation_timestamp.time.0,
                self.accessed_date.0,
                self.modification_timestamp.date.0,
                self.modification_timestamp.time.0,
            ],
        );
        r
    }

    /// Whether the associated entry is read only.
    pub fn read_only(&self) -> (r: bool)
        ensures
            r == attr_flag(self.attributes.0, 1),
    {
        let a = self.attributes.0;
        assert(((a & 0x01) != 0) == ((a / 1) % 2 == 1)) by (bit_vector);
        (a & 0x01) != 0
    }

    /// Whether the entry should be hidden from directory traversals.
    pub fn hidden(&self) -> (r: bool)
        ensures
            r == attr_flag(self.attributes.0, 2),
    {
        let a = self.attributes.0;
        assert((((a & 0x02) >> 1) != 0) == ((a / 2) % 2 == 1)) by (bit_vector);
        ((a & 0x02) >> 1) != 0
    }

    /// Whether the entry is marked as system.
    pub fn system(&self) -> (r: bool)
        ensures
            r == attr_flag(self.attributes.0, 4),
    {
        let a = self.attributes.0;
        assert((((a & 0x04) >> 2) != 0) == ((a / 4) % 2 == 1)) by (bit_vector);
        ((a & 0x04) >> 2) != 0
    }

    /// Whether the entry is a volume ID.
    pub fn volume_id(&self) -> (r: bool)
        ensures
            r == attr_flag(self.attributes.0, 8),
    {
        let a = self.attributes.0;
        assert((((a & 0x08) >> 3) != 0) == ((a / 8) % 2 == 1)) by (bit_vector);
        ((a & 0x08) >> 3) != 0
    }

    /// Whether the entry is a directory.
    pub fn directory(&self) -> (r: bool)
        ensures
            r == attr_flag(self.attributes.0, 16),
    {
        let a = self.attributes.0;
        assert((((a & 0x10) >> 4) != 0) == ((a / 16) % 2 == 1)) by (bit_vector);
        ((a & 0x10) >> 4) != 0
    }

    /// Whether the entry is marked archive.
    pub fn archive(&self) -> (r: bool)
        ensures
            r == attr_flag(self.attributes.0, 32),
    {
        let a = self.attributes.0;
        assert((((a & 0x20) >> 5) != 0) == ((a / 32) % 2 == 1)) by (bit_vector);
        ((a & 0x20) >> 5) != 0
    }

    /// The timestamp when the entry was created.
    pub fn created(&self) -> (r: Timestamp)
        ensures
            r == self.creation_timestamp,
    {
        self.creation_timestamp
    }

    /// The timestamp of the entry's last access: the access date at time 0.
    pub fn accessed(&self) -> (r: Timestamp)
        ensures
            r.date == self.accessed_date,
            r.time.0 == 0,
    {
        Timestamp { time: Time(0), date: self.accessed_date }
    }

    /// The timestamp of the entry's last modification.
    pub fn modified(&self) -> (r: Timestamp)
        ensures
            r == self.modification_timestamp,
    {
        self.modification_timestamp
    }
}

/// `b` is `a` with its attribute byte replaced by `attr`.
pub open spec fn with_attributes(a: Metadata, b: Metadata, attr: u8) -> bool {
    b == Metadata { attributes: Attributes(attr), ..a }
}

impl Metadata {
    /// Sets the read only attribute.
    pub fn set_read_only(&mut self)
        ensures
            with_attributes(*old(self), *final(self), old(self).attributes.0 | 0x01),
    {
        self.attributes = Attributes(self.attributes.0 | 0x01);
    }

    /// Clears the read only attribute.
    pub fn clear_read_only(&mut self)
        ensures
            with_attributes(*old(self), *final(self), old(self).attributes.0 & !0x01u8),
    {
        self.attributes = Attributes(self.attributes.0 & !0x01u8);
    }

    /// Sets the hidden attribute.
    pub fn set_hidden(&mut self)
        ensures
            with_attributes(*old(self), *final(self), old(self).attributes.0 | 0x02),
    {
        self.attributes = Attributes(self.attributes.0 | 0x02);
    }

    /// Clears the hidden attribute.
    pub fn clear_hidden(&mut self)
        ensures
            with_attributes(*old(self), *final(self), old(self).attributes.0 & !0x02u8),
    {
        self.attributes = Attributes(self.attributes.0 & !0x02u8);
    }

    /// Sets the system attribute.
    pub fn set_system(&mut self)
        ensures
            with_attributes(*old(self), *final(self), old(self).attributes.0 | 0x04),
    {
        self.attributes = Attributes(self.attributes.0 | 0x04);
    }

    /// Clears the system attribute.
    pub fn clear_system(&mut self)
        ensures
            with_attributes(*old(self), *final(self), old(self).attributes.0 & !0x04u8),
    {
        self.attributes = Attributes(self.attributes.0 & !0x04u8);
    }

    /// Sets the volume id attribute.
    pub fn set_volume_id(&mut self)
        ensures
            with_attributes(*old(self), *final(self), old(self).attributes.0 | 0x08),
    {
        self.attributes = Attributes(self.attributes.0 | 0x08);
    }

    /// Clears the volume id attribute.
    pub fn clear_volume_id(&mut self)
        ensures
            with_attributes(*old(self), *final(self), old(self).attributes.0 & !0x08u8),
    {
        self.attributes = Attributes(self.attributes.0 & !0x08u8);
    }

    /// Sets the directory attribute.
    pub fn set_directory(&mut self)
        ensures
            with_attributes(*old(self), *final(self), old(self).attributes.0 | 0x10),
    {
        self.attributes = Attributes(self.attributes.0 | 0x10);
    }

    /// Clears the directory attribute.
    pub fn clear_directory(&mut self)
        ensures
            with_attributes(*old(self), *final(self), old(self).attributes.0 & !0x10u8),
    {
        self.attributes = Attributes(self.attributes.0 & !0x10u8);
    }

    /// Sets the archive attribute.
    pub fn set_archive(&mut self)
        ensures
            with_attributes(*old(self), *final(self), old(self).attributes.0 | 0x20),
    {
        self.attributes = Attributes(self.attributes.0 | 0x20);
    }

    /// Clears the archive attribute.
    pub fn clear_archive(&mut self)
        ensures
            with_attributes(*old(self), *final(self), old(self).attributes.0 & !0x20u8),
    {
        self.attributes = Attributes(self.attributes.0 & !0x20u8);
    }

    /// Sets the modification timestamp to the given values.
    ///
    /// Panics (excluded by the precondition) when a value is out of the range its
    /// setter accepts.
    pub fn set_modified_timestamp(
        &mut self,
        year: usize,
        month: u8,
        day: u8,
        hour: u8,
        minute: u8,
        second: u8,
    )
        requires
            year as u16 >= 1980,
            1 <= month <= 12,
            1 <= day <= 31,
            hour <= 24,
            minute <= 60,
            second <= 60,
        ensures
            final(self).attributes == old(self).attributes,
            final(self).creation_timestamp == old(self).creation_timestamp,
            final(self).accessed_date == old(self).accessed_date,
            final(self).modification_timestamp.date.0 / 512 == (year as u16 - 1980) % 128,
            (final(self).modification_timestamp.date.0 / 32) % 16 == month,
            final(self).modification_timestamp.date.0 % 32 == day,
            final(self).modification_timestamp.time.0 / 2048 == hour,
            (final(self).modification_timestamp.time.0 / 32) % 64 == minute,
            final(self).modification_timestamp.time.0 % 32 == second / 2,
    {
        let mut ts = self.modification_timestamp;
        ts.set_year(year);
        ts.set_month(month);
        ts.set_day(day);
        ts.set_hour(hour);
        ts.set_minute(minute);
        ts.set_second(second);
        self.modification_timestamp = ts;
    }
}

impl Timestamp {
    /// The timestamp as text: `YYYY-MM-DD HH:MM:SS UTC`.
    ///
    /// Panics (excluded by the precondition) when a time field is out of range.
    pub fn text(&self) -> (r: Vec<u8>)
        requires
            stamp_ok(self.date.0, self.time.0),
        ensures
            r@ == stamp_text(self.date.0, self.time.0),
    {
        let mut out: Vec<u8> = Vec::new();
        push_zero_padded(&mut out, self.year() as u64, 4);
        out.push(0x2d);
        push_zero_padded(&mut out, self.month() as u64, 2);
        out.push(0x2d);
        push_zero_padded(&mut out, self.day() as u64, 2);
        out.push(0x20);
        push_zero_padded(&mut out, self.hour() as u64, 2);
        out.push(0x3a);
        push_zero_padded(&mut out, self.minute() as u64, 2);
        out.push(0x3a);
        push_zero_padded(&mut out, self.second() as u64, 2);
        push_str(&mut out, " UTC");
        proof {
            reveal(stamp_text);
        }
        assert(out@ =~= stamp_text(self.date.0, self.time.0));
        out
    }
}

impl Metadata {
    /// The metadata as text: attribute letters, creation and modification
    /// timestamps.
    ///
    /// Panics (excluded by the precondition) when a time field is out of range.
    pub fn text(&self) -> (r: Vec<u8>)
        requires
            stamp_ok(self.creation_timestamp.date.0, self.creation_timestamp.time.0),
            stamp_ok(self.modification_timestamp.date.0, self.modification_timestamp.time.0),
        ensures
            r@ == metadata_text(
                self.attributes.0,
                (self.creation_timestamp.date.0, self.creation_timestamp.time.0),
                (self.modification_timestamp.date.0, self.modification_timestamp.time.0),
            ),
    {
        let mut out: Vec<u8> = Vec::new();
        let dir = self.directory();
        push_flag(&mut out, dir, 0x64);
        push_flag(&mut out, !dir, 0x66);
        push_flag(&mut out, self.read_only(), 0x72);
        push_flag(&mut out, self.hidden(), 0x68);
        push_flag(&mut out, self.system(), 0x73);
        push_flag(&mut out, self.volume_id(), 0x69);
        push_flag(&mut out, self.archive(), 0x61);
        assert(out@ =~= flags_text(self.attributes.0));
        out.push(0x20);
        out.push(0x20);
        let c = self.created().text();
        push_bytes(&mut out, c.as_slice());
        out.push(0x20);
        out.push(0x20);
        let m = self.modified().text();
        push_bytes(&mut out, m.as_slice());
        assert(out@ =~= metadata_text(
            self.attributes.0,
            (self.creation_timestamp.date.0, self.creation_timestamp.time.0),
            (self.modification_timestamp.date.0, self.modification_timestamp.time.0),
        ));
        out
    }
}

} // verus!
