//! The master boot record (MBR) and its partition table.

use vstd::prelude::*;

verus! {

use crate::fat32::bytes::{le_u32, read_le_u32};
use crate::kernel_api::IoErrorKind;

/// A cylinder-head-sector address.
#[derive(Clone, Copy, Debug, PartialEq, Eq)]
pub struct CHS {
    pub head: u8,
    pub sector_cylinder: [u8; 2],
}

impl CHS {
    /// The sector field as decoded: the two bytes are combined with a bitwise
    /// "and" of the high byte shifted left and the low byte, which is always 0.
    pub fn sector(&self) -> (r: u16)
        ensures
            r == 0,
    {
        let a = self.sector_cylinder[0] as u16;
        let b = self.sector_cylinder[1] as u16;
        let sc: u16 = (a << 8) & b;
        let r = sc & !(0b1111111111u16 << 6u16);
        assert(r == 0) by (bit_vector)
            requires
                a < 0x100,
                b < 0x100,
                sc == (a << 8) & b,
                r == sc & !(0b1111111111u16 << 6u16),
        ;
        r
    }

    /// The cylinder field as decoded (always 0, see [`CHS::sector`]).
    pub fn cylinder(&self) -> (r: u16)
        ensures
            r == 0,
    {
        let a = self.sector_cylinder[0] as u16;
        let b = self.sector_cylinder[1] as u16;
        let sc: u16 = (a << 8) & b;
        let r = sc >> 6u16;
        assert(r == 0) by (bit_vector)
            requires
                a < 0x100,
                b < 0x100,
                sc == (a << 8) & b,
                r == sc >> 6u16,
        ;
        r
    }
}

/// A partition-table entry.
#[derive(Clone, Copy, Debug, PartialEq, Eq)]
pub struct PartitionEntry {
    pub boot_flag: u8,
    pub start_chs: CHS,
    pub partition_type: u8,
    pub end_chs: CHS,
    pub start_sector: u32,
    pub total_sectors: u32,
}

/// Offset of the partition table in the MBR.
pub const PARTITION_TABLE_OFFSET: usize = 446;

/// The partition entry stored at `off` of the sector `b`.
pub open spec fn partition_at(b: Seq<u8>, off: int) -> PartitionEntry {
    PartitionEntry {
        boot_flag: b[off],
        start_chs: CHS { head: b[off + 1], sector_cylinder: [b[off + 2], b[off + 3]] },
        partition_type: b[off + 4],
        end_chs: CHS { head: b[off + 5], sector_cylinder: [b[off + 6], b[off + 7]] },
        start_sector: le_u32(b, off + 8),
        total_sectors: le_u32(b, off + 12),
    }
}

impl PartitionEntry {
    /// Whether the partition is marked bootable.
    pub fn bootable(&self) -> (r: bool)
        ensures
            r == (self.boot_flag == 0x80),
    {
        self.boot_flag == 0x80
    }

    /// Whether the partition type is FAT32 (CHS or LBA addressing).
    pub fn is_fat32(&self) -> (r: bool)
        ensures
            r == (self.partition_type == 0xB || self.partition_type == 0xC),
    {
        self.partition_type == 0xB || self.partition_type == 0xC
    }

    /// The partition's first sector.
    pub fn start_sector(&self) -> (r: u32)
        ensures
            r == self.start_sector,
    {
        self.start_sector
    }

    /// The partition's size in sectors.
    pub fn total_sectors(&self) -> (r: u32)
        ensures
            r == self.total_sectors,
    {
        self.total_sectors
    }

    /// Decodes the 16-byte entry at `off` of a sector.
    pub fn parse(b: &[u8], off: usize) -> (r: PartitionEntry)
        requires
            off + 16 <= b@.len(),
        ensures
            r == partition_at(b@, off as int),
    {
        PartitionEntry {
            boot_flag: b[off],
            start_chs: CHS { head: b[off + 1], sector_cylinder: [b[off + 2], b[off + 3]] },
            partition_type: b[off + 4],
            end_chs: CHS { head: b[off + 5], sector_cylinder: [b[off + 6], b[off + 7]] },
            start_sector: read_le_u32(b, off + 8),
            total_sectors: read_le_u32(b, off + 12),
        }
    }
}

/// The master boot record: the whole sector it was read from (bootstrap
/// code included), and its fields decoded.
#[derive(Clone, Copy, Debug, PartialEq, Eq)]
pub struct MasterBootRecord {
    pub raw: [u8; 512],
    pub disk_id: [u8; 10],
    pub partitions: [PartitionEntry; 4],
    pub magic_signature: [u8; 2],
}

/// Errors reading a master boot record.
#[derive(Clone, Copy, Debug, PartialEq, Eq)]
pub enum Error {
    /// There was an I/O error while reading the MBR.
    Io(IoErrorKind),
    /// Partition `.0` (0-indexed) contains an invalid or unknown boot indicator.
    UnknownBootIndicator(u8),
    /// The MBR magic signature was invalid.
    BadSignature,
}

/// The sector ends with the signature `55 AA`.
pub open spec fn mbr_signature_ok(b: Seq<u8>) -> bool {
    b[510] == 0x55 && b[511] == 0xAA
}

/// The boot flag of partition `i` is 0 or 0x80.
pub open spec fn boot_flag_ok(b: Seq<u8>, i: int) -> bool {
    b[446 + 16 * i] == 0 || b[446 + 16 * i] == 0x80
}

/// First partition (at or after `i`) with an invalid boot flag, or 4.
pub open spec fn first_bad_boot_flag(b: Seq<u8>, i: int) -> int
    decreases 4 - i,
{
    if i >= 4 {
        4
    } else if !boot_flag_ok(b, i) {
        i
    } else {
        first_bad_boot_flag(b, i + 1)
    }
}

/// The outcome of reading sector `b` as an MBR: the error, or `Ok`.
pub open spec fn mbr_check(b: Seq<u8>) -> Result<(), Error> {
    if !mbr_signature_ok(b) {
        Err(Error::BadSignature)
    } else if first_bad_boot_flag(b, 0) < 4 {
        Err(Error::UnknownBootIndicator(first_bad_boot_flag(b, 0) as u8))
    } else {
        Ok(())
    }
}

impl MasterBootRecord {
    /// Reads the master boot record from the first sector of a device.
    ///
    /// Returns `BadSignature` if the sector does not end with `55 AA`, and
    /// `UnknownBootIndicator(n)` if partition `n` (the first such) has a boot
    /// flag other than 0 and 0x80.
    pub fn from_sector(b: &[u8; 512]) -> (r: Result<MasterBootRecord, Error>)
        ensures
            mbr_check(b@) is Err <==> r is Err,
            r is Err ==> r == Err::<MasterBootRecord, Error>(mbr_check(b@)->Err_0),
            r matches Ok(m) ==> {
                &&& m.raw == *b
                &&& forall|i: int| 0 <= i < 4 ==> m.partitions@[i] == partition_at(b@, 446 + 16 * i)
                &&& m.disk_id@ == b@.subrange(436, 446)
                &&& m.magic_signature@ == b@.subrange(510, 512)
            },
    {
        let s = b.as_slice();
        if !(s[510] == 0x55 && s[511] == 0xAA) {
            return Err(Error::BadSignature);
        }
        let mut i: usize = 0;
        while i < 4
            invariant
                i <= 4,
                s@ == b@,
                s@.len() == 512,
                mbr_signature_ok(b@),
                first_bad_boot_flag(b@, i as int) == first_bad_boot_flag(b@, 0),
            decreases 4 - i,
        {
            let flag = s[446 + 16 * i];
            if !(flag == 0 || flag == 0x80) {
                return Err(Error::UnknownBootIndicator(i as u8));
            }
            i = i + 1;
        }
        let p0 = PartitionEntry::parse(s, 446);
        let p1 = PartitionEntry::parse(s, 462);
        let p2 = PartitionEntry::parse(s, 478);
        let p3 = PartitionEntry::parse(s, 494);
        let disk_id = [s[436], s[437], s[438], s[439], s[440], s[441], s[442], s[443], s[444], s[445]];
        let mbr = MasterBootRecord { raw: *b, disk_id, partitions: [p0, p1, p2, p3], magic_signature: [s[510], s[511]] };
        proof {
            assert(mbr.disk_id@ =~= b@.subrange(436, 446));
            assert(mbr.magic_signature@ =~= b@.subrange(510, 512));
            assert forall|i: int| 0 <= i < 4 implies mbr.partitions@[i] == partition_at(b@, 446 + 16 * i) by {
                if i == 0 {} else if i == 1 {} else if i == 2 {} else {}
            }
        }
        Ok(mbr)
    }

    /// The partition entry `number` (0-indexed).
    ///
    /// Panics (excluded by the precondition) if `number` is not below 4.
    pub fn get_partition(&self, number: usize) -> (r: &PartitionEntry)
        requires
            number < 4,
        ensures
            *r == self.partitions@[number as int],
    {
        &self.partitions[number]
    }
}

} // verus!
