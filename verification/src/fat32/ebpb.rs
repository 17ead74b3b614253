//! The FAT32 extended BIOS parameter block (EBPB).

use vstd::prelude::*;

verus! {

use crate::fat32::bytes::{le_u16, le_u32, read_le_u16, read_le_u32};
use crate::fat32::vfat::Error;

/// The extended BIOS parameter block: the whole sector it was read from
/// (jump, OEM id, label and boot code included), and its fields decoded.
#[derive(Clone, Copy, Debug, PartialEq, Eq)]
pub struct BiosParameterBlock {
    pub raw: [u8; 512],
    pub bytes_per_sector: u16,
    pub sectors_per_cluster: u8,
    pub reserved_sectors: u16,
    pub fat_table_count: u8,
    pub max_directories: u16,
    pub logical_sectors: u16,
    pub media_descriptor: u8,
    pub sectors_per_fat16: u16,
    pub sectors_per_track: u16,
    pub heads_count: u16,
    pub hidden_sector_count: u32,
    pub total_logical_sectors: u32,
    pub sectors_per_fat32: u32,
    pub flags: u16,
    pub fat_version: u16,
    pub root_dir_cluster: u32,
    pub fsinfo_sector: u16,
    pub backup_boot_sector: u16,
    pub drive_number: u8,
    pub windows_nt_flags: u8,
    pub signature: u8,
    pub volume_id: u32,
}

/// The parameter block stored in sector `sector`.
pub open spec fn bpb_of(sector: [u8; 512]) -> BiosParameterBlock {
    let b = sector@;
    BiosParameterBlock {
        raw: sector,
        bytes_per_sector: le_u16(b, 11),
        sectors_per_cluster: b[13],
        reserved_sectors: le_u16(b, 14),
        fat_table_count: b[16],
        max_directories: le_u16(b, 17),
        logical_sectors: le_u16(b, 19),
        media_descriptor: b[21],
        sectors_per_fat16: le_u16(b, 22),
        sectors_per_track: le_u16(b, 24),
        heads_count: le_u16(b, 26),
        hidden_sector_count: le_u32(b, 28),
        total_logical_sectors: le_u32(b, 32),
        sectors_per_fat32: le_u32(b, 36),
        flags: le_u16(b, 40),
        fat_version: le_u16(b, 42),
        root_dir_cluster: le_u32(b, 44),
        fsinfo_sector: le_u16(b, 48),
        backup_boot_sector: le_u16(b, 50),
        drive_number: b[64],
        windows_nt_flags: b[65],
        signature: b[66],
        volume_id: le_u32(b, 67),
    }
}

impl BiosParameterBlock {
    /// Reads the extended BIOS parameter block from a sector.
    ///
    /// If the sector does not end with the signature `55 AA`, returns
    /// `BadSignature`.
    pub fn from_sector(b: &[u8; 512]) -> (r: Result<BiosParameterBlock, Error>)
        ensures
            (b@[510] == 0x55 && b@[511] == 0xAA) ==> r == Ok::<BiosParameterBlock, Error>(bpb_of(*b)),
            !(b@[510] == 0x55 && b@[511] == 0xAA) ==> r == Err::<BiosParameterBlock, Error>(
                Error::BadSignature,
            ),
    {
        let s = b.as_slice();
        if !(s[510] == 0x55 && s[511] == 0xAA) {
            return Err(Error::BadSignature);
        }
        Ok(BiosParameterBlock {
            raw: *b,
            bytes_per_sector: read_le_u16(s, 11),
            sectors_per_cluster: s[13],
            reserved_sectors: read_le_u16(s, 14),
            fat_table_count: s[16],
            max_directories: read_le_u16(s, 17),
            logical_sectors: read_le_u16(s, 19),
            media_descriptor: s[21],
            sectors_per_fat16: read_le_u16(s, 22),
            sectors_per_track: read_le_u16(s, 24),
            heads_count: read_le_u16(s, 26),
            hidden_sector_count: read_le_u32(s, 28),
            total_logical_sectors: read_le_u32(s, 32),
            sectors_per_fat32: read_le_u32(s, 36),
            flags: read_le_u16(s, 40),
            fat_version: read_le_u16(s, 42),
            root_dir_cluster: read_le_u32(s, 44),
            fsinfo_sector: read_le_u16(s, 48),
            backup_boot_sector: read_le_u16(s, 50),
            drive_number: s[64],
            windows_nt_flags: s[65],
            signature: s[66],
            volume_id: read_le_u32(s, 67),
        })
    }

    /// Bytes per logical sector.
    pub fn bytes_per_sector(&self) -> (r: u64)
        ensures
            r == self.bytes_per_sector,
    {
        self.bytes_per_sector as u64
    }

    /// Logical sectors per cluster.
    pub fn sectors_per_cluster(&self) -> (r: u8)
        ensures
            r == self.sectors_per_cluster,
    {
        self.sectors_per_cluster
    }

    /// Sectors per file allocation table.
    pub fn sectors_per_fat(&self) -> (r: u32)
        ensures
            r == self.sectors_per_fat32,
    {
        self.sectors_per_fat32
    }

    /// First sector of the first FAT: right after the reserved sectors.
    pub fn fat_start_sector(&self) -> (r: u64)
        ensures
            r == self.reserved_sectors,
    {
        self.reserved_sectors as u64
    }

    /// First sector of the data region: after the reserved sectors and all
    /// the FATs.
    pub fn data_start_sector(&self) -> (r: u64)
        ensures
            r == self.reserved_sectors + self.fat_table_count * self.sectors_per_fat32,
    {
        assert(self.fat_table_count as u64 * self.sectors_per_fat32 as u64 <= 0xff * 0xffff_ffff)
            by (nonlinear_arith);
        self.fat_start_sector() + self.fat_table_count as u64 * self.sectors_per_fat() as u64
    }

    /// Cluster number of the root directory.
    pub fn root_dir_cluster(&self) -> (r: u32)
        ensures
            r == self.root_dir_cluster,
    {
        self.root_dir_cluster
    }
}

} // verus!
