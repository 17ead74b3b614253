//! FAT32 on-disk structures: the master boot record, the BIOS parameter
//! block, directory entries, metadata, and the geometry of a volume.

pub mod bytes;
pub mod cluster;
pub mod dir;
pub mod ebpb;
pub mod entry;
pub mod file;
pub mod lookup;
pub mod mbr;
pub mod metadata;
pub mod mount;
pub mod names;
pub mod readback;
pub mod vfat;
pub mod volume;
