//! A FAT32 volume: its geometry and the locations of its structures.

use vstd::prelude::*;

verus! {

use crate::kernel_api::IoErrorKind;

/// Errors opening a FAT32 volume.
#[derive(Clone, Copy, Debug, PartialEq, Eq)]
pub enum Error {
    /// Reading the master boot record failed.
    Mbr(crate::fat32::mbr::Error),
    /// An I/O error while reading the volume.
    Io(IoErrorKind),
    /// The parameter block's signature is invalid.
    BadSignature,
    /// The first partition is not a FAT32 partition.
    NotFound,
}

} // verus!
