//! Mounting the first partition of a disk: the master boot record in
//! sector 0, the partition's parameter block at its first sector, and the
//! partition's bytes cut into the volume's logical sectors.

use vstd::prelude::*;

verus! {

use crate::fat32::ebpb::{BiosParameterBlock, bpb_of};
use crate::fat32::mbr::{MasterBootRecord, mbr_check, partition_at};
use crate::fat32::vfat::Error;
use crate::fat32::volume::{VFat, VFatView, fat32_partition};
use crate::fat32::cluster::{Cluster, cluster_of};
use crate::fat32::bytes::copy_range;
use crate::command::push_bytes;
use crate::kernel_api::IoErrorKind;

/// Size of a physical sector of the disk.
pub const DISK_SECTOR: usize = 512;

/// The bytes of the disk's sectors `first..first + count`, in order.
pub open spec fn span_bytes(disk: Seq<[u8; 512]>, first: int, count: nat) -> Seq<u8>
    decreases count,
{
    if count == 0 {
        Seq::empty()
    } else {
        span_bytes(disk, first, (count - 1) as nat) + disk[first + count - 1]@
    }
}

/// The bytes `b` cut into sectors of `size` bytes (a last piece shorter
/// than a sector is left out).
pub open spec fn logical_sectors(b: Seq<u8>, size: int) -> Seq<Seq<u8>> {
    Seq::new((b.len() as int / size) as nat, |k: int| b.subrange(k * size, k * size + size))
}

/// What mounting the disk `disk` gives: a disk without sector 0 is
/// `UnexpectedEof`; a bad master boot record is its error; a first
/// partition that is not FAT32 is `NotFound`; a partition starting past
/// the disk's end is `UnexpectedEof`; a parameter block without its
/// signature is `BadSignature`; a logical sector size that is not a
/// positive multiple of the disk's sector size is `InvalidData`. Otherwise
/// the volume has the parameter block's geometry, and the partition's
/// sectors that the disk holds, cut into logical sectors.
pub open spec fn mount_spec(disk: Seq<[u8; 512]>) -> Result<VFatView, Error> {
    if disk.len() == 0 {
        Err(Error::Io(IoErrorKind::UnexpectedEof))
    } else {
        match mbr_check(disk[0]@) {
            Err(e) => Err(Error::Mbr(e)),
            Ok(_) => {
                let p = partition_at(disk[0]@, 446);
                let first = p.start_sector as int;
                if !fat32_partition(p) {
                    Err(Error::NotFound)
                } else if first >= disk.len() {
                    Err(Error::Io(IoErrorKind::UnexpectedEof))
                } else if !(disk[first]@[510] == 0x55 && disk[first]@[511] == 0xAA) {
                    Err(Error::BadSignature)
                } else {
                    let e = bpb_of(disk[first]);
                    let size = e.bytes_per_sector as int;
                    if size == 0 || size % 512 != 0 {
                        Err(Error::Io(IoErrorKind::InvalidData))
                    } else {
                        let avail = disk.len() - first;
                        let count = if (p.total_sectors as int) < avail { p.total_sectors as int } else { avail };
                        Ok(
                            VFatView {
                                bytes_per_sector: e.bytes_per_sector,
                                sectors_per_cluster: e.sectors_per_cluster,
                                sectors_per_fat: e.sectors_per_fat32,
                                fat_start_sector: e.reserved_sectors as u64,
                                data_start_sector: (e.reserved_sectors + e.fat_table_count * e.sectors_per_fat32)
                                    as u64,
                                rootdir_cluster: Cluster(cluster_of(e.root_dir_cluster)),
                                sectors: logical_sectors(span_bytes(disk, first, count as nat), size),
                            },
                        )
                    }
                }
            },
        }
    }
}

/// The bytes of `count` sectors from `first` on.
fn gather(disk: &Vec<[u8; 512]>, first: usize, count: usize) -> (r: Vec<u8>)
    requires
        first + count <= disk@.len(),
    ensures
        r@ == span_bytes(disk@, first as int, count as nat),
{
    let dl = disk.len();
    let mut out: Vec<u8> = Vec::new();
    let mut j: usize = 0;
    while j < count
        invariant
            dl == disk@.len(),
            first + count <= disk@.len(),
            j <= count,
            out@ == span_bytes(disk@, first as int, j as nat),
        decreases count - j,
    {
        let s = &disk[first + j];
        push_bytes(&mut out, s.as_slice());
        j = j + 1;
    }
    out
}

/// The bytes `b` cut into sectors of `size` bytes.
fn cut(b: &Vec<u8>, size: usize) -> (r: Vec<Vec<u8>>)
    requires
        size > 0,
    ensures
        r@.map_values(|v: Vec<u8>| v@) == logical_sectors(b@, size as int),
{
    let bl = b.len();
    let n = bl / size;
    let mut out: Vec<Vec<u8>> = Vec::new();
    let mut k: usize = 0;
    proof {
        assert(n * size <= b@.len()) by (nonlinear_arith)
            requires
                n == b@.len() as int / size as int,
                size > 0,
        ;
    }
    while k < n
        invariant
            bl == b@.len(),
            size > 0,
            n == b@.len() as int / size as int,
            n * size <= b@.len(),
            k <= n,
            out@.len() == k,
            forall|i: int| 0 <= i < k ==> (#[trigger] out@[i])@ == b@.subrange(i * size, i * size + size),
        decreases n - k,
    {
        assert(k * size + size <= n * size) by (nonlinear_arith)
            requires
                k < n,
                size > 0,
        ;
        let piece = copy_range(b.as_slice(), k * size, size);
        out.push(piece);
        k = k + 1;
    }
    assert(out@.map_values(|v: Vec<u8>| v@) =~= logical_sectors(b@, size as int));
    out
}

impl VFat {
    /// Mounts the first partition of the disk `disk`, given as its
    /// 512-byte sectors (see [`mount_spec`]).
    pub fn mount(disk: &Vec<[u8; 512]>) -> (r: Result<VFat, Error>)
        ensures
            match mount_spec(disk@) {
                Ok(v) => r matches Ok(m) && m@ == v,
                Err(e) => r == Err::<VFat, Error>(e),
            },
    {
        if disk.len() == 0 {
            return Err(Error::Io(IoErrorKind::UnexpectedEof));
        }
        let mbr = match MasterBootRecord::from_sector(&disk[0]) {
            Ok(m) => m,
            Err(e) => {
                return Err(Error::Mbr(e));
            },
        };
        let partition = *mbr.get_partition(0);
        if !partition.is_fat32() {
            return Err(Error::NotFound);
        }
        let first = partition.start_sector() as usize;
        if first >= disk.len() {
            return Err(Error::Io(IoErrorKind::UnexpectedEof));
        }
        let ebpb = match BiosParameterBlock::from_sector(&disk[first]) {
            Ok(e) => e,
            Err(e) => {
                return Err(e);
            },
        };
        let size = ebpb.bytes_per_sector() as usize;
        if size == 0 || size % DISK_SECTOR != 0 {
            return Err(Error::Io(IoErrorKind::InvalidData));
        }
        let avail = disk.len() - first;
        let total = partition.total_sectors() as usize;
        let count = if total < avail { total } else { avail };
        let bytes = gather(disk, first, count);
        let sectors = cut(&bytes, size);
        VFat::from(&partition, &ebpb, sectors)
    }
}

/// Mounting accepts the two FAT32 partition types: with a sound master
/// boot record, a first partition whose type byte (byte 450 of sector 0)
/// is `0x0B` (CHS addressing) or `0x0C` (LBA addressing), that starts on
/// the disk, whose first sector carries the `55 AA` signature and whose
/// logical sector size is a positive multiple of 512 is mounted; any
/// other type byte is `NotFound`.
pub proof fn lemma_mount_fat32_types(disk: Seq<[u8; 512]>)
    requires
        disk.len() > 0,
        mbr_check(disk[0]@) is Ok,
    ensures
        disk[0]@[450] != 0x0B && disk[0]@[450] != 0x0C ==> mount_spec(disk) == Err::<VFatView, Error>(
            Error::NotFound,
        ),
        ({
            let first = partition_at(disk[0]@, 446).start_sector as int;
            (disk[0]@[450] == 0x0B || disk[0]@[450] == 0x0C) && first < disk.len() && disk[first]@[510] == 0x55
                && disk[first]@[511] == 0xAA && bpb_of(disk[first]).bytes_per_sector > 0
                && bpb_of(disk[first]).bytes_per_sector % 512 == 0 ==> mount_spec(disk) is Ok
        }),
{
}

} // verus!
