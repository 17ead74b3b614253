//! A FAT32 volume: its geometry, its file allocation table, and reading and
//! writing clusters and cluster chains.
//!
//! The partition's logical sectors are held as a sequence of byte vectors of
//! the volume's sector size. A sector that lies outside the partition is
//! refused with `InvalidInput`; a cluster is read or written only when all
//! of its sectors lie inside the partition.

use vstd::prelude::*;

verus! {

use crate::fat32::bytes::{le_u32, read_le_u32, copy_range};
use crate::fat32::cluster::Cluster;
use crate::fat32::ebpb::BiosParameterBlock;
use crate::fat32::mbr::PartitionEntry;
use crate::fat32::vfat::Error;
use crate::command::push_bytes;
use crate::kernel_api::IoErrorKind;
use vstd::arithmetic::div_mod::{lemma_fundamental_div_mod, lemma_fundamental_div_mod_converse};

/// What a FAT entry says about its cluster.
#[derive(Clone, Copy, Debug, PartialEq, Eq)]
pub enum Status {
    /// The cluster is unused.
    Free,
    /// The cluster is reserved.
    Reserved,
    /// The cluster holds data and the chain goes on at the given cluster.
    Data(Cluster),
    /// The cluster is marked bad.
    Bad,
    /// The cluster is the last of its chain; the raw entry.
    Eoc(u32),
}

/// The status of a raw FAT entry: the low 28 bits decide; 0 is free, 1
/// and `0x0FFFFFF0..=0x0FFFFFF6` reserved, `0x0FFFFFF7` bad, from
/// `0x0FFFFFF8` on the end of a chain, and anything else the next cluster.
pub open spec fn status_of(raw: u32) -> Status {
    let v = raw % 0x1000_0000;
    if v == 0 {
        Status::Free
    } else if v == 1 {
        Status::Reserved
    } else if v <= 0x0FFF_FFEF {
        Status::Data(Cluster(v as u32))
    } else if v <= 0x0FFF_FFF6 {
        Status::Reserved
    } else if v == 0x0FFF_FFF7 {
        Status::Bad
    } else {
        Status::Eoc(raw)
    }
}

/// The status a raw FAT entry holds.
pub fn fat_status(raw: u32) -> (r: Status)
    ensures
        r == status_of(raw),
{
    let v = raw % 0x1000_0000;
    if v == 0 {
        Status::Free
    } else if v == 1 {
        Status::Reserved
    } else if v <= 0x0FFF_FFEF {
        Status::Data(Cluster(v))
    } else if v <= 0x0FFF_FFF6 {
        Status::Reserved
    } else if v == 0x0FFF_FFF7 {
        Status::Bad
    } else {
        Status::Eoc(raw)
    }
}

/// The partition is a FAT32 partition (CHS or LBA addressing).
pub open spec fn fat32_partition(p: PartitionEntry) -> bool {
    p.partition_type == 0xB || p.partition_type == 0xC
}

/// A mounted FAT32 volume.
pub struct VFat {
    pub bytes_per_sector: u16,
    pub sectors_per_cluster: u8,
    pub sectors_per_fat: u32,
    pub fat_start_sector: u64,
    pub data_start_sector: u64,
    pub rootdir_cluster: Cluster,
    /// The partition's logical sectors.
    pub sectors: Vec<Vec<u8>>,
}

/// The abstract state of a volume: its geometry and the bytes of each
/// sector.
pub struct VFatView {
    pub bytes_per_sector: u16,
    pub sectors_per_cluster: u8,
    pub sectors_per_fat: u32,
    pub fat_start_sector: u64,
    pub data_start_sector: u64,
    pub rootdir_cluster: Cluster,
    pub sectors: Seq<Seq<u8>>,
}

impl VFat {
    /// The geometry fields of `self` and `o` agree.
    pub open spec fn same_fields(&self, o: VFat) -> bool {
        &&& self.bytes_per_sector == o.bytes_per_sector
        &&& self.sectors_per_cluster == o.sectors_per_cluster
        &&& self.sectors_per_fat == o.sectors_per_fat
        &&& self.fat_start_sector == o.fat_start_sector
        &&& self.data_start_sector == o.data_start_sector
        &&& self.rootdir_cluster == o.rootdir_cluster
    }
}

impl View for VFat {
    type V = VFatView;

    open spec fn view(&self) -> VFatView {
        VFatView {
            bytes_per_sector: self.bytes_per_sector,
            sectors_per_cluster: self.sectors_per_cluster,
            sectors_per_fat: self.sectors_per_fat,
            fat_start_sector: self.fat_start_sector,
            data_start_sector: self.data_start_sector,
            rootdir_cluster: self.rootdir_cluster,
            sectors: self.sectors@.map_values(|s: Vec<u8>| s@),
        }
    }
}

impl VFatView {
    /// The geometry is usable: the sector size is a positive multiple of
    /// four, a cluster has sectors and its size fits in 16 bits, sector
    /// numbers of the FAT and of every cluster fit in 64 bits, and every
    /// sector has the sector size.
    pub open spec fn wf(&self) -> bool {
        &&& self.bytes_per_sector > 0
        &&& self.bytes_per_sector % 4 == 0
        &&& self.sectors_per_cluster > 0
        &&& self.bytes_per_sector * self.sectors_per_cluster <= u16::MAX
        &&& self.fat_start_sector + self.sectors_per_fat + 1 <= u64::MAX
        &&& self.data_start_sector + 0x1_0000_0000 * 0x100 <= u64::MAX
        &&& forall|i: int| 0 <= i < self.sectors.len() ==> (#[trigger] self.sectors[i]).len()
            == self.bytes_per_sector
    }

    /// Bytes in a cluster.
    pub open spec fn cluster_size(&self) -> int {
        self.bytes_per_sector * self.sectors_per_cluster
    }

    /// Byte `k` of sector `i`.
    pub open spec fn byte(&self, i: int, k: int) -> u8 {
        self.sectors[i][k]
    }

    /// The sector of the FAT that holds the entry of cluster `c`, counted
    /// from the FAT's start.
    pub open spec fn fat_sector(&self, c: u32) -> int {
        (c * 4) / (self.bytes_per_sector as int)
    }

    /// Where in that sector the entry starts.
    pub open spec fn fat_offset(&self, c: u32) -> int {
        (c * 4) % (self.bytes_per_sector as int)
    }

    /// The raw FAT entry of cluster `c`: an entry past the FAT is
    /// `NotFound`, one in a sector outside the partition `InvalidInput`.
    pub open spec fn fat_raw(&self, c: u32) -> Result<u32, IoErrorKind> {
        let s = self.fat_sector(c);
        if s > self.sectors_per_fat {
            Err(IoErrorKind::NotFound)
        } else if self.fat_start_sector + s >= self.sectors.len() {
            Err(IoErrorKind::InvalidInput)
        } else {
            Ok(le_u32(self.sectors[self.fat_start_sector + s], self.fat_offset(c)))
        }
    }

    /// First sector of cluster `c` (clusters are numbered from 2).
    pub open spec fn first_sector(&self, c: u32) -> int {
        self.data_start_sector + (c - 2) * self.sectors_per_cluster
    }

    /// All sectors of cluster `c` lie inside the partition.
    pub open spec fn cluster_in_range(&self, c: u32) -> bool {
        c >= 2 && self.first_sector(c) + self.sectors_per_cluster <= self.sectors.len()
    }

    /// Byte `p` of cluster `c`.
    pub open spec fn cluster_byte(&self, c: u32, p: int) -> u8 {
        self.byte(
            self.first_sector(c) + p / (self.bytes_per_sector as int),
            p % (self.bytes_per_sector as int),
        )
    }

    /// The bytes of cluster `c` from `offset` on, at most `len` of them.
    pub open spec fn cluster_read(&self, c: u32, offset: int, len: int) -> Seq<u8> {
        let n = if offset >= self.cluster_size() {
            0
        } else if len < self.cluster_size() - offset {
            len
        } else {
            self.cluster_size() - offset
        };
        Seq::new(n as nat, |k: int| self.cluster_byte(c, offset + k))
    }

    /// The number of bytes written into a cluster from `offset` when `len`
    /// bytes are offered.
    pub open spec fn cluster_fill(&self, offset: int, len: int) -> int {
        if offset >= self.cluster_size() {
            0
        } else if len < self.cluster_size() - offset {
            len
        } else {
            self.cluster_size() - offset
        }
    }

    /// `w` is this volume with bytes `offset..offset + n` of cluster `c`
    /// replaced by `data[..n]` and nothing else changed.
    pub open spec fn cluster_written(&self, w: VFatView, c: u32, offset: int, data: Seq<u8>, n: int) -> bool {
        &&& w.same_geometry(*self)
        &&& w.sectors.len() == self.sectors.len()
        &&& forall|i: int| 0 <= i < self.sectors.len() ==> (#[trigger] w.sectors[i]).len()
            == self.sectors[i].len()
        &&& forall|i: int, k: int|
            0 <= i < self.sectors.len() && 0 <= k < self.sectors[i].len() ==> #[trigger] w.byte(i, k) == {
                let p = (i - self.first_sector(c)) * self.bytes_per_sector + k;
                if self.first_sector(c) <= i < self.first_sector(c) + self.sectors_per_cluster && offset
                    <= p < offset + n {
                    data[p - offset]
                } else {
                    self.byte(i, k)
                }
            }
    }

    /// The geometry of `self` and `o` agree.
    pub open spec fn same_geometry(&self, o: VFatView) -> bool {
        &&& self.bytes_per_sector == o.bytes_per_sector
        &&& self.sectors_per_cluster == o.sectors_per_cluster
        &&& self.sectors_per_fat == o.sectors_per_fat
        &&& self.fat_start_sector == o.fat_start_sector
        &&& self.data_start_sector == o.data_start_sector
        &&& self.rootdir_cluster == o.rootdir_cluster
    }
}

impl VFat {
    /// Mounts the first partition: it must be a FAT32 partition (else
    /// `NotFound`); the geometry comes from its parameter block and
    /// `sectors` holds its logical sectors.
    pub fn from(
        partition: &PartitionEntry,
        ebpb: &BiosParameterBlock,
        sectors: Vec<Vec<u8>>,
    ) -> (r: Result<VFat, Error>)
        ensures
            !fat32_partition(*partition) ==> r == Err::<VFat, Error>(Error::NotFound),
            fat32_partition(*partition) ==> (r matches Ok(v) && v.bytes_per_sector == ebpb.bytes_per_sector
                && v.sectors_per_cluster == ebpb.sectors_per_cluster && v.sectors_per_fat
                == ebpb.sectors_per_fat32 && v.fat_start_sector == ebpb.reserved_sectors
                && v.data_start_sector == ebpb.reserved_sectors + ebpb.fat_table_count
                * ebpb.sectors_per_fat32 && v.rootdir_cluster.0 == crate::fat32::cluster::cluster_of(
                ebpb.root_dir_cluster,
            ) && v.sectors@ == sectors@),
    {
        if !partition.is_fat32() {
            return Err(Error::NotFound);
        }
        Ok(VFat {
            bytes_per_sector: ebpb.bytes_per_sector() as u16,
            sectors_per_cluster: ebpb.sectors_per_cluster(),
            sectors_per_fat: ebpb.sectors_per_fat(),
            fat_start_sector: ebpb.fat_start_sector(),
            data_start_sector: ebpb.data_start_sector(),
            rootdir_cluster: Cluster::from_raw(ebpb.root_dir_cluster()),
            sectors,
        })
    }

    /// Bytes in a cluster.
    ///
    /// Panics (excluded by the precondition) when the product overflows 16 bits.
    pub fn bytes_per_cluster(&self) -> (r: usize)
        requires
            self.bytes_per_sector * self.sectors_per_cluster <= u16::MAX,
        ensures
            r == self.bytes_per_sector * self.sectors_per_cluster,
    {
        (self.bytes_per_sector * self.sectors_per_cluster as u16) as usize
    }

    /// The raw FAT entry of `cluster`.
    pub fn fat_entry(&self, cluster: Cluster) -> (r: Result<u32, IoErrorKind>)
        requires
            self@.wf(),
        ensures
            r == self@.fat_raw(cluster.0),
    {
        let bps = self.bytes_per_sector as u64;
        let c4: u64 = cluster.fat_address() as u64 * 4;
        let sector: u64 = c4 / bps;
        proof {
            lemma_fundamental_div_mod(c4 as int, bps as int);
            assert(sector * bps + c4 % bps == c4) by (nonlinear_arith)
                requires
                    c4 == bps * (c4 / bps) + c4 % bps,
                    sector == c4 / bps,
            ;
        }
        let pos: u64 = c4 - sector * bps;
        if sector > self.sectors_per_fat as u64 {
            return Err(IoErrorKind::NotFound);
        }
        let abs: u64 = self.fat_start_sector + sector;
        if abs >= self.sectors.len() as u64 {
            return Err(IoErrorKind::InvalidInput);
        }
        proof {
            assert(pos == self@.fat_offset(cluster.0));
            assert(pos + 4 <= bps) by {
                assert(c4 % 4 == 0);
                assert(bps % 4 == 0);
                lemma_mod_aligned(c4 as int, bps as int);
            }
        }
        let data = &self.sectors[abs as usize];
        Ok(read_le_u32(data.as_slice(), pos as usize))
    }
}

impl VFat {
    /// Reads at most `len` bytes of `cluster` from byte `offset` of it: as
    /// many as the cluster holds from there. A read that needs a sector
    /// outside the partition is `InvalidInput`.
    ///
    /// Panics (excluded by the precondition) for clusters 0 and 1, which hold no data.
    pub fn read_cluster(&self, cluster: Cluster, offset: usize, len: usize) -> (r: Result<Vec<u8>, IoErrorKind>)
        requires
            self@.wf(),
            cluster.0 >= 2,
        ensures
            self@.cluster_fill(offset as int, len as int) > 0 && !self@.cluster_in_range(cluster.0) ==> r
                == Err::<Vec<u8>, IoErrorKind>(IoErrorKind::InvalidInput),
            self@.cluster_fill(offset as int, len as int) == 0 || self@.cluster_in_range(cluster.0) ==> (r matches Ok(
                v,
            ) && v@ == self@.cluster_read(cluster.0, offset as int, len as int)),
    {
        let bps: usize = self.bytes_per_sector as usize;
        let spc: usize = self.sectors_per_cluster as usize;
        assert(bps * spc <= u16::MAX);
        let cap: usize = bps * spc;
        if len == 0 || offset >= cap {
            let v: Vec<u8> = Vec::new();
            assert(v@ =~= self@.cluster_read(cluster.0, offset as int, len as int));
            return Ok(v);
        }
        let da: u64 = cluster.data_address() as u64;
        assert(da * (spc as u64) + spc <= 0x1_0000_0000 * 0x100) by (nonlinear_arith)
            requires
                da < 0x1_0000_0000,
                spc < 0x100,
        ;
        let first: u64 = self.data_start_sector + da * (spc as u64);
        if first + spc as u64 > self.sectors.len() as u64 {
            return Err(IoErrorKind::InvalidInput);
        }
        let n: usize = if len < cap - offset { len } else { cap - offset };
        let mut out: Vec<u8> = Vec::new();
        let mut pos: usize = offset;
        let nsec: usize = self.sectors.len();
        while out.len() < n
            invariant
                self@.wf(),
                nsec == self.sectors@.len(),
                bps == self.bytes_per_sector,
                spc == self.sectors_per_cluster,
                cap == bps * spc,
                first == self@.first_sector(cluster.0),
                first + spc <= self.sectors@.len(),
                offset + n <= cap,
                pos == offset + out@.len(),
                out@.len() <= n,
                forall|k: int| 0 <= k < out@.len() ==> #[trigger] out@[k] == self@.cluster_byte(cluster.0, offset + k),
            decreases n - out@.len(),
        {
            let si: usize = pos / bps;
            let cur: usize = pos % bps;
            proof {
                lemma_split(pos as int, bps as int, spc as int);
                assert(si < spc);
                assert(first + si < self.sectors@.len());
            }
            let room: usize = bps - cur;
            let want: usize = n - out.len();
            let w: usize = if want < room { want } else { room };
            let ghost before = out@;
            let idx: usize = first as usize + si;
            let sector = &self.sectors[idx];
            proof {
                lemma_sector_view(self, idx as int);
            }
            push_bytes(&mut out, vstd::slice::slice_subrange(sector.as_slice(), cur, cur + w));
            proof {
                assert forall|k: int| before.len() <= k < out@.len() implies #[trigger] out@[k]
                    == self@.cluster_byte(cluster.0, offset + k) by {
                    let j = k - before.len();
                    lemma_fundamental_div_mod_converse(offset + k, bps as int, si as int, cur + j);
                }
            }
            pos = pos + w;
        }
        assert(out@ =~= self@.cluster_read(cluster.0, offset as int, len as int));
        Ok(out)
    }

    /// Writes `data` into `cluster` from byte `offset` of it, as much as
    /// the cluster holds from there, and returns how much was written. A
    /// write that needs a sector outside the partition is `InvalidInput`
    /// and changes nothing.
    ///
    /// Panics (excluded by the precondition) for clusters 0 and 1, which hold no data.
    pub fn write_cluster(&mut self, cluster: Cluster, offset: usize, data: &[u8]) -> (r: Result<usize, IoErrorKind>)
        requires
            old(self)@.wf(),
            cluster.0 >= 2,
        ensures
            final(self)@.wf(),
            old(self)@.cluster_fill(offset as int, data@.len() as int) > 0 && !old(self)@.cluster_in_range(
                cluster.0,
            ) ==> r == Err::<usize, IoErrorKind>(IoErrorKind::InvalidInput) && *final(self) == *old(self),
            old(self)@.cluster_fill(offset as int, data@.len() as int) == 0 || old(self)@.cluster_in_range(
                cluster.0,
            ) ==> r == Ok::<usize, IoErrorKind>(old(self)@.cluster_fill(offset as int, data@.len() as int) as usize)
                && old(self)@.cluster_written(
                final(self)@,
                cluster.0,
                offset as int,
                data@,
                old(self)@.cluster_fill(offset as int, data@.len() as int),
            ),
    {
        let bps: usize = self.bytes_per_sector as usize;
        let spc: usize = self.sectors_per_cluster as usize;
        assert(bps * spc <= u16::MAX);
        let cap: usize = bps * spc;
        let len = data.len();
        if len == 0 || offset >= cap {
            return Ok(0);
        }
        let da: u64 = cluster.data_address() as u64;
        assert(da * (spc as u64) + spc <= 0x1_0000_0000 * 0x100) by (nonlinear_arith)
            requires
                da < 0x1_0000_0000,
                spc < 0x100,
        ;
        let first: u64 = self.data_start_sector + da * (spc as u64);
        if first + spc as u64 > self.sectors.len() as u64 {
            return Err(IoErrorKind::InvalidInput);
        }
        let n: usize = if len < cap - offset { len } else { cap - offset };
        let mut done: usize = 0;
        let ghost start = self@;
        let nsec: usize = self.sectors.len();
        while done < n
            invariant
                self@.wf(),
                nsec == start.sectors.len(),
                start.wf(),
                bps == start.bytes_per_sector,
                spc == start.sectors_per_cluster,
                cap == bps * spc,
                first == start.first_sector(cluster.0),
                first + spc <= start.sectors.len(),
                offset + n <= cap,
                n <= data@.len(),
                done <= n,
                start.cluster_written(self@, cluster.0, offset as int, data@, done as int),
            decreases n - done,
        {
            let pos: usize = offset + done;
            let si: usize = pos / bps;
            let cur: usize = pos % bps;
            proof {
                lemma_split(pos as int, bps as int, spc as int);
            }
            let room: usize = bps - cur;
            let want: usize = n - done;
            let w: usize = if want < room { want } else { room };
            let idx: usize = first as usize + si;
            proof {
                lemma_sector_view(self, idx as int);
            }
            let mut sector = copy_range(self.sectors[idx].as_slice(), 0, bps);
            let ghost old_sector = sector@;
            let mut j: usize = 0;
            while j < w
                invariant
                    j <= w,
                    cur + w <= bps,
                    done + w <= n,
                    n <= data@.len(),
                    sector@.len() == bps,
                    forall|k: int| 0 <= k < bps ==> #[trigger] sector@[k] == if cur <= k < cur + j {
                        data@[done + k - cur]
                    } else {
                        old_sector[k]
                    },
                decreases w - j,
            {
                sector.set(cur + j, data[done + j]);
                j = j + 1;
            }
            let ghost prev = self@;
            let ghost prev_exec = *self;
            let ghost new_sector = sector@;
            self.sectors.set(idx, sector);
            proof {
                lemma_sector_set_view(&prev_exec, self, idx as int, new_sector);
            }
            proof {
                assert forall|i: int, k: int|
                    0 <= i < start.sectors.len() && 0 <= k < start.sectors[i].len() implies #[trigger] self@.byte(
                        i,
                        k,
                    ) == {
                        let p = (i - start.first_sector(cluster.0)) * start.bytes_per_sector + k;
                        if start.first_sector(cluster.0) <= i < start.first_sector(cluster.0)
                            + start.sectors_per_cluster && offset <= p < offset + done + w {
                            data@[p - offset]
                        } else {
                            start.byte(i, k)
                        }
                    } by {
                    let p = (i - start.first_sector(cluster.0)) * start.bytes_per_sector + k;
                    assert(prev.byte(i, k) == {
                        if start.first_sector(cluster.0) <= i < start.first_sector(cluster.0)
                            + start.sectors_per_cluster && offset <= p < offset + done {
                            data@[p - offset]
                        } else {
                            start.byte(i, k)
                        }
                    });
                    if i == idx {
                        lemma_fundamental_div_mod_converse(pos as int, bps as int, si as int, cur as int);
                        assert(p == (si as int) * bps + k) by (nonlinear_arith)
                            requires
                                p == (i - first) * bps + k,
                                i == first + si,
                        ;
                        assert(offset <= p < offset + done + w <==> cur <= k < cur + w || offset <= p < offset
                            + done) by (nonlinear_arith)
                            requires
                                p == (si as int) * bps + k,
                                pos == (si as int) * bps + cur,
                                pos == offset + done,
                                0 <= k < bps,
                                cur + w <= bps,
                        ;
                    } else {
                        if start.first_sector(cluster.0) <= i < start.first_sector(cluster.0)
                            + start.sectors_per_cluster {
                            let ii = i - first;
                            assert(!(offset + done <= p < offset + done + w)) by (nonlinear_arith)
                                requires
                                    p == ii * bps + k,
                                    0 <= k < bps,
                                    pos == (si as int) * bps + cur,
                                    pos == offset + done,
                                    cur + w <= bps,
                                    ii != si,
                                    0 <= cur,
                            ;
                        }
                    }
                }
            }
            done = done + w;
        }
        Ok(n)
    }
}

/// The clusters of a chain walked from one cluster, and how the walk
/// ended: `None` at the end-of-chain mark, or the error met.
pub type ChainWalk = (Seq<u32>, Option<IoErrorKind>);

impl VFatView {
    /// Walks the chain from cluster `c` through at most `fuel` clusters:
    /// every cluster whose entry names a next cluster or ends the chain is
    /// visited; an entry that cannot be read ends the walk with its error,
    /// and a free, reserved or bad entry with `InvalidData`. `None` when the
    /// fuel runs out first.
    pub open spec fn chain_walk(&self, c: u32, fuel: nat) -> Option<ChainWalk>
        decreases fuel,
    {
        if fuel == 0 {
            None
        } else {
            match self.fat_raw(c) {
                Err(e) => Some((Seq::empty(), Some(e))),
                Ok(raw) => match status_of(raw) {
                    Status::Data(n) => match self.chain_walk(n.0, (fuel - 1) as nat) {
                        None => None,
                        Some((rest, end)) => Some((seq![c] + rest, end)),
                    },
                    Status::Eoc(_) => Some((seq![c], None)),
                    _ => Some((Seq::empty(), Some(IoErrorKind::InvalidData))),
                },
            }
        }
    }

    /// The walk from `c` ends (it does not go round in a cycle).
    pub open spec fn chain_ends(&self, c: u32) -> bool {
        exists|f: nat| (#[trigger] self.chain_walk(c, f)) is Some
    }

    /// Enough fuel to walk the chain from `c` to its end.
    pub open spec fn chain_fuel(&self, c: u32) -> nat {
        choose|f: nat| (#[trigger] self.chain_walk(c, f)) is Some
    }

    /// The walk from `c` to its end.
    pub open spec fn chain(&self, c: u32) -> ChainWalk {
        self.chain_walk(c, self.chain_fuel(c))->0
    }

    /// The first cluster from `raw` on, below `total`, whose entry is free;
    /// an entry that cannot be read ends the search with its error, and
    /// `NotFound` when there is none.
    pub open spec fn first_free(&self, raw: int, total: int) -> Result<u32, IoErrorKind>
        decreases total - raw,
    {
        if raw < 0 || raw >= total {
            Err(IoErrorKind::NotFound)
        } else {
            match self.fat_raw(crate::fat32::cluster::cluster_of(raw as u32)) {
                Err(e) => Err(e),
                Ok(x) => if status_of(x) is Free {
                    Ok(crate::fat32::cluster::cluster_of(raw as u32))
                } else {
                    self.first_free(raw + 1, total)
                },
            }
        }
    }

    /// The number of clusters the search for a free one covers: the
    /// partition's sector count, cut to 32 bits, over the sectors per
    /// cluster.
    pub open spec fn search_clusters(&self) -> int {
        ((self.sectors.len() as u32) / (self.sectors_per_cluster as u32)) as int
    }
}

impl VFat {
    /// The number of bytes in the chain from the cluster that `raw` names
    /// to its end: a whole cluster for each cluster of it.
    ///
    /// Does not return (excluded by the precondition) when the chain goes round in a
    /// cycle, and panics (excluded by the precondition) when the size overflows.
    #[verifier::spinoff_prover]
    #[verifier::rlimit(40)]
    pub fn size_to_chain_end(&self, current_cluster_raw: u32) -> (r: Result<usize, IoErrorKind>)
        requires
            self@.wf(),
            self@.chain_ends(crate::fat32::cluster::cluster_of(current_cluster_raw)),
            self@.chain(crate::fat32::cluster::cluster_of(current_cluster_raw)).0.len() * self@.cluster_size()
                <= usize::MAX,
        ensures
            ({
                let w = self@.chain(crate::fat32::cluster::cluster_of(current_cluster_raw));
                match w.1 {
                    None => r == Ok::<usize, IoErrorKind>((w.0.len() * self@.cluster_size()) as usize),
                    Some(e) => r == Err::<usize, IoErrorKind>(e),
                }
            }),
    {
        let mut cluster = Cluster::from_raw(current_cluster_raw);
        let ghost start = cluster.0;
        let ghost fuel = self@.chain_fuel(start);
        let ghost total = self@.chain(start);
        let bpc: usize = self.bytes_per_sector as usize * self.sectors_per_cluster as usize;
        let mut size: usize = 0;
        let ghost mut k: nat = 0;
        let ghost mut prefix: Seq<u32> = Seq::empty();
        proof {
            assert(prefix + total.0 =~= total.0);
        }
        loop
            invariant
                self@.wf(),
                bpc == self@.cluster_size(),
                k <= fuel,
                start == crate::fat32::cluster::cluster_of(current_cluster_raw),
                fuel == self@.chain_fuel(start),
                total == self@.chain(start),
                self@.chain_walk(cluster.0, (fuel - k) as nat) is Some,
                prefix + (self@.chain_walk(cluster.0, (fuel - k) as nat)->0).0 == total.0,
                (self@.chain_walk(cluster.0, (fuel - k) as nat)->0).1 == total.1,
                size == prefix.len() * bpc,
                total.0.len() * bpc <= usize::MAX,
            decreases fuel - k,
        {
            let ghost rem = (fuel - k) as nat;
            assert(rem > 0);
            let raw = match self.fat_entry(cluster) {
                Ok(raw) => raw,
                Err(e) => {
                    assert(self@.chain_walk(cluster.0, rem) == Some::<ChainWalk>((Seq::<u32>::empty(), Some(e))));
                    assert(prefix + Seq::<u32>::empty() =~= prefix);
                    return Err(e);
                },
            };
            match fat_status(raw) {
                Status::Data(next) => {
                    proof {
                        assert(self@.chain_walk(cluster.0, rem) == match self@.chain_walk(next.0, (rem - 1) as nat) {
                            None => None,
                            Some((rest, end)) => Some((seq![cluster.0] + rest, end)),
                        });
                        let w2 = self@.chain_walk(next.0, (rem - 1) as nat)->0;
                        assert(prefix + (seq![cluster.0] + w2.0) =~= prefix.push(cluster.0) + w2.0);
                        lemma_mul_succ(prefix.len(), bpc as nat);
                        lemma_mul_le(prefix.len() + 1, total.0.len(), bpc as nat);
                    }
                    size = size + bpc;
                    let ghost cur = cluster.0;
                    cluster = next;
                    proof {
                        prefix = prefix.push(cur);
                        k = k + 1;
                    }
                },
                Status::Eoc(_) => {
                    proof {
                        assert(self@.chain_walk(cluster.0, rem) == Some::<ChainWalk>((seq![cluster.0], None)));
                        assert(total.0 =~= prefix.push(cluster.0));
                        lemma_mul_succ(prefix.len(), bpc as nat);
                    }
                    return Ok(size + bpc);
                },
                _ => {
                    assert(self@.chain_walk(cluster.0, rem) == Some::<ChainWalk>(
                        (Seq::<u32>::empty(), Some(IoErrorKind::InvalidData)),
                    ));
                    assert(prefix + Seq::<u32>::empty() =~= prefix);
                    return Err(IoErrorKind::InvalidData);
                },
            }
        }
    }

    /// The first free cluster.
    pub fn find_free_cluster(&self) -> (r: Result<Cluster, IoErrorKind>)
        requires
            self@.wf(),
        ensures
            match self@.first_free(0, self@.search_clusters()) {
                Ok(c) => r == Ok::<Cluster, IoErrorKind>(Cluster(c)),
                Err(e) => r == Err::<Cluster, IoErrorKind>(e),
            },
    {
        let count: u32 = self.sectors.len() as u32;
        let total: u32 = count / (self.sectors_per_cluster as u32);
        let mut raw: u32 = 0;
        while raw < total
            invariant
                self@.wf(),
                total == self@.search_clusters(),
                raw <= total,
                self@.first_free(raw as int, total as int) == self@.first_free(0, total as int),
            decreases total - raw,
        {
            let cluster = Cluster::from_raw(raw);
            match self.fat_entry(cluster) {
                Err(e) => {
                    return Err(e);
                },
                Ok(x) => {
                    if let Status::Free = fat_status(x) {
                        return Ok(cluster);
                    }
                },
            }
            raw = raw + 1;
        }
        Err(IoErrorKind::NotFound)
    }
}

/// The bytes of `v`, least significant first.
pub open spec fn le_bytes(v: u32) -> Seq<u8> {
    seq![(v % 0x100) as u8, ((v / 0x100) % 0x100) as u8, ((v / 0x1_0000) % 0x100) as u8, (v / 0x100_0000) as u8]
}

/// The mark a FAT entry holds at the end of a chain.
pub const END_OF_CHAIN: u32 = 0x0FFF_FFFF;

impl VFatView {
    /// `w` is this volume with the FAT entry of cluster `c` set to `value`
    /// and nothing else changed.
    pub open spec fn fat_updated(&self, w: VFatView, c: u32, value: u32) -> bool {
        let at = self.fat_start_sector + self.fat_sector(c);
        let o = self.fat_offset(c);
        &&& w.same_geometry(*self)
        &&& w.sectors.len() == self.sectors.len()
        &&& forall|i: int| 0 <= i < self.sectors.len() ==> (#[trigger] w.sectors[i]).len()
            == self.sectors[i].len()
        &&& forall|i: int, k: int|
            0 <= i < self.sectors.len() && 0 <= k < self.sectors[i].len() ==> #[trigger] w.byte(i, k) == if i
                == at && o <= k < o + 4 {
                le_bytes(value)[k - o]
            } else {
                self.byte(i, k)
            }
    }
}

impl VFat {
    /// Sets the FAT entry of `c` to `value`.
    pub fn set_fat_entry(&mut self, c: Cluster, value: u32)
        requires
            old(self)@.wf(),
            old(self)@.fat_raw(c.0) is Ok,
        ensures
            final(self)@.wf(),
            old(self)@.fat_updated(final(self)@, c.0, value),
    {
        let bps = self.bytes_per_sector as u64;
        let c4: u64 = c.fat_address() as u64 * 4;
        let sector: u64 = c4 / bps;
        proof {
            lemma_fundamental_div_mod(c4 as int, bps as int);
            assert(sector * bps + c4 % bps == c4) by (nonlinear_arith)
                requires
                    c4 == bps * (c4 / bps) + c4 % bps,
                    sector == c4 / bps,
            ;
            lemma_mod_aligned(c4 as int, bps as int);
        }
        let pos: usize = (c4 - sector * bps) as usize;
        let nsec: usize = self.sectors.len();
        assert(self@.sectors.len() == self.sectors@.len());
        assert(self.fat_start_sector + sector < nsec);
        let idx: usize = (self.fat_start_sector + sector) as usize;
        let n: usize = self.bytes_per_sector as usize;
        proof {
            lemma_sector_view(self, idx as int);
        }
        let mut data = copy_range(self.sectors[idx].as_slice(), 0, n);
        let b0: u8 = (value % 0x100) as u8;
        let b1: u8 = ((value / 0x100) % 0x100) as u8;
        let b2: u8 = ((value / 0x1_0000) % 0x100) as u8;
        let b3: u8 = (value / 0x100_0000) as u8;
        data.set(pos, b0);
        data.set(pos + 1, b1);
        data.set(pos + 2, b2);
        data.set(pos + 3, b3);
        let ghost before = self@;
        let ghost before_exec = *self;
        let ghost new_sector = data@;
        self.sectors.set(idx, data);
        proof {
            lemma_sector_set_view(&before_exec, self, idx as int, new_sector);
            assert(pos == before.fat_offset(c.0));
            assert(idx == before.fat_start_sector + before.fat_sector(c.0));
            assert(self@.same_geometry(before));
            assert forall|i: int| 0 <= i < before.sectors.len() implies (#[trigger] self@.sectors[i]).len()
                == before.sectors[i].len() by {}
            assert forall|i: int, k: int|
                0 <= i < before.sectors.len() && 0 <= k < before.sectors[i].len() implies #[trigger] self@.byte(
                    i,
                    k,
                ) == if i == idx && pos <= k < pos + 4 {
                    le_bytes(value)[k - pos]
                } else {
                    before.byte(i, k)
                } by {}
        }
    }
}

/// What the FAT says after an update: the updated entry reads back the
/// value written, and every other cluster's entry is unchanged.
pub proof fn lemma_fat_update_read(v: VFatView, w: VFatView, c: u32, value: u32, d: u32)
    requires
        v.wf(),
        v.fat_raw(c) is Ok,
        v.fat_updated(w, c, value),
    ensures
        w.wf(),
        w.fat_raw(c) == Ok::<u32, IoErrorKind>(value),
        d != c ==> w.fat_raw(d) == v.fat_raw(d),
{
    let bps = v.bytes_per_sector as int;
    let at = v.fat_start_sector + v.fat_sector(c);
    let o = v.fat_offset(c);
    lemma_fundamental_div_mod(c * 4, bps);
    lemma_mod_aligned(c * 4, bps);
    assert(o + 4 <= bps);
    assert(w.byte(at, o) == le_bytes(value)[0]);
    assert(w.byte(at, o + 1) == le_bytes(value)[1]);
    assert(w.byte(at, o + 2) == le_bytes(value)[2]);
    assert(w.byte(at, o + 3) == le_bytes(value)[3]);
    assert(le_u32(w.sectors[at], o) == value) by {
        lemma_le_bytes_value(value);
    }
    if d != c {
        let ad = v.fat_start_sector + v.fat_sector(d);
        let od = v.fat_offset(d);
        if v.fat_sector(d) <= v.sectors_per_fat && ad < v.sectors.len() {
            lemma_fundamental_div_mod(d * 4, bps);
            lemma_mod_aligned(d * 4, bps);
            lemma_entries_apart(c as int, d as int, bps);
            assert(od + 4 <= bps);
            assert(w.byte(ad, od) == v.byte(ad, od));
            assert(w.byte(ad, od + 1) == v.byte(ad, od + 1));
            assert(w.byte(ad, od + 2) == v.byte(ad, od + 2));
            assert(w.byte(ad, od + 3) == v.byte(ad, od + 3));
            assert(le_u32(w.sectors[ad], od) == le_u32(v.sectors[ad], od));
        }
    }
}

/// Two distinct clusters' entries do not overlap: they lie in different
/// sectors, or four bytes apart or more.
proof fn lemma_entries_apart(c: int, d: int, bps: int)
    requires
        c >= 0,
        d >= 0,
        c != d,
        bps > 0,
        bps % 4 == 0,
    ensures
        (c * 4) / bps != (d * 4) / bps || (c * 4) % bps + 4 <= (d * 4) % bps || (d * 4) % bps + 4 <= (c * 4) % bps,
{
    lemma_fundamental_div_mod(c * 4, bps);
    lemma_fundamental_div_mod(d * 4, bps);
    let qc = (c * 4) / bps;
    let qd = (d * 4) / bps;
    let rc = (c * 4) % bps;
    let rd = (d * 4) % bps;
    if qc == qd {
        assert(rc - rd == 4 * (c - d)) by (nonlinear_arith)
            requires
                c * 4 == bps * qc + rc,
                d * 4 == bps * qd + rd,
                qc == qd,
        ;
    }
}

impl VFat {
    /// Appends the free cluster `new_cluster` to the chain from `cluster`:
    /// the entry of the chain's last cluster is set to `new_cluster` and the
    /// entry of `new_cluster` to the end-of-chain mark. A `new_cluster`
    /// that is not free is `InvalidData`; a chain that cannot be walked to
    /// its end gives the walk's error. Nothing changes on an error.
    ///
    /// Does not return (excluded by the precondition) when the chain goes round in a
    /// cycle.
    pub fn add_cluster_to_chain(&mut self, cluster: Cluster, new_cluster: Cluster) -> (r: Result<(), IoErrorKind>)
        requires
            old(self)@.wf(),
            old(self)@.chain_ends(cluster.0),
        ensures
            final(self)@.wf(),
            match old(self)@.fat_raw(new_cluster.0) {
                Err(e) => r == Err::<(), IoErrorKind>(e) && *final(self) == *old(self),
                Ok(x) => if !(status_of(x) is Free) {
                    r == Err::<(), IoErrorKind>(IoErrorKind::InvalidData) && *final(self) == *old(self)
                } else {
                    let w = old(self)@.chain(cluster.0);
                    match w.1 {
                        Some(e) => r == Err::<(), IoErrorKind>(e) && *final(self) == *old(self),
                        None => r is Ok && exists|mid: VFatView|
                            old(self)@.fat_updated(mid, w.0.last(), new_cluster.0) && #[trigger] mid.fat_updated(
                                final(self)@,
                                new_cluster.0,
                                END_OF_CHAIN,
                            ),
                    }
                },
            },
    {
        match self.fat_entry(new_cluster) {
            Err(e) => {
                return Err(e);
            },
            Ok(x) => {
                if let Status::Free = fat_status(x) {
                } else {
                    return Err(IoErrorKind::InvalidData);
                }
            },
        }
        let mut current = cluster;
        let ghost start = cluster.0;
        let ghost fuel = self@.chain_fuel(start);
        let ghost total = self@.chain(start);
        let ghost mut k: nat = 0;
        let ghost mut prefix: Seq<u32> = Seq::empty();
        proof {
            assert(prefix + total.0 =~= total.0);
        }
        loop
            invariant
                self@.wf(),
                self == old(self),
                k <= fuel,
                start == cluster.0,
                fuel == self@.chain_fuel(start),
                total == self@.chain(start),
                self@.fat_raw(new_cluster.0) is Ok,
                status_of(self@.fat_raw(new_cluster.0)->Ok_0) is Free,
                self@.chain_walk(current.0, (fuel - k) as nat) is Some,
                prefix + (self@.chain_walk(current.0, (fuel - k) as nat)->0).0 == total.0,
                (self@.chain_walk(current.0, (fuel - k) as nat)->0).1 == total.1,
            decreases fuel - k,
        {
            let ghost rem = (fuel - k) as nat;
            assert(rem > 0);
            let raw = match self.fat_entry(current) {
                Ok(raw) => raw,
                Err(e) => {
                    assert(self@.chain_walk(current.0, rem) == Some::<ChainWalk>((Seq::<u32>::empty(), Some(e))));
                    assert(prefix + Seq::<u32>::empty() =~= prefix);
                    return Err(e);
                },
            };
            match fat_status(raw) {
                Status::Data(next) => {
                    proof {
                        assert(self@.chain_walk(current.0, rem) == match self@.chain_walk(next.0, (rem - 1) as nat) {
                            None => None,
                            Some((rest, end)) => Some((seq![current.0] + rest, end)),
                        });
                        let w2 = self@.chain_walk(next.0, (rem - 1) as nat)->0;
                        assert(prefix + (seq![current.0] + w2.0) =~= prefix.push(current.0) + w2.0);
                    }
                    let ghost cur = current.0;
                    current = next;
                    proof {
                        prefix = prefix.push(cur);
                        k = k + 1;
                    }
                },
                Status::Eoc(_) => {
                    proof {
                        assert(self@.chain_walk(current.0, rem) == Some::<ChainWalk>((seq![current.0], None)));
                        assert(total.0 =~= prefix.push(current.0));
                    }
                    let ghost v0 = self@;
                    self.set_fat_entry(current, new_cluster.fat_address());
                    let ghost v1 = self@;
                    proof {
                        lemma_fat_update_read(v0, v1, current.0, new_cluster.0, new_cluster.0);
                        if new_cluster.0 == current.0 {
                            assert(false);
                        }
                    }
                    self.set_fat_entry(new_cluster, END_OF_CHAIN);
                    return Ok(());
                },
                _ => {
                    assert(self@.chain_walk(current.0, rem) == Some::<ChainWalk>(
                        (Seq::<u32>::empty(), Some(IoErrorKind::InvalidData)),
                    ));
                    assert(prefix + Seq::<u32>::empty() =~= prefix);
                    return Err(IoErrorKind::InvalidData);
                },
            }
        }
    }
}

/// Two walks of the same chain that both end agree, whatever fuel each had.
pub proof fn lemma_walk_fuel(v: VFatView, x: u32, f1: nat, f2: nat)
    requires
        v.chain_walk(x, f1) is Some,
        v.chain_walk(x, f2) is Some,
    ensures
        v.chain_walk(x, f1) == v.chain_walk(x, f2),
    decreases f1,
{
    if f1 > 0 && f2 > 0 {
        if let Ok(raw) = v.fat_raw(x) {
            if let Status::Data(n) = status_of(raw) {
                lemma_walk_fuel(v, n.0, (f1 - 1) as nat, (f2 - 1) as nat);
            }
        }
    }
}

/// The walk from `c`, given enough fuel, is the chain from `c`.
pub proof fn lemma_chain_is_walk(v: VFatView, c: u32, f: nat)
    requires
        v.chain_walk(c, f) is Some,
    ensures
        v.chain_ends(c),
        v.chain(c) == v.chain_walk(c, f)->0,
{
    assert(v.chain_ends(c));
    lemma_walk_fuel(v, c, f, v.chain_fuel(c));
}

#[verifier::spinoff_prover]
#[verifier::rlimit(40)]
proof fn lemma_walk_extended(v: VFatView, w: VFatView, x: u32, f: nat, last: u32, n: u32)
    requires
        v.chain_walk(x, f) is Some,
        (v.chain_walk(x, f)->0).1 is None,
        (v.chain_walk(x, f)->0).0.last() == last,
        v.fat_raw(n) is Ok,
        status_of(v.fat_raw(n)->Ok_0) is Free,
        2 <= n <= 0x0FFF_FFEF,
        w.fat_raw(last) == Ok::<u32, IoErrorKind>(n),
        w.fat_raw(n) == Ok::<u32, IoErrorKind>(END_OF_CHAIN),
        forall|y: u32| y != last && y != n ==> #[trigger] w.fat_raw(y) == v.fat_raw(y),
    ensures
        w.chain_walk(x, f + 1) == Some::<ChainWalk>(((v.chain_walk(x, f)->0).0.push(n), None)),
    decreases f,
{
    let raw = v.fat_raw(x)->Ok_0;
    if x == n {
        assert(false);
    }
    match status_of(raw) {
        Status::Data(m) => {
            let rest = v.chain_walk(m.0, (f - 1) as nat)->0;
            assert((v.chain_walk(x, f)->0).0 == seq![x] + rest.0);
            if x == last {
                assert(rest.0.len() > 0 ==> (seq![x] + rest.0).last() == rest.0.last());
                assert(rest.0.len() > 0) by {
                    if rest.0.len() == 0 {
                        assert((seq![x] + rest.0).last() == x);
                    }
                }
                lemma_walk_nonempty_ends_in_eoc(v, m.0, (f - 1) as nat);
                assert(false);
            }
            assert(w.fat_raw(x) == v.fat_raw(x));
            lemma_walk_extended(v, w, m.0, (f - 1) as nat, last, n);
            assert((seq![x] + rest.0).push(n) =~= seq![x] + rest.0.push(n));
        },
        Status::Eoc(_) => {
            assert((v.chain_walk(x, f)->0).0 == seq![x]);
            assert(x == last);
            assert(status_of(n) == Status::Data(Cluster(n)));
            assert(status_of(END_OF_CHAIN) is Eoc);
            assert(w.chain_walk(n, f) == Some::<ChainWalk>((seq![n], None)));
            assert(seq![x].push(n) =~= seq![x] + seq![n]);
        },
        _ => {},
    }
}

/// A walk that ends at an end-of-chain mark ends at the cluster whose
/// entry holds the mark.
proof fn lemma_walk_nonempty_ends_in_eoc(v: VFatView, x: u32, f: nat)
    requires
        v.chain_walk(x, f) is Some,
        (v.chain_walk(x, f)->0).1 is None,
    ensures
        (v.chain_walk(x, f)->0).0.len() > 0,
        v.fat_raw((v.chain_walk(x, f)->0).0.last()) is Ok,
        status_of(v.fat_raw((v.chain_walk(x, f)->0).0.last())->Ok_0) is Eoc,
    decreases f,
{
    let raw = v.fat_raw(x)->Ok_0;
    if let Status::Data(m) = status_of(raw) {
        lemma_walk_nonempty_ends_in_eoc(v, m.0, (f - 1) as nat);
        let rest = v.chain_walk(m.0, (f - 1) as nat)->0;
        assert((seq![x] + rest.0).last() == rest.0.last());
    }
}

/// Appending a free cluster to a chain that ends makes the chain one
/// cluster longer, ending at the new cluster: the entry of the former last
/// cluster names it, and its own entry holds the end-of-chain mark.
pub proof fn lemma_chain_extended(v: VFatView, mid: VFatView, w: VFatView, c: u32, n: u32)
    requires
        v.wf(),
        v.chain_ends(c),
        v.chain(c).1 is None,
        v.fat_raw(n) is Ok,
        status_of(v.fat_raw(n)->Ok_0) is Free,
        2 <= n <= 0x0FFF_FFEF,
        v.fat_updated(mid, v.chain(c).0.last(), n),
        mid.fat_updated(w, n, END_OF_CHAIN),
    ensures
        w.wf(),
        w.chain_ends(c),
        w.chain(c) == (v.chain(c).0.push(n), None::<IoErrorKind>),
        w.search_clusters() == v.search_clusters(),
        w.cluster_size() == v.cluster_size(),
        v.reserves_first_clusters() ==> w.reserves_first_clusters(),
{
    let f = v.chain_fuel(c);
    let last = v.chain(c).0.last();
    lemma_walk_nonempty_ends_in_eoc(v, c, f);
    lemma_fat_update_read(v, mid, last, n, n);
    assert(mid.fat_raw(n) == v.fat_raw(n)) by {
        if n == last {
            assert(false);
        }
    }
    lemma_fat_update_read(mid, w, n, END_OF_CHAIN, last);
    assert forall|y: u32| y != last && y != n implies #[trigger] w.fat_raw(y) == v.fat_raw(y) by {
        lemma_fat_update_read(v, mid, last, n, y);
        lemma_fat_update_read(mid, w, n, END_OF_CHAIN, y);
    }
    lemma_walk_extended(v, w, c, f, last, n);
    lemma_chain_is_walk(w, c, f + 1);
    if v.reserves_first_clusters() {
        lemma_fat_update_read(v, mid, last, n, 0);
        lemma_fat_update_read(v, mid, last, n, 1);
        lemma_fat_update_read(mid, w, n, END_OF_CHAIN, 0);
        lemma_fat_update_read(mid, w, n, END_OF_CHAIN, 1);
    }
}

/// The little-endian bytes of a value read back as the value.
proof fn lemma_le_bytes_value(v: u32)
    ensures
        le_bytes(v)[0] as int + le_bytes(v)[1] as int * 0x100 + le_bytes(v)[2] as int * 0x1_0000 + le_bytes(v)[3] as int
            * 0x100_0000 == v,
{
    let b = le_bytes(v);
    assert(b[0] == v % 0x100);
    assert(b[1] == (v / 0x100) % 0x100);
    assert(b[2] == (v / 0x1_0000) % 0x100);
    assert(b[3] == v / 0x100_0000);
    assert(v % 0x100 + ((v / 0x100) % 0x100) * 0x100 + ((v / 0x1_0000) % 0x100) * 0x1_0000 + (v / 0x100_0000)
        * 0x100_0000 == v) by (nonlinear_arith);
}

impl VFatView {
    /// This volume with bytes `offset..offset + n` of cluster `c` replaced
    /// by `data[..n]`.
    pub open spec fn with_cluster_bytes(self, c: u32, offset: int, data: Seq<u8>, n: int) -> VFatView {
        VFatView {
            sectors: Seq::new(
                self.sectors.len(),
                |i: int|
                    Seq::new(
                        self.sectors[i].len(),
                        |k: int|
                            {
                                let p = (i - self.first_sector(c)) * self.bytes_per_sector + k;
                                if self.first_sector(c) <= i < self.first_sector(c) + self.sectors_per_cluster
                                    && offset <= p < offset + n {
                                    data[p - offset]
                                } else {
                                    self.sectors[i][k]
                                }
                            },
                    ),
            ),
            ..self
        }
    }
}

/// A written cluster is the volume with the cluster's bytes replaced.
pub proof fn lemma_cluster_written_is(v: VFatView, w: VFatView, c: u32, offset: int, data: Seq<u8>, n: int)
    requires
        v.cluster_written(w, c, offset, data, n),
    ensures
        w == v.with_cluster_bytes(c, offset, data, n),
{
    let x = v.with_cluster_bytes(c, offset, data, n);
    assert forall|i: int| 0 <= i < v.sectors.len() implies #[trigger] w.sectors[i] == x.sectors[i] by {
        assert forall|k: int| 0 <= k < v.sectors[i].len() implies #[trigger] w.sectors[i][k] == x.sectors[i][k] by {
            assert(w.byte(i, k) == x.sectors[i][k]);
        }
        assert(w.sectors[i] =~= x.sectors[i]);
    }
    assert(w.sectors =~= x.sectors);
}

impl VFatView {
    /// This volume with the FAT entry of cluster `c` set to `value`.
    pub open spec fn with_fat_entry(self, c: u32, value: u32) -> VFatView {
        let at = self.fat_start_sector + self.fat_sector(c);
        let o = self.fat_offset(c);
        VFatView {
            sectors: Seq::new(
                self.sectors.len(),
                |i: int|
                    Seq::new(
                        self.sectors[i].len(),
                        |k: int|
                            if i == at && o <= k < o + 4 {
                                le_bytes(value)[k - o]
                            } else {
                                self.sectors[i][k]
                            },
                    ),
            ),
            ..self
        }
    }

    /// Clusters 0 and 1 are not free: FAT32 reserves them.
    pub open spec fn reserves_first_clusters(self) -> bool {
        &&& self.fat_raw(0) is Ok ==> !(status_of(self.fat_raw(0)->Ok_0) is Free)
        &&& self.fat_raw(1) is Ok ==> !(status_of(self.fat_raw(1)->Ok_0) is Free)
    }
}

/// An updated FAT entry is the volume with the entry replaced.
pub proof fn lemma_fat_updated_is(v: VFatView, w: VFatView, c: u32, value: u32)
    requires
        v.fat_updated(w, c, value),
    ensures
        w == v.with_fat_entry(c, value),
{
    let x = v.with_fat_entry(c, value);
    assert forall|i: int| 0 <= i < v.sectors.len() implies #[trigger] w.sectors[i] == x.sectors[i] by {
        assert forall|k: int| 0 <= k < v.sectors[i].len() implies #[trigger] w.sectors[i][k] == x.sectors[i][k] by {
            assert(w.byte(i, k) == x.sectors[i][k]);
        }
        assert(w.sectors[i] =~= x.sectors[i]);
    }
    assert(w.sectors =~= x.sectors);
}

/// The free cluster the search finds: its entry reads as free, and it is
/// one of the clusters searched.
pub proof fn lemma_first_free(v: VFatView, raw: int, total: int)
    requires
        0 <= raw,
        total <= 0x0FFF_FFF0,
        v.first_free(raw, total) is Ok,
    ensures
        ({
            let n = v.first_free(raw, total)->Ok_0;
            &&& raw <= n < total
            &&& v.fat_raw(n) is Ok
            &&& status_of(v.fat_raw(n)->Ok_0) is Free
        }),
    decreases total - raw,
{
    assert(crate::fat32::cluster::cluster_of(raw as u32) == raw);
    if let Ok(x) = v.fat_raw(crate::fat32::cluster::cluster_of(raw as u32)) {
        if !(status_of(x) is Free) {
            lemma_first_free(v, raw + 1, total);
        }
    }
}

impl VFatView {
    /// The bytes of cluster `c` a chain read takes: whole 512-byte pieces
    /// of it.
    pub open spec fn cluster_part(self, c: u32) -> Seq<u8> {
        self.cluster_read(c, 0, (self.cluster_size() / 512) * 512)
    }

    /// Whether a chain read refuses cluster `c`: some piece is taken and
    /// the cluster lies outside the partition.
    pub open spec fn part_refused(self, c: u32) -> bool {
        self.cluster_size() / 512 > 0 && !self.cluster_in_range(c)
    }

    /// The bytes of the clusters `s` in order, stopping before the first
    /// one refused, with `InvalidInput` then.
    pub open spec fn chain_data(self, s: Seq<u32>) -> (Seq<u8>, Option<IoErrorKind>)
        decreases s.len(),
    {
        if s.len() == 0 {
            (Seq::empty(), None)
        } else if self.part_refused(s[0]) {
            (Seq::empty(), Some(IoErrorKind::InvalidInput))
        } else {
            let rest = self.chain_data(s.skip(1));
            (self.cluster_part(s[0]) + rest.0, rest.1)
        }
    }
}

impl VFat {
    /// Appends the pieces of `cluster` to `buf`, 512 bytes at a time, and
    /// returns how many bytes were appended.
    ///
    /// Panics (excluded by the precondition) for clusters 0 and 1.
    fn add_cluster_to_buf(&self, cluster: Cluster, buf: &mut Vec<u8>) -> (r: Result<usize, IoErrorKind>)
        requires
            self@.wf(),
            cluster.0 >= 2,
        ensures
            self@.part_refused(cluster.0) ==> r == Err::<usize, IoErrorKind>(IoErrorKind::InvalidInput)
                && final(buf)@ == old(buf)@,
            !self@.part_refused(cluster.0) ==> r == Ok::<usize, IoErrorKind>(
                self@.cluster_part(cluster.0).len() as usize,
            ) && final(buf)@ == old(buf)@ + self@.cluster_part(cluster.0),
    {
        let bps: usize = self.bytes_per_sector as usize;
        let spc: usize = self.sectors_per_cluster as usize;
        assert(bps * spc <= u16::MAX);
        let bpc: usize = bps * spc;
        let chunks: usize = bpc / 512;
        let mut k: usize = 0;
        let mut total: usize = 0;
        let ghost start = buf@;
        while k < chunks
            invariant
                self@.wf(),
                bpc == self@.cluster_size(),
                chunks == bpc / 512,
                chunks * 512 <= bpc,
                k <= chunks,
                total == k * 512,
                cluster.0 >= 2,
                k > 0 ==> self@.cluster_in_range(cluster.0),
                start == old(buf)@,
                buf@ == start + self@.cluster_read(cluster.0, 0, k * 512),
            decreases chunks - k,
        {
            proof {
                assert((k + 1) * 512 <= chunks * 512) by (nonlinear_arith)
                    requires
                        k < chunks,
                ;
            }
            let piece = match self.read_cluster(cluster, k * 512, 512) {
                Ok(p) => p,
                Err(e) => {
                    proof {
                        assert(self@.cluster_fill((k * 512) as int, 512) > 0);
                        assert(!self@.cluster_in_range(cluster.0));
                        assert(self@.part_refused(cluster.0));
                        assert(k == 0);
                        assert(start + self@.cluster_read(cluster.0, 0, 0) =~= start);
                    }
                    return Err(e);
                },
            };
            let ghost before = buf@;
            push_bytes(buf, piece.as_slice());
            proof {
                assert(self@.cluster_read(cluster.0, 0, (k + 1) * 512) =~= self@.cluster_read(cluster.0, 0, k * 512)
                    + self@.cluster_read(cluster.0, k * 512, 512));
            }
            k = k + 1;
            total = total + 512;
        }
        proof {
            if chunks == 0 {
                assert(self@.cluster_read(cluster.0, 0, 0) =~= Seq::<u8>::empty());
            }
        }
        Ok(total)
    }

    /// Appends the data of the chain from `start` to `buf`: the pieces of
    /// each cluster of the chain in order. Returns the number of bytes
    /// appended; a chain that cannot be walked, or a cluster that cannot be
    /// read, is an error, and what was appended before it stays.
    ///
    /// Panics (excluded by the precondition) for clusters 0 and 1; does not return
    /// (excluded by the precondition) when the chain goes round in a cycle.
    #[verifier::spinoff_prover]
    #[verifier::rlimit(80)]
    pub fn read_chain(&self, start: Cluster, buf: &mut Vec<u8>) -> (r: Result<usize, IoErrorKind>)
        requires
            self@.wf(),
            start.0 >= 2,
            self@.chain_ends(start.0),
            (self@.chain(start.0).0.len() + 1) * self@.cluster_size() <= usize::MAX,
        ensures
            ({
                let w = self@.chain(start.0);
                let d = self@.chain_data(w.0);
                &&& final(buf)@ == old(buf)@ + d.0
                &&& match d.1 {
                    Some(e) => r == Err::<usize, IoErrorKind>(e),
                    None => match w.1 {
                        Some(e) => r == Err::<usize, IoErrorKind>(e),
                        None => r == Ok::<usize, IoErrorKind>(d.0.len() as usize),
                    },
                }
            }),
    {
        let mut cluster = start;
        let ghost fuel = self@.chain_fuel(start.0);
        let ghost total = self@.chain(start.0);
        let ghost whole = self@.chain_data(total.0);
        let ghost buf0 = buf@;
        let ghost mut k: nat = 0;
        let ghost mut prefix: Seq<u32> = Seq::empty();
        let mut bytes: usize = 0;
        proof {
            assert(prefix + total.0 =~= total.0);
        }
        loop
            invariant
                self@.wf(),
                k <= fuel,
                fuel == self@.chain_fuel(start.0),
                total == self@.chain(start.0),
                whole == self@.chain_data(total.0),
                buf0 == old(buf)@,
                cluster.0 >= 2,
                self@.chain_walk(cluster.0, (fuel - k) as nat) is Some,
                prefix + (self@.chain_walk(cluster.0, (fuel - k) as nat)->0).0 == total.0,
                (self@.chain_walk(cluster.0, (fuel - k) as nat)->0).1 == total.1,
                self@.chain_data(prefix).1 is None,
                buf@ == buf0 + self@.chain_data(prefix).0,
                bytes == self@.chain_data(prefix).0.len(),
                (total.0.len() + 1) * self@.cluster_size() <= usize::MAX,
                prefix.len() <= total.0.len(),
            decreases fuel - k,
        {
            let ghost rem = (fuel - k) as nat;
            assert(rem > 0);
            proof {
                lemma_chain_data_append(self@, prefix, (self@.chain_walk(cluster.0, rem)->0).0);
            }
            let raw = match self.fat_entry(cluster) {
                Ok(raw) => raw,
                Err(e) => {
                    assert(self@.chain_walk(cluster.0, rem) == Some::<ChainWalk>((Seq::<u32>::empty(), Some(e))));
                    assert(prefix + Seq::<u32>::empty() =~= prefix);
                    return Err(e);
                },
            };
            match fat_status(raw) {
                Status::Data(next) => {
                    proof {
                        assert(self@.chain_walk(cluster.0, rem) == match self@.chain_walk(next.0, (rem - 1) as nat) {
                            None => None,
                            Some((rest, end)) => Some((seq![cluster.0] + rest, end)),
                        });
                        let w2 = self@.chain_walk(next.0, (rem - 1) as nat)->0;
                        assert(prefix + (seq![cluster.0] + w2.0) =~= prefix.push(cluster.0) + w2.0);
                        lemma_read_chain_step(self@, prefix, cluster.0, total.0);
                    }
                    let n = match self.add_cluster_to_buf(cluster, buf) {
                        Ok(n) => n,
                        Err(e) => {
                            return Err(e);
                        },
                    };
                    bytes = bytes + n;
                    let ghost cur = cluster.0;
                    cluster = next;
                    proof {
                        prefix = prefix.push(cur);
                        k = k + 1;
                    }
                },
                Status::Eoc(_) => {
                    proof {
                        assert(self@.chain_walk(cluster.0, rem) == Some::<ChainWalk>((seq![cluster.0], None)));
                        assert(total.0 =~= prefix.push(cluster.0));
                        lemma_read_chain_step(self@, prefix, cluster.0, total.0);
                    }
                    let n = match self.add_cluster_to_buf(cluster, buf) {
                        Ok(n) => n,
                        Err(e) => {
                            return Err(e);
                        },
                    };
                    return Ok(bytes + n);
                },
                _ => {
                    assert(self@.chain_walk(cluster.0, rem) == Some::<ChainWalk>(
                        (Seq::<u32>::empty(), Some(IoErrorKind::InvalidData)),
                    ));
                    assert(prefix + Seq::<u32>::empty() =~= prefix);
                    return Err(IoErrorKind::InvalidData);
                },
            }
        }
    }
}

impl VFatView {
    /// Writes `data[done..]` along the chain from cluster `c`, each cluster
    /// from its start, until the data is used up or the chain ends: the
    /// volume afterwards and the number of bytes of `data` then written.
    /// An entry that cannot be read ends the write with its error, a free,
    /// reserved or bad entry with `InvalidData`, and a cluster outside the
    /// partition with `InvalidInput`; what was written before stays.
    pub open spec fn chain_write(self, c: u32, data: Seq<u8>, done: nat) -> (VFatView, Result<int, IoErrorKind>)
        decreases data.len() - done,
        when self.cluster_size() > 0
    {
        if done >= data.len() {
            (self, Ok(done as int))
        } else {
            match self.fat_raw(c) {
                Err(e) => (self, Err(e)),
                Ok(raw) => {
                    let st = status_of(raw);
                    let rest = data.skip(done as int);
                    let k = self.cluster_fill(0, rest.len() as int);
                    if !(st is Data || st is Eoc) {
                        (self, Err(IoErrorKind::InvalidData))
                    } else if !self.cluster_in_range(c) {
                        (self, Err(IoErrorKind::InvalidInput))
                    } else {
                        let w = self.with_cluster_bytes(c, 0, rest, k);
                        match st {
                            Status::Data(n) => w.chain_write(n.0, data, (done + k) as nat),
                            _ => (w, Ok(done + k)),
                        }
                    }
                },
            }
        }
    }
}

impl VFat {
    /// Writes `buf` along the chain from `start`: each cluster of the chain
    /// from its start, as much of what is left as it holds, until `buf` is
    /// used up or the chain ends. Returns the number of bytes written; an
    /// entry that cannot be read, a free, reserved or bad entry, or a
    /// cluster outside the partition is an error, and what was written
    /// before it stays.
    ///
    /// Panics (excluded by the precondition) for clusters 0 and 1.
    #[verifier::spinoff_prover]
    #[verifier::rlimit(40)]
    pub fn write_chain(&mut self, start: Cluster, buf: &Vec<u8>) -> (r: Result<usize, IoErrorKind>)
        requires
            old(self)@.wf(),
            start.0 >= 2,
        ensures
            final(self)@.wf(),
            ({
                let out = old(self)@.chain_write(start.0, buf@, 0);
                &&& final(self)@ == out.0
                &&& match out.1 {
                    Ok(n) => r == Ok::<usize, IoErrorKind>(n as usize),
                    Err(e) => r == Err::<usize, IoErrorKind>(e),
                }
            }),
    {
        let len = buf.len();
        let mut cluster = start;
        let mut bytes: usize = 0;
        proof {
            assert(self@.cluster_size() > 0) by (nonlinear_arith)
                requires
                    self@.bytes_per_sector > 0,
                    self@.sectors_per_cluster > 0,
            ;
        }
        let ghost goal = self@.chain_write(start.0, buf@, 0);
        loop
            invariant
                self@.wf(),
                self@.cluster_size() > 0,
                cluster.0 >= 2,
                len == buf@.len(),
                bytes <= len,
                goal == old(self)@.chain_write(start.0, buf@, 0),
                goal == self@.chain_write(cluster.0, buf@, bytes as nat),
            decreases len - bytes,
        {
            if bytes >= len {
                return Ok(bytes);
            }
            let raw = match self.fat_entry(cluster) {
                Ok(raw) => raw,
                Err(e) => {
                    return Err(e);
                },
            };
            let st = fat_status(raw);
            let ghost before = self@;
            let rest = vstd::slice::slice_subrange(buf.as_slice(), bytes, len);
            proof {
                assert(rest@ =~= buf@.skip(bytes as int));
            }
            match st {
                Status::Data(next) => {
                    let n = match self.write_cluster(cluster, 0, rest) {
                        Ok(n) => n,
                        Err(e) => {
                            return Err(e);
                        },
                    };
                    proof {
                        lemma_cluster_written_is(before, self@, cluster.0, 0, rest@, n as int);
                    }
                    bytes = bytes + n;
                    cluster = next;
                },
                Status::Eoc(_) => {
                    let n = match self.write_cluster(cluster, 0, rest) {
                        Ok(n) => n,
                        Err(e) => {
                            return Err(e);
                        },
                    };
                    proof {
                        lemma_cluster_written_is(before, self@, cluster.0, 0, rest@, n as int);
                    }
                    return Ok(bytes + n);
                },
                _ => {
                    return Err(IoErrorKind::InvalidData);
                },
            }
        }
    }
}

/// Reading one more cluster of a chain.
proof fn lemma_read_chain_step(v: VFatView, prefix: Seq<u32>, c: u32, total: Seq<u32>)
    requires
        v.wf(),
        v.chain_data(prefix).1 is None,
        prefix.len() + 1 <= total.len(),
        (total.len() + 1) * v.cluster_size() <= usize::MAX,
    ensures
        v.chain_data(prefix.push(c)) == (v.chain_data(prefix).0 + v.chain_data(seq![c]).0, v.chain_data(seq![c]).1),
        v.chain_data(seq![c]) == (if v.part_refused(c) {
            (Seq::<u8>::empty(), Some(IoErrorKind::InvalidInput))
        } else {
            (v.cluster_part(c), None::<IoErrorKind>)
        }),
        v.chain_data(prefix.push(c)).0.len() <= total.len() * v.cluster_size(),
        v.chain_data(prefix).0.len() + v.cluster_part(c).len() <= usize::MAX,
{
    lemma_chain_data_append(v, prefix, seq![c]);
    assert(prefix + seq![c] =~= prefix.push(c));
    assert(seq![c].skip(1) =~= Seq::<u32>::empty());
    assert(v.chain_data(Seq::<u32>::empty()) == (Seq::<u8>::empty(), None::<IoErrorKind>));
    assert(v.cluster_part(c) + Seq::<u8>::empty() =~= v.cluster_part(c));
    lemma_chain_data_bound(v, prefix.push(c));
    lemma_chain_data_bound(v, prefix);
    lemma_mul_le((prefix.len() + 1) as nat, total.len(), v.cluster_size() as nat);
    assert(v.cluster_part(c).len() <= v.cluster_size());
    lemma_mul_le(prefix.len(), total.len(), v.cluster_size() as nat);
    lemma_mul_succ(total.len(), v.cluster_size() as nat);
}

/// The data of two runs of clusters in a row.
proof fn lemma_chain_data_append(v: VFatView, a: Seq<u32>, b: Seq<u32>)
    requires
        v.chain_data(a).1 is None,
    ensures
        v.chain_data(a + b) == (v.chain_data(a).0 + v.chain_data(b).0, v.chain_data(b).1),
    decreases a.len(),
{
    if a.len() == 0 {
        assert(a + b =~= b);
    } else {
        assert((a + b).skip(1) =~= a.skip(1) + b);
        lemma_chain_data_append(v, a.skip(1), b);
    }
}

/// The data of a run of clusters has at most a cluster's bytes for each.
proof fn lemma_chain_data_bound(v: VFatView, a: Seq<u32>)
    requires
        v.wf(),
    ensures
        v.chain_data(a).0.len() <= a.len() * v.cluster_size(),
    decreases a.len(),
{
    if a.len() > 0 && !v.part_refused(a[0]) {
        lemma_chain_data_bound(v, a.skip(1));
        lemma_mul_succ((a.len() - 1) as nat, v.cluster_size() as nat);
    } else if a.len() > 0 {
        lemma_mul_le(0, a.len(), v.cluster_size() as nat);
    }
}

/// Reading back a written cluster: the bytes just written into a cluster
/// are what a read of the same place gives.
pub proof fn lemma_cluster_write_read(v: VFatView, w: VFatView, c: u32, offset: int, data: Seq<u8>)
    requires
        v.wf(),
        v.cluster_in_range(c),
        0 <= offset,
        v.cluster_written(w, c, offset, data, v.cluster_fill(offset, data.len() as int)),
    ensures
        w.cluster_read(c, offset, data.len() as int) == data.take(v.cluster_fill(offset, data.len() as int)),
{
    let n = v.cluster_fill(offset, data.len() as int);
    let bps = v.bytes_per_sector as int;
    assert(v.cluster_size() > 0) by (nonlinear_arith)
        requires
            v.bytes_per_sector > 0,
            v.sectors_per_cluster > 0,
    ;
    assert forall|k: int| 0 <= k < n implies #[trigger] w.cluster_byte(c, offset + k) == data[k] by {
        let p = offset + k;
        lemma_split(p, bps, v.sectors_per_cluster as int);
        let i = v.first_sector(c) + p / bps;
        let j = p % bps;
        assert((i - v.first_sector(c)) * bps + j == p);
        assert(w.byte(i, j) == data[p - offset]);
    }
    assert(w.cluster_read(c, offset, data.len() as int) =~= data.take(n));
}

/// Sector `i` of the view is the bytes of sector `i`.
proof fn lemma_sector_view(v: &VFat, i: int)
    requires
        0 <= i < v.sectors@.len(),
    ensures
        v@.sectors.len() == v.sectors@.len(),
        v@.sectors[i] == v.sectors@[i]@,
{
}

/// Replacing sector `i` replaces it in the view.
proof fn lemma_sector_set_view(before: &VFat, after: &VFat, i: int, s: Seq<u8>)
    requires
        0 <= i < before.sectors@.len(),
        after.sectors@ == before.sectors@.update(i, after.sectors@[i]),
        after.sectors@[i]@ == s,
        after.same_fields(*before),
    ensures
        after@ == (VFatView { sectors: before@.sectors.update(i, s), ..before@ }),
{
    assert(after@.sectors =~= before@.sectors.update(i, s));
}

proof fn lemma_mul_succ(a: nat, c: nat)
    ensures
        (a + 1) * c == a * c + c,
{
    assert((a + 1) * c == a * c + c) by (nonlinear_arith);
}

proof fn lemma_mul_le(a: nat, b: nat, c: nat)
    requires
        a <= b,
    ensures
        a * c <= b * c,
{
    assert(a * c <= b * c) by (nonlinear_arith)
        requires
            a <= b,
    ;
}

/// Splitting a position inside a cluster into a sector index and an
/// offset in that sector.
pub(crate) proof fn lemma_split(pos: int, bps: int, spc: int)
    requires
        bps > 0,
        spc > 0,
        0 <= pos < bps * spc,
    ensures
        pos == (pos / bps) * bps + pos % bps,
        0 <= pos / bps < spc,
        0 <= pos % bps < bps,
{
    lemma_fundamental_div_mod(pos, bps);
    let q = pos / bps;
    let r = pos % bps;
    assert(pos == q * bps + r) by (nonlinear_arith)
        requires
            pos == bps * q + r,
    ;
    assert(0 <= q < spc) by (nonlinear_arith)
        requires
            pos == bps * q + r,
            0 <= r < bps,
            0 <= pos < bps * spc,
            bps > 0,
    ;
}

/// A multiple of four, taken modulo a multiple of four, leaves room for
/// four bytes.
proof fn lemma_mod_aligned(x: int, d: int)
    requires
        x >= 0,
        d > 0,
        x % 4 == 0,
        d % 4 == 0,
    ensures
        x % d + 4 <= d,
{
    lemma_fundamental_div_mod(x, d);
    lemma_fundamental_div_mod(x, 4);
    lemma_fundamental_div_mod(d, 4);
    let q = x / d;
    let r = x % d;
    let a = x / 4;
    let b = d / 4;
    assert(r == 4 * (a - b * q)) by (nonlinear_arith)
        requires
            x == 4 * a,
            d == 4 * b,
            x == d * q + r,
    ;
    let k = a - b * q;
    assert(r + 4 <= d) by (nonlinear_arith)
        requires
            r == 4 * k,
            d == 4 * b,
            0 <= r < d,
    ;
}

/// `VFat::from` accepts exactly the two FAT32 partition types: `0x0B`
/// (CHS addressing) and `0x0C` (LBA addressing); any other type is
/// `NotFound`.
pub proof fn lemma_from_fat32_types(p: PartitionEntry)
    ensures
        fat32_partition(p) <==> (p.partition_type == 0x0B || p.partition_type == 0x0C),
{
}

} // verus!
