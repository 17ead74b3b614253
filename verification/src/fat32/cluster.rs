//! Cluster numbers.

use vstd::prelude::*;

verus! {

/// A cluster number: the low 28 bits of a FAT32 cluster field.
#[derive(Clone, Copy, Debug, PartialEq, Eq)]
pub struct Cluster(pub u32);

/// The cluster a raw 32-bit field names: its top four bits are reserved.
pub open spec fn cluster_of(raw: u32) -> u32 {
    (raw % 0x1000_0000) as u32
}

impl Cluster {
    /// The cluster a raw 32-bit field names (its top four bits cleared).
    pub fn from_raw(raw_num: u32) -> (r: Cluster)
        ensures
            r.0 == cluster_of(raw_num),
    {
        let v = raw_num & !(0xFu32 << 28u32);
        assert(v == raw_num % 0x1000_0000) by (bit_vector)
            requires
                v == raw_num & !(0xFu32 << 28u32),
        ;
        Cluster(v)
    }

    /// The index of the cluster's entry in the FAT.
    pub fn fat_address(&self) -> (r: u32)
        ensures
            r == self.0,
    {
        self.0
    }

    /// The index of the cluster in the data region (clusters 0 and 1 have
    /// no data). Panics (excluded by the precondition) for clusters 0 and 1.
    pub fn data_address(&self) -> (r: u32)
        requires
            self.0 >= 2,
        ensures
            r == self.0 - 2,
    {
        self.0 - 2
    }
}

} // verus!
