//! The kernel's file system: the mounted FAT32 volume behind a lock.

use vstd::prelude::*;

verus! {

use crate::fat32::dir::Entry;
use crate::fat32::lookup::{opened, open_ok, open_kind};
use crate::fat32::volume::VFat;
use crate::kern::mutex::Mutex;
use crate::kernel_api::IoErrorKind;

/// A shared handle on a mounted volume.
pub trait VFatHandle: Sized {
    /// The volume this handle gives access to.
    spec fn volume(&self) -> VFat;

    /// A handle on `val`.
    fn new(val: VFat) -> (h: Self)
        ensures
            h.volume() == val,
    ;
}

/// The kernel's handle on its volume.
pub struct PiVFatHandle(Mutex<VFat>);

impl VFatHandle for PiVFatHandle {
    closed spec fn volume(&self) -> VFat {
        self.0.value()
    }

    fn new(val: VFat) -> (h: Self) {
        PiVFatHandle(Mutex::new(val))
    }
}

impl PiVFatHandle {
    /// The volume, for a critical section.
    pub fn with_volume(&mut self) -> (r: &mut VFat)
        ensures
            *r == old(self).volume(),
            final(self).volume() == *final(r),
    {
        self.0.get_mut()
    }
}

/// The file system: no volume until it is initialized.
pub struct FileSystem(Mutex<Option<PiVFatHandle>>);

impl FileSystem {
    /// Whether a volume is mounted.
    pub closed spec fn mounted(&self) -> bool {
        self.0.value() is Some
    }

    /// The mounted volume.
    pub closed spec fn mounted_volume(&self) -> VFat {
        self.0.value()->0.volume()
    }

    /// A file system with no volume.
    pub fn uninitialized() -> (r: FileSystem)
        ensures
            !r.mounted(),
    {
        FileSystem(Mutex::new(None))
    }

    /// Mounts `vfat`.
    pub fn initialize(&mut self, vfat: VFat)
        ensures
            final(self).mounted(),
            final(self).mounted_volume() == vfat,
    {
        *self.0.get_mut() = Some(PiVFatHandle::new(vfat));
    }

    /// The volume to open paths on; without one, `NotConnected`.
    pub fn volume(&mut self) -> (r: Result<&mut VFat, IoErrorKind>)
        ensures
            !old(self).mounted() ==> r == Err::<&mut VFat, IoErrorKind>(IoErrorKind::NotConnected)
                && !final(self).mounted(),
            old(self).mounted() ==> (r matches Ok(v) && *v == old(self).mounted_volume() && final(self).mounted()
                && final(self).mounted_volume() == *final(v)),
    {
        match self.0.get_mut() {
            Some(h) => Ok(h.with_volume()),
            None => Err(IoErrorKind::NotConnected),
        }
    }

    /// What opening `path` finds, by kind: a directory (`true`), a file
    /// (`false`), or the error (`NotConnected` without a volume).
    pub open spec fn open_kind(&self, path: Seq<u8>) -> Result<bool, IoErrorKind> {
        if !self.mounted() {
            Err(IoErrorKind::NotConnected)
        } else {
            open_kind(self.mounted_volume()@, path)
        }
    }

    /// The mounted volume, if there is one.
    pub fn vfat(&self) -> (r: Option<&VFat>)
        ensures
            r is Some <==> self.mounted(),
            r matches Some(v) ==> *v == self.mounted_volume(),
    {
        match self.0.peek() {
            Some(h) => Some(h.0.peek()),
            None => None,
        }
    }

    /// Opens the entry at `path` on the mounted volume; without one,
    /// `NotConnected`.
    pub fn open(&self, path: &[u8]) -> (r: Result<Entry, IoErrorKind>)
        requires
            self.mounted() ==> open_ok(self.mounted_volume()@, path@),
        ensures
            !self.mounted() ==> r == Err::<Entry, IoErrorKind>(IoErrorKind::NotConnected),
            self.mounted() ==> opened(self.mounted_volume()@, path@, r),
    {
        match self.0.peek() {
            Some(h) => h.0.peek().open(path),
            None => Err(IoErrorKind::NotConnected),
        }
    }
}

} // verus!
