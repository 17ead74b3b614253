//! The user-space allocator: the same size classes as the kernel allocator,
//! growing the process heap with the `sbrk` system call.

pub mod bin;

use vstd::prelude::*;

verus! {

use crate::bw_allocator::bin::{Allocator as BinAllocator, fresh_view};

/// Process-wide allocator: a bin allocator that is created on first use.
pub struct Allocator {
    inner: Option<BinAllocator>,
}

impl Allocator {
    /// The wrapped bin allocator, if it has been created.
    pub closed spec fn inner_spec(&self) -> Option<BinAllocator> {
        self.inner
    }

    /// Returns an `Allocator` whose bin allocator is not yet created.
    pub fn new() -> (a: Allocator)
        ensures
            a.inner_spec().is_none(),
    {
        Allocator { inner: None }
    }

    /// Whether the bin allocator has been created.
    pub fn is_initialized(&self) -> (r: bool)
        ensures
            r == self.inner_spec().is_some(),
    {
        self.inner.is_some()
    }

    /// Creates the bin allocator at program break `current` unless it exists.
    pub fn initialize(&mut self, current: usize)
        ensures
            old(self).inner_spec().is_some() ==> final(self).inner_spec() == old(self).inner_spec(),
            old(self).inner_spec().is_none() ==> final(self).inner_spec().is_some()
                && final(self).inner_spec().unwrap()@ == fresh_view(current as int),
    {
        if self.inner.is_none() {
            self.inner = Some(BinAllocator::new(current));
        }
    }
}

} // verus!
