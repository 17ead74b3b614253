//! The user-space bin allocator. Fresh blocks come from growing the heap
//! with `sbrk`; the allocator decides, the caller performs the system call.

use vstd::prelude::*;

verus! {

use crate::allocator::{
    Layout, BIN_COUNT_MAX, bin_index, bin_size_spec, fits_some_bin, last_aligned_index,
    lemma_bin_sizes, ADDRESS_HEADROOM,
};
use crate::util::{align_up, has_alignment, align_up_spec};

/// Abstract state of the user bin allocator.
pub struct BinView {
    pub current: int,
    pub bins: Seq<Seq<usize>>,
}

/// A new allocator: the heap ends at `current` and every free list is empty.
pub open spec fn fresh_view(current: int) -> BinView {
    BinView { current, bins: Seq::new(BIN_COUNT_MAX as nat, |i: int| Seq::<usize>::empty()) }
}

/// What the allocator asks for next.
#[derive(Clone, Copy, Debug, PartialEq, Eq)]
pub enum AllocStep {
    /// A freed block was reused: this address is the allocation.
    Ready(usize),
    /// The heap must grow by `request` bytes with `sbrk`; on success the
    /// allocation is `aligned`, and the heap then ends at `end`.
    Grow { aligned: usize, end: usize, request: usize },
}

/// The step `alloc_step(layout)` takes from state `s`.
pub open spec fn alloc_step_spec(s: BinView, layout: Layout) -> (BinView, AllocStep) {
    let b = bin_index(layout.required()) as int;
    let free = s.bins[b];
    let j = last_aligned_index(free, layout.align as int);
    if j >= 0 {
        (BinView { bins: s.bins.update(b, free.remove(j)), ..s }, AllocStep::Ready(free[j]))
    } else {
        let bs = bin_size_spec(b);
        let a = align_up_spec(s.current, bs);
        (
            s,
            AllocStep::Grow {
                aligned: a as usize,
                end: (a + bs) as usize,
                request: (a + bs - s.current) as usize,
            },
        )
    }
}

/// The user bin allocator.
pub struct Allocator {
    current: usize,
    bins: Vec<Vec<usize>>,
}

impl View for Allocator {
    type V = BinView;

    closed spec fn view(&self) -> BinView {
        BinView { current: self.current as int, bins: self.bins@.map_values(|v: Vec<usize>| v@) }
    }
}

impl Allocator {
    /// Well-formedness: one free list per bin, and room above the break.
    pub closed spec fn wf(&self) -> bool {
        &&& self.bins@.len() == BIN_COUNT_MAX
        &&& self.current <= usize::MAX - ADDRESS_HEADROOM
    }

    /// What well-formedness says of the abstract state: one free list per
    /// bin, and room above the break.
    pub proof fn lemma_wf_view(&self)
        requires
            self.wf(),
        ensures
            self@.bins.len() == BIN_COUNT_MAX,
            self@.current <= usize::MAX - ADDRESS_HEADROOM,
    {
    }

    /// Creates a new bin allocator whose heap currently ends at `current`
    /// (the program break that `sbrk(0)` reports).
    pub fn new(current: usize) -> (a: Allocator)
        ensures
            a@ == fresh_view(current as int),
            current <= usize::MAX - ADDRESS_HEADROOM ==> a.wf(),
    {
        let mut bins: Vec<Vec<usize>> = Vec::new();
        let mut i: usize = 0;
        while i < BIN_COUNT_MAX
            invariant
                i <= BIN_COUNT_MAX,
                bins@.len() == i,
                forall|k: int| 0 <= k < i ==> (#[trigger] bins@[k])@ == Seq::<usize>::empty(),
            decreases BIN_COUNT_MAX - i,
        {
            bins.push(Vec::new());
            i = i + 1;
        }
        let a = Allocator { current, bins };
        assert(a@.bins =~= fresh_view(current as int).bins);
        a
    }

    /// First half of an allocation: reuse the most recently freed block of
    /// the layout's bin that is aligned to `layout.align`, or say how far the
    /// heap must grow for a fresh block aligned to its own size.
    pub fn alloc_step(&mut self, layout: Layout) -> (step: AllocStep)
        requires
            old(self).wf(),
            layout.is_valid(),
            fits_some_bin(layout),
        ensures
            final(self).wf(),
            (final(self)@, step) == alloc_step_spec(old(self)@, layout),
    {
        let index = crate::allocator::Allocator::map_to_bin_of(&layout);
        proof {
            lemma_bin_sizes(index as int);
            crate::util::lemma_power_of_two_pos(layout.align as int);
        }
        let ghost free = self@.bins[index as int];
        assert(self.bins@[index as int]@ == free);
        let mut j = self.bins[index].len();
        while j > 0
            invariant
                self.wf(),
                index < BIN_COUNT_MAX,
                index == bin_index(layout.required()),
                layout.align >= 1,
                self@ == old(self)@,
                self.bins@[index as int]@ == free,
                j <= free.len(),
                layout.is_valid(),
                forall|k: int| j <= k < free.len() ==> #[trigger] free[k] as int % layout.align as int != 0,
            decreases j,
        {
            j = j - 1;
            let addr = self.bins[index][j];
            if has_alignment(addr, layout.align) {
                proof {
                    crate::allocator::lemma_last_aligned_at(free, layout.align as int, j as int);
                }
                let r = self.bins[index].remove(j);
                proof {
                    assert(self@.bins =~= old(self)@.bins.update(index as int, free.remove(j as int)));
                }
                return AllocStep::Ready(r);
            }
        }
        proof {
            crate::allocator::lemma_last_aligned_none(free, layout.align as int);
        }
        let size = crate::allocator::Allocator::bin_size(index);
        let aligned_addr = align_up(self.current, size);
        let alloc_end = aligned_addr + size;
        AllocStep::Grow { aligned: aligned_addr, end: alloc_end, request: alloc_end - self.current }
    }

    /// Second half of an allocation that needed the heap to grow: `granted`
    /// is whether `sbrk` succeeded. Returns the allocated address, or `0`
    /// when the heap could not grow.
    pub fn finish_grow(&mut self, aligned: usize, end: usize, granted: bool) -> (r: usize)
        requires
            old(self).wf(),
            old(self)@.current <= aligned <= end <= old(self)@.current + ADDRESS_HEADROOM,
        ensures
            granted ==> r == aligned && final(self)@ == (BinView { current: end as int, ..old(self)@ }),
            !granted ==> r == 0 && final(self)@ == old(self)@,
            granted ==> (final(self).wf() <==> end <= usize::MAX - ADDRESS_HEADROOM),
            !granted ==> final(self).wf(),
    {
        if granted {
            self.current = end;
            aligned
        } else {
            0
        }
    }

    /// Deallocates the block at `ptr`, which was allocated for `layout`:
    /// it becomes the head of its bin's free list.
    pub fn dealloc_block(&mut self, ptr: usize, layout: Layout)
        requires
            old(self).wf(),
            fits_some_bin(layout),
        ensures
            final(self).wf(),
            final(self)@ == (BinView {
                bins: old(self)@.bins.update(
                    bin_index(layout.required()) as int,
                    old(self)@.bins[bin_index(layout.required()) as int].push(ptr),
                ),
                ..old(self)@
            }),
    {
        let index = crate::allocator::Allocator::map_to_bin_of(&layout);
        self.bins[index].push(ptr);
        proof {
            assert(self@.bins =~= old(self)@.bins.update(
                index as int,
                old(self)@.bins[index as int].push(ptr),
            ));
        }
    }
}

} // verus!
