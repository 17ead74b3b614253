//! The kernel's size-class ("bin") allocator.
//!
//! Bin `k` serves blocks of `2^(k+3)` bytes: bin 0 serves requests in
//! `(0, 8]`, bin 1 requests in `(8, 16]`, and so on. Freed blocks are kept
//! on a per-bin free list and handed out again, most recently freed first;
//! otherwise a fresh block is carved from the unallocated region
//! `[current, end)`, aligned to its own size.

use vstd::prelude::*;

verus! {

use crate::util::{is_power_of_two, align_up, has_alignment, align_up_spec};
use vstd::arithmetic::power2::{pow2, lemma_pow2_pos, lemma_pow2_adds, lemma_pow2_strictly_increases};

/// Number of bins: the kernel's virtual address space has 30 bits and the
/// smallest bin holds `2^3` bytes.
pub const BIN_COUNT_MAX: usize = 27;

/// Room above `end` that keeps every address computation of the allocator
/// in range: twice the largest block size.
pub const ADDRESS_HEADROOM: usize = 0x4000_0000;

/// Size and alignment of a requested block.
#[derive(Clone, Copy, Debug, PartialEq, Eq)]
pub struct Layout {
    pub size: usize,
    pub align: usize,
}

impl Layout {
    /// A layout an allocator may be asked for: a non-empty size and a
    /// power-of-two alignment.
    pub open spec fn is_valid(self) -> bool {
        self.size > 0 && is_power_of_two(self.align as int)
    }

    /// The number of bytes a block must span to satisfy the layout.
    pub open spec fn required(self) -> int {
        if self.size >= self.align { self.size as int } else { self.align as int }
    }
}

/// Block size of bin `index`.
pub open spec fn bin_size_spec(index: int) -> int {
    pow2((index + 3) as nat) as int
}

/// First bin at or after `i` whose blocks hold `req` bytes (`BIN_COUNT_MAX`
/// if there is none).
pub open spec fn bin_index_from(req: int, i: nat) -> nat
    decreases BIN_COUNT_MAX - i,
{
    if i >= BIN_COUNT_MAX || req <= bin_size_spec(i as int) {
        i
    } else {
        bin_index_from(req, i + 1)
    }
}

/// The bin that serves requests of `req` bytes.
pub open spec fn bin_index(req: int) -> nat {
    bin_index_from(req, 0)
}

/// `layout` fits in the largest bin.
pub open spec fn fits_some_bin(layout: Layout) -> bool {
    layout.required() <= bin_size_spec(BIN_COUNT_MAX - 1)
}

/// Position of the most recently freed block of `free` (the list's head is
/// its last element) whose address is a multiple of `align`; `-1` if none.
pub open spec fn last_aligned_index(free: Seq<usize>, align: int) -> int
    decreases free.len(),
{
    if free.len() == 0 {
        -1
    } else if free.last() as int % align == 0 {
        free.len() - 1
    } else {
        last_aligned_index(free.drop_last(), align)
    }
}

/// Abstract state of an [`Allocator`].
pub struct AllocatorView {
    pub fragmentation: int,
    pub total_mem: int,
    pub current: int,
    pub end: int,
    pub bins: Seq<Seq<usize>>,
}

/// What `alloc(layout)` does to the state `s`: the new state and the
/// returned address (`0` for "out of memory").
pub open spec fn alloc_spec(s: AllocatorView, layout: Layout) -> (AllocatorView, usize) {
    let b = bin_index(layout.required()) as int;
    let free = s.bins[b];
    let j = last_aligned_index(free, layout.align as int);
    if j >= 0 {
        (AllocatorView { bins: s.bins.update(b, free.remove(j)), ..s }, free[j])
    } else {
        let bs = bin_size_spec(b);
        let a = align_up_spec(s.current, bs);
        if a + bs > s.end {
            (s, 0usize)
        } else {
            (
                AllocatorView { fragmentation: s.fragmentation + (a - s.current), current: a + bs, ..s },
                a as usize,
            )
        }
    }
}

/// What `dealloc(ptr, layout)` does to the state `s`.
pub open spec fn dealloc_spec(s: AllocatorView, ptr: usize, layout: Layout) -> AllocatorView {
    let b = bin_index(layout.required()) as int;
    AllocatorView { bins: s.bins.update(b, s.bins[b].push(ptr)), ..s }
}

/// A simple allocator that allocates based on size classes.
pub struct Allocator {
    fragmentation: usize,
    total_mem: usize,
    current: usize,
    end: usize,
    bins: Vec<Vec<usize>>,
}

impl View for Allocator {
    type V = AllocatorView;

    closed spec fn view(&self) -> AllocatorView {
        AllocatorView {
            fragmentation: self.fragmentation as int,
            total_mem: self.total_mem as int,
            current: self.current as int,
            end: self.end as int,
            bins: self.bins@.map_values(|v: Vec<usize>| v@),
        }
    }
}

/// Well-formedness of an allocator state.
pub open spec fn view_wf(s: AllocatorView) -> bool {
    &&& s.bins.len() == BIN_COUNT_MAX
    &&& 0 <= s.fragmentation <= s.current <= s.end <= usize::MAX
    &&& 0 < s.current
    &&& 0 <= s.total_mem
    &&& forall|i: int, k: int| 0 <= i < s.bins.len() && 0 <= k < s.bins[i].len() ==> #[trigger] s.bins[i][k] != 0
}

/// `pow2(a)` divides `pow2(b)` when `a <= b`.
pub proof fn lemma_pow2_divides(a: nat, b: nat)
    requires
        a <= b,
    ensures
        pow2(b) % pow2(a) == 0,
{
    lemma_pow2_adds(a, (b - a) as nat);
    lemma_pow2_pos(a);
    vstd::arithmetic::div_mod::lemma_mod_multiples_basic(pow2((b - a) as nat) as int, pow2(a) as int);
    vstd::arithmetic::mul::lemma_mul_is_commutative(pow2((b - a) as nat) as int, pow2(a) as int);
}

proof fn lemma_multiple_of_multiple(x: int, m: int, n: int)
    requires
        m > 0,
        n > 0,
        x % m == 0,
        m % n == 0,
    ensures
        x % n == 0,
{
    vstd::arithmetic::div_mod::lemma_fundamental_div_mod(x, m);
    vstd::arithmetic::div_mod::lemma_fundamental_div_mod(m, n);
    let q1 = x / m;
    let q2 = m / n;
    assert(x == q1 * (q2 * n)) by (nonlinear_arith)
        requires
            x == m * q1 + 0,
            m == n * q2 + 0,
    ;
    vstd::arithmetic::mul::lemma_mul_is_associative(q1, q2, n);
    vstd::arithmetic::div_mod::lemma_mod_multiples_basic(q1 * q2, n);
}

/// Facts about the block sizes of the bins.
pub proof fn lemma_bin_sizes(index: int)
    requires
        0 <= index < BIN_COUNT_MAX,
    ensures
        8 <= bin_size_spec(index) <= bin_size_spec(BIN_COUNT_MAX - 1),
        bin_size_spec(BIN_COUNT_MAX - 1) == 0x2000_0000,
        is_power_of_two(bin_size_spec(index)),
{
    vstd::arithmetic::power2::lemma2_to64();
    if index < BIN_COUNT_MAX - 1 {
        lemma_pow2_strictly_increases((index + 3) as nat, (BIN_COUNT_MAX + 2) as nat);
    }
    if index > 0 {
        lemma_pow2_strictly_increases(3, (index + 3) as nat);
    }
    assert(((index + 3) as nat) < usize::BITS);
}

/// A power-of-two alignment no larger than a bin's block size divides it.
pub proof fn lemma_align_divides_bin(align: int, index: int)
    requires
        is_power_of_two(align),
        0 <= index < BIN_COUNT_MAX,
        align <= bin_size_spec(index),
    ensures
        bin_size_spec(index) % align == 0,
{
    let k = choose|k: nat| k < usize::BITS && pow2(k) == align;
    if k > (index + 3) {
        lemma_pow2_strictly_increases((index + 3) as nat, k);
    }
    lemma_pow2_divides(k, (index + 3) as nat);
}

pub(crate) proof fn lemma_last_aligned_none(free: Seq<usize>, align: int)
    requires
        forall|k: int| 0 <= k < free.len() ==> #[trigger] free[k] as int % align != 0,
    ensures
        last_aligned_index(free, align) == -1,
    decreases free.len(),
{
    if free.len() > 0 {
        assert(free.last() == free[free.len() - 1]);
        lemma_last_aligned_none(free.drop_last(), align);
    }
}

pub(crate) proof fn lemma_last_aligned_at(free: Seq<usize>, align: int, j: int)
    requires
        0 <= j < free.len(),
        free[j] as int % align == 0,
        forall|k: int| j < k < free.len() ==> #[trigger] free[k] as int % align != 0,
    ensures
        last_aligned_index(free, align) == j,
    decreases free.len(),
{
    if j < free.len() - 1 {
        assert(free.last() == free[free.len() - 1]);
        let d = free.drop_last();
        assert forall|k: int| j < k < d.len() implies #[trigger] d[k] as int % align != 0 by {
            assert(d[k] == free[k]);
        }
        lemma_last_aligned_at(d, align, j);
    }
}

impl Allocator {
    /// The allocator is well-formed.
    pub closed spec fn wf(&self) -> bool {
        view_wf(self@) && self.bins@.len() == BIN_COUNT_MAX
    }

    /// Creates a new bin allocator that will allocate memory from the region
    /// starting at address `start` and ending at address `end`. The region
    /// does not start at the null address, which `alloc` reserves for "out of
    /// memory".
    pub fn new(start: usize, end: usize) -> (a: Allocator)
        requires
            0 < start <= end,
        ensures
            a.wf(),
            a.inv(),
            a@.current == start,
            a@.end == end,
            a@.total_mem == end - start,
            a@.fragmentation == 0,
            a@.bins =~= Seq::new(BIN_COUNT_MAX as nat, |i: int| Seq::<usize>::empty()),
    {
        let mut bins: Vec<Vec<usize>> = Vec::new();
        let mut i: usize = 0;
        while i < BIN_COUNT_MAX
            invariant
                i <= BIN_COUNT_MAX,
                bins@.len() == i,
                forall|k: int| 0 <= k < i ==> (#[trigger] bins@[k])@ == Seq::<usize>::empty(),
            decreases BIN_COUNT_MAX - i,
        {
            bins.push(Vec::new());
            i = i + 1;
        }
        let a = Allocator { fragmentation: 0, total_mem: end - start, current: start, end, bins };
        assert(a@.bins =~= Seq::new(BIN_COUNT_MAX as nat, |i: int| Seq::<usize>::empty()));
        a
    }

    /// Returns the abstract state of the allocator.
    pub closed spec fn spec_state(&self) -> AllocatorView {
        self@
    }

    /// Block size of bin `index`: `2^(index + 3)` bytes.
    pub fn bin_size(index: usize) -> (r: usize)
        requires
            index < BIN_COUNT_MAX,
        ensures
            r == bin_size_spec(index as int),
    {
        proof {
            vstd::arithmetic::power2::lemma2_to64();
            lemma_bin_sizes(index as int);
            vstd::bits::lemma_usize_shl_is_mul(1, (index + 3) as usize);
        }
        1usize << (index + 3)
    }

    /// Maps a layout to the bin that serves it: the first bin whose block size
    /// is at least `max(layout.size, layout.align)`.
    ///
    /// Panics (excluded by the precondition) if no bin is large enough.
    pub fn map_to_bin(&self, layout: &Layout) -> (r: usize)
        requires
            fits_some_bin(*layout),
        ensures
            r == bin_index(layout.required()),
            r < BIN_COUNT_MAX,
            layout.required() <= bin_size_spec(r as int),
            forall|i: int| 0 <= i < r ==> bin_size_spec(i) < layout.required(),
    {
        Allocator::map_to_bin_of(layout)
    }

    /// The bin that serves `layout`, shared by the kernel and user allocators.
    pub fn map_to_bin_of(layout: &Layout) -> (r: usize)
        requires
            fits_some_bin(*layout),
        ensures
            r == bin_index(layout.required()),
            r < BIN_COUNT_MAX,
            layout.required() <= bin_size_spec(r as int),
            forall|i: int| 0 <= i < r ==> bin_size_spec(i) < layout.required(),
    {
        let required_size = if layout.size >= layout.align { layout.size } else { layout.align };
        let mut index: usize = 0;
        while index < BIN_COUNT_MAX
            invariant
                index <= BIN_COUNT_MAX,
                required_size == layout.required(),
                fits_some_bin(*layout),
                bin_index_from(layout.required(), index as nat) == bin_index(layout.required()),
                forall|i: int| 0 <= i < index ==> bin_size_spec(i) < layout.required(),
            decreases BIN_COUNT_MAX - index,
        {
            if Allocator::bin_size(index) >= required_size {
                return index;
            }
            index = index + 1;
        }
        proof {
            assert(bin_size_spec(BIN_COUNT_MAX - 1) < layout.required());
        }
        0
    }
}

/// The interface of a memory allocator that owns its state exclusively.
pub trait LocalAlloc {
    /// The allocator's own invariant.
    spec fn inv(&self) -> bool;

    /// Allocates a block for `layout`; returns `0` when out of memory.
    fn alloc_block(&mut self, layout: Layout) -> (r: usize)
        requires
            old(self).inv(),
            layout.is_valid(),
            fits_some_bin(layout),
        ensures
            final(self).inv(),
    ;

    /// Returns the block at `ptr`, allocated for `layout`, to the allocator.
    /// `ptr` is a block `alloc_block` handed out, so it is not null.
    fn dealloc_block(&mut self, ptr: usize, layout: Layout)
        requires
            old(self).inv(),
            fits_some_bin(layout),
            ptr != 0,
        ensures
            final(self).inv(),
    ;
}

impl LocalAlloc for Allocator {
    open spec fn inv(&self) -> bool {
        self.wf()
    }

    /// Allocates memory for `layout`. Reuses the most recently freed block
    /// of the layout's bin that is aligned to `layout.align`; otherwise carves
    /// a fresh block, aligned to its own size, from the unallocated region.
    /// Returns `0` when the region is exhausted.
    fn alloc_block(&mut self, layout: Layout) -> (r: usize)
        ensures
            final(self).wf(),
            (final(self)@, r) == alloc_spec(old(self)@, layout),
    {
        let index = Allocator::map_to_bin_of(&layout);
        proof {
            lemma_bin_sizes(index as int);
            crate::util::lemma_power_of_two_pos(layout.align as int);
        }
        let ghost free = self@.bins[index as int];
        assert(self.bins@[index as int]@ == free);
        let mut j = self.bins[index].len();
        while j > 0
            invariant
                self.wf(),
                index < BIN_COUNT_MAX,
                index == bin_index(layout.required()),
                layout.align >= 1,
                self@ == old(self)@,
                self.bins@[index as int]@ == free,
                j <= free.len(),
                layout.is_valid(),
                forall|k: int| j <= k < free.len() ==> #[trigger] free[k] as int % layout.align as int != 0,
                fits_some_bin(layout),
            decreases j,
        {
            j = j - 1;
            let addr = self.bins[index][j];
            if has_alignment(addr, layout.align) {
                proof {
                    lemma_last_aligned_at(free, layout.align as int, j as int);
                }
                let r = self.bins[index].remove(j);
                proof {
                    assert(self@.bins =~= old(self)@.bins.update(index as int, free.remove(j as int)));
                    lemma_alloc_sound(old(self)@, layout);
                }
                return r;
            }
        }
        proof {
            lemma_last_aligned_none(free, layout.align as int);
        }
        let size = Allocator::bin_size(index);
        proof {
            lemma_align_up_ge(self.current as int, size as int);
        }
        if self.current > usize::MAX - (size - 1) {
            return 0;
        }
        let aligned_addr = align_up(self.current, size);
        if aligned_addr > self.end || size > self.end - aligned_addr {
            0
        } else {
            self.fragmentation = self.fragmentation + (aligned_addr - self.current);
            self.current = aligned_addr + size;
            proof {
                assert(self@.bins =~= old(self)@.bins);
            }
            assert(aligned_addr > 0);
            aligned_addr
        }
    }

    /// Deallocates the block at `ptr`, which was allocated for `layout`:
    /// it becomes the head of its bin's free list.
    fn dealloc_block(&mut self, ptr: usize, layout: Layout)
        ensures
            final(self).wf(),
            final(self)@ == dealloc_spec(old(self)@, ptr, layout),
    {
        let index = Allocator::map_to_bin_of(&layout);
        self.bins[index].push(ptr);
        proof {
            assert forall|i: int, k: int| 0 <= i < self@.bins.len() && 0 <= k < self@.bins[i].len() implies
                #[trigger] self@.bins[i][k] != 0 by {
                if i != index as int || k < old(self)@.bins[i].len() {
                    assert(self@.bins[i][k] == old(self)@.bins[i][k]);
                }
            }
            assert(self@.bins =~= old(self)@.bins.update(
                index as int,
                old(self)@.bins[index as int].push(ptr),
            ));
        }
    }
}

proof fn lemma_last_aligned_index_props(free: Seq<usize>, align: int)
    ensures
        -1 <= last_aligned_index(free, align) < free.len(),
        last_aligned_index(free, align) >= 0 ==> free[last_aligned_index(free, align)] as int % align
            == 0,
    decreases free.len(),
{
    if free.len() > 0 && free.last() as int % align != 0 {
        lemma_last_aligned_index_props(free.drop_last(), align);
    }
}

/// A bin's block size covers every layout mapped to it.
pub proof fn lemma_bin_covers(layout: Layout)
    requires
        fits_some_bin(layout),
    ensures
        bin_index(layout.required()) < BIN_COUNT_MAX,
        layout.required() <= bin_size_spec(bin_index(layout.required()) as int),
{
    lemma_bin_index_from(layout.required(), 0);
}

proof fn lemma_bin_index_from(req: int, i: nat)
    requires
        i < BIN_COUNT_MAX,
        req <= bin_size_spec(BIN_COUNT_MAX - 1),
    ensures
        bin_index_from(req, i) < BIN_COUNT_MAX,
        req <= bin_size_spec(bin_index_from(req, i) as int),
    decreases BIN_COUNT_MAX - i,
{
    if i < BIN_COUNT_MAX && req > bin_size_spec(i as int) {
        lemma_bin_index_from(req, i + 1);
    }
}

/// Every non-null block that `alloc` hands out is aligned to the requested
/// alignment, and a block carved from the unallocated region spans at least
/// the requested size, lies inside `[current, end)` of the state before the
/// call, and ends exactly where the next fresh block may start.
pub proof fn lemma_alloc_sound(s: AllocatorView, layout: Layout)
    requires
        view_wf(s),
        layout.is_valid(),
        fits_some_bin(layout),
    ensures
        ({
            let (t, r) = alloc_spec(s, layout);
            let b = bin_index(layout.required()) as int;
            &&& view_wf(t)
            &&& r != 0 ==> r as int % layout.align as int == 0
            &&& (r == 0 <==> last_aligned_index(s.bins[b], layout.align as int) < 0 && align_up_spec(
                s.current,
                bin_size_spec(b),
            ) + bin_size_spec(b) > s.end)
            &&& (t.current != s.current ==> {
                &&& s.current <= r
                &&& r + bin_size_spec(b) == t.current <= s.end
                &&& layout.size <= bin_size_spec(b)
            })
        }),
{
    let b = bin_index(layout.required()) as int;
    lemma_bin_covers(layout);
    lemma_bin_sizes(b);
    let free = s.bins[b];
    lemma_last_aligned_index_props(free, layout.align as int);
    let j = last_aligned_index(free, layout.align as int);
    if j < 0 {
        let bs = bin_size_spec(b);
        let a = align_up_spec(s.current, bs);
        crate::util::lemma_power_of_two_pos(bs);
        vstd::arithmetic::div_mod::lemma_fundamental_div_mod(s.current + bs - 1, bs);
        vstd::arithmetic::div_mod::lemma_mod_bound(s.current + bs - 1, bs);
        vstd::arithmetic::div_mod::lemma_mod_multiples_basic((s.current + bs - 1) / bs, bs);
        vstd::arithmetic::mul::lemma_mul_is_commutative((s.current + bs - 1) / bs, bs);
        assert(a % bs == 0);
        lemma_align_divides_bin(layout.align as int, b);
        crate::util::lemma_power_of_two_pos(layout.align as int);
        lemma_multiple_of_multiple(a, bs, layout.align as int);
        lemma_align_up_ge(s.current, bs);
    } else {
        assert(free[j] == s.bins[b][j]);
        let t = alloc_spec(s, layout).0;
        assert forall|i: int, k: int| 0 <= i < t.bins.len() && 0 <= k < t.bins[i].len() implies
            #[trigger] t.bins[i][k] != 0 by {
            if i == b {
                if k < j {
                    assert(t.bins[i][k] == s.bins[i][k]);
                } else {
                    assert(t.bins[i][k] == s.bins[i][k + 1]);
                }
            }
        }
    }
}

/// Aligning up never goes below the address.
proof fn lemma_align_up_ge(addr: int, bs: int)
    requires
        addr >= 0,
        bs > 0,
    ensures
        align_up_spec(addr, bs) >= addr,
        align_up_spec(addr, bs) > addr - bs,
{
    vstd::arithmetic::div_mod::lemma_mod_bound(addr + bs - 1, bs);
}

/// The allocator's invariant, as the laws above state it.
pub proof fn lemma_view_wf(a: &Allocator)
    requires
        a.wf(),
    ensures
        view_wf(a@),
{
}

/// Allocating right after a deallocation with the same layout gives the
/// deallocated block back (when it is suitably aligned) and restores the
/// state exactly.
pub proof fn lemma_dealloc_then_alloc(s: AllocatorView, ptr: usize, layout: Layout)
    requires
        view_wf(s),
        layout.is_valid(),
        fits_some_bin(layout),
        ptr as int % layout.align as int == 0,
    ensures
        alloc_spec(dealloc_spec(s, ptr, layout), layout) == (s, ptr),
{
    let b = bin_index(layout.required()) as int;
    lemma_bin_covers(layout);
    let t = dealloc_spec(s, ptr, layout);
    let free = t.bins[b];
    assert(free.last() == ptr);
    assert(free.remove(free.len() - 1) =~= s.bins[b]);
    assert(t.bins.update(b, free.remove(free.len() - 1)) =~= s.bins);
}

} // verus!
