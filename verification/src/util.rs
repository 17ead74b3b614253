//! Address alignment helpers shared by the allocators and the page tables.

use vstd::prelude::*;

verus! {

use vstd::arithmetic::power2::pow2;
use vstd::bits::low_bits_mask;

/// `x` is `2^k` for some `k` that fits the width of `usize`.
pub open spec fn is_power_of_two(x: int) -> bool {
    exists|k: nat| k < usize::BITS && pow2(k) == x
}

/// A power of two is positive.
pub proof fn lemma_power_of_two_pos(x: int)
    requires
        is_power_of_two(x),
    ensures
        x >= 1,
{
    let k = choose|k: nat| k < usize::BITS && pow2(k) == x;
    vstd::arithmetic::power2::lemma_pow2_pos(k);
}

/// The largest multiple of `align` that is `<= addr`.
pub open spec fn align_down_spec(addr: int, align: int) -> int {
    addr - addr % align
}

/// The smallest multiple of `align` that is `>= addr`.
pub open spec fn align_up_spec(addr: int, align: int) -> int {
    align_down_spec(addr + align - 1, align)
}

/// Masking off the low bits below a power of two is rounding down.
pub proof fn lemma_mask_is_align_down(addr: usize, align: usize)
    requires
        is_power_of_two(align as int),
    ensures
        addr & !((align - 1) as usize) == addr - addr % align,
        addr & ((align - 1) as usize) == addr % align,
{
    let k = choose|k: nat| k < usize::BITS && pow2(k) == align as int;
    vstd::bits::lemma_usize_low_bits_mask_is_mod(addr, k);
    vstd::arithmetic::power2::lemma_pow2_pos(k);
    assert(low_bits_mask(k) == align - 1);
    let m = (align - 1) as usize;
    assert(addr & m == addr % align);
    assert(addr & !m == addr - (addr & m)) by (bit_vector);
    assert((addr & m) <= addr) by (bit_vector);
}

/// Align `addr` downwards to the nearest multiple of `align`.
///
/// The returned value is always `<= addr`. Panics (excluded by the precondition) if
/// `align` is not a power of two.
pub fn align_down(addr: usize, align: usize) -> (r: usize)
    requires
        is_power_of_two(align as int),
    ensures
        r == align_down_spec(addr as int, align as int),
        r <= addr,
        r % align == 0,
{
    proof {
        lemma_mask_is_align_down(addr, align);
        assert(align > 0) by {
            let k = choose|k: nat| k < usize::BITS && pow2(k) == align as int;
            vstd::arithmetic::power2::lemma_pow2_pos(k);
        }
        assert((addr - addr % align) % (align as int) == 0) by {
            vstd::arithmetic::div_mod::lemma_fundamental_div_mod(addr as int, align as int);
            vstd::arithmetic::div_mod::lemma_mod_multiples_basic(addr as int / align as int, align as int);
        }
    }
    addr & !(align - 1)
}

/// Align `addr` upwards to the nearest multiple of `align`.
///
/// The returned value is always `>= addr`. Panics (excluded by the precondition) if
/// `align` is not a power of two or if aligning up overflows.
pub fn align_up(addr: usize, align: usize) -> (r: usize)
    requires
        is_power_of_two(align as int),
        addr + align - 1 <= usize::MAX,
    ensures
        r == align_up_spec(addr as int, align as int),
        addr <= r,
        r - addr < align,
        r % align == 0,
{
    proof {
        let k = choose|k: nat| k < usize::BITS && pow2(k) == align as int;
        vstd::arithmetic::power2::lemma_pow2_pos(k);
    }
    let r = align_down(addr + (align - 1), align);
    r
}

/// Returns `true` if `addr` is aligned to `align` and `false` otherwise.
pub fn has_alignment(addr: usize, align: usize) -> (r: bool)
    requires
        align >= 1,
    ensures
        r == (addr & !((align - 1) as usize) == addr),
        is_power_of_two(align as int) ==> (r == (addr % align == 0)),
{
    proof {
        if is_power_of_two(align as int) {
            lemma_mask_is_align_down(addr, align);
        }
    }
    addr == addr & !(align - 1)
}

} // verus!
