//! Little-endian fields of on-disk records.

use vstd::prelude::*;

verus! {

/// The little-endian 16-bit value at `off` in `b`.
pub open spec fn le_u16(b: Seq<u8>, off: int) -> u16 {
    (b[off] as int + b[off + 1] as int * 0x100) as u16
}

/// The little-endian 32-bit value at `off` in `b`.
pub open spec fn le_u32(b: Seq<u8>, off: int) -> u32 {
    (b[off] as int + b[off + 1] as int * 0x100 + b[off + 2] as int * 0x1_0000 + b[off + 3] as int
        * 0x100_0000) as u32
}

/// Reads the little-endian 16-bit value at `off`.
pub fn read_le_u16(b: &[u8], off: usize) -> (r: u16)
    requires
        off + 2 <= b@.len(),
    ensures
        r == le_u16(b@, off as int),
        r as int == b@[off as int] as int + b@[off + 1] as int * 0x100,
{
    let lo = b[off] as u16;
    let hi = b[off + 1] as u16;
    let r = lo | (hi << 8);
    assert(r == lo + hi * 0x100) by (bit_vector)
        requires
            lo < 0x100,
            hi < 0x100,
            r == lo | (hi << 8),
    ;
    r
}

/// Reads the little-endian 32-bit value at `off`.
pub fn read_le_u32(b: &[u8], off: usize) -> (r: u32)
    requires
        off + 4 <= b@.len(),
    ensures
        r == le_u32(b@, off as int),
        r as int == b@[off as int] as int + b@[off + 1] as int * 0x100 + b@[off + 2] as int * 0x1_0000
            + b@[off + 3] as int * 0x100_0000,
{
    let b0 = b[off] as u32;
    let b1 = b[off + 1] as u32;
    let b2 = b[off + 2] as u32;
    let b3 = b[off + 3] as u32;
    let r = b0 | (b1 << 8) | (b2 << 16) | (b3 << 24);
    assert(r == b0 + b1 * 0x100 + b2 * 0x1_0000 + b3 * 0x100_0000) by (bit_vector)
        requires
            b0 < 0x100,
            b1 < 0x100,
            b2 < 0x100,
            b3 < 0x100,
            r == b0 | (b1 << 8) | (b2 << 16) | (b3 << 24),
    ;
    r
}

/// Copies `n` bytes of `b` starting at `off`.
pub fn copy_range(b: &[u8], off: usize, n: usize) -> (r: Vec<u8>)
    requires
        off + n <= b@.len(),
    ensures
        r@ == b@.subrange(off as int, off + n),
{
    let blen = b.len();
    let mut out: Vec<u8> = Vec::new();
    let mut k: usize = 0;
    while k < n
        invariant
            blen == b@.len(),
            off + n <= blen,
            k <= n,
            out@ == b@.subrange(off as int, off + k),
        decreases n - k,
    {
        out.push(b[off + k]);
        k = k + 1;
        proof {
            assert(out@ =~= b@.subrange(off as int, off + k));
        }
    }
    out
}

} // verus!
