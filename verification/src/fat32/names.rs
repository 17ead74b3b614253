//! File names stored in directory entries: 8.3 short names and UTF-16
//! long names.

use vstd::prelude::*;

verus! {

use crate::text::{str_from_utf8, string_push, string_push_str, char_from_u32};
use vstd::utf8::{valid_utf8, decode_utf8};

/// Length of the prefix of `bs` before the first NUL or space.
pub open spec fn pad_index(bs: Seq<u8>, i: int) -> int
    decreases bs.len() - i,
{
    if i < 0 || i >= bs.len() {
        bs.len() as int
    } else if bs[i] == 0x00 || bs[i] == 0x20 {
        i
    } else {
        pad_index(bs, i + 1)
    }
}

/// `bs` cut at its first NUL or space.
pub open spec fn trim_pad(bs: Seq<u8>) -> Seq<u8> {
    bs.subrange(0, pad_index(bs, 0))
}

proof fn lemma_pad_index_bounds(bs: Seq<u8>, i: int)
    requires
        0 <= i <= bs.len(),
    ensures
        i <= pad_index(bs, i) <= bs.len(),
    decreases bs.len() - i,
{
    if i < bs.len() && !(bs[i] == 0x00 || bs[i] == 0x20) {
        lemma_pad_index_bounds(bs, i + 1);
    }
}

/// Position of the first NUL or space in `bs` (its length if none).
fn find_pad(bs: &[u8]) -> (r: usize)
    ensures
        r == pad_index(bs@, 0),
        r <= bs@.len(),
{
    proof {
        lemma_pad_index_bounds(bs@, 0);
    }
    let n = bs.len();
    let mut i: usize = 0;
    while i < n
        invariant
            n == bs@.len(),
            i <= n,
            pad_index(bs@, i as int) == pad_index(bs@, 0),
        decreases n - i,
    {
        if bs[i] == 0x00 || bs[i] == 0x20 {
            return i;
        }
        i = i + 1;
    }
    i
}

/// A short name can be decoded: both of its parts are UTF-8.
pub open spec fn short_name_ok(file_name: Seq<u8>, file_ext: Seq<u8>) -> bool {
    valid_utf8(trim_pad(file_name)) && valid_utf8(trim_pad(file_ext))
}

/// The text of a short name: the name, then a dot and the extension when
/// the extension is not empty.
pub open spec fn short_name_spec(file_name: Seq<u8>, file_ext: Seq<u8>) -> Seq<char> {
    let n = decode_utf8(trim_pad(file_name));
    let e = trim_pad(file_ext);
    if e.len() > 0 {
        n + seq!['.'] + decode_utf8(e)
    } else {
        n
    }
}

/// The text of an 8.3 short name; each part ends at its first NUL or space.
///
/// Panics (excluded by the precondition) if a part is not UTF-8.
pub fn short_name(file_name: &[u8; 8], file_ext: &[u8; 3]) -> (r: String)
    requires
        short_name_ok(file_name@, file_ext@),
    ensures
        r@ == short_name_spec(file_name@, file_ext@),
{
    let fname = file_name.as_slice();
    let fext = file_ext.as_slice();
    let name_end = find_pad(fname);
    let ext_end = find_pad(fext);
    let name_bytes = vstd::slice::slice_subrange(fname, 0, name_end);
    let ext_bytes = vstd::slice::slice_subrange(fext, 0, ext_end);
    let mut out = String::new();
    match str_from_utf8(name_bytes) {
        Ok(s) => string_push_str(&mut out, s),
        Err(_) => {},
    }
    if ext_bytes.len() > 0 {
        string_push(&mut out, '.');
        match str_from_utf8(ext_bytes) {
            Ok(s) => string_push_str(&mut out, s),
            Err(_) => {},
        }
    }
    proof {
        assert(name_bytes@ == trim_pad(file_name@));
        assert(ext_bytes@ == trim_pad(file_ext@));
        assert(Seq::<char>::empty() + decode_utf8(trim_pad(file_name@)) =~= decode_utf8(trim_pad(file_name@)));
    }
    out
}

/// The Unicode replacement character.
pub open spec fn replacement() -> char {
    '\u{FFFD}'
}

/// UTF-16 decoding with unpaired surrogates replaced by U+FFFD.
pub open spec fn decode_utf16(u: Seq<u16>) -> Seq<char>
    decreases u.len(),
{
    if u.len() == 0 {
        Seq::empty()
    } else if u[0] < 0xD800 || u[0] >= 0xE000 {
        seq![(u[0] as u32) as char] + decode_utf16(u.skip(1))
    } else if u[0] < 0xDC00 && u.len() >= 2 && 0xDC00 <= u[1] && u[1] < 0xE000 {
        seq![((0x10000 + (u[0] - 0xD800) * 0x400 + (u[1] - 0xDC00)) as u32) as char] + decode_utf16(u.skip(2))
    } else {
        seq![replacement()] + decode_utf16(u.skip(1))
    }
}

/// Decodes UTF-16 units, replacing unpaired surrogates by U+FFFD.
pub fn decode_utf16_lossy(u: &Vec<u16>) -> (r: String)
    ensures
        r@ == decode_utf16(u@),
{
    let mut out = String::new();
    let n = u.len();
    let mut i: usize = 0;
    proof {
        assert(u@.skip(0) =~= u@);
        assert(out@ + decode_utf16(u@) =~= decode_utf16(u@));
    }
    while i < n
        invariant
            n == u@.len(),
            i <= n,
            out@ + decode_utf16(u@.skip(i as int)) == decode_utf16(u@),
        decreases n - i,
    {
        let ghost rest = u@.skip(i as int);
        let c0 = u[i];
        assert(rest[0] == c0);
        if c0 < 0xD800 || c0 >= 0xE000 {
            match char_from_u32(c0 as u32) {
                Some(c) => {
                    string_push(&mut out, c);
                    proof {
                        vstd::utf8::char_u32_cast(c, c as u32);
                    }
                },
                None => {},
            }
            proof {
                assert(rest.skip(1) =~= u@.skip(i + 1));
                assert(out@ + decode_utf16(u@.skip(i + 1)) =~= out@.drop_last() + decode_utf16(rest));
            }
            i = i + 1;
        } else if c0 < 0xDC00 && i + 1 < n && 0xDC00 <= u[i + 1] && u[i + 1] < 0xE000 {
            let c1 = u[i + 1];
            assert(rest[1] == c1);
            let cp: u32 = 0x10000 + (c0 as u32 - 0xD800) * 0x400 + (c1 as u32 - 0xDC00);
            match char_from_u32(cp) {
                Some(c) => {
                    string_push(&mut out, c);
                    proof {
                        vstd::utf8::char_u32_cast(c, c as u32);
                    }
                },
                None => {},
            }
            proof {
                assert(rest.skip(2) =~= u@.skip(i + 2));
                assert(out@ + decode_utf16(u@.skip(i + 2)) =~= out@.drop_last() + decode_utf16(rest));
            }
            i = i + 2;
        } else {
            string_push(&mut out, '\u{FFFD}');
            proof {
                assert(rest.skip(1) =~= u@.skip(i + 1));
                assert(out@ + decode_utf16(u@.skip(i + 1)) =~= out@.drop_last() + decode_utf16(rest));
            }
            i = i + 1;
        }
    }
    proof {
        assert(u@.skip(n as int) =~= Seq::<u16>::empty());
        assert(out@ + Seq::<char>::empty() =~= out@);
    }
    out
}

} // verus!
