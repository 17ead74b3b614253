//! Decimal numbers as text: writing them out and reading them back.

use vstd::prelude::*;

verus! {

use crate::command::push_bytes;

/// The ASCII digit for `d`.
pub open spec fn digit_byte(d: nat) -> u8 {
    (48 + d % 10) as u8
}

/// The decimal digits of `n`, most significant first, without leading
/// zeros (a single `0` for zero).
pub open spec fn decimal(n: nat) -> Seq<u8>
    decreases n,
{
    if n < 10 {
        seq![digit_byte(n)]
    } else {
        decimal(n / 10) + seq![digit_byte(n % 10)]
    }
}

/// Appends the decimal digits of `n` to `out`.
pub fn push_decimal(out: &mut Vec<u8>, n: u64)
    ensures
        final(out)@ == old(out)@ + decimal(n as nat),
    decreases n,
{
    if n >= 10 {
        push_decimal(out, n / 10);
    }
    let d: u8 = (n % 10) as u8;
    out.push(48 + d);
    proof {
        if n >= 10 {
            assert(final(out)@ =~= old(out)@ + decimal(n as nat));
        } else {
            assert(final(out)@ =~= old(out)@ + decimal(n as nat));
        }
    }
}

/// The decimal digits of `n`, with zeros in front up to `width` digits.
pub open spec fn zero_padded(n: nat, width: nat) -> Seq<u8> {
    let d = decimal(n);
    if d.len() < width {
        Seq::new((width - d.len()) as nat, |i: int| 0x30u8) + d
    } else {
        d
    }
}

/// Appends the decimal digits of `n`, with zeros in front up to `width`
/// digits.
pub fn push_zero_padded(out: &mut Vec<u8>, n: u64, width: usize)
    ensures
        final(out)@ == old(out)@ + zero_padded(n as nat, width as nat),
{
    let mut digits: Vec<u8> = Vec::new();
    push_decimal(&mut digits, n);
    assert(digits@ =~= decimal(n as nat));
    let len = digits.len();
    let mut k: usize = len;
    let ghost start = out@;
    while k < width
        invariant
            len == digits@.len(),
            len <= k,
            k <= width || len >= width,
            len >= width ==> k == len,
            out@ == start + Seq::new((k - len) as nat, |i: int| 0x30u8),
        decreases width - k,
    {
        out.push(0x30);
        k = k + 1;
        assert(out@ =~= start + Seq::new((k - len) as nat, |i: int| 0x30u8));
    }
    push_bytes(out, digits.as_slice());
    proof {
        if len >= width {
            assert(Seq::new((k - len) as nat, |i: int| 0x30u8) =~= Seq::<u8>::empty());
            assert(out@ =~= old(out)@ + zero_padded(n as nat, width as nat));
        } else {
            assert(out@ =~= old(out)@ + zero_padded(n as nat, width as nat));
        }
    }
}

/// Why text is not a number, as the standard library names it.
#[derive(Clone, Copy, Debug, PartialEq, Eq)]
pub enum IntErrorKind {
    /// Nothing to read.
    Empty,
    /// A byte that is not a digit where a digit is expected.
    InvalidDigit,
    /// The number does not fit.
    PosOverflow,
}

/// Whether `c` is an ASCII digit.
pub open spec fn is_digit(c: u8) -> bool {
    48 <= c <= 57
}

/// Reads the digits `d[i..]` after the value `acc` of those before them.
pub open spec fn scan_digits(d: Seq<u8>, i: int, acc: int) -> Result<usize, IntErrorKind>
    decreases d.len() - i,
{
    if i < 0 || i >= d.len() {
        if 0 <= acc <= usize::MAX {
            Ok(acc as usize)
        } else {
            Err(IntErrorKind::PosOverflow)
        }
    } else if !is_digit(d[i]) {
        Err(IntErrorKind::InvalidDigit)
    } else if acc * 10 + (d[i] - 48) > usize::MAX {
        Err(IntErrorKind::PosOverflow)
    } else {
        scan_digits(d, i + 1, acc * 10 + (d[i] - 48))
    }
}

/// What reading `s` as an unsigned number gives: an optional `+`, then
/// decimal digits. Text that is empty is `Empty`; a sign alone, or any
/// other byte where a digit belongs, is `InvalidDigit`; a value beyond the
/// type's range is `PosOverflow`, whichever of the two comes first.
pub open spec fn parse_usize_spec(s: Seq<u8>) -> Result<usize, IntErrorKind> {
    if s.len() == 0 {
        Err(IntErrorKind::Empty)
    } else if s.len() == 1 && (s[0] == 0x2b || s[0] == 0x2d) {
        Err(IntErrorKind::InvalidDigit)
    } else if s[0] == 0x2b {
        scan_digits(s, 1, 0)
    } else {
        scan_digits(s, 0, 0)
    }
}

/// Reads `s` as an unsigned decimal number.
pub fn parse_usize(s: &[u8]) -> (r: Result<usize, IntErrorKind>)
    ensures
        r == parse_usize_spec(s@),
{
    let n = s.len();
    if n == 0 {
        return Err(IntErrorKind::Empty);
    }
    if n == 1 && (s[0] == 0x2b || s[0] == 0x2d) {
        return Err(IntErrorKind::InvalidDigit);
    }
    let start: usize = if s[0] == 0x2b { 1 } else { 0 };
    let mut i: usize = start;
    let mut acc: usize = 0;
    while i < n
        invariant
            n == s@.len(),
            start <= i <= n,
            scan_digits(s@, i as int, acc as int) == scan_digits(s@, start as int, 0),
            parse_usize_spec(s@) == scan_digits(s@, start as int, 0),
        decreases n - i,
    {
        let c = s[i];
        if c < 48 || c > 57 {
            return Err(IntErrorKind::InvalidDigit);
        }
        let d: usize = (c - 48) as usize;
        if acc > (usize::MAX - d) / 10 {
            proof {
                assert(acc * 10 + d > usize::MAX) by (nonlinear_arith)
                    requires
                        acc > (usize::MAX - d) / 10,
                        d <= 9,
                ;
            }
            return Err(IntErrorKind::PosOverflow);
        }
        proof {
            assert(acc * 10 + d <= usize::MAX) by (nonlinear_arith)
                requires
                    acc <= (usize::MAX - d) / 10,
                    d <= 9,
            ;
        }
        acc = acc * 10 + d;
        i = i + 1;
    }
    Ok(acc)
}

/// Every byte of `d` from `i` on is a digit.
pub open spec fn digits_from(d: Seq<u8>, i: int) -> bool {
    forall|k: int| i <= k < d.len() ==> is_digit(#[trigger] d[k])
}

/// Reading one more digit: the value so far times ten plus the digit, or
/// an overflow.
proof fn lemma_scan_push(p: Seq<u8>, c: u8, i: int, acc: int, v: usize)
    requires
        0 <= i <= p.len(),
        0 <= acc,
        is_digit(c),
        digits_from(p, i),
        scan_digits(p, i, acc) == Ok::<usize, IntErrorKind>(v),
    ensures
        scan_digits(p.push(c), i, acc) == if v * 10 + (c - 48) <= usize::MAX {
            Ok::<usize, IntErrorKind>((v * 10 + (c - 48)) as usize)
        } else {
            Err::<usize, IntErrorKind>(IntErrorKind::PosOverflow)
        },
    decreases p.len() - i,
{
    let q = p.push(c);
    if i == p.len() {
        assert(q[i] == c);
        assert(scan_digits(q, i + 1, acc * 10 + (c - 48)) == if 0 <= acc * 10 + (c - 48) <= usize::MAX {
            Ok::<usize, IntErrorKind>((acc * 10 + (c - 48)) as usize)
        } else {
            Err::<usize, IntErrorKind>(IntErrorKind::PosOverflow)
        });
    } else {
        assert(q[i] == p[i]);
        assert(is_digit(p[i]));
        assert(acc * 10 + (p[i] - 48) >= 0) by (nonlinear_arith)
            requires
                acc >= 0,
                48 <= p[i],
        ;
        lemma_scan_push(p, c, i + 1, acc * 10 + (p[i] - 48), v);
    }
}

/// The digits of `n` read back as `n`.
proof fn lemma_scan_decimal(n: nat)
    requires
        n <= usize::MAX,
    ensures
        digits_from(decimal(n), 0),
        scan_digits(decimal(n), 0, 0) == Ok::<usize, IntErrorKind>(n as usize),
    decreases n,
{
    let d = decimal(n);
    if n < 10 {
        assert(d[0] == digit_byte(n));
        assert(scan_digits(d, 1, n as int) == Ok::<usize, IntErrorKind>(n as usize));
    } else {
        let p = decimal(n / 10);
        let c = digit_byte(n % 10);
        lemma_scan_decimal(n / 10);
        assert(d =~= p.push(c));
        lemma_scan_push(p, c, 0, 0, (n / 10) as usize);
        assert((n / 10) * 10 + n % 10 == n);
        assert forall|k: int| 0 <= k < d.len() implies is_digit(#[trigger] d[k]) by {
            if k < p.len() {
                assert(d[k] == p[k]);
            }
        }
    }
}

/// Writing a number out and reading it back gives the number.
pub proof fn lemma_decimal_round_trip(n: nat)
    requires
        n <= usize::MAX,
    ensures
        parse_usize_spec(decimal(n)) == Ok::<usize, IntErrorKind>(n as usize),
{
    lemma_scan_decimal(n);
    assert(is_digit(decimal(n)[0]));
}

} // verus!
