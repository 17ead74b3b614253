//! Parsing of shell command lines into arguments, and the argument checks
//! of the built-in commands. Command lines are byte strings.
//!
//! Arguments are separated by spaces; a double quote also ends the current
//! argument and toggles quoting, inside which spaces do not separate.

use vstd::prelude::*;

verus! {

use vstd::string::StringSliceAdditionalSpecFns;

/// A space.
pub open spec fn space() -> u8 {
    0x20
}

/// A double quote.
pub open spec fn quote() -> u8 {
    0x22
}

/// Why a command line does not make a command.
#[derive(Clone, Copy, Debug, PartialEq, Eq)]
pub enum ParseError {
    /// The line holds no argument.
    Empty,
    /// The line holds more arguments than there is room for.
    TooManyArgs,
}

/// `x` with its leading double quotes removed.
pub open spec fn trim_front(x: Seq<u8>) -> Seq<u8>
    decreases x.len(),
{
    if x.len() > 0 && x[0] == quote() {
        trim_front(x.skip(1))
    } else {
        x
    }
}

/// `x` with its trailing double quotes removed.
pub open spec fn trim_back(x: Seq<u8>) -> Seq<u8>
    decreases x.len(),
{
    if x.len() > 0 && x.last() == quote() {
        trim_back(x.drop_last())
    } else {
        x
    }
}

/// `x` with leading and trailing double quotes removed.
pub open spec fn trim_quotes(x: Seq<u8>) -> Seq<u8> {
    trim_back(trim_front(x))
}

/// `args` with `a` appended, unless that exceeds `cap` arguments.
pub open spec fn push_arg(args: Seq<Seq<u8>>, a: Seq<u8>, cap: Option<usize>) -> Result<Seq<Seq<u8>>, ParseError> {
    match cap {
        Some(c) => if args.len() >= c { Err(ParseError::TooManyArgs) } else { Ok(args.push(a)) },
        None => Ok(args.push(a)),
    }
}

/// The arguments of `s` from byte `i` on, given the arguments found so far,
/// where the current argument started, and whether a quote is open.
pub open spec fn parse_from(
    s: Seq<u8>,
    i: int,
    args: Seq<Seq<u8>>,
    start: int,
    in_quote: bool,
    cap: Option<usize>,
) -> Result<Seq<Seq<u8>>, ParseError>
    decreases s.len() - i,
{
    if i < 0 || i >= s.len() {
        let last = if start < s.len() {
            push_arg(args, trim_quotes(s.subrange(start, s.len() as int)), cap)
        } else {
            Ok(args)
        };
        match last {
            Ok(a) => if a.len() == 0 { Err(ParseError::Empty) } else { Ok(a) },
            Err(e) => Err(e),
        }
    } else if s[i] == space() && !in_quote {
        if start < i {
            match push_arg(args, trim_quotes(s.subrange(start, i)), cap) {
                Ok(a) => parse_from(s, i + 1, a, i + 1, in_quote, cap),
                Err(e) => Err(e),
            }
        } else {
            parse_from(s, i + 1, args, i + 1, in_quote, cap)
        }
    } else if s[i] == quote() {
        if start < i {
            match push_arg(args, trim_quotes(s.subrange(start, i)), cap) {
                Ok(a) => parse_from(s, i + 1, a, i + 1, !in_quote, cap),
                Err(e) => Err(e),
            }
        } else {
            parse_from(s, i + 1, args, i + 1, !in_quote, cap)
        }
    } else {
        parse_from(s, i + 1, args, start, in_quote, cap)
    }
}

/// The arguments of command line `s`, with room for at most `cap` of them.
pub open spec fn parse_spec(s: Seq<u8>, cap: Option<usize>) -> Result<Seq<Seq<u8>>, ParseError> {
    parse_from(s, 0, Seq::empty(), 0, false, cap)
}

/// Every argument is ASCII.
pub open spec fn ascii_args(args: Seq<Seq<u8>>) -> bool {
    forall|i: int, j: int| 0 <= i < args.len() && 0 <= j < args[i].len() ==> #[trigger] args[i][j] < 128
}

/// The bytes of each argument.
pub open spec fn args_view(v: Seq<Vec<u8>>) -> Seq<Seq<u8>> {
    v.map_values(|a: Vec<u8>| a@)
}

proof fn lemma_trim_front_suffix(x: Seq<u8>)
    ensures
        exists|k: int| 0 <= k <= x.len() && trim_front(x) == x.subrange(k, x.len() as int),
    decreases x.len(),
{
    if x.len() > 0 && x[0] == quote() {
        lemma_trim_front_suffix(x.skip(1));
        let k = choose|k: int| 0 <= k <= x.skip(1).len() && trim_front(x.skip(1)) == x.skip(1).subrange(k, x.skip(1).len() as int);
        assert(x.skip(1).subrange(k, x.skip(1).len() as int) =~= x.subrange(k + 1, x.len() as int));
    } else {
        assert(x.subrange(0, x.len() as int) =~= x);
    }
}

/// Every byte of `x` is ASCII.
pub open spec fn ascii_seq(x: Seq<u8>) -> bool {
    forall|i: int| 0 <= i < x.len() ==> #[trigger] x[i] < 128
}

proof fn lemma_trim_front_ascii(x: Seq<u8>)
    requires
        ascii_seq(x),
    ensures
        ascii_seq(trim_front(x)),
    decreases x.len(),
{
    if x.len() > 0 && x[0] == quote() {
        assert(ascii_seq(x.skip(1)));
        lemma_trim_front_ascii(x.skip(1));
    }
}

proof fn lemma_trim_back_ascii(x: Seq<u8>)
    requires
        ascii_seq(x),
    ensures
        ascii_seq(trim_back(x)),
    decreases x.len(),
{
    if x.len() > 0 && x.last() == quote() {
        assert(ascii_seq(x.drop_last()));
        lemma_trim_back_ascii(x.drop_last());
    }
}

/// The arguments of an ASCII command line are ASCII, and there is at least
/// one.
pub proof fn lemma_parse_ascii(
    s: Seq<u8>,
    i: int,
    args: Seq<Seq<u8>>,
    start: int,
    in_quote: bool,
    cap: Option<usize>,
)
    requires
        ascii_seq(s),
        ascii_args(args),
        0 <= start,
    ensures
        parse_from(s, i, args, start, in_quote, cap) matches Ok(a) ==> ascii_args(a) && a.len() > 0,
    decreases s.len() - i,
{
    if i < 0 || i >= s.len() {
        if start < s.len() {
            lemma_sub_ascii(s, start, s.len() as int);
        }
    } else if s[i] == space() && !in_quote {
        if start < i {
            lemma_sub_ascii(s, start, i);
            lemma_parse_ascii(s, i + 1, args.push(trim_quotes(s.subrange(start, i))), i + 1, in_quote, cap);
        } else {
            lemma_parse_ascii(s, i + 1, args, i + 1, in_quote, cap);
        }
    } else if s[i] == quote() {
        if start < i {
            lemma_sub_ascii(s, start, i);
            lemma_parse_ascii(s, i + 1, args.push(trim_quotes(s.subrange(start, i))), i + 1, !in_quote, cap);
        } else {
            lemma_parse_ascii(s, i + 1, args, i + 1, !in_quote, cap);
        }
    } else {
        lemma_parse_ascii(s, i + 1, args, start, in_quote, cap);
    }
}

/// A part of an ASCII line, with its quotes trimmed, is ASCII, and so are
/// the arguments once it is added to them.
proof fn lemma_sub_ascii(s: Seq<u8>, a: int, b: int)
    requires
        ascii_seq(s),
        0 <= a <= b <= s.len(),
    ensures
        ascii_seq(trim_quotes(s.subrange(a, b))),
        forall|args: Seq<Seq<u8>>| ascii_args(args) ==> #[trigger] ascii_args(args.push(trim_quotes(s.subrange(a, b)))),
{
    assert(ascii_seq(s.subrange(a, b)));
    lemma_trim_front_ascii(s.subrange(a, b));
    lemma_trim_back_ascii(trim_front(s.subrange(a, b)));
    let t = trim_quotes(s.subrange(a, b));
    assert forall|args: Seq<Seq<u8>>| ascii_args(args) implies #[trigger] ascii_args(args.push(t)) by {
        assert forall|i: int, j: int| 0 <= i < args.push(t).len() && 0 <= j < args.push(t)[i].len() implies #[trigger] args.push(t)[i][j] < 128 by {
            if i < args.len() {
                assert(args.push(t)[i] == args[i]);
            } else {
                assert(args.push(t)[i] == t);
            }
        }
    }
}

/// Removes leading and trailing double quotes from `x[start..end]`.
pub fn trim_quotes_exec(x: &[u8], start: usize, end: usize) -> (r: Vec<u8>)
    requires
        start <= end <= x@.len(),
    ensures
        r@ == trim_quotes(x@.subrange(start as int, end as int)),
{
    let mut a = start;
    while a < end && x[a] == 0x22
        invariant
            start <= a <= end <= x@.len(),
            trim_front(x@.subrange(a as int, end as int)) == trim_front(x@.subrange(start as int, end as int)),
        decreases end - a,
    {
        proof {
            assert(x@.subrange(a as int, end as int).skip(1) =~= x@.subrange(a + 1, end as int));
        }
        a = a + 1;
    }
    proof {
        assert(trim_front(x@.subrange(a as int, end as int)) == x@.subrange(a as int, end as int));
    }
    let mut b = end;
    while b > a && x[b - 1] == 0x22
        invariant
            start <= a <= b <= end <= x@.len(),
            trim_back(x@.subrange(a as int, b as int)) == trim_quotes(x@.subrange(start as int, end as int)),
        decreases b - a,
    {
        proof {
            assert(x@.subrange(a as int, b as int).drop_last() =~= x@.subrange(a as int, b - 1));
        }
        b = b - 1;
    }
    let mut out: Vec<u8> = Vec::new();
    let mut k = a;
    while k < b
        invariant
            a <= k <= b <= x@.len(),
            out@ == x@.subrange(a as int, k as int),
        decreases b - k,
    {
        out.push(x[k]);
        k = k + 1;
        proof {
            assert(out@ =~= x@.subrange(a as int, k as int));
        }
    }
    out
}

/// Splits command line `s` into arguments; with `cap` set, more than `cap`
/// arguments is `TooManyArgs`. A line without arguments is `Empty`.
pub fn parse_args(s: &[u8], cap: Option<usize>) -> (r: Result<Vec<Vec<u8>>, ParseError>)
    ensures
        match r {
            Ok(v) => parse_spec(s@, cap) == Ok::<Seq<Seq<u8>>, ParseError>(args_view(v@)),
            Err(e) => parse_spec(s@, cap) == Err::<Seq<Seq<u8>>, ParseError>(e),
        },
{
    let n = s.len();
    let mut args: Vec<Vec<u8>> = Vec::new();
    let mut start: usize = 0;
    let mut in_quote = false;
    let mut i: usize = 0;
    proof {
        assert(args_view(args@) =~= Seq::<Seq<u8>>::empty());
    }
    while i < n
        invariant
            n == s@.len(),
            i <= n,
            start <= i,
            parse_from(s@, i as int, args_view(args@), start as int, in_quote, cap) == parse_spec(s@, cap),
        decreases n - i,
    {
        let ch = s[i];
        let ghost a0 = args_view(args@);
        let ghost st0 = start as int;
        let ghost q0 = in_quote;
        assert(parse_from(s@, i as int, a0, st0, q0, cap) == parse_spec(s@, cap));
        if (ch == 0x20 && !in_quote) || ch == 0x22 {
            if start < i {
                let arg = trim_quotes_exec(s, start, i);
                let full = match cap {
                    Some(c) => args.len() >= c,
                    None => false,
                };
                if full {
                    return Err(ParseError::TooManyArgs);
                }
                args.push(arg);
                proof {
                    assert(args_view(args@) =~= a0.push(arg@));
                    assert(push_arg(a0, trim_quotes(s@.subrange(st0, i as int)), cap) == Ok::<Seq<Seq<u8>>, ParseError>(a0.push(arg@)));
                }
            }
            if ch == 0x22 {
                in_quote = !in_quote;
            }
            start = i + 1;
        }
        i = i + 1;
    }
    let ghost a0 = args_view(args@);
    if start < n {
        let arg = trim_quotes_exec(s, start, n);
        let full = match cap {
            Some(c) => args.len() >= c,
            None => false,
        };
        if full {
            return Err(ParseError::TooManyArgs);
        }
        args.push(arg);
        proof {
            assert(args_view(args@) =~= a0.push(arg@));
        }
    }
    if args.len() == 0 {
        return Err(ParseError::Empty);
    }
    Ok(args)
}

/// Appends `s` to `out`.
pub fn push_bytes(out: &mut Vec<u8>, s: &[u8])
    ensures
        final(out)@ == old(out)@ + s@,
{
    let n = s.len();
    let mut k: usize = 0;
    while k < n
        invariant
            n == s@.len(),
            k <= n,
            out@ == old(out)@ + s@.take(k as int),
        decreases n - k,
    {
        out.push(s[k]);
        k = k + 1;
        proof {
            assert(out@ =~= old(out)@ + s@.take(k as int));
        }
    }
    proof {
        assert(s@.take(n as int) =~= s@);
    }
}

/// Appends the UTF-8 bytes of `s` to `out`.
pub fn push_str(out: &mut Vec<u8>, s: &str)
    ensures
        final(out)@ == old(out)@ + s.spec_bytes(),
{
    push_bytes(out, s.as_bytes());
}

/// The arguments after the first, each followed by a space, without the
/// last space, then a newline: what `echo` prints.
pub open spec fn echo_text(args: Seq<Seq<u8>>) -> Seq<u8> {
    let joined = join_spaced(args, 1);
    let trimmed = if joined.len() > 0 { joined.drop_last() } else { joined };
    trimmed.push(0x0a)
}

/// The arguments from `i` on, each followed by a space.
pub open spec fn join_spaced(args: Seq<Seq<u8>>, i: int) -> Seq<u8>
    decreases args.len() - i,
{
    if i < 0 || i >= args.len() {
        Seq::empty()
    } else {
        args[i] + seq![space()] + join_spaced(args, i + 1)
    }
}

/// The text `echo` prints for the arguments `args` (the first being the
/// command's name).
pub fn echo_output(args: &Vec<Vec<u8>>) -> (r: Vec<u8>)
    ensures
        r@ == echo_text(args_view(args@)),
{
    let ghost a = args_view(args@);
    let n = args.len();
    let mut out: Vec<u8> = Vec::new();
    let mut i: usize = 1;
    proof {
        if n == 0 {
            assert(join_spaced(a, 1) == Seq::<u8>::empty());
        }
    }
    while i < n
        invariant
            n == args@.len(),
            a == args_view(args@),
            1 <= i,
            i <= n || n == 0,
            out@ + join_spaced(a, i as int) == join_spaced(a, 1),
        decreases n - i,
    {
        let ghost before = out@;
        push_bytes(&mut out, args[i].as_slice());
        out.push(0x20);
        proof {
            assert(out@ + join_spaced(a, i + 1) =~= before + join_spaced(a, i as int));
        }
        i = i + 1;
    }
    proof {
        assert(out@ + join_spaced(a, i as int) =~= out@);
    }
    if out.len() > 0 {
        out.pop();
    }
    out.push(0x0a);
    out
}

/// What the shells print and the status they end with.
pub struct StdOut {
    pub result: Vec<u8>,
    pub code: u8,
}

/// An error message and the status it ends with.
pub struct StdErr {
    pub result: Vec<u8>,
    pub code: u8,
}

/// Message of a failed command: `msg` followed by `tail` and a newline,
/// with status 1.
pub fn error_message(msg: &str, tail: &[u8]) -> (r: StdErr)
    ensures
        r.result@ == msg.spec_bytes() + tail@ + seq![0x0au8],
        r.code == 1,
{
    let mut out: Vec<u8> = Vec::new();
    push_str(&mut out, msg);
    push_bytes(&mut out, tail);
    out.push(0x0a);
    proof {
        assert(out@ =~= msg.spec_bytes() + tail@ + seq![0x0au8]);
    }
    StdErr { result: out, code: 1 }
}

/// What a key press does to the line being typed.
#[derive(Clone, Copy, Debug, PartialEq, Eq)]
pub enum InputAction {
    /// The last byte was erased: echo backspace, space, backspace.
    Erased,
    /// Nothing to erase, or a byte that is refused: ring the bell.
    Bell,
    /// The line is complete.
    Enter,
    /// The byte was appended: echo it.
    Echo(u8),
}

/// The action a key press takes on a line holding `len` bytes, with room
/// for `capacity`.
pub open spec fn input_action(len: int, byte: u8, capacity: Option<usize>) -> InputAction {
    if byte == 127 || byte == 8 {
        if len > 0 { InputAction::Erased } else { InputAction::Bell }
    } else if byte == 0x0d || byte == 0x0a {
        InputAction::Enter
    } else if byte < 32 || byte > 127 {
        InputAction::Bell
    } else if capacity matches Some(c) && len >= c {
        InputAction::Bell
    } else {
        InputAction::Echo(byte)
    }
}

/// Handles a key press while a line is being typed: delete and backspace
/// erase the last byte, carriage return and line feed end the line,
/// printable bytes are appended while there is room, anything else is
/// refused.
pub fn edit_input(input: &mut Vec<u8>, byte: u8, capacity: Option<usize>) -> (r: InputAction)
    ensures
        r == input_action(old(input)@.len() as int, byte, capacity),
        r == InputAction::Erased ==> final(input)@ == old(input)@.drop_last(),
        r is Echo ==> final(input)@ == old(input)@.push(byte),
        (r == InputAction::Bell || r == InputAction::Enter) ==> final(input)@ == old(input)@,
{
    if byte == 127 || byte == 8 {
        if input.len() > 0 {
            input.pop();
            InputAction::Erased
        } else {
            InputAction::Bell
        }
    } else if byte == 0x0d || byte == 0x0a {
        InputAction::Enter
    } else if byte < 32 || byte > 127 {
        InputAction::Bell
    } else {
        let full = match capacity {
            Some(c) => input.len() >= c,
            None => false,
        };
        if full {
            InputAction::Bell
        } else {
            input.push(byte);
            InputAction::Echo(byte)
        }
    }
}

} // verus!
