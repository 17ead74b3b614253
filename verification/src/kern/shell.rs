//! The kernel's debugging shell: command parsing and the argument handling
//! of its built-in commands.

use vstd::prelude::*;

verus! {

use crate::command::{
    ParseError, parse_args, parse_spec, args_view, ascii_args, echo_output, echo_text, StdOut, StdErr,
    error_message, push_bytes, push_str,
};
use crate::path::{resolve_path, render, resolve, parse_path};
use vstd::string::StringSliceAdditionalSpecFns;
use vstd::utf8::valid_utf8;
use crate::kernel_api::IoErrorKind;
use crate::text::str_from_utf8;

/// Room for arguments of a kernel shell command.
pub const MAX_ARGS: usize = 64;

/// Every byte of `s` is ASCII.
pub open spec fn is_ascii_bytes(s: Seq<u8>) -> bool {
    forall|i: int| 0 <= i < s.len() ==> s[i] < 128
}

/// A parsed command: its arguments, the first being its name.
pub struct Command {
    pub args: Vec<Vec<u8>>,
}

impl Command {
    /// Parses a command line of ASCII bytes into at most `capacity`
    /// arguments. A line without arguments is `Empty`; more arguments than
    /// `capacity` is `TooManyArgs`.
    pub fn parse(s: &[u8], capacity: usize) -> (r: Result<Command, ParseError>)
        requires
            is_ascii_bytes(s@),
        ensures
            match r {
                Ok(c) => parse_spec(s@, Some(capacity)) == Ok::<Seq<Seq<u8>>, ParseError>(args_view(c.args@)),
                Err(e) => parse_spec(s@, Some(capacity)) == Err::<Seq<Seq<u8>>, ParseError>(e),
            },
    {
        match parse_args(s, Some(capacity)) {
            Ok(args) => Ok(Command { args }),
            Err(e) => Err(e),
        }
    }

    /// The command's name: its first argument.
    pub fn path(&self) -> (r: &Vec<u8>)
        requires
            self.args@.len() > 0,
        ensures
            r@ == self.args@[0]@,
    {
        &self.args[0]
    }
}

/// `echo`: prints its arguments separated by spaces.
pub fn echo_exec(cmd: &Command) -> (r: StdOut)
    ensures
        r.result@ == echo_text(args_view(cmd.args@)),
        r.code == 0,
{
    StdOut { result: echo_output(&cmd.args), code: 0 }
}

/// `pwd`: prints the working directory; it takes no argument.
pub fn pwd_exec(cmd: &Command, cwd: &[u8]) -> (r: Result<StdOut, StdErr>)
    ensures
        cmd.args@.len() != 1 ==> (r matches Err(e) && e.code == 1 && e.result@
            == "pwd: too many arguments".spec_bytes() + seq![0x0au8]),
        cmd.args@.len() == 1 ==> (r matches Ok(o) && o.code == 0 && o.result@ == cwd@ + seq![0x0au8]),
{
    if cmd.args.len() != 1 {
        let e = error_message("pwd: too many arguments", &[]);
        proof {
            assert(e.result@ =~= "pwd: too many arguments".spec_bytes() + seq![0x0au8]);
        }
        Err(e)
    } else {
        let mut out: Vec<u8> = Vec::new();
        push_bytes(&mut out, cwd);
        out.push(0x0a);
        proof {
            assert(out@ =~= cwd@ + seq![0x0au8]);
        }
        Ok(StdOut { result: out, code: 0 })
    }
}

/// An unknown command.
pub fn unknown_exec(cmd: &Command) -> (r: StdErr)
    requires
        cmd.args@.len() > 0,
    ensures
        r.code == 1,
        r.result@ == "bwsh: command not found: ".spec_bytes() + cmd.args@[0]@ + seq![0x0au8],
{
    error_message("bwsh: command not found: ", cmd.args[0].as_slice())
}

/// Resolves `path` against the working directory `cwd`.
pub fn set_working_dir(path: &[u8], cwd: &[u8]) -> (r: Vec<u8>)
    ensures
        r@ == render(resolve(parse_path(cwd@), path@)),
{
    resolve_path(cwd, path)
}

/// `cd`: the directory to change to: its argument (or the root without
/// one) resolved against `cwd`, together with the argument as given. More
/// than one argument is an error.
pub fn cd_target(cmd: &Command, cwd: &[u8]) -> (r: Result<(Vec<u8>, Vec<u8>), StdErr>)
    ensures
        cmd.args@.len() > 2 ==> (r matches Err(e) && e.code == 1 && e.result@
            == "cd: too many arguments".spec_bytes() + seq![0x0au8]),
        cmd.args@.len() == 2 ==> (r matches Ok((p, arg)) && arg@ == cmd.args@[1]@ && p@ == render(
            resolve(parse_path(cwd@), cmd.args@[1]@),
        )),
        cmd.args@.len() < 2 ==> (r matches Ok((p, arg)) && arg@ == seq![0x2fu8] && p@ == render(
            resolve(parse_path(cwd@), seq![0x2fu8]),
        )),
{
    if cmd.args.len() > 2 {
        let e = error_message("cd: too many arguments", &[]);
        proof {
            assert(e.result@ =~= "cd: too many arguments".spec_bytes() + seq![0x0au8]);
        }
        return Err(e);
    }
    let mut arg: Vec<u8> = Vec::new();
    if cmd.args.len() == 2 {
        push_bytes(&mut arg, cmd.args[1].as_slice());
        proof {
            assert(arg@ =~= cmd.args@[1]@);
        }
    } else {
        arg.push(0x2f);
        proof {
            assert(arg@ =~= seq![0x2fu8]);
        }
    }
    let p = set_working_dir(arg.as_slice(), cwd);
    Ok((p, arg))
}

/// Options of `ls`.
#[derive(Clone, Copy, Debug, PartialEq, Eq)]
pub struct LsFlags {
    pub show_hidden: bool,
    pub human_readable: bool,
    pub long: bool,
}

/// Why the arguments of `ls` are refused.
#[derive(Clone, Debug, PartialEq, Eq)]
pub enum LsArgError {
    /// `--` followed by an unknown word.
    InvalidLong(Vec<u8>),
    /// `-` followed by an unknown letter.
    InvalidShort(u8),
    /// More than one path.
    TooManyArgs,
}

/// The flags after the short options `a[k..]`, or the first unknown letter.
pub open spec fn short_flags(a: Seq<u8>, k: int, f: LsFlags) -> Result<LsFlags, u8>
    decreases a.len() - k,
{
    if k < 0 || k >= a.len() {
        Ok(f)
    } else if a[k] == 0x61 {
        short_flags(a, k + 1, LsFlags { show_hidden: true, ..f })
    } else if a[k] == 0x68 {
        short_flags(a, k + 1, LsFlags { human_readable: true, ..f })
    } else if a[k] == 0x6c {
        short_flags(a, k + 1, LsFlags { long: true, ..f })
    } else {
        Err(a[k])
    }
}

/// The flags given by arguments `i..` and where the first non-option
/// argument is (the number of arguments if none), or the refused option.
pub open spec fn ls_scan(args: Seq<Seq<u8>>, i: int, f: LsFlags) -> Result<(LsFlags, int), LsArgErrorSpec>
    decreases args.len() - i,
{
    if i < 1 || i >= args.len() {
        Ok((f, args.len() as int))
    } else {
        let a = args[i];
        if a.len() > 2 && a[0] == 0x2d && a[1] == 0x2d {
            let word = a.skip(2);
            if word == "all".spec_bytes() {
                ls_scan(args, i + 1, LsFlags { show_hidden: true, ..f })
            } else if word == "human-readable".spec_bytes() {
                ls_scan(args, i + 1, LsFlags { human_readable: true, ..f })
            } else if word == "long".spec_bytes() {
                ls_scan(args, i + 1, LsFlags { long: true, ..f })
            } else {
                Err(LsArgErrorSpec::InvalidLong(word))
            }
        } else if a.len() > 1 && a[0] == 0x2d {
            match short_flags(a, 1, f) {
                Ok(f2) => ls_scan(args, i + 1, f2),
                Err(c) => Err(LsArgErrorSpec::InvalidShort(c)),
            }
        } else {
            Ok((f, i))
        }
    }
}

/// [`LsArgError`] as a value of specifications.
pub enum LsArgErrorSpec {
    InvalidLong(Seq<u8>),
    InvalidShort(u8),
    TooManyArgs,
}

/// What `ls` makes of its arguments: its flags and the path to list (`.`
/// when none is given), or why they are refused.
pub open spec fn ls_args_spec(args: Seq<Seq<u8>>) -> Result<(LsFlags, Seq<u8>), LsArgErrorSpec> {
    let none = LsFlags { show_hidden: false, human_readable: false, long: false };
    match ls_scan(args, 1, none) {
        Err(e) => Err(e),
        Ok((f, end)) => if args.len() > end + 1 {
            Err(LsArgErrorSpec::TooManyArgs)
        } else if args.len() > end {
            Ok((f, args[end]))
        } else {
            Ok((f, seq![0x2eu8]))
        },
    }
}

/// An argument `ls` reads as options: `-` and at least one more byte.
pub open spec fn ls_option_arg(a: Seq<u8>) -> bool {
    a.len() > 1 && a[0] == 0x2d
}

/// Scanning option arguments and then one more argument is scanning the
/// options and then that argument from where they left the flags.
proof fn lemma_ls_scan_push(args: Seq<Seq<u8>>, x: Seq<u8>, i: int, f: LsFlags)
    requires
        1 <= i <= args.len(),
        forall|j: int| i <= j < args.len() ==> ls_option_arg(#[trigger] args[j]),
    ensures
        ls_scan(args.push(x), i, f) == match ls_scan(args, i, f) {
            Ok((g, _)) => ls_scan(args.push(x), args.len() as int, g),
            Err(e) => Err(e),
        },
        ls_scan(args, i, f) matches Ok((_, end)) ==> end == args.len(),
    decreases args.len() - i,
{
    if i < args.len() {
        let a = args[i];
        assert(args.push(x)[i] == a);
        assert(ls_option_arg(a));
        if a.len() > 2 && a[0] == 0x2d && a[1] == 0x2d {
            let word = a.skip(2);
            // The flags the long option `a` leads to, as `ls_scan` reads it.
            match word {
                _ if word == "all".spec_bytes() => lemma_ls_scan_push(args, x, i + 1, LsFlags { show_hidden: true, ..f }),
                _ if word == "human-readable".spec_bytes() => lemma_ls_scan_push(args, x, i + 1, LsFlags { human_readable: true, ..f }),
                _ if word == "long".spec_bytes() => lemma_ls_scan_push(args, x, i + 1, LsFlags { long: true, ..f }),
                _ => {},
            }
        } else {
            match short_flags(a, 1, f) {
                Ok(f2) => lemma_ls_scan_push(args, x, i + 1, f2),
                Err(_) => {},
            }
        }
    }
}

/// Each long option of the shell's `ls` is accepted and sets exactly its
/// own flag: after accepted arguments that are all options, one more
/// `--all` turns on hidden entries, `--human-readable` readable sizes and
/// `--long` the long form, nothing else changes, and the path stays `.`.
pub proof fn lemma_ls_long_options(args: Seq<Seq<u8>>)
    requires
        args.len() >= 1,
        forall|j: int| 1 <= j < args.len() ==> ls_option_arg(#[trigger] args[j]),
        ls_args_spec(args) is Ok,
    ensures
        ls_args_spec(args)->Ok_0.1 == seq![0x2eu8],
        ls_args_spec(args.push("--all".spec_bytes())) == Ok::<(LsFlags, Seq<u8>), LsArgErrorSpec>(
            (LsFlags { show_hidden: true, ..ls_args_spec(args)->Ok_0.0 }, seq![0x2eu8]),
        ),
        ls_args_spec(args.push("--human-readable".spec_bytes())) == Ok::<(LsFlags, Seq<u8>), LsArgErrorSpec>(
            (LsFlags { human_readable: true, ..ls_args_spec(args)->Ok_0.0 }, seq![0x2eu8]),
        ),
        ls_args_spec(args.push("--long".spec_bytes())) == Ok::<(LsFlags, Seq<u8>), LsArgErrorSpec>(
            (LsFlags { long: true, ..ls_args_spec(args)->Ok_0.0 }, seq![0x2eu8]),
        ),
{
    broadcast use vstd::string::is_ascii_spec_bytes;

    reveal_strlit("--all");
    reveal_strlit("--human-readable");
    reveal_strlit("--long");
    reveal_strlit("all");
    reveal_strlit("human-readable");
    reveal_strlit("long");
    assert(vstd::string::is_ascii("--all"));
    assert(vstd::string::is_ascii("--human-readable"));
    assert(vstd::string::is_ascii("--long"));
    assert(vstd::string::is_ascii("all"));
    assert(vstd::string::is_ascii("human-readable"));
    assert(vstd::string::is_ascii("long"));
    let none = LsFlags { show_hidden: false, human_readable: false, long: false };
    let n = args.len() as int;
    let x1 = "--all".spec_bytes();
    let x2 = "--human-readable".spec_bytes();
    let x3 = "--long".spec_bytes();
    let w1 = "all".spec_bytes();
    let w2 = "human-readable".spec_bytes();
    let w3 = "long".spec_bytes();
    assert(x1.len() == 5 && x2.len() == 16 && x3.len() == 6);
    assert(w1.len() == 3 && w2.len() == 14 && w3.len() == 4);
    assert(x1.skip(2) =~= w1);
    assert(x2.skip(2) =~= w2);
    assert(x3.skip(2) =~= w3);
    assert(w2 != w1 && w3 != w1 && w3 != w2);
    lemma_ls_scan_push(args, x1, 1, none);
    lemma_ls_scan_push(args, x2, 1, none);
    lemma_ls_scan_push(args, x3, 1, none);
    let f = ls_args_spec(args)->Ok_0.0;
    assert(ls_scan(args, 1, none) == Ok::<(LsFlags, int), LsArgErrorSpec>((f, n)));
    assert(args.push(x1)[n] == x1);
    assert(args.push(x2)[n] == x2);
    assert(args.push(x3)[n] == x3);
    let g1 = LsFlags { show_hidden: true, ..f };
    let g2 = LsFlags { human_readable: true, ..f };
    assert(ls_scan(args.push(x1), n + 1, g1) == Ok::<(LsFlags, int), LsArgErrorSpec>((g1, n + 1)));
    assert(ls_scan(args.push(x1), n, f) == ls_scan(args.push(x1), n + 1, g1));
    assert(ls_scan(args.push(x2), n + 1, g2) == Ok::<(LsFlags, int), LsArgErrorSpec>((g2, n + 1)));
    assert(ls_scan(args.push(x2), n, f) == ls_scan(args.push(x2), n + 1, g2));
    let g3 = LsFlags { long: true, ..f };
    assert(ls_scan(args.push(x3), n + 1, g3) == Ok::<(LsFlags, int), LsArgErrorSpec>((g3, n + 1)));
    assert(ls_scan(args.push(x3), n, f) == ls_scan(args.push(x3), n + 1, g3));
}

/// Each option letter of the shell's `ls` is accepted and sets exactly its
/// own flag: after accepted arguments that are all options, one more
/// `-a` turns on hidden entries, `-h` readable sizes and `-l` the long
/// form, nothing else changes, and the path stays `.`.
pub proof fn lemma_ls_short_options(args: Seq<Seq<u8>>)
    requires
        args.len() >= 1,
        forall|j: int| 1 <= j < args.len() ==> ls_option_arg(#[trigger] args[j]),
        ls_args_spec(args) is Ok,
    ensures
        ls_args_spec(args.push(seq![0x2du8, 0x61u8])) == Ok::<(LsFlags, Seq<u8>), LsArgErrorSpec>(
            (LsFlags { show_hidden: true, ..ls_args_spec(args)->Ok_0.0 }, seq![0x2eu8]),
        ),
        ls_args_spec(args.push(seq![0x2du8, 0x68u8])) == Ok::<(LsFlags, Seq<u8>), LsArgErrorSpec>(
            (LsFlags { human_readable: true, ..ls_args_spec(args)->Ok_0.0 }, seq![0x2eu8]),
        ),
        ls_args_spec(args.push(seq![0x2du8, 0x6cu8])) == Ok::<(LsFlags, Seq<u8>), LsArgErrorSpec>(
            (LsFlags { long: true, ..ls_args_spec(args)->Ok_0.0 }, seq![0x2eu8]),
        ),
{
    let none = LsFlags { show_hidden: false, human_readable: false, long: false };
    let n = args.len() as int;
    let x1 = seq![0x2du8, 0x61u8];
    let x2 = seq![0x2du8, 0x68u8];
    let x3 = seq![0x2du8, 0x6cu8];
    lemma_ls_scan_push(args, x1, 1, none);
    lemma_ls_scan_push(args, x2, 1, none);
    lemma_ls_scan_push(args, x3, 1, none);
    let f = ls_args_spec(args)->Ok_0.0;
    assert(ls_scan(args, 1, none) == Ok::<(LsFlags, int), LsArgErrorSpec>((f, n)));
    assert(args.push(x1)[n] == x1);
    assert(args.push(x2)[n] == x2);
    assert(args.push(x3)[n] == x3);
    let g1 = LsFlags { show_hidden: true, ..f };
    let g2 = LsFlags { human_readable: true, ..f };
    let g3 = LsFlags { long: true, ..f };
    assert(short_flags(x1, 2, g1) == Ok::<LsFlags, u8>(g1));
    assert(short_flags(x2, 2, g2) == Ok::<LsFlags, u8>(g2));
    assert(short_flags(x3, 2, g3) == Ok::<LsFlags, u8>(g3));
    assert(ls_scan(args.push(x1), n + 1, g1) == Ok::<(LsFlags, int), LsArgErrorSpec>((g1, n + 1)));
    assert(ls_scan(args.push(x1), n, f) == ls_scan(args.push(x1), n + 1, g1));
    assert(ls_scan(args.push(x2), n + 1, g2) == Ok::<(LsFlags, int), LsArgErrorSpec>((g2, n + 1)));
    assert(ls_scan(args.push(x2), n, f) == ls_scan(args.push(x2), n + 1, g2));
    assert(ls_scan(args.push(x3), n + 1, g3) == Ok::<(LsFlags, int), LsArgErrorSpec>((g3, n + 1)));
    assert(ls_scan(args.push(x3), n, f) == ls_scan(args.push(x3), n + 1, g3));
}

/// The bytes of `a` equal those of `s`.
pub fn bytes_eq_str(a: &[u8], s: &str) -> (r: bool)
    ensures
        r == (a@ == s.spec_bytes()),
{
    let b = s.as_bytes();
    if a.len() != b.len() {
        return false;
    }
    let n = a.len();
    let mut k: usize = 0;
    while k < n
        invariant
            n == a@.len(),
            n == b@.len(),
            k <= n,
            b@ == s.spec_bytes(),
            forall|j: int| 0 <= j < k ==> a@[j] == b@[j],
        decreases n - k,
    {
        if a[k] != b[k] {
            return false;
        }
        k = k + 1;
    }
    assert(a@ =~= b@);
    true
}

/// Reads the options of `ls`. Long options `--all`, `--human-readable`
/// and `--long`, and the letters `a`, `h`, `l` after `-`, set the flags;
/// the first other argument is the path, and it must be the last.
pub fn ls_args(cmd: &Command) -> (r: Result<(LsFlags, Vec<u8>), LsArgError>)
    requires
        ascii_args(args_view(cmd.args@)),
    ensures
        match (r, ls_args_spec(args_view(cmd.args@))) {
            (Ok((f, p)), Ok((f2, p2))) => f == f2 && p@ == p2,
            (Err(LsArgError::InvalidLong(w)), Err(LsArgErrorSpec::InvalidLong(w2))) => w@ == w2,
            (Err(LsArgError::InvalidShort(c)), Err(LsArgErrorSpec::InvalidShort(c2))) => c == c2,
            (Err(LsArgError::TooManyArgs), Err(LsArgErrorSpec::TooManyArgs)) => true,
            _ => false,
        },
{
    let ghost a = args_view(cmd.args@);
    let n = cmd.args.len();
    let mut f = LsFlags { show_hidden: false, human_readable: false, long: false };
    let mut option_end = n;
    let mut i: usize = 1;
    let mut done = false;
    while i < n && !done
        invariant
            n == cmd.args@.len(),
            a == args_view(cmd.args@),
            1 <= i,
            !done ==> ls_scan(a, i as int, f) == ls_scan(
                a,
                1,
                LsFlags { show_hidden: false, human_readable: false, long: false },
            ),
            done ==> ls_scan(a, 1, LsFlags { show_hidden: false, human_readable: false, long: false })
                == Ok::<(LsFlags, int), LsArgErrorSpec>((f, option_end as int)),
            !done ==> option_end == n,
            option_end <= n,
        decreases n - i + (if done { 0int } else { 1int }),
    {
        let arg = cmd.args[i].as_slice();
        assert(arg@ == a[i as int]);
        if arg.len() > 2 && arg[0] == 0x2d && arg[1] == 0x2d {
            let word = vstd::slice::slice_subrange(arg, 2, arg.len());
            assert(word@ =~= a[i as int].skip(2));
            if bytes_eq_str(word, "all") {
                f.show_hidden = true;
            } else if bytes_eq_str(word, "human-readable") {
                f.human_readable = true;
            } else if bytes_eq_str(word, "long") {
                f.long = true;
            } else {
                let mut w: Vec<u8> = Vec::new();
                push_bytes(&mut w, word);
                assert(w@ =~= word@);
                return Err(LsArgError::InvalidLong(w));
            }
            i = i + 1;
        } else if arg.len() > 1 && arg[0] == 0x2d {
            let mut k: usize = 1;
            let ghost f0 = f;
            assert(ls_scan(a, i as int, f0) == match short_flags(a[i as int], 1, f0) {
                Ok(f2) => ls_scan(a, i + 1, f2),
                Err(c) => Err(LsArgErrorSpec::InvalidShort(c)),
            });
            while k < arg.len()
                invariant
                    1 <= k <= arg@.len(),
                    0 <= i < a.len(),
                    a == args_view(cmd.args@),
                    arg@ == a[i as int],
                    short_flags(arg@, k as int, f) == short_flags(arg@, 1, f0),
                    ls_scan(a, i as int, f0) == match short_flags(a[i as int], 1, f0) {
                        Ok(f2) => ls_scan(a, i + 1, f2),
                        Err(c) => Err(LsArgErrorSpec::InvalidShort(c)),
                    },
                    ls_scan(a, i as int, f0) == ls_scan(
                        a,
                        1,
                        LsFlags { show_hidden: false, human_readable: false, long: false },
                    ),
                decreases arg@.len() - k,
            {
                let c = arg[k];
                if c == 0x61 {
                    f.show_hidden = true;
                } else if c == 0x68 {
                    f.human_readable = true;
                } else if c == 0x6c {
                    f.long = true;
                } else {
                    assert(short_flags(arg@, k as int, f) == Err::<LsFlags, u8>(c));
                    assert(ls_scan(a, i as int, f0) == Err::<(LsFlags, int), LsArgErrorSpec>(
                        LsArgErrorSpec::InvalidShort(c),
                    ));
                    return Err(LsArgError::InvalidShort(c));
                }
                k = k + 1;
            }
            i = i + 1;
        } else {
            option_end = i;
            done = true;
        }
    }
    if option_end < n && n - option_end > 1 {
        return Err(LsArgError::TooManyArgs);
    }
    let mut path: Vec<u8> = Vec::new();
    if n > option_end {
        push_bytes(&mut path, cmd.args[option_end].as_slice());
        assert(path@ =~= a[option_end as int]);
    } else {
        path.push(0x2e);
        assert(path@ =~= seq![0x2eu8]);
    }
    Ok((f, path))
}

/// The message `ls` prints for refused arguments.
pub fn ls_error_message(e: &LsArgError) -> (r: StdErr)
    ensures
        r.code == 1,
        (*e matches LsArgError::InvalidLong(w) ==> r.result@ == "ls: invalid option: --".spec_bytes() + w@
            + seq![0x0au8]),
        (*e matches LsArgError::InvalidShort(c) ==> r.result@ == "ls: invalid option: -".spec_bytes() + seq![c]
            + seq![0x0au8]),
        *e == LsArgError::TooManyArgs ==> r.result@ == "ls: too many arguments".spec_bytes() + seq![0x0au8],
{
    match e {
        LsArgError::InvalidLong(w) => error_message("ls: invalid option: --", w.as_slice()),
        LsArgError::InvalidShort(c) => {
            let mut t: Vec<u8> = Vec::new();
            t.push(*c);
            error_message("ls: invalid option: -", t.as_slice())
        },
        LsArgError::TooManyArgs => {
            let r = error_message("ls: too many arguments", &[]);
            assert(r.result@ =~= "ls: too many arguments".spec_bytes() + seq![0x0au8]);
            r
        },
    }
}

/// `cd`: the answer once the resolved directory was looked up: a missing
/// entry (an error) and an entry that is not a directory are refused with
/// a message naming the argument as given; a directory becomes the working
/// directory.
pub fn cd_finish(cwd: &mut Vec<u8>, target: Vec<u8>, arg: &[u8], opened: Result<bool, IoErrorKind>) -> (r: Result<
    StdOut,
    StdErr,
>)
    ensures
        match opened {
            Err(_) => final(cwd)@ == old(cwd)@ && (r matches Err(e) && e.code == 1 && e.result@
                == "cd: no such file or directory: ".spec_bytes() + arg@ + seq![0x0au8]),
            Ok(false) => final(cwd)@ == old(cwd)@ && (r matches Err(e) && e.code == 1 && e.result@
                == "cd: not a directory: ".spec_bytes() + arg@ + seq![0x0au8]),
            Ok(true) => final(cwd)@ == target@ && (r matches Ok(o) && o.code == 0 && o.result@ == Seq::<
                u8,
            >::empty()),
        },
{
    match opened {
        Err(_) => Err(error_message("cd: no such file or directory: ", arg)),
        Ok(false) => Err(error_message("cd: not a directory: ", arg)),
        Ok(true) => {
            *cwd = target;
            Ok(StdOut { result: Vec::new(), code: 0 })
        },
    }
}

/// `ls`: the answer when the path names nothing.
pub fn ls_missing(path: &[u8]) -> (r: StdErr)
    ensures
        r.code == 1,
        r.result@ == "ls: no such file or directory: ".spec_bytes() + path@ + seq![0x0au8],
{
    error_message("ls: no such file or directory: ", path)
}

/// What looking up and reading one argument of `cat` gave.
pub enum CatOutcome {
    /// The path names nothing.
    Missing,
    /// The path names a directory.
    IsDir,
    /// Reading the file failed.
    Unreadable,
    /// The file's bytes.
    Content(Vec<u8>),
}

/// `cat`, one argument: the file's text followed by a newline is added to
/// `result`; a missing path, a directory, a failed read or text that is
/// not UTF-8 adds a message naming the path and ends the command
/// (`false`).
pub fn cat_step(result: &mut Vec<u8>, path: &[u8], outcome: CatOutcome) -> (ok: bool)
    ensures
        match outcome {
            CatOutcome::Missing => !ok && final(result)@ == old(result)@ + "cat: ".spec_bytes() + path@
                + " no such fhe or directory".spec_bytes() + seq![0x0au8],
            CatOutcome::IsDir => !ok && final(result)@ == old(result)@ + "cat: ".spec_bytes() + path@
                + ": is a directory".spec_bytes() + seq![0x0au8],
            CatOutcome::Unreadable => !ok && final(result)@ == old(result)@ + "cat: ".spec_bytes() + path@
                + ": file could not be opened".spec_bytes() + seq![0x0au8],
            CatOutcome::Content(bytes) => if valid_utf8(bytes@) {
                ok && final(result)@ == old(result)@ + bytes@ + seq![0x0au8]
            } else {
                !ok && final(result)@ == old(result)@ + "cat: ".spec_bytes() + path@
                    + ": file not valid UTF-8".spec_bytes() + seq![0x0au8]
            },
        },
{
    let tail: &str = match &outcome {
        CatOutcome::Missing => " no such fhe or directory",
        CatOutcome::IsDir => ": is a directory",
        CatOutcome::Unreadable => ": file could not be opened",
        CatOutcome::Content(bytes) => {
            match str_from_utf8(bytes.as_slice()) {
                Ok(_) => {
                    push_bytes(result, bytes.as_slice());
                    result.push(0x0a);
                    return true;
                },
                Err(_) => ": file not valid UTF-8",
            }
        },
    };
    push_str(result, "cat: ");
    push_bytes(result, path);
    push_str(result, tail);
    result.push(0x0a);
    false
}

/// The kernel shell's commands.
#[derive(Clone, Copy, Debug, PartialEq, Eq)]
pub enum Builtin {
    Echo,
    Pwd,
    Cd,
    Ls,
    Cat,
    Panic,
    Unknown,
}

/// The command a name stands for.
pub open spec fn builtin_spec(name: Seq<u8>) -> Builtin {
    if name == "echo".spec_bytes() {
        Builtin::Echo
    } else if name == "pwd".spec_bytes() {
        Builtin::Pwd
    } else if name == "cd".spec_bytes() {
        Builtin::Cd
    } else if name == "ls".spec_bytes() {
        Builtin::Ls
    } else if name == "cat".spec_bytes() {
        Builtin::Cat
    } else if name == "panic!".spec_bytes() {
        Builtin::Panic
    } else {
        Builtin::Unknown
    }
}

/// The command the name `name` stands for.
pub fn builtin_of(name: &[u8]) -> (r: Builtin)
    ensures
        r == builtin_spec(name@),
{
    if bytes_eq_str(name, "echo") {
        Builtin::Echo
    } else if bytes_eq_str(name, "pwd") {
        Builtin::Pwd
    } else if bytes_eq_str(name, "cd") {
        Builtin::Cd
    } else if bytes_eq_str(name, "ls") {
        Builtin::Ls
    } else if bytes_eq_str(name, "cat") {
        Builtin::Cat
    } else if bytes_eq_str(name, "panic!") {
        Builtin::Panic
    } else {
        Builtin::Unknown
    }
}

/// What the shell prints for a line that could not be parsed: nothing for
/// an empty line, a message when it has too many arguments.
pub fn parse_error_message(e: ParseError) -> (r: Vec<u8>)
    ensures
        e == ParseError::Empty ==> r@ == Seq::<u8>::empty(),
        e == ParseError::TooManyArgs ==> r@ == "bwsh: too many arguments".spec_bytes() + seq![0x0au8],
{
    let mut out: Vec<u8> = Vec::new();
    match e {
        ParseError::Empty => {},
        ParseError::TooManyArgs => {
            push_str(&mut out, "bwsh: too many arguments");
            out.push(0x0a);
        },
    }
    out
}

} // verus!
