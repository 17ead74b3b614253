//! The user-space shell: command parsing and the built-in commands' handling
//! of their arguments and of what the kernel answered.

use vstd::prelude::*;

verus! {

use crate::command::{
    ParseError, parse_args, parse_spec, args_view, ascii_args, echo_output, echo_text, push_bytes, push_str,
};
use crate::decimal::{IntErrorKind, parse_usize, parse_usize_spec, push_decimal, decimal};
use crate::kernel_api::{OsError, os_error_name};
use vstd::string::StringSliceAdditionalSpecFns;

/// What a command prints when it succeeds.
pub struct StdOut {
    pub result: Vec<u8>,
}

/// What a command prints when it fails, and the status it ends with.
pub struct StdError {
    pub result: Vec<u8>,
    pub code: u8,
}

/// A parsed command line: its arguments, the first being its name.
pub struct Command {
    pub args: Vec<Vec<u8>>,
}

impl Command {
    /// Parses a command line. Arguments are separated by spaces outside
    /// quotes; a quote also ends an argument; quotes around an argument are
    /// dropped. A line without arguments is `Empty`.
    pub fn parse(s: &[u8]) -> (r: Result<Command, ParseError>)
        ensures
            match r {
                Ok(c) => parse_spec(s@, None) == Ok::<Seq<Seq<u8>>, ParseError>(args_view(c.args@)),
                Err(e) => parse_spec(s@, None) == Err::<Seq<Seq<u8>>, ParseError>(e),
            },
    {
        match parse_args(s, None) {
            Ok(args) => Ok(Command { args }),
            Err(e) => Err(e),
        }
    }

    /// The command's name: its first argument.
    pub fn path(&self) -> (r: &Vec<u8>)
        requires
            self.args@.len() > 0,
        ensures
            r@ == self.args@[0]@,
    {
        &self.args[0]
    }

    /// A copy of all the arguments, the name first.
    pub fn args(&self) -> (r: Vec<Vec<u8>>)
        ensures
            args_view(r@) == args_view(self.args@),
    {
        let mut out: Vec<Vec<u8>> = Vec::new();
        let n = self.args.len();
        let mut i: usize = 0;
        while i < n
            invariant
                n == self.args@.len(),
                i <= n,
                out@.len() == i,
                forall|j: int| 0 <= j < i ==> #[trigger] out@[j]@ == self.args@[j]@,
            decreases n - i,
        {
            let mut a: Vec<u8> = Vec::new();
            push_bytes(&mut a, self.args[i].as_slice());
            assert(a@ =~= self.args@[i as int]@);
            out.push(a);
            i = i + 1;
        }
        assert(args_view(out@) =~= args_view(self.args@));
        out
    }
}

/// A failure message: `msg`, then `tail`, then a newline, with status 1.
pub fn fail(msg: &str, tail: &[u8]) -> (r: StdError)
    ensures
        r.result@ == msg.spec_bytes() + tail@ + seq![0x0au8],
        r.code == 1,
{
    let mut out: Vec<u8> = Vec::new();
    push_str(&mut out, msg);
    push_bytes(&mut out, tail);
    out.push(0x0a);
    proof {
        assert(out@ =~= msg.spec_bytes() + tail@ + seq![0x0au8]);
    }
    StdError { result: out, code: 1 }
}

/// `echo`: prints its arguments separated by spaces.
pub fn echo(cmd: &Command) -> (r: StdOut)
    ensures
        r.result@ == echo_text(args_view(cmd.args@)),
{
    StdOut { result: echo_output(&cmd.args) }
}

/// `pwd`: prints the working directory `cwd`; it takes no argument.
pub fn pwd(cmd: &Command, cwd: &[u8]) -> (r: Result<StdOut, StdError>)
    ensures
        cmd.args@.len() != 1 ==> (r matches Err(e) && e.code == 1 && e.result@
            == "pwd: too many arguments".spec_bytes() + seq![0x0au8]),
        cmd.args@.len() == 1 ==> (r matches Ok(o) && o.result@ == cwd@ + seq![0x0au8]),
{
    if cmd.args.len() != 1 {
        let e = fail("pwd: too many arguments", &[]);
        assert(e.result@ =~= "pwd: too many arguments".spec_bytes() + seq![0x0au8]);
        Err(e)
    } else {
        let mut out: Vec<u8> = Vec::new();
        push_bytes(&mut out, cwd);
        out.push(0x0a);
        assert(out@ =~= cwd@ + seq![0x0au8]);
        Ok(StdOut { result: out })
    }
}

/// `cd`: the directory to change to, as given: its argument, or `/`
/// without one. More than one argument is an error.
pub fn cd_target(cmd: &Command) -> (r: Result<Vec<u8>, StdError>)
    ensures
        cmd.args@.len() > 2 ==> (r matches Err(e) && e.code == 1 && e.result@
            == "cd: too many arguments".spec_bytes() + seq![0x0au8]),
        cmd.args@.len() == 2 ==> (r matches Ok(p) && p@ == cmd.args@[1]@),
        cmd.args@.len() < 2 ==> (r matches Ok(p) && p@ == seq![0x2fu8]),
{
    if cmd.args.len() > 2 {
        let e = fail("cd: too many arguments", &[]);
        assert(e.result@ =~= "cd: too many arguments".spec_bytes() + seq![0x0au8]);
        return Err(e);
    }
    let mut p: Vec<u8> = Vec::new();
    if cmd.args.len() == 2 {
        push_bytes(&mut p, cmd.args[1].as_slice());
        assert(p@ =~= cmd.args@[1]@);
    } else {
        p.push(0x2f);
        assert(p@ =~= seq![0x2fu8]);
    }
    Ok(p)
}

/// `cd`: the answer when the kernel refused to change to `target`.
pub fn cd_refused(target: &[u8]) -> (r: StdError)
    ensures
        r.code == 1,
        r.result@ == "cd: no such file or directory: ".spec_bytes() + target@ + seq![0x0au8],
{
    fail("cd: no such file or directory: ", target)
}

/// A program could not be started: the message names it and the error.
pub fn start_failed(path: &[u8], e: OsError) -> (r: StdError)
    ensures
        r.code == 1,
        r.result@ == "bwsh: error starting ".spec_bytes() + path@ + ": ".spec_bytes() + os_error_name(e)
            + seq![0x0au8],
{
    let mut out: Vec<u8> = Vec::new();
    push_str(&mut out, "bwsh: error starting ");
    push_bytes(&mut out, path);
    push_str(&mut out, ": ");
    push_str(&mut out, e.debug_name());
    out.push(0x0a);
    proof {
        assert(out@ =~= "bwsh: error starting ".spec_bytes() + path@ + ": ".spec_bytes() + os_error_name(e)
            + seq![0x0au8]);
    }
    StdError { result: out, code: 1 }
}

/// Waiting for a started program failed.
pub fn wait_failed(e: OsError) -> (r: StdError)
    ensures
        r.code == 1,
        r.result@ == "bwsh: error calling wait(): ".spec_bytes() + os_error_name(e) + seq![0x0au8],
{
    let mut out: Vec<u8> = Vec::new();
    push_str(&mut out, "bwsh: error calling wait(): ");
    push_str(&mut out, e.debug_name());
    out.push(0x0a);
    proof {
        assert(out@ =~= "bwsh: error calling wait(): ".spec_bytes() + os_error_name(e) + seq![0x0au8]);
    }
    StdError { result: out, code: 1 }
}

/// Settings of `dice`: whether each roll is labelled, and how many dice.
pub struct Dice {
    pub verbose: bool,
    pub count: usize,
}

/// Why the arguments of `dice` are refused.
pub enum DiceArgError {
    /// `--` followed by an unknown word.
    InvalidLong(Seq<u8>),
    /// `-` followed by an unknown letter.
    InvalidShort(u8),
    /// An argument that is not a count.
    BadCount(IntErrorKind),
}

/// The settings after the letters `a[k..]` of a short option, or the first
/// unknown letter.
pub open spec fn dice_short(a: Seq<u8>, k: int, verbose: bool) -> Result<bool, u8>
    decreases a.len() - k,
{
    if k < 0 || k >= a.len() {
        Ok(verbose)
    } else if a[k] == 0x71 {
        dice_short(a, k + 1, false)
    } else if a[k] == 0x76 {
        dice_short(a, k + 1, true)
    } else {
        Err(a[k])
    }
}

/// The settings after arguments `i..`: `--quiet`/`-q` and
/// `--verbose`/`-v` choose the labelling, any other argument is a count
/// (the last one counts).
pub open spec fn dice_scan(args: Seq<Seq<u8>>, i: int, verbose: bool, count: usize) -> Result<
    (bool, usize),
    DiceArgError,
>
    decreases args.len() - i,
{
    if i < 1 || i >= args.len() {
        Ok((verbose, count))
    } else {
        let a = args[i];
        if a.len() > 2 && a[0] == 0x2d && a[1] == 0x2d {
            let word = a.skip(2);
            if word == "quiet".spec_bytes() {
                dice_scan(args, i + 1, false, count)
            } else if word == "verbose".spec_bytes() {
                dice_scan(args, i + 1, true, count)
            } else {
                Err(DiceArgError::InvalidLong(word))
            }
        } else if a.len() > 1 && a[0] == 0x2d {
            match dice_short(a, 1, verbose) {
                Ok(v) => dice_scan(args, i + 1, v, count),
                Err(c) => Err(DiceArgError::InvalidShort(c)),
            }
        } else {
            match parse_usize_spec(a) {
                Ok(c) => dice_scan(args, i + 1, verbose, c),
                Err(k) => Err(DiceArgError::BadCount(k)),
            }
        }
    }
}

/// How a refused count is described: as the standard library prints its
/// parse error.
pub open spec fn int_error_text(k: IntErrorKind) -> Seq<u8> {
    match k {
        IntErrorKind::Empty => "ParseIntError { kind: Empty }".spec_bytes(),
        IntErrorKind::InvalidDigit => "ParseIntError { kind: InvalidDigit }".spec_bytes(),
        IntErrorKind::PosOverflow => "ParseIntError { kind: PosOverflow }".spec_bytes(),
    }
}

/// The message `dice` prints for refused arguments.
pub open spec fn dice_error_text(e: DiceArgError) -> Seq<u8> {
    match e {
        DiceArgError::InvalidLong(w) => "dice: invalid option: --".spec_bytes() + w + seq![0x0au8],
        DiceArgError::InvalidShort(c) => "dice: invalid option: -".spec_bytes() + seq![c] + seq![0x0au8],
        DiceArgError::BadCount(k) => "dice: invalid argument, count should be a positive integer: ".spec_bytes()
            + int_error_text(k) + seq![0x0au8],
    }
}

/// The bytes of `a` equal those of `s`.
pub fn same_bytes(a: &[u8], s: &str) -> (r: bool)
    ensures
        r == (a@ == s.spec_bytes()),
{
    crate::kern::shell::bytes_eq_str(a, s)
}

/// The text of a parse error of a count.
pub fn int_error_message(k: IntErrorKind) -> (r: &'static str)
    ensures
        r.spec_bytes() == int_error_text(k),
{
    match k {
        IntErrorKind::Empty => "ParseIntError { kind: Empty }",
        IntErrorKind::InvalidDigit => "ParseIntError { kind: InvalidDigit }",
        IntErrorKind::PosOverflow => "ParseIntError { kind: PosOverflow }",
    }
}

impl Dice {
    /// Labelled rolls of a single die.
    pub fn new() -> (d: Dice)
        ensures
            d.verbose,
            d.count == 1,
    {
        Dice { verbose: true, count: 1 }
    }

    /// Reads the arguments of `dice` into these settings.
    pub fn configure(&mut self, cmd: &Command) -> (r: Result<(), StdError>)
        requires
            ascii_args(args_view(cmd.args@)),
        ensures
            match dice_scan(args_view(cmd.args@), 1, old(self).verbose, old(self).count) {
                Ok((v, c)) => r is Ok && final(self).verbose == v && final(self).count == c,
                Err(e) => r matches Err(se) && se.code == 1 && se.result@ == dice_error_text(e),
            },
    {
        let ghost a = args_view(cmd.args@);
        let ghost v0 = self.verbose;
        let ghost c0 = self.count;
        let n = cmd.args.len();
        let mut i: usize = 1;
        while i < n
            invariant
                n == cmd.args@.len(),
                a == args_view(cmd.args@),
                1 <= i,
                v0 == old(self).verbose,
                c0 == old(self).count,
                dice_scan(a, i as int, self.verbose, self.count) == dice_scan(a, 1, v0, c0),
            decreases n - i,
        {
            let arg = cmd.args[i].as_slice();
            assert(arg@ == a[i as int]);
            if arg.len() > 2 && arg[0] == 0x2d && arg[1] == 0x2d {
                let word = vstd::slice::slice_subrange(arg, 2, arg.len());
                assert(word@ =~= a[i as int].skip(2));
                if same_bytes(word, "quiet") {
                    self.verbose = false;
                } else if same_bytes(word, "verbose") {
                    self.verbose = true;
                } else {
                    assert(dice_scan(a, i as int, self.verbose, self.count) == Err::<(bool, usize), DiceArgError>(
                        DiceArgError::InvalidLong(word@),
                    ));
                    let mut out: Vec<u8> = Vec::new();
                    push_str(&mut out, "dice: invalid option: --");
                    push_bytes(&mut out, word);
                    out.push(0x0a);
                    proof {
                        assert(out@ =~= dice_error_text(DiceArgError::InvalidLong(word@)));
                    }
                    return Err(StdError { result: out, code: 1 });
                }
            } else if arg.len() > 1 && arg[0] == 0x2d {
                let ghost vs = self.verbose;
                let ghost cs = self.count;
                assert(dice_scan(a, i as int, vs, cs) == match dice_short(a[i as int], 1, vs) {
                    Ok(v) => dice_scan(a, i + 1, v, cs),
                    Err(c) => Err(DiceArgError::InvalidShort(c)),
                });
                let mut k: usize = 1;
                while k < arg.len()
                    invariant
                        1 <= k <= arg@.len(),
                        0 <= i < a.len(),
                        a == args_view(cmd.args@),
                        arg@ == a[i as int],
                        dice_short(arg@, k as int, self.verbose) == dice_short(arg@, 1, vs),
                        self.count == cs,
                        v0 == old(self).verbose,
                        c0 == old(self).count,
                        dice_scan(a, i as int, vs, cs) == dice_scan(a, 1, v0, c0),
                        dice_scan(a, i as int, vs, cs) == match dice_short(a[i as int], 1, vs) {
                            Ok(v) => dice_scan(a, i + 1, v, cs),
                            Err(c) => Err(DiceArgError::InvalidShort(c)),
                        },
                    decreases arg@.len() - k,
                {
                    let c = arg[k];
                    if c == 0x71 {
                        self.verbose = false;
                    } else if c == 0x76 {
                        self.verbose = true;
                    } else {
                        let mut out: Vec<u8> = Vec::new();
                        push_str(&mut out, "dice: invalid option: -");
                        out.push(c);
                        out.push(0x0a);
                        proof {
                            assert(dice_short(arg@, k as int, self.verbose) == Err::<bool, u8>(c));
                            assert(out@ =~= dice_error_text(DiceArgError::InvalidShort(c)));
                        }
                        return Err(StdError { result: out, code: 1 });
                    }
                    k = k + 1;
                }
            } else {
                assert(dice_scan(a, i as int, self.verbose, self.count) == match parse_usize_spec(a[i as int]) {
                    Ok(c) => dice_scan(a, i + 1, self.verbose, c),
                    Err(k) => Err(DiceArgError::BadCount(k)),
                });
                match parse_usize(arg) {
                    Ok(c) => {
                        self.count = c;
                    },
                    Err(kind) => {
                        let mut out: Vec<u8> = Vec::new();
                        push_str(&mut out, "dice: invalid argument, count should be a positive integer: ");
                        push_str(&mut out, int_error_message(kind));
                        out.push(0x0a);
                        proof {
                            assert(out@ =~= dice_error_text(DiceArgError::BadCount(kind)));
                        }
                        return Err(StdError { result: out, code: 1 });
                    },
                }
            }
            i = i + 1;
        }
        Ok(())
    }
}

/// The line printed for roll number `die` (counted from zero) that came up
/// `value`: `Die #n: value` when labelled, else the value alone.
pub open spec fn roll_text(die: nat, value: nat, verbose: bool) -> Seq<u8> {
    if verbose {
        "Die #".spec_bytes() + decimal(die + 1) + ": ".spec_bytes() + decimal(value) + seq![0x0au8]
    } else {
        decimal(value) + seq![0x0au8]
    }
}

/// Formats one roll of `dice`.
pub fn roll_line(die: u64, value: u64, verbose: bool) -> (r: Vec<u8>)
    requires
        die < u64::MAX,
    ensures
        r@ == roll_text(die as nat, value as nat, verbose),
{
    let mut out: Vec<u8> = Vec::new();
    if verbose {
        push_str(&mut out, "Die #");
        push_decimal(&mut out, die + 1);
        push_str(&mut out, ": ");
    }
    push_decimal(&mut out, value);
    out.push(0x0a);
    proof {
        assert(out@ =~= roll_text(die as nat, value as nat, verbose));
    }
    out
}

/// The user shell's commands; any other name runs a program.
#[derive(Clone, Copy, Debug, PartialEq, Eq)]
pub enum BwshCommand {
    Echo,
    Pwd,
    Cd,
    Exit,
    Dice,
    Program,
}

/// The command a name stands for.
pub open spec fn command_spec(name: Seq<u8>) -> BwshCommand {
    if name == "echo".spec_bytes() {
        BwshCommand::Echo
    } else if name == "pwd".spec_bytes() {
        BwshCommand::Pwd
    } else if name == "cd".spec_bytes() {
        BwshCommand::Cd
    } else if name == "exit".spec_bytes() {
        BwshCommand::Exit
    } else if name == "dice".spec_bytes() {
        BwshCommand::Dice
    } else {
        BwshCommand::Program
    }
}

/// The command the name `name` stands for.
pub fn command_of(name: &[u8]) -> (r: BwshCommand)
    ensures
        r == command_spec(name@),
{
    if same_bytes(name, "echo") {
        BwshCommand::Echo
    } else if same_bytes(name, "pwd") {
        BwshCommand::Pwd
    } else if same_bytes(name, "cd") {
        BwshCommand::Cd
    } else if same_bytes(name, "exit") {
        BwshCommand::Exit
    } else if same_bytes(name, "dice") {
        BwshCommand::Dice
    } else {
        BwshCommand::Program
    }
}

/// The Fibonacci numbers as the demo program counts them: 1, 1, 2, 3, ...
pub open spec fn fib_spec(n: nat) -> nat
    decreases n,
{
    if n <= 1 {
        1
    } else {
        fib_spec((n - 1) as nat) + fib_spec((n - 2) as nat)
    }
}

proof fn lemma_fib_monotonic(i: nat, j: nat)
    requires
        i <= j,
    ensures
        fib_spec(i) <= fib_spec(j),
    decreases j,
{
    if j > i {
        lemma_fib_monotonic(i, (j - 1) as nat);
        if j >= 2 {
            assert(fib_spec(j) == fib_spec((j - 1) as nat) + fib_spec((j - 2) as nat));
        }
    }
}

/// The `n`-th Fibonacci number, computed the slow way the demo program
/// does.
///
/// Panics (excluded by the precondition) when the result overflows.
pub fn fib(n: u64) -> (r: u64)
    requires
        fib_spec(n as nat) <= u64::MAX,
    ensures
        r == fib_spec(n as nat),
    decreases n,
{
    if n <= 1 {
        1
    } else {
        proof {
            lemma_fib_monotonic((n - 1) as nat, n as nat);
            lemma_fib_monotonic((n - 2) as nat, n as nat);
        }
        fib(n - 1) + fib(n - 2)
    }
}

} // verus!
