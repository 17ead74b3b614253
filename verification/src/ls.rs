//! The options of the `ls` user program.
//!
//! `ls` reads its arguments after its name: `--all`, `--human-readable` and
//! `--long`, and the letters `a`, `h` and `l` after a `-`, set its flags;
//! anything else that starts with `-` is complained about, and the scan
//! goes on. The first argument that does not start with `-` is the path to
//! list and ends the scan; arguments after it are complained about once.

use vstd::prelude::*;

verus! {

use crate::command::{args_view, ascii_args, push_bytes, push_str};
use crate::kern::shell::bytes_eq_str;
use crate::kern::listing::{spaces, size_text, push_spaces, size_bytes};
use crate::kernel_api::fs::{Stat, attr_flag, metadata_text, stamp_ok, stamp_in_range};
use vstd::string::{StringSliceAdditionalSpecFns, StrSliceExecFns};
use vstd::utf8::encode_utf8;

/// What `ls` makes of its arguments.
pub struct LsOptions {
    pub show_hidden: bool,
    pub human_readable: bool,
    pub long: bool,
    /// The path argument, when one is given.
    pub path: Option<Vec<u8>>,
    /// The complaints about the arguments, a line each.
    pub messages: Vec<u8>,
}

/// [`LsOptions`] as a value of specifications.
pub struct LsOptionsView {
    pub show_hidden: bool,
    pub human_readable: bool,
    pub long: bool,
    pub path: Option<Seq<u8>>,
    pub messages: Seq<u8>,
}

impl View for LsOptions {
    type V = LsOptionsView;

    open spec fn view(&self) -> LsOptionsView {
        LsOptionsView {
            show_hidden: self.show_hidden,
            human_readable: self.human_readable,
            long: self.long,
            path: match self.path {
                Some(p) => Some(p@),
                None => None,
            },
            messages: self.messages@,
        }
    }
}

/// The complaint about a long option `a` (dashes included).
pub open spec fn invalid_long_text(a: Seq<u8>) -> Seq<u8> {
    "ls: invalid option: ".spec_bytes() + a + seq![0x0au8]
}

/// The complaint about an option letter `c`.
pub open spec fn invalid_short_text(c: u8) -> Seq<u8> {
    "ls: invalid option: -".spec_bytes() + seq![c, 0x0au8]
}

/// The complaint about arguments after the path.
pub open spec fn too_many_text() -> Seq<u8> {
    "ls: too many ags".spec_bytes() + seq![0x0au8]
}

/// Reading the letters of a short-option argument `a` from byte `k` on
/// into `o`: `a`, `h` and `l` set their flags, `-` does nothing, and any
/// other letter is complained about.
pub open spec fn short_options(a: Seq<u8>, k: int, o: LsOptionsView) -> LsOptionsView
    decreases a.len() - k,
{
    if k < 0 || k >= a.len() {
        o
    } else {
        let c = a[k];
        let o2 = if c == 0x61 {
            LsOptionsView { show_hidden: true, ..o }
        } else if c == 0x68 {
            LsOptionsView { human_readable: true, ..o }
        } else if c == 0x6c {
            LsOptionsView { long: true, ..o }
        } else if c == 0x2d {
            o
        } else {
            LsOptionsView { messages: o.messages + invalid_short_text(c), ..o }
        };
        short_options(a, k + 1, o2)
    }
}

/// Reading the arguments from index `i` on into `o`.
pub open spec fn options_from(args: Seq<Seq<u8>>, i: int, o: LsOptionsView) -> LsOptionsView
    decreases args.len() - i,
{
    if i < 0 || i >= args.len() {
        o
    } else {
        let a = args[i];
        if a.len() >= 2 && a[0] == 0x2d && a[1] == 0x2d {
            let o2 = if a == "--all".spec_bytes() {
                LsOptionsView { show_hidden: true, ..o }
            } else if a == "--human-readable".spec_bytes() {
                LsOptionsView { human_readable: true, ..o }
            } else if a == "--long".spec_bytes() {
                LsOptionsView { long: true, ..o }
            } else {
                LsOptionsView { messages: o.messages + invalid_long_text(a), ..o }
            };
            options_from(args, i + 1, o2)
        } else if a.len() >= 1 && a[0] == 0x2d {
            options_from(args, i + 1, short_options(a, 0, o))
        } else {
            LsOptionsView {
                path: Some(a),
                messages: if args.len() > i + 1 {
                    o.messages + too_many_text()
                } else {
                    o.messages
                },
                ..o
            }
        }
    }
}

/// What `ls` makes of its arguments, the first being its name.
pub open spec fn ls_options_spec(args: Seq<Seq<u8>>) -> LsOptionsView {
    options_from(
        args,
        1,
        LsOptionsView {
            show_hidden: false,
            human_readable: false,
            long: false,
            path: None,
            messages: Seq::empty(),
        },
    )
}

/// An argument read as options: it starts with `-`.
pub open spec fn option_arg(a: Seq<u8>) -> bool {
    a.len() >= 1 && a[0] == 0x2d
}

/// Reading option arguments and then one more argument is reading the
/// options and then that argument on its own.
proof fn lemma_options_push(args: Seq<Seq<u8>>, x: Seq<u8>, i: int, o: LsOptionsView)
    requires
        0 <= i <= args.len(),
        forall|j: int| i <= j < args.len() ==> option_arg(#[trigger] args[j]),
    ensures
        options_from(args.push(x), i, o) == options_from(args.push(x), args.len() as int, options_from(args, i, o)),
    decreases args.len() - i,
{
    if i < args.len() {
        let a = args[i];
        assert(args.push(x)[i] == a);
        assert(option_arg(a));
        if a.len() >= 2 && a[0] == 0x2d && a[1] == 0x2d {
            // The state the long option `a` leads to, as `options_from` reads it.
            let o2 = match a {
                _ if a == "--all".spec_bytes() => LsOptionsView { show_hidden: true, ..o },
                _ if a == "--human-readable".spec_bytes() => LsOptionsView { human_readable: true, ..o },
                _ if a == "--long".spec_bytes() => LsOptionsView { long: true, ..o },
                _ => LsOptionsView { messages: o.messages + invalid_long_text(a), ..o },
            };
            lemma_options_push(args, x, i + 1, o2);
        } else {
            lemma_options_push(args, x, i + 1, short_options(a, 0, o));
        }
    }
}

/// Each long option of `ls` sets exactly its own flag, with no complaint:
/// after arguments that are all options, one more `--all` turns on
/// hidden entries, `--human-readable` readable sizes and `--long` the long
/// form, and leaves everything else as the arguments before it left it.
pub proof fn lemma_long_options(args: Seq<Seq<u8>>)
    requires
        args.len() >= 1,
        forall|j: int| 1 <= j < args.len() ==> option_arg(#[trigger] args[j]),
    ensures
        ls_options_spec(args.push("--all".spec_bytes())) == (LsOptionsView {
            show_hidden: true,
            ..ls_options_spec(args)
        }),
        ls_options_spec(args.push("--human-readable".spec_bytes())) == (LsOptionsView {
            human_readable: true,
            ..ls_options_spec(args)
        }),
        ls_options_spec(args.push("--long".spec_bytes())) == (LsOptionsView {
            long: true,
            ..ls_options_spec(args)
        }),
{
    broadcast use vstd::string::is_ascii_spec_bytes;

    reveal_strlit("--all");
    reveal_strlit("--human-readable");
    reveal_strlit("--long");
    assert(vstd::string::is_ascii("--all"));
    assert(vstd::string::is_ascii("--human-readable"));
    assert(vstd::string::is_ascii("--long"));
    let o = LsOptionsView {
        show_hidden: false,
        human_readable: false,
        long: false,
        path: None,
        messages: Seq::empty(),
    };
    let n = args.len() as int;
    let x1 = "--all".spec_bytes();
    let x2 = "--human-readable".spec_bytes();
    let x3 = "--long".spec_bytes();
    lemma_options_push(args, x1, 1, o);
    lemma_options_push(args, x2, 1, o);
    lemma_options_push(args, x3, 1, o);
    let f = options_from(args, 1, o);
    assert(args.push(x1)[n] == x1);
    assert(args.push(x2)[n] == x2);
    assert(args.push(x3)[n] == x3);
    assert(x1.len() == 5);
    assert(x2.len() == 16);
    assert(x3.len() == 6);
    assert(x2 != x1);
    assert(x3 != x1);
    assert(x3 != x2);
    assert(options_from(args.push(x1), n + 1, LsOptionsView { show_hidden: true, ..f }) == LsOptionsView {
        show_hidden: true,
        ..f
    });
    assert(options_from(args.push(x2), n + 1, LsOptionsView { human_readable: true, ..f }) == LsOptionsView {
        human_readable: true,
        ..f
    });
    assert(options_from(args.push(x3), n + 1, LsOptionsView { long: true, ..f }) == LsOptionsView {
        long: true,
        ..f
    });
}

/// Each option letter of `ls` sets exactly its own flag, with no
/// complaint: after arguments that are all options, one more `-a` turns
/// on hidden entries, `-h` readable sizes and `-l` the long form, and
/// leaves everything else as the arguments before it left it.
pub proof fn lemma_short_options(args: Seq<Seq<u8>>)
    requires
        args.len() >= 1,
        forall|j: int| 1 <= j < args.len() ==> option_arg(#[trigger] args[j]),
    ensures
        ls_options_spec(args.push(seq![0x2du8, 0x61u8])) == (LsOptionsView {
            show_hidden: true,
            ..ls_options_spec(args)
        }),
        ls_options_spec(args.push(seq![0x2du8, 0x68u8])) == (LsOptionsView {
            human_readable: true,
            ..ls_options_spec(args)
        }),
        ls_options_spec(args.push(seq![0x2du8, 0x6cu8])) == (LsOptionsView {
            long: true,
            ..ls_options_spec(args)
        }),
{
    let o = LsOptionsView {
        show_hidden: false,
        human_readable: false,
        long: false,
        path: None,
        messages: Seq::empty(),
    };
    let n = args.len() as int;
    let x1 = seq![0x2du8, 0x61u8];
    let x2 = seq![0x2du8, 0x68u8];
    let x3 = seq![0x2du8, 0x6cu8];
    lemma_options_push(args, x1, 1, o);
    lemma_options_push(args, x2, 1, o);
    lemma_options_push(args, x3, 1, o);
    let f = options_from(args, 1, o);
    assert(args.push(x1)[n] == x1);
    assert(args.push(x2)[n] == x2);
    assert(args.push(x3)[n] == x3);
    assert(short_options(x1, 2, LsOptionsView { show_hidden: true, ..f }) == LsOptionsView { show_hidden: true, ..f });
    assert(short_options(x1, 0, f) == short_options(x1, 1, f));
    assert(short_options(x2, 2, LsOptionsView { human_readable: true, ..f }) == LsOptionsView {
        human_readable: true,
        ..f
    });
    assert(short_options(x2, 0, f) == short_options(x2, 1, f));
    assert(short_options(x3, 2, LsOptionsView { long: true, ..f }) == LsOptionsView { long: true, ..f });
    assert(short_options(x3, 0, f) == short_options(x3, 1, f));
    let g1 = LsOptionsView { show_hidden: true, ..f };
    let g2 = LsOptionsView { human_readable: true, ..f };
    let g3 = LsOptionsView { long: true, ..f };
    assert(options_from(args.push(x1), n + 1, g1) == g1);
    assert(options_from(args.push(x1), n, f) == options_from(args.push(x1), n + 1, short_options(x1, 0, f)));
    assert(options_from(args.push(x2), n + 1, g2) == g2);
    assert(options_from(args.push(x2), n, f) == options_from(args.push(x2), n + 1, short_options(x2, 0, f)));
    assert(options_from(args.push(x3), n + 1, g3) == g3);
    assert(options_from(args.push(x3), n, f) == options_from(args.push(x3), n + 1, short_options(x3, 0, f)));
}

impl LsOptions {
    /// Reads the arguments of `ls` (its name first): its flags, the path to
    /// list and the complaints about the arguments.
    pub fn parse(args: &Vec<Vec<u8>>) -> (r: LsOptions)
        requires
            ascii_args(args_view(args@)),
        ensures
            r@ == ls_options_spec(args_view(args@)),
    {
        let ghost a = args_view(args@);
        let mut o = LsOptions {
            show_hidden: false,
            human_readable: false,
            long: false,
            path: None,
            messages: Vec::new(),
        };
        let n = args.len();
        let mut i: usize = 1;
        proof {
            assert(o@.messages =~= Seq::<u8>::empty());
        }
        while i < n
            invariant
                n == args@.len(),
                a == args_view(args@),
                1 <= i,
                o.path is None,
                options_from(a, i as int, o@) == ls_options_spec(a),
            decreases n - i,
        {
            let arg = args[i].as_slice();
            assert(arg@ == a[i as int]);
            if arg.len() >= 2 && arg[0] == 0x2d && arg[1] == 0x2d {
                if bytes_eq_str(arg, "--all") {
                    o.show_hidden = true;
                } else if bytes_eq_str(arg, "--human-readable") {
                    o.human_readable = true;
                } else if bytes_eq_str(arg, "--long") {
                    o.long = true;
                } else {
                    let ghost before = o.messages@;
                    push_str(&mut o.messages, "ls: invalid option: ");
                    push_bytes(&mut o.messages, arg);
                    o.messages.push(0x0a);
                    assert(o.messages@ =~= before + invalid_long_text(arg@));
                }
            } else if arg.len() >= 1 && arg[0] == 0x2d {
                let len = arg.len();
                let mut k: usize = 0;
                let ghost o0 = o@;
                while k < len
                    invariant
                        len == arg@.len(),
                        k <= len,
                        o.path is None,
                        short_options(arg@, k as int, o@) == short_options(arg@, 0, o0),
                    decreases len - k,
                {
                    let c = arg[k];
                    if c == 0x61 {
                        o.show_hidden = true;
                    } else if c == 0x68 {
                        o.human_readable = true;
                    } else if c == 0x6c {
                        o.long = true;
                    } else if c == 0x2d {
                    } else {
                        let ghost before = o.messages@;
                        push_str(&mut o.messages, "ls: invalid option: -");
                        o.messages.push(c);
                        o.messages.push(0x0a);
                        assert(o.messages@ =~= before + invalid_short_text(c));
                    }
                    k = k + 1;
                }
            } else {
                let ghost before = o.messages@;
                if n > i + 1 {
                    push_str(&mut o.messages, "ls: too many ags");
                    o.messages.push(0x0a);
                    assert(o.messages@ =~= before + too_many_text());
                }
                let mut p: Vec<u8> = Vec::new();
                push_bytes(&mut p, arg);
                o.path = Some(p);
                return o;
            }
            i = i + 1;
        }
        o
    }
}

/// The width of the screen `ls` lays its columns out for.
pub const SCREEN_WIDTH: usize = 100;

/// A directory entry to list: its name and what `stat` gave for it.
pub struct LsEntry {
    pub name: String,
    pub stat: Stat,
}

/// [`LsEntry`] as a value of specifications.
pub struct LsItem {
    pub name: Seq<char>,
    pub stat: Stat,
}

impl View for LsEntry {
    type V = LsItem;

    open spec fn view(&self) -> LsItem {
        LsItem { name: self.name@, stat: self.stat }
    }
}

/// The entry is listed: hidden entries only with `--all`.
pub open spec fn shown_item(e: LsItem, show_hidden: bool) -> bool {
    show_hidden || !attr_flag(e.stat.metadata.attributes.0, 2)
}

/// The timestamps of an entry that the long form shows are in range.
pub open spec fn item_stamps_ok(e: LsItem) -> bool {
    let m = e.stat.metadata;
    stamp_ok(m.creation_timestamp.date.0, m.creation_timestamp.time.0) && stamp_ok(
        m.modification_timestamp.date.0,
        m.modification_timestamp.time.0,
    )
}

/// Whether the timestamps of `e` that the long form shows are in range.
pub fn item_stamps_ok_exec(e: &LsEntry) -> (r: bool)
    ensures
        r == item_stamps_ok(e@),
{
    let m = &e.stat.metadata;
    stamp_in_range(m.creation_timestamp.date.0, m.creation_timestamp.time.0) && stamp_in_range(
        m.modification_timestamp.date.0,
        m.modification_timestamp.time.0,
    )
}

/// The long form of an entry: its metadata, its size left-aligned in
/// eight columns, and its name, on a line.
pub open spec fn item_long_line(e: LsItem, human: bool) -> Seq<u8> {
    let m = e.stat.metadata;
    let s = size_text(e.stat.size as nat, human);
    metadata_text(
        m.attributes.0,
        (m.creation_timestamp.date.0, m.creation_timestamp.time.0),
        (m.modification_timestamp.date.0, m.modification_timestamp.time.0),
    ) + seq![0x20u8, 0x20u8] + s + spaces(8 - s.len()) + seq![0x20u8, 0x20u8] + encode_utf8(e.name) + seq![
        0x0au8,
    ]
}

/// The longest name of `es[..i]`, in characters.
pub open spec fn longest(es: Seq<LsItem>, i: int) -> int
    decreases i,
{
    if i <= 0 {
        0
    } else {
        let w = es[i - 1].name.len() as int;
        let rest = longest(es, i - 1);
        if w > rest { w } else { rest }
    }
}

/// The long form of entries `i..`: a line per listed entry.
pub open spec fn long_lines(es: Seq<LsItem>, i: int, show_hidden: bool, human: bool) -> Seq<u8>
    decreases es.len() - i,
{
    if i < 0 || i >= es.len() {
        Seq::empty()
    } else if !shown_item(es[i], show_hidden) {
        long_lines(es, i + 1, show_hidden, human)
    } else {
        item_long_line(es[i], human) + long_lines(es, i + 1, show_hidden, human)
    }
}

/// The short form of entries `i..` after the text `acc`, at column `col`:
/// each listed name padded to `width` characters; a line ends after the
/// name in column `cols`, and after the last entry's name.
pub open spec fn columns(es: Seq<LsItem>, i: int, width: int, cols: int, col: int, show_hidden: bool, acc: Seq<u8>) -> Seq<u8>
    decreases es.len() - i,
{
    if i < 0 || i >= es.len() {
        acc
    } else if !shown_item(es[i], show_hidden) {
        columns(es, i + 1, width, cols, col, show_hidden, acc)
    } else {
        let item = encode_utf8(es[i].name) + spaces(width - es[i].name.len());
        if col == cols || i + 1 == es.len() {
            columns(es, i + 1, width, cols, 0, show_hidden, acc + item + seq![0x0au8])
        } else {
            columns(es, i + 1, width, cols, col + 1, show_hidden, acc + item)
        }
    }
}

/// What `ls` prints with options `o` for the entries `es`: the complaints
/// about its arguments, then the long form, or the names in columns as
/// wide as the longest name plus two, as many as fit `screen_width`.
pub open spec fn ls_listing_spec(es: Seq<LsItem>, o: LsOptionsView, screen_width: int) -> Seq<u8> {
    let width = longest(es, es.len() as int) + 2;
    if o.long {
        o.messages + long_lines(es, 0, o.show_hidden, o.human_readable)
    } else {
        columns(es, 0, width, screen_width / width, 0, o.show_hidden, o.messages)
    }
}

/// Appends the long form of `e`.
fn push_item_long_line(out: &mut Vec<u8>, e: &LsEntry, human: bool)
    requires
        item_stamps_ok(e@),
    ensures
        final(out)@ == old(out)@ + item_long_line(e@, human),
{
    let m = e.stat.metadata.text();
    push_bytes(out, m.as_slice());
    out.push(0x20);
    out.push(0x20);
    let s = size_bytes(e.stat.size, human);
    push_bytes(out, s.as_slice());
    if s.len() < 8 {
        push_spaces(out, 8 - s.len());
    } else {
        assert(spaces(8 - s@.len()) =~= Seq::<u8>::empty());
    }
    out.push(0x20);
    out.push(0x20);
    push_str(out, e.name.as_str());
    out.push(0x0a);
    assert(final(out)@ =~= old(out)@ + item_long_line(e@, human));
}

/// What `ls` prints: the complaints about its arguments in `opts`, then
/// the entries (see [`ls_listing_spec`]).
///
/// Panics (excluded by the precondition) in the long form when a timestamp
/// field is out of range.
pub fn ls_listing(entries: &Vec<LsEntry>, opts: &LsOptions, screen_width: usize) -> (r: Vec<u8>)
    requires
        opts.long ==> forall|i: int|
            0 <= i < entries@.len() && shown_item(entries@[i]@, opts.show_hidden) ==> item_stamps_ok(
                (#[trigger] entries@[i])@,
            ),
        forall|i: int| 0 <= i < entries@.len() ==> (#[trigger] entries@[i]).name@.len() + 2 <= usize::MAX,
    ensures
        r@ == ls_listing_spec(entries@.map_values(|e: LsEntry| e@), opts@, screen_width as int),
{
    let ghost items = entries@.map_values(|e: LsEntry| e@);
    let n = entries.len();
    let mut out: Vec<u8> = Vec::new();
    push_bytes(&mut out, opts.messages.as_slice());
    let ghost msgs = out@;
    assert(msgs == opts@.messages);
    let mut longest_len: usize = 0;
    let mut i: usize = 0;
    while i < n
        invariant
            n == entries@.len(),
            i <= n,
            longest_len == longest(items, i as int),
            longest_len + 2 <= usize::MAX,
            items == entries@.map_values(|e: LsEntry| e@),
            forall|j: int| 0 <= j < entries@.len() ==> (#[trigger] entries@[j]).name@.len() + 2 <= usize::MAX,
        decreases n - i,
    {
        let len = entries[i].name.as_str().unicode_len();
        if len > longest_len {
            longest_len = len;
        }
        i = i + 1;
    }
    let width = longest_len + 2;
    if opts.long {
        let mut i: usize = 0;
        while i < n
            invariant
                n == entries@.len(),
                i <= n,
                opts.long,
                items == entries@.map_values(|e: LsEntry| e@),
                forall|j: int|
                    0 <= j < entries@.len() && shown_item(entries@[j]@, opts.show_hidden) ==> item_stamps_ok(
                        (#[trigger] entries@[j])@,
                    ),
                out@ + long_lines(items, i as int, opts.show_hidden, opts.human_readable) == msgs + long_lines(
                    items,
                    0,
                    opts.show_hidden,
                    opts.human_readable,
                ),
            decreases n - i,
        {
            let e = &entries[i];
            let hidden = e.stat.metadata.hidden();
            let ghost before = out@;
            if opts.show_hidden || !hidden {
                push_item_long_line(&mut out, e, opts.human_readable);
                assert(out@ + long_lines(items, i + 1, opts.show_hidden, opts.human_readable) =~= before
                    + long_lines(items, i as int, opts.show_hidden, opts.human_readable));
            }
            i = i + 1;
        }
        assert(out@ + Seq::<u8>::empty() =~= out@);
        return out;
    }
    let cols = screen_width / width;
    let mut col: usize = 0;
    let mut i: usize = 0;
    while i < n
        invariant
            n == entries@.len(),
            i <= n,
            items == entries@.map_values(|e: LsEntry| e@),
            width == longest(items, items.len() as int) + 2,
            width >= 2,
            cols == screen_width as int / width as int,
            col <= cols,
            columns(items, i as int, width as int, cols as int, col as int, opts.show_hidden, out@) == columns(
                items,
                0,
                width as int,
                cols as int,
                0,
                opts.show_hidden,
                msgs,
            ),
        decreases n - i,
    {
        let e = &entries[i];
        let hidden = e.stat.metadata.hidden();
        if opts.show_hidden || !hidden {
            let ghost before = out@;
            let name = e.name.as_str();
            push_str(&mut out, name);
            let chars = name.unicode_len();
            if chars < width {
                push_spaces(&mut out, width - chars);
            } else {
                assert(spaces(width - e.name@.len()) =~= Seq::<u8>::empty());
            }
            let ghost item = encode_utf8(items[i as int].name) + spaces(width - items[i as int].name.len());
            if col == cols || i + 1 == n {
                out.push(0x0a);
                assert(out@ =~= before + item + seq![0x0au8]);
                col = 0;
            } else {
                assert(out@ =~= before + item);
                col = col + 1;
            }
        }
        i = i + 1;
    }
    out
}

} // verus!
