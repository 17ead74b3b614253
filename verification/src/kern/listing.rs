//! What the kernel shell's `ls` prints for a directory or a file.

use vstd::prelude::*;

verus! {

use crate::command::{push_bytes, push_str};
use crate::decimal::{decimal, push_decimal};
use crate::fat32::entry::human_size_text;
use crate::fat32::metadata::Metadata;
use crate::kern::shell::LsFlags;
use crate::kernel_api::fs::{attr_flag, metadata_text, stamp_ok};
use vstd::string::{StringSliceAdditionalSpecFns, StrSliceExecFns};
use vstd::utf8::encode_utf8;

/// Width of the kernel console.
pub const MAX_LINE_LEN: usize = 80;

/// An entry to list: the name shown (a directory's ends with `/`), its
/// metadata and its size.
pub struct ListEntry {
    pub name: String,
    pub metadata: Metadata,
    pub size: usize,
}

/// What a listing shows of an entry: its name, metadata and size.
pub struct ListItem {
    pub name: Seq<char>,
    pub metadata: Metadata,
    pub size: usize,
}

impl View for ListEntry {
    type V = ListItem;

    open spec fn view(&self) -> ListItem {
        ListItem { name: self.name@, metadata: self.metadata, size: self.size }
    }
}

/// The entry is listed: hidden entries only with `--all`.
pub open spec fn visible(e: ListItem, show_hidden: bool) -> bool {
    show_hidden || !attr_flag(e.metadata.attributes.0, 2)
}

/// `n` spaces.
pub open spec fn spaces(n: int) -> Seq<u8> {
    Seq::new(if n > 0 { n as nat } else { 0 }, |i: int| 0x20u8)
}

/// The size as shown: plain bytes, or for people to read.
pub open spec fn size_text(size: nat, human: bool) -> Seq<u8> {
    if human {
        human_size_text(size)
    } else {
        decimal(size)
    }
}

/// The long form of an entry: metadata, the size left-aligned in eight
/// columns, and the name.
pub open spec fn long_line(e: ListItem, human: bool) -> Seq<u8> {
    let m = e.metadata;
    let s = size_text(e.size as nat, human);
    metadata_text(
        m.attributes.0,
        (m.creation_timestamp.date.0, m.creation_timestamp.time.0),
        (m.modification_timestamp.date.0, m.modification_timestamp.time.0),
    ) + seq![0x20u8, 0x20u8] + s + spaces(8 - s.len()) + seq![0x20u8, 0x20u8] + encode_utf8(e.name) + seq![
        0x0au8,
    ]
}

/// The name in a column `width` characters wide.
pub open spec fn in_column(name: Seq<char>, width: int) -> Seq<u8> {
    encode_utf8(name) + spaces(width - name.len())
}

/// The widest name of `es[..i]`, in bytes.
pub open spec fn widest(es: Seq<ListItem>, i: int) -> int
    decreases i,
{
    if i <= 0 {
        0
    } else {
        let w = encode_utf8(es[i - 1].name).len() as int;
        let rest = widest(es, i - 1);
        if w > rest { w } else { rest }
    }
}

/// The short form of entries `i..` after the text `acc`: each listed name
/// in a column of `width`, starting a new line when the column would pass
/// the console's width.
pub open spec fn short_run(es: Seq<ListItem>, i: int, width: int, show_hidden: bool, acc: Seq<u8>) -> Seq<u8>
    decreases es.len() - i,
{
    if i < 0 || i >= es.len() {
        acc
    } else if !visible(es[i], show_hidden) {
        short_run(es, i + 1, width, show_hidden, acc)
    } else {
        let item = in_column(es[i].name, width);
        if (acc.len() % 80) + width <= 80 {
            short_run(es, i + 1, width, show_hidden, acc + item)
        } else {
            short_run(es, i + 1, width, show_hidden, acc + seq![0x0au8] + item)
        }
    }
}

/// The long form of entries `i..`: one line per listed entry.
pub open spec fn long_run(es: Seq<ListItem>, i: int, show_hidden: bool, human: bool) -> Seq<u8>
    decreases es.len() - i,
{
    if i < 0 || i >= es.len() {
        Seq::empty()
    } else if !visible(es[i], show_hidden) {
        long_run(es, i + 1, show_hidden, human)
    } else {
        long_line(es[i], human) + long_run(es, i + 1, show_hidden, human)
    }
}

/// What `ls` prints for a directory with entries `es`.
pub open spec fn dir_listing(es: Seq<ListItem>, f: LsFlags) -> Seq<u8> {
    if f.long {
        long_run(es, 0, f.show_hidden, f.human_readable)
    } else {
        short_run(es, 0, widest(es, es.len() as int) + 2, f.show_hidden, Seq::empty()) + seq![0x0au8]
    }
}

/// What `ls` prints for a single file.
pub open spec fn file_listing(e: ListItem, f: LsFlags) -> Seq<u8> {
    if !visible(e, f.show_hidden) {
        Seq::empty()
    } else if f.long {
        long_line(e, f.human_readable)
    } else {
        encode_utf8(e.name) + seq![0x0au8]
    }
}

/// The timestamps of an entry that the long form shows are in range.
pub open spec fn stamps_ok(e: ListItem) -> bool {
    stamp_ok(e.metadata.creation_timestamp.date.0, e.metadata.creation_timestamp.time.0) && stamp_ok(e.metadata.modification_timestamp.date.0, e.metadata.modification_timestamp.time.0)
}

/// Appends `n` spaces.
pub(crate) fn push_spaces(out: &mut Vec<u8>, n: usize)
    ensures
        final(out)@ == old(out)@ + spaces(n as int),
{
    let mut k: usize = 0;
    while k < n
        invariant
            k <= n,
            out@ == old(out)@ + spaces(k as int),
        decreases n - k,
    {
        out.push(0x20);
        k = k + 1;
        assert(out@ =~= old(out)@ + spaces(k as int));
    }
}

/// The size as shown: plain bytes, or for people to read.
pub(crate) fn size_bytes(size: u64, human: bool) -> (s: Vec<u8>)
    ensures
        s@ == size_text(size as nat, human),
{
    let mut s: Vec<u8> = Vec::new();
    if human {
        if size <= 1023 {
            push_decimal(&mut s, size);
            push_str(&mut s, " B");
        } else if size <= 1_048_575 {
            push_decimal(&mut s, size / 1024);
            push_str(&mut s, " KiB");
        } else if size <= 1_073_741_823 {
            push_decimal(&mut s, size / 1_048_576);
            push_str(&mut s, " MiB");
        } else {
            push_decimal(&mut s, size / 1_073_741_824);
            push_str(&mut s, " GiB");
        }
    } else {
        push_decimal(&mut s, size);
    }
    assert(s@ =~= size_text(size as nat, human));
    s
}

/// Appends the long form of `e`.
fn push_long_line(out: &mut Vec<u8>, e: &ListEntry, human: bool)
    requires
        stamps_ok(e@),
    ensures
        final(out)@ == old(out)@ + long_line(e@, human),
{
    let m = e.metadata.text();
    push_bytes(out, m.as_slice());
    out.push(0x20);
    out.push(0x20);
    let s = size_bytes(e.size as u64, human);
    push_bytes(out, s.as_slice());
    if s.len() < 8 {
        push_spaces(out, 8 - s.len());
    } else {
        assert(spaces(8 - s@.len()) =~= Seq::<u8>::empty());
    }
    out.push(0x20);
    out.push(0x20);
    push_str(out, e.name.as_str());
    out.push(0x0a);
    assert(final(out)@ =~= old(out)@ + long_line(e@, human));
}

/// Appends `name` in a column `width` characters wide.
fn push_in_column(out: &mut Vec<u8>, name: &String, width: usize)
    ensures
        final(out)@ == old(out)@ + in_column(name@, width as int),
{
    let s = name.as_str();
    push_str(out, s);
    let chars = s.unicode_len();
    if chars < width {
        push_spaces(out, width - chars);
    } else {
        assert(spaces(width - name@.len()) =~= Seq::<u8>::empty());
    }
    assert(final(out)@ =~= old(out)@ + in_column(name@, width as int));
}

/// What `ls` prints for a directory with entries `es`: the long form, one
/// line per entry, or the names in columns as wide as the widest name plus
/// two, wrapped at the console's width.
///
/// Panics (excluded by the precondition) in the long form when a timestamp field is
/// out of range.
pub fn list_dir(es: &Vec<ListEntry>, flags: LsFlags) -> (r: Vec<u8>)
    requires
        flags.long ==> forall|i: int| 0 <= i < es@.len() && visible(es@[i]@, flags.show_hidden) ==> stamps_ok(
            (#[trigger] es@[i])@,
        ),
        forall|i: int| 0 <= i < es@.len() ==> encode_utf8((#[trigger] es@[i]).name@).len() + 2 <= usize::MAX,
    ensures
        r@ == dir_listing(es@.map_values(|e: ListEntry| e@), flags),
{
    let ghost items = es@.map_values(|e: ListEntry| e@);
    let n = es.len();
    let mut out: Vec<u8> = Vec::new();
    if flags.long {
        let mut i: usize = 0;
        while i < n
            invariant
                n == es@.len(),
                i <= n,
                flags.long,
                items == es@.map_values(|e: ListEntry| e@),
                forall|j: int| 0 <= j < es@.len() && visible(es@[j]@, flags.show_hidden) ==> stamps_ok(
                    (#[trigger] es@[j])@,
                ),
                out@ + long_run(items, i as int, flags.show_hidden, flags.human_readable) == long_run(
                    items,
                    0,
                    flags.show_hidden,
                    flags.human_readable,
                ),
            decreases n - i,
        {
            let e = &es[i];
            let hidden = e.metadata.hidden();
            let ghost before = out@;
            if flags.show_hidden || !hidden {
                push_long_line(&mut out, e, flags.human_readable);
                assert(out@ + long_run(items, i + 1, flags.show_hidden, flags.human_readable) =~= before
                    + long_run(items, i as int, flags.show_hidden, flags.human_readable));
            }
            i = i + 1;
        }
        assert(out@ + Seq::<u8>::empty() =~= out@);
        return out;
    }
    let mut widest_len: usize = 0;
    let mut i: usize = 0;
    while i < n
        invariant
            n == es@.len(),
            i <= n,
            widest_len == widest(items, i as int),
            widest_len + 2 <= usize::MAX,
            items == es@.map_values(|e: ListEntry| e@),
            forall|j: int| 0 <= j < es@.len() ==> encode_utf8((#[trigger] es@[j]).name@).len() + 2 <= usize::MAX,
        decreases n - i,
    {
        let len = es[i].name.as_str().len();
        if len > widest_len {
            widest_len = len;
        }
        i = i + 1;
    }
    let width = widest_len + 2;
    let mut i: usize = 0;
    while i < n
        invariant
            n == es@.len(),
            i <= n,
            items == es@.map_values(|e: ListEntry| e@),
            width == widest(items, items.len() as int) + 2,
            short_run(items, i as int, width as int, flags.show_hidden, out@) == short_run(
                items,
                0,
                width as int,
                flags.show_hidden,
                Seq::empty(),
            ),
        decreases n - i,
    {
        let e = &es[i];
        let hidden = e.metadata.hidden();
        if flags.show_hidden || !hidden {
            if width <= MAX_LINE_LEN - (out.len() % MAX_LINE_LEN) {
                push_in_column(&mut out, &e.name, width);
            } else {
                let ghost before = out@;
                out.push(0x0a);
                push_in_column(&mut out, &e.name, width);
                assert(out@ =~= before + seq![0x0au8] + in_column(es@[i as int].name@, width as int));
            }
        }
        i = i + 1;
    }
    out.push(0x0a);
    out
}

/// What `ls` prints for a single file: nothing for a hidden file without
/// `--all`, else its long form or its name.
///
/// Panics (excluded by the precondition) in the long form when a timestamp field is
/// out of range.
pub fn list_file(e: &ListEntry, flags: LsFlags) -> (r: Vec<u8>)
    requires
        flags.long && visible(e@, flags.show_hidden) ==> stamps_ok(e@),
    ensures
        r@ == file_listing(e@, flags),
{
    let mut out: Vec<u8> = Vec::new();
    if flags.show_hidden || !e.metadata.hidden() {
        if flags.long {
            push_long_line(&mut out, e, flags.human_readable);
        } else {
            push_str(&mut out, e.name.as_str());
            out.push(0x0a);
        }
    }
    assert(out@ =~= file_listing(e@, flags));
    out
}

} // verus!
