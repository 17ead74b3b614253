//! What a directory listing shows of an entry: its name and its size.

use vstd::prelude::*;

verus! {

use crate::command::push_str;
use crate::decimal::{decimal, push_decimal};
use crate::fat32::dir::Entry;
use crate::text::string_push;
use vstd::string::StringSliceAdditionalSpecFns;

/// A size in bytes for people to read: bytes below 1 KiB, then whole KiB,
/// MiB or GiB (rounded down).
pub open spec fn human_size_text(size: nat) -> Seq<u8> {
    if size <= 1023 {
        decimal(size) + " B".spec_bytes()
    } else if size <= 1_048_575 {
        decimal(size / 1024) + " KiB".spec_bytes()
    } else if size <= 1_073_741_823 {
        decimal(size / 1_048_576) + " MiB".spec_bytes()
    } else {
        decimal(size / 1_073_741_824) + " GiB".spec_bytes()
    }
}

impl Entry {
    /// The entry's name.
    pub open spec fn entry_name(&self) -> Seq<char> {
        match self {
            Entry::File(f) => f.name@,
            Entry::Dir(d) => d.name@,
        }
    }

    /// The entry's size in bytes.
    pub fn size(&self) -> (r: usize)
        ensures
            r == match self {
                Entry::File(f) => f.size,
                Entry::Dir(d) => d.size,
            },
    {
        match self {
            Entry::File(f) => f.size,
            Entry::Dir(d) => d.size,
        }
    }

    /// The name a listing shows: a directory's name ends with `/`.
    pub fn display_name(&self) -> (r: String)
        ensures
            r@ == match self {
                Entry::File(f) => f.name@,
                Entry::Dir(d) => d.name@.push('/'),
            },
    {
        match self {
            Entry::File(f) => f.name.clone(),
            Entry::Dir(d) => {
                let mut name = d.name.clone();
                string_push(&mut name, '/');
                name
            },
        }
    }

    /// Appends the size in bytes.
    pub fn write_size(&self, to: &mut Vec<u8>)
        ensures
            final(to)@ == old(to)@ + decimal(self.size_spec() as nat),
    {
        push_decimal(to, self.size() as u64);
    }

    /// The entry's size in bytes.
    pub open spec fn size_spec(&self) -> usize {
        match self {
            Entry::File(f) => f.size,
            Entry::Dir(d) => d.size,
        }
    }

    /// Appends the size for people to read.
    pub fn write_human_size(&self, to: &mut Vec<u8>)
        ensures
            final(to)@ == old(to)@ + human_size_text(self.size_spec() as nat),
    {
        let size = self.size() as u64;
        if size <= 1023 {
            push_decimal(to, size);
            push_str(to, " B");
        } else if size <= 1_048_575 {
            push_decimal(to, size / 1024);
            push_str(to, " KiB");
        } else if size <= 1_073_741_823 {
            push_decimal(to, size / 1_048_576);
            push_str(to, " MiB");
        } else {
            push_decimal(to, size / 1_073_741_824);
            push_str(to, " GiB");
        }
        assert(to@ =~= old(to)@ + human_size_text(self.size_spec() as nat));
    }
}

} // verus!
