//! The table of interrupt handlers: which handler each interrupt runs.
//!
//! Handlers are named by numbers; the caller keeps what each number runs.

use vstd::prelude::*;

verus! {

use crate::kern::mutex::Mutex;

/// Number of interrupts that can have a handler.
pub const IRQ_COUNT: usize = 8;

/// The handler table, empty until initialized.
pub struct Irq {
    handlers: Mutex<Option<Vec<Option<u64>>>>,
}

impl Irq {
    /// The table: `None` before initialization, else the handler of each
    /// interrupt.
    pub closed spec fn table(&self) -> Option<Seq<Option<u64>>> {
        match self.handlers.value() {
            None => None,
            Some(v) => Some(v@),
        }
    }

    /// A table that is not initialized yet.
    pub fn uninitialized() -> (r: Irq)
        ensures
            r.table() is None,
    {
        Irq { handlers: Mutex::new(None) }
    }

    /// Initializes the table: no interrupt has a handler.
    pub fn initialize(&mut self)
        ensures
            final(self).table() == Some(Seq::new(IRQ_COUNT as nat, |i: int| None::<u64>)),
    {
        let mut v: Vec<Option<u64>> = Vec::new();
        let mut i: usize = 0;
        while i < IRQ_COUNT
            invariant
                i <= IRQ_COUNT,
                v@ == Seq::new(i as nat, |k: int| None::<u64>),
            decreases IRQ_COUNT - i,
        {
            v.push(None);
            i = i + 1;
            assert(v@ =~= Seq::new(i as nat, |k: int| None::<u64>));
        }
        *self.handlers.get_mut() = Some(v);
    }

    /// Registers `handler` for interrupt `index`.
    ///
    /// Panics (excluded by the precondition) if the table is not initialized.
    pub fn register(&mut self, index: usize, handler: u64)
        requires
            old(self).table() is Some,
            index < old(self).table()->0.len(),
        ensures
            final(self).table() == Some(old(self).table()->0.update(index as int, Some(handler))),
    {
        let t = self.handlers.get_mut();
        match t {
            Some(v) => {
                v.set(index, Some(handler));
            },
            None => {},
        }
    }

    /// The handler to run for interrupt `index`.
    ///
    /// Panics (excluded by the precondition) if the table is not initialized or the
    /// interrupt has no handler.
    pub fn invoke(&self, index: usize) -> (r: u64)
        requires
            self.table() is Some,
            index < self.table()->0.len(),
            self.table()->0[index as int] is Some,
        ensures
            Some(r) == self.table()->0[index as int],
    {
        match self.handlers.peek() {
            Some(v) => match v[index] {
                Some(h) => h,
                None => 0,
            },
            None => 0,
        }
    }
}

/// After `register(index, handler)` interrupt `index` runs `handler`
/// (the handler `invoke` returns for it), whatever it ran before, and
/// every other interrupt keeps its handler.
pub proof fn lemma_register_invoke(before: Irq, after: Irq, index: int, handler: u64, other: int)
    requires
        before.table() is Some,
        0 <= index < before.table()->0.len(),
        after.table() == Some(before.table()->0.update(index, Some(handler))),
    ensures
        after.table()->0.len() == before.table()->0.len(),
        after.table()->0[index] == Some(handler),
        0 <= other < before.table()->0.len() && other != index ==> after.table()->0[other] == before.table()->0[other],
{
}

} // verus!
