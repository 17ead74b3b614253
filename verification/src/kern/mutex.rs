//! The kernel's spin lock: who holds it and when it can be taken.
//!
//! Before the MMU is on only core 0 runs and the lock may be taken again by
//! its holder; afterwards it is taken only when free. The core's number and
//! whether the MMU is on are handed in by the caller.

use vstd::prelude::*;

verus! {

/// A lock around a value of type `T`.
pub struct Mutex<T> {
    data: T,
    lock: bool,
    owner: usize,
}

/// Proof that the lock is held: it gives access to the value.
pub struct MutexGuard<'a, T> {
    lock: &'a Mutex<T>,
}

impl<T> Mutex<T> {
    /// The value.
    pub closed spec fn value(&self) -> T {
        self.data
    }

    /// Whether the lock is held.
    pub closed spec fn locked(&self) -> bool {
        self.lock
    }

    /// The core that took the lock last (`usize::MAX` before any did).
    pub closed spec fn holder(&self) -> usize {
        self.owner
    }

    /// A free lock around `val`.
    pub fn new(val: T) -> (m: Mutex<T>)
        ensures
            m.value() == val,
            !m.locked(),
            m.holder() == usize::MAX,
    {
        Mutex { data: val, lock: false, owner: usize::MAX }
    }

    /// Whether core `this` may take the lock: before the MMU is on, when it
    /// is free or `this` holds it; afterwards only when it is free.
    pub open spec fn can_take(&self, this: usize, mmu_ready: bool) -> bool {
        if mmu_ready {
            !self.locked()
        } else {
            !self.locked() || self.holder() == this
        }
    }

    /// Takes the lock for core `this` if it can, and says whether it did.
    ///
    /// Panics (excluded by the precondition) before the MMU is on for a core other
    /// than 0.
    pub fn try_lock(&mut self, this: usize, mmu_ready: bool) -> (r: bool)
        requires
            !mmu_ready ==> this == 0,
        ensures
            r == old(self).can_take(this, mmu_ready),
            r ==> final(self).locked() && final(self).holder() == this,
            !r ==> final(self).locked() == old(self).locked() && final(self).holder() == old(self).holder(),
            final(self).value() == old(self).value(),
    {
        if !self.lock || (!mmu_ready && self.owner == this) {
            self.lock = true;
            self.owner = this;
            true
        } else {
            false
        }
    }

    /// Takes the lock for core `this` and hands out the guard.
    ///
    /// Spins forever (excluded by the precondition) while another core holds it.
    pub fn lock(&mut self, this: usize, mmu_ready: bool) -> (g: MutexGuard<'_, T>)
        requires
            !mmu_ready ==> this == 0,
            old(self).can_take(this, mmu_ready),
        ensures
            final(self).locked(),
            final(self).holder() == this,
            final(self).value() == old(self).value(),
            g.mutex() == *final(self),
            g.value() == old(self).value(),
    {
        self.try_lock(this, mmu_ready);
        MutexGuard { lock: &*self }
    }

    /// Releases the lock: before the MMU is on always; afterwards only
    /// when core `this` holds it.
    ///
    /// Panics (excluded by the precondition) before the MMU is on for a core other
    /// than 0.
    pub fn unlock(&mut self, this: usize, mmu_ready: bool)
        requires
            !mmu_ready ==> this == 0,
        ensures
            released(*old(self), *final(self), this, mmu_ready),
    {
        if !mmu_ready {
            self.lock = false;
        } else if self.owner == this {
            self.lock = false;
        }
    }

    /// The value, read without taking the lock.
    pub fn peek(&self) -> (r: &T)
        ensures
            *r == self.value(),
    {
        &self.data
    }

    /// The value, while no guard is out.
    pub fn get_mut(&mut self) -> (r: &mut T)
        ensures
            *r == old(self).value(),
            final(self).value() == *final(r),
            final(self).locked() == old(self).locked(),
            final(self).holder() == old(self).holder(),
    {
        &mut self.data
    }
}

impl<'a, T> MutexGuard<'a, T> {
    /// The mutex this guard was handed out by.
    pub closed spec fn mutex(&self) -> Mutex<T> {
        *self.lock
    }

    /// The value behind the lock.
    pub closed spec fn value(&self) -> T {
        self.lock.data
    }

    /// The value behind the lock.
    pub fn get(&self) -> (r: &T)
        ensures
            *r == self.value(),
    {
        &self.lock.data
    }
}

/// What a release of `m0` by core `this` leaves (`m1`): the value and the
/// last holder stay; the lock stays held only when the MMU is on and
/// `this` is not the core that holds it.
pub open spec fn released<T>(m0: Mutex<T>, m1: Mutex<T>, this: usize, mmu_ready: bool) -> bool {
    &&& m1.value() == m0.value()
    &&& m1.holder() == m0.holder()
    &&& m1.locked() == (m0.locked() && mmu_ready && m0.holder() != this)
}

/// Taking a free lock and releasing it from the core that took it leaves
/// it free again, with the same value.
pub proof fn lemma_lock_unlock<T>(m: Mutex<T>, taken: Mutex<T>, released_m: Mutex<T>, this: usize, mmu_ready: bool)
    requires
        !m.locked(),
        taken.locked() && taken.holder() == this && taken.value() == m.value(),
        released(taken, released_m, this, mmu_ready),
    ensures
        !released_m.locked(),
        released_m.value() == m.value(),
{
}

/// Once the MMU is on, a lock held by core `this` is held by it alone:
/// no other core can take it, and a release by another core leaves it
/// held by `this`, still out of the other core's reach.
pub proof fn lemma_held_alone<T>(m: Mutex<T>, after: Mutex<T>, this: usize, other: usize)
    requires
        m.locked(),
        m.holder() == this,
        other != this,
        released(m, after, other, true),
    ensures
        !m.can_take(other, true),
        after.locked(),
        after.holder() == this,
        !after.can_take(other, true),
{
}

} // verus!
