use vstd::prelude::*;

verus! {

use crate::interrupt::control::Interrupts;

/// A mutual exclusion primitive used for protecting data that an external
/// interrupt handler may touch.
///
/// The kernel's mutex disables interrupts while a mutable reference into the
/// data is alive; no other thread and no handler can run in the meantime.
/// Here the guard's effect on the interrupt state is carried explicitly: the
/// guard saves and disables the flag when the mutable reference is taken, and
/// restores it when released.
pub struct Mutex<T> {
    data: T,
}

impl<T> Mutex<T> {
    /// The protected data.
    pub closed spec fn inner(self) -> T {
        self.data
    }

    /// Creates a new mutex around `data`.
    pub fn new(data: T) -> (r: Mutex<T>)
        ensures
            r.inner() == data,
    {
        Mutex { data }
    }

    /// Returns a read-only reference without locking. The kernel uses this
    /// only with interrupts already disabled or from the interrupt dispatcher
    /// itself.
    pub fn peek(&self) -> (r: &T)
        ensures
            r == self.inner(),
    {
        &self.data
    }

    /// Returns a guard through which the data is reached; interrupts are
    /// disabled only once the guard hands out mutable access.
    pub fn lock(&self) -> (g: MutexGuard)
        ensures
            g.spec_prev_enabled() is None,
    {
        MutexGuard::new()
    }
}

/// A guard of a critical section that works by disabling interrupts.
///
/// When mutable access is taken, the prior interrupt-enable state is saved
/// and interrupts are disabled. When the guard is released, interrupts are
/// re-enabled if and only if they were enabled when saved.
pub struct MutexGuard {
    prev_enabled: Option<bool>,
}

impl MutexGuard {
    /// The interrupt-enable state saved when mutable access was first taken,
    /// `None` while only read access has been used.
    pub closed spec fn spec_prev_enabled(self) -> Option<bool> {
        self.prev_enabled
    }

    /// Creates a guard that has not yet taken mutable access.
    pub fn new() -> (g: MutexGuard)
        ensures
            g.spec_prev_enabled() is None,
    {
        MutexGuard { prev_enabled: None }
    }

    /// Reads the protected data through the guard without locking.
    pub fn deref<'a, T>(&self, mutex: &'a Mutex<T>) -> (r: &'a T)
        ensures
            r == mutex.inner(),
    {
        mutex.peek()
    }

    /// Takes mutable access to the protected data: saves the current
    /// interrupt-enable state, disables interrupts, and hands out the
    /// reference.
    pub fn deref_mut<'a, T>(&mut self, mutex: &'a mut Mutex<T>, ints: &mut Interrupts) -> (r:
        &'a mut T)
        ensures
            final(self).spec_prev_enabled() == Some(old(ints).spec_enabled()),
            !final(ints).spec_enabled(),
            final(ints).spec_external() == old(ints).spec_external(),
            final(ints).wf(),
            *r == old(mutex).inner(),
            final(mutex).inner() == *final(r),
    {
        let saved = ints.save_and_disable();
        self.prev_enabled = Some(saved);
        &mut mutex.data
    }

    /// Releases the guard: re-enables interrupts if and only if they were
    /// enabled when mutable access was taken.
    pub fn release(self, ints: &mut Interrupts)
        requires
            self.spec_prev_enabled() == Some(true) ==> !old(ints).spec_external(),
        ensures
            final(ints).spec_enabled() == (self.spec_prev_enabled() == Some(true) || old(
                ints,
            ).spec_enabled()),
            final(ints).spec_external() == old(ints).spec_external(),
    {
        match self.prev_enabled {
            Some(true) => ints.enable(),
            _ => (),
        }
    }
}

} // verus!
