use vstd::prelude::*;

verus! {

use crate::interrupt::control::Interrupts;
use crate::scheduler::Scheduler;
use crate::scheduler::blocked_and_switched;
use crate::sync::semaphore::Inner;
use crate::sync::semaphore::Semaphore;
use crate::thread::Status;

/// A lock: held by at most a single thread at any given time, and not
/// recursive — the holder must not try to acquire it again.
///
/// A lock is a binary semaphore with an owner: the thread that acquired it
/// must be the one to release it. When that restriction proves onerous, a
/// semaphore is the right tool instead.
pub struct Lock {
    /// Binary semaphore controlling access.
    pub semaphore: Semaphore,
    /// The thread currently holding the lock, by identity.
    pub holder: Option<u64>,
}

impl Lock {
    /// A free lock has a positive semaphore and no holder; a held one, a
    /// zero semaphore and its holder recorded.
    pub open spec fn spec_available(self) -> bool {
        self.semaphore.inner.inner().value > 0
    }

    /// Creates a new, free lock.
    pub fn new() -> (r: Lock)
        ensures
            r.spec_available(),
            r.semaphore.inner.inner().value == 1,
            r.semaphore.inner.inner().waiters@ =~= Seq::<u64>::empty(),
            r.holder is None,
    {
        Lock { semaphore: Semaphore::new(1), holder: None }
    }

    /// One step of acquiring the lock: takes it when free, or joins the
    /// semaphore's waiters and blocks until the holder releases it. Trying to
    /// re-acquire a lock the current thread already holds deadlocks the
    /// kernel, so it is excluded here.
    pub fn acquire(&mut self, ints: &mut Interrupts, sched: &mut Scheduler)
        requires
            old(sched).wf(),
            old(sched).can_schedule(),
            !old(ints).spec_external(),
            old(self).holder != Some(old(sched).spec_current().base),
        ensures
            final(sched).wf(),
            final(ints).spec_enabled() == old(ints).spec_enabled(),
            final(ints).spec_external() == old(ints).spec_external(),
            old(self).spec_available() ==> final(self).holder == Some(
                old(sched).spec_current().base,
            ) && final(self).semaphore.inner.inner() == (Inner {
                value: (old(self).semaphore.inner.inner().value - 1) as usize,
                ..old(self).semaphore.inner.inner()
            }) && *final(sched) == *old(sched),
            !old(self).spec_available() ==> final(self).holder == old(self).holder && final(self).semaphore.inner.inner().waiters@ =~= old(self).semaphore.inner.inner().waiters@.push(
                old(sched).spec_current().base,
            ) && blocked_and_switched(*old(sched), *final(sched)),
    {
        let base = sched.threads[sched.current].base;
        let available = self.semaphore.inner.peek().value > 0;
        self.semaphore.down(ints, sched);
        if available {
            self.holder = Some(base);
        }
    }

    /// Tries to acquire the lock without sleeping; returns `true` on
    /// success. An interrupt handler may call this.
    pub fn try_acquire(&mut self, ints: &mut Interrupts, sched: &Scheduler) -> (r: bool)
        requires
            sched.wf(),
            old(ints).wf(),
        ensures
            final(ints).spec_enabled() == old(ints).spec_enabled(),
            final(ints).spec_external() == old(ints).spec_external(),
            r == old(self).spec_available(),
            r ==> final(self).holder == Some(sched.spec_current().base) && final(self).semaphore.inner.inner() == (Inner {
                value: (old(self).semaphore.inner.inner().value - 1) as usize,
                ..old(self).semaphore.inner.inner()
            }),
            !r ==> final(self).holder == old(self).holder && final(self).semaphore.inner.inner()
                == old(self).semaphore.inner.inner(),
    {
        let taken = self.semaphore.try_down(ints);
        if taken {
            self.holder = Some(sched.threads[sched.current].base);
        }
        taken
    }

    /// Releases the lock and wakes the longest waiter, if any. Only the
    /// holding thread may release; anything else is a fatal error in the
    /// kernel, so it is excluded here.
    pub fn release(&mut self, ints: &mut Interrupts, sched: &mut Scheduler)
        requires
            old(sched).wf(),
            old(ints).wf(),
            old(self).holder == Some(old(sched).spec_current().base),
            old(self).semaphore.inner.inner().value < usize::MAX,
            old(self).semaphore.inner.inner().waiters@.len() > 0 ==> exists|i: int|
                0 <= i < old(sched).threads@.len() && (#[trigger] old(sched).threads@[i]).base
                    == old(self).semaphore.inner.inner().waiters@[0] && old(sched).threads@[i].status == Status::Blocked,
        ensures
            final(sched).wf(),
            final(ints).spec_enabled() == old(ints).spec_enabled(),
            final(ints).spec_external() == old(ints).spec_external(),
            final(self).holder is None,
            final(self).semaphore.inner.inner().value == old(self).semaphore.inner.inner().value
                + 1,
            old(self).semaphore.inner.inner().waiters@.len() > 0 ==> final(self).semaphore.inner.inner().waiters@ =~= old(self).semaphore.inner.inner().waiters@.drop_first() && final(sched).ready_list@ =~= old(sched).ready_list@.push(old(self).semaphore.inner.inner().waiters@[0]),
            old(self).semaphore.inner.inner().waiters@.len() == 0 ==> *final(sched) == *old(sched),
    {
        self.holder = None;
        self.semaphore.up(ints, sched);
    }
}

/// A mutual exclusion primitive protecting shared data of type `T`,
/// implemented over a `Lock`.
///
/// The kernel's guard acquires the lock on the first mutable access and
/// releases it when dropped, by the holding thread only. Here the guard's two
/// effects are explicit operations, and the data is reached through the
/// mutex.
pub struct Mutex<T> {
    /// The data protected by the mutex.
    pub data: T,
    /// The underlying lock.
    pub lock: Lock,
}

impl<T> Mutex<T> {
    /// Creates a new mutex around `value`.
    pub fn new(value: T) -> (r: Mutex<T>)
        ensures
            r.data == value,
            r.lock.spec_available(),
            r.lock.holder is None,
            r.lock.semaphore.inner.inner().value == 1,
            r.lock.semaphore.inner.inner().waiters@ =~= Seq::<u64>::empty(),
    {
        Mutex { data: value, lock: Lock::new() }
    }

    /// Returns a guard through which the data is reached; the lock is taken
    /// only once the guard hands out mutable access.
    pub fn lock(&self) -> (g: MutexGuard)
        ensures
            !g.spec_engaged(),
    {
        MutexGuard::new()
    }
}

/// A guard of a critical section protected by a `Lock`: it remembers whether
/// it acquired the lock, so that its release path releases exactly once and
/// only from the holding thread.
pub struct MutexGuard {
    engaged: bool,
}

impl MutexGuard {
    /// Whether the guard has acquired the lock.
    pub closed spec fn spec_engaged(self) -> bool {
        self.engaged
    }

    /// Creates a guard that has not yet taken mutable access.
    pub fn new() -> (g: MutexGuard)
        ensures
            !g.spec_engaged(),
    {
        MutexGuard { engaged: false }
    }

    /// Reads the protected data through the guard without locking.
    pub fn deref<'a, T>(&self, mutex: &'a Mutex<T>) -> (r: &'a T)
        ensures
            r == mutex.data,
    {
        &mutex.data
    }

    /// Takes mutable access: acquires the lock — this is the kernel's first
    /// mutable dereference — and hands out the data. The uncontended case is
    /// modeled here; a contended acquisition goes through `Lock::acquire`,
    /// which blocks.
    pub fn deref_mut<'a, T>(
        &mut self,
        mutex: &'a mut Mutex<T>,
        ints: &mut Interrupts,
        sched: &mut Scheduler,
    ) -> (r: &'a mut T)
        requires
            old(sched).wf(),
            old(sched).can_schedule(),
            !old(ints).spec_external(),
            old(mutex).lock.spec_available(),
            old(mutex).lock.holder != Some(old(sched).spec_current().base),
        ensures
            final(sched).wf(),
            *final(sched) == *old(sched),
            final(ints).spec_enabled() == old(ints).spec_enabled(),
            final(ints).spec_external() == old(ints).spec_external(),
            final(self).spec_engaged(),
            final(mutex).lock.holder == Some(old(sched).spec_current().base),
            final(mutex).lock.semaphore.inner.inner() == (Inner {
                value: (old(mutex).lock.semaphore.inner.inner().value - 1) as usize,
                ..old(mutex).lock.semaphore.inner.inner()
            }),
            *r == old(mutex).data,
            final(mutex).data == *final(r),
    {
        mutex.lock.acquire(ints, sched);
        self.engaged = true;
        &mut mutex.data
    }

    /// Releases the guard: releases the lock if and only if mutable access
    /// was taken, and then only from the holding thread.
    pub fn release<T>(
        self,
        mutex: &mut Mutex<T>,
        ints: &mut Interrupts,
        sched: &mut Scheduler,
    )
        requires
            old(sched).wf(),
            old(ints).wf(),
            self.spec_engaged() ==> old(mutex).lock.holder == Some(
                old(sched).spec_current().base,
            ) && old(mutex).lock.semaphore.inner.inner().value < usize::MAX,
            self.spec_engaged() ==> old(mutex).lock.semaphore.inner.inner().waiters@.len() > 0
                ==> exists|i: int|
                0 <= i < old(sched).threads@.len() && (#[trigger] old(sched).threads@[i]).base
                    == old(mutex).lock.semaphore.inner.inner().waiters@[0] && old(sched).threads@[i].status == Status::Blocked,
        ensures
            final(sched).wf(),
            final(ints).spec_enabled() == old(ints).spec_enabled(),
            final(ints).spec_external() == old(ints).spec_external(),
            final(mutex).data == old(mutex).data,
            !self.spec_engaged() ==> *final(mutex) == *old(mutex) && *final(sched) == *old(sched),
            self.spec_engaged() ==> final(mutex).lock.holder is None,
    {
        if self.engaged {
            mutex.lock.release(ints, sched);
        }
    }
}

} // verus!
