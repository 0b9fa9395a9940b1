use vstd::prelude::*;

verus! {

use crate::interrupt::control::Interrupts;
use crate::interrupt::mutex::Mutex;
use crate::linked_list::LinkedList;
use crate::linked_list::Node;
use crate::scheduler::Scheduler;
use crate::scheduler::blocked_and_switched;
use crate::thread::Status;

/// Internal structure of a semaphore: the value and the waiting threads, by
/// identity, in arrival order. Guarded by an interrupt mutex for atomicity.
pub struct Inner {
    /// Current value; never negative.
    pub value: usize,
    /// Threads waiting for the value to become positive.
    pub waiters: LinkedList,
}

impl Inner {
    /// The semaphore's resting invariant: a positive value means no one
    /// waits.
    pub open spec fn no_idle_waiters(self) -> bool {
        self.value > 0 ==> self.waiters@.len() == 0
    }

    /// Creates the internal state with the given `value` and no waiters.
    pub fn new(value: usize) -> (r: Inner)
        ensures
            r.value == value,
            r.waiters@ =~= Seq::<u64>::empty(),
            r.no_idle_waiters(),
    {
        Inner { value, waiters: LinkedList::new() }
    }

    /// One step of the down operation: with a positive value, takes it; with
    /// a zero value, joins the waiters and blocks, and the scheduler switches
    /// away. The kernel retries the step when the thread is next woken.
    pub fn down(&mut self, ints: &Interrupts, sched: &mut Scheduler)
        requires
            old(sched).wf(),
            old(sched).can_schedule(),
            !ints.spec_enabled(),
            !ints.spec_external(),
        ensures
            final(sched).wf(),
            old(self).value > 0 ==> *final(self) == (Inner {
                value: (old(self).value - 1) as usize,
                ..*old(self)
            }) && *final(sched) == *old(sched),
            old(self).value == 0 ==> final(self).value == 0 && final(self).waiters@ =~= old(self).waiters@.push(old(sched).spec_current().base) && blocked_and_switched(
                *old(sched),
                *final(sched),
            ),
            old(self).no_idle_waiters() ==> final(self).no_idle_waiters(),
    {
        if self.value == 0 {
            let base = sched.threads[sched.current].base;
            let mut node = Node::new(base);
            self.waiters.push_back(&mut node);
            sched.block_current_thread(ints);
        } else {
            self.value = self.value - 1;
        }
    }

    /// Down, but only if the value is not already zero: returns whether the
    /// value was taken. Never blocks.
    pub fn try_down(&mut self) -> (r: bool)
        ensures
            old(self).value > 0 ==> r && *final(self) == (Inner {
                value: (old(self).value - 1) as usize,
                ..*old(self)
            }),
            old(self).value == 0 ==> !r && *final(self) == *old(self),
            old(self).no_idle_waiters() ==> final(self).no_idle_waiters(),
    {
        if self.value > 0 {
            self.value = self.value - 1;
            true
        } else {
            false
        }
    }

    /// The up operation: wakes the longest waiter, if any, and increments the
    /// value. The woken thread completes its own down when it next runs, so a
    /// moment with a positive value and a remaining waiter can follow an up
    /// that found several waiters.
    pub fn up(&mut self, sched: &mut Scheduler)
        requires
            old(sched).wf(),
            old(self).value < usize::MAX,
            old(self).waiters@.len() > 0 ==> exists|i: int|
                0 <= i < old(sched).threads@.len() && (#[trigger] old(sched).threads@[i]).base
                    == old(self).waiters@[0] && old(sched).threads@[i].status == Status::Blocked,
        ensures
            final(sched).wf(),
            final(self).value == old(self).value + 1,
            old(self).waiters@.len() == 0 ==> final(self).waiters@ =~= old(self).waiters@ && *final(sched) == *old(sched),
            old(self).waiters@.len() > 0 ==> final(self).waiters@ =~= old(self).waiters@.drop_first() && final(sched).ready_list@ =~= old(sched).ready_list@.push(
                old(self).waiters@[0],
            ),
            old(self).no_idle_waiters() && old(self).waiters@.len() <= 1 ==> final(self).no_idle_waiters(),
    {
        let popped = self.waiters.pop_front();
        match popped {
            Some(node) => {
                sched.unblock(node.id());
            },
            None => (),
        }
        self.value = self.value + 1;
    }
}

/// A counting semaphore: a nonnegative value with two atomic operations,
/// down (wait for the value to become positive, then decrement) and up
/// (increment, waking one waiting thread).
pub struct Semaphore {
    /// The value and waiters, behind an interrupt mutex.
    pub inner: Mutex<Inner>,
}

impl Semaphore {
    /// Creates a new semaphore with the given `value`.
    pub fn new(value: usize) -> (r: Semaphore)
        ensures
            r.inner.inner().value == value,
            r.inner.inner().waiters@ =~= Seq::<u64>::empty(),
    {
        Semaphore { inner: Mutex::new(Inner::new(value)) }
    }

    /// One step of down: waits for the value to become positive by joining
    /// the waiters and blocking, or atomically decrements it. Interrupts are
    /// disabled around the step and restored, so this may be called with them
    /// off, but never from an interrupt handler.
    pub fn down(&mut self, ints: &mut Interrupts, sched: &mut Scheduler)
        requires
            old(sched).wf(),
            old(sched).can_schedule(),
            !old(ints).spec_external(),
        ensures
            final(sched).wf(),
            final(ints).spec_enabled() == old(ints).spec_enabled(),
            final(ints).spec_external() == old(ints).spec_external(),
            old(self).inner.inner().value > 0 ==> final(self).inner.inner() == (Inner {
                value: (old(self).inner.inner().value - 1) as usize,
                ..old(self).inner.inner()
            }) && *final(sched) == *old(sched),
            old(self).inner.inner().value == 0 ==> final(self).inner.inner().value == 0 && final(self).inner.inner().waiters@ =~= old(self).inner.inner().waiters@.push(
                old(sched).spec_current().base,
            ) && blocked_and_switched(*old(sched), *final(sched)),
            old(self).inner.inner().no_idle_waiters() ==> final(self).inner.inner().no_idle_waiters(),
    {
        let mut guard = self.inner.lock();
        let inner = guard.deref_mut(&mut self.inner, ints);
        inner.down(ints, sched);
        guard.release(ints);
    }

    /// Down, but only if the value is not already zero: returns whether the
    /// value was taken. Never blocks, so an interrupt handler may call it.
    pub fn try_down(&mut self, ints: &mut Interrupts) -> (r: bool)
        requires
            old(ints).wf(),
        ensures
            final(ints).spec_enabled() == old(ints).spec_enabled(),
            final(ints).spec_external() == old(ints).spec_external(),
            old(self).inner.inner().value > 0 ==> r && final(self).inner.inner() == (Inner {
                value: (old(self).inner.inner().value - 1) as usize,
                ..old(self).inner.inner()
            }),
            old(self).inner.inner().value == 0 ==> !r && final(self).inner.inner() == old(self).inner.inner(),
            old(self).inner.inner().no_idle_waiters() ==> final(self).inner.inner().no_idle_waiters(),
    {
        let mut guard = self.inner.lock();
        let inner = guard.deref_mut(&mut self.inner, ints);
        let r = inner.try_down();
        guard.release(ints);
        r
    }

    /// Up: increments the value and wakes the longest waiter, if any. Never
    /// blocks, so an interrupt handler may call it.
    pub fn up(&mut self, ints: &mut Interrupts, sched: &mut Scheduler)
        requires
            old(sched).wf(),
            old(ints).wf(),
            old(self).inner.inner().value < usize::MAX,
            old(self).inner.inner().waiters@.len() > 0 ==> exists|i: int|
                0 <= i < old(sched).threads@.len() && (#[trigger] old(sched).threads@[i]).base
                    == old(self).inner.inner().waiters@[0] && old(sched).threads@[i].status
                    == Status::Blocked,
        ensures
            final(sched).wf(),
            final(ints).spec_enabled() == old(ints).spec_enabled(),
            final(ints).spec_external() == old(ints).spec_external(),
            final(self).inner.inner().value == old(self).inner.inner().value + 1,
            old(self).inner.inner().waiters@.len() == 0 ==> final(self).inner.inner().waiters@ =~= old(self).inner.inner().waiters@ && *final(sched) == *old(sched),
            old(self).inner.inner().waiters@.len() > 0 ==> final(self).inner.inner().waiters@ =~= old(self).inner.inner().waiters@.drop_first() && final(sched).ready_list@ =~= old(sched).ready_list@.push(old(self).inner.inner().waiters@[0]),
            old(self).inner.inner().no_idle_waiters() && old(self).inner.inner().waiters@.len()
                <= 1 ==> final(self).inner.inner().no_idle_waiters(),
    {
        let mut guard = self.inner.lock();
        let inner = guard.deref_mut(&mut self.inner, ints);
        inner.up(sched);
        guard.release(ints);
    }
}

} // verus!
