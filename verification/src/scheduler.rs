use vstd::prelude::*;
use vstd::string::StrSliceExecFns;
use vstd::string::StringSliceAdditionalSpecFns;

verus! {

use crate::PAGE_SIZE;
use crate::console::format_usize;
use crate::console::spec_decimal;
use crate::linked_list::LinkedList;
use crate::linked_list::Node;
use crate::interrupt::control::Interrupts;
use crate::palloc::AllocateFlags;
use crate::palloc::PageAllocator;
use crate::palloc::Pool;
use crate::palloc::pool_alloc_post;
use crate::bit_set::run_matches;
use crate::thread::Id;
use crate::thread::NAME_LENGTH;
use crate::thread::PRIORITY_MAX;
use crate::thread::PRIORITY_MIN;
use crate::thread::STACK_PAGES;
use crate::thread::STACK_SIZE;
use crate::thread::Status;
use crate::thread::Thread;
use crate::thread::spec_padded_name;

/// Number of timer ticks to give each thread before preemption.
pub const TIME_SLICE: usize = 4;

/// The name of the idle thread, as bytes.
pub open spec fn spec_idle_name() -> Seq<u8> {
    seq![0x69u8, 0x64u8, 0x6cu8, 0x65u8]
}

/// Returns the idle thread's name, the bytes of "idle".
pub fn idle_thread_name() -> (r: Vec<u8>)
    ensures
        r@ =~= spec_idle_name(),
{
    let mut r: Vec<u8> = Vec::new();
    r.push(0x69);
    r.push(0x64);
    r.push(0x6c);
    r.push(0x65);
    r
}

/// The scheduler: it owns every thread record, chooses which thread runs, and
/// keeps the run queue.
///
/// In the kernel each record lives at the base of its thread's stack region
/// and the running thread is found by masking the stack pointer; here the
/// records are carried in a table and the running thread is the table index
/// `current`. A thread's identity is its stack region's base address, which
/// is what the intrusive list nodes carry. Records of exited threads remain
/// as `Dying` tombstones, as reclaiming their pages is a memory-level action
/// outside this model.
pub struct Scheduler {
    /// The identity of the idle thread, which runs when no other thread is
    /// ready; set when the scheduler starts.
    pub idle_thread: Option<u64>,
    /// List of all live threads, by identity.
    pub all_list: LinkedList,
    /// List of threads ready to run but not running, by identity.
    pub ready_list: LinkedList,
    /// Every thread record, indexed by the table position.
    pub threads: Vec<Thread>,
    /// Table index of the running thread.
    pub current: usize,
    /// Next raw thread id to assign.
    pub next_id: u32,
    /// Number of timer ticks spent idle.
    pub idle_ticks: usize,
    /// Number of timer ticks in kernel threads.
    pub kernel_ticks: usize,
    /// Number of timer ticks since the last switch.
    pub current_thread_ticks: usize,
}

impl Scheduler {
    /// The record of the running thread.
    pub open spec fn spec_current(self) -> Thread {
        self.threads@[self.current as int]
    }

    /// The scheduler's central invariant, once a thread has been adopted:
    /// every record is a placed, intact thread; identities are distinct;
    /// exactly the `current` thread is `Running`; and the ready list holds
    /// exactly the identities of the `Ready` threads, each once.
    pub open spec fn wf(self) -> bool {
        &&& self.wf_core()
        &&& self.spec_current().status == Status::Running
        &&& forall|i: int|
            0 <= i < self.threads@.len() && i != self.current ==> (#[trigger] self.threads@[i]).status
                != Status::Running
    }

    /// The invariant's scheduling-independent part: it also holds in the
    /// middle of a switch, when no thread is `Running`.
    pub open spec fn wf_core(self) -> bool {
        &&& self.threads@.len() >= 1
        &&& self.current < self.threads@.len()
        &&& forall|i: int|
            0 <= i < self.threads@.len() ==> (#[trigger] self.threads@[i]).wf()
                && self.threads@[i].spec_is_thread()
        &&& forall|i: int, j: int|
            0 <= i < self.threads@.len() && 0 <= j < self.threads@.len() && i != j
                ==> (#[trigger] self.threads@[i]).base != (#[trigger] self.threads@[j]).base
        &&& forall|i: int, j: int|
            0 <= i < self.threads@.len() && 0 <= j < self.threads@.len() && i != j
                ==> (#[trigger] self.threads@[i]).id != (#[trigger] self.threads@[j]).id
        &&& forall|i: int|
            0 <= i < self.threads@.len() ==> (#[trigger] self.threads@[i]).id.0 < self.next_id
        &&& forall|k: int|
            0 <= k < self.ready_list@.len() ==> self.has_ready_thread(#[trigger] self.ready_list@[k])
        &&& forall|i: int|
            0 <= i < self.threads@.len() && (#[trigger] self.threads@[i]).status == Status::Ready
                ==> self.ready_list@.contains(self.threads@[i].base)
        &&& self.ready_list@.no_duplicates()
        &&& match self.idle_thread {
            Some(b) => exists|i: int|
                0 <= i < self.threads@.len() && (#[trigger] self.threads@[i]).base == b,
            None => true,
        }
    }

    /// Some thread with identity `base` is ready to run.
    pub open spec fn has_ready_thread(self, base: u64) -> bool {
        exists|i: int|
            0 <= i < self.threads@.len() && (#[trigger] self.threads@[i]).base == base
                && self.threads@[i].status == Status::Ready
    }

    /// The scheduler can pick a next thread: someone is ready, or the idle
    /// thread exists.
    pub open spec fn can_schedule(self) -> bool {
        self.ready_list@.len() > 0 || self.idle_thread is Some
    }

    /// Creates a new scheduler with no threads.
    pub fn new() -> (r: Scheduler)
        ensures
            r.idle_thread is None,
            r.all_list@ =~= Seq::<u64>::empty(),
            r.ready_list@ =~= Seq::<u64>::empty(),
            r.threads@ =~= Seq::<Thread>::empty(),
            r.next_id == 1,
            r.idle_ticks == 0,
            r.kernel_ticks == 0,
            r.current_thread_ticks == 0,
    {
        Scheduler {
            idle_thread: None,
            all_list: LinkedList::new(),
            ready_list: LinkedList::new(),
            threads: Vec::new(),
            current: 0,
            next_id: 1,
            idle_ticks: 0,
            kernel_ticks: 0,
            current_thread_ticks: 0,
        }
    }

    /// Returns the table index of the thread with identity `base`.
    fn find_thread(&self, base: u64) -> (i: usize)
        requires
            exists|k: int|
                0 <= k < self.threads@.len() && (#[trigger] self.threads@[k]).base == base,
        ensures
            i < self.threads@.len(),
            self.threads@[i as int].base == base,
    {
        let mut i: usize = 0;
        loop
            invariant
                i <= self.threads@.len(),
                exists|k: int|
                    0 <= k < self.threads@.len() && (#[trigger] self.threads@[k]).base == base,
                forall|k: int| 0 <= k < i ==> (#[trigger] self.threads@[k]).base != base,
            decreases self.threads@.len() - i,
        {
            if i >= self.threads.len() {
                proof {
                    let w = choose|w: int|
                        0 <= w < self.threads@.len() && (#[trigger] self.threads@[w]).base == base;
                    assert(self.threads@[w].base != base);
                }
                // Unreachable: the thread exists.
                return 0;
            }
            if self.threads[i].base == base {
                return i;
            }
            i = i + 1;
        }
    }

    /// Rewrites the status of the thread at table index `i`.
    fn set_status(&mut self, i: usize, status: Status)
        requires
            i < old(self).threads@.len(),
        ensures
            final(self).threads@ =~= old(self).threads@.update(
                i as int,
                (Thread { status, ..old(self).threads@[i as int] }),
            ),
            *final(self) == (Scheduler { threads: final(self).threads, ..*old(self) }),
    {
        let mut t = self.threads.remove(i);
        t.status = status;
        self.threads.insert(i, t);
    }

    /// Marks the thread at table index `i` as running at the start of a
    /// fresh time slice.
    fn mark_running(&mut self, i: usize)
        requires
            i < old(self).threads@.len(),
        ensures
            final(self).threads@ =~= old(self).threads@.update(
                i as int,
                (Thread { status: Status::Running, ticks: 0, ..old(self).threads@[i as int] }),
            ),
            *final(self) == (Scheduler { threads: final(self).threads, ..*old(self) }),
    {
        let mut t = self.threads.remove(i);
        t.status = Status::Running;
        t.ticks = 0;
        self.threads.insert(i, t);
    }

    /// Chooses and switches to the next thread to run: the head of the ready
    /// list, or the idle thread when the list is empty. At entry no thread is
    /// running: the caller has already moved the outgoing thread to its new
    /// state.
    fn schedule(&mut self)
        requires
            old(self).wf_core(),
            forall|i: int|
                0 <= i < old(self).threads@.len() ==> (#[trigger] old(self).threads@[i]).status
                    != Status::Running,
            old(self).can_schedule(),
        ensures
            final(self).wf(),
            if old(self).ready_list@.len() > 0 {
                switched_to(*old(self), *final(self), old(self).ready_list@[0]) && final(self).ready_list@ =~= old(self).ready_list@.drop_first()
            } else {
                switched_to(*old(self), *final(self), old(self).idle_thread->Some_0) && final(self).ready_list@ =~= old(self).ready_list@
            },
    {
        let popped = self.ready_list.pop_front();
        let next_base = match popped {
            Some(node) => node.id(),
            None => {
                match self.idle_thread {
                    Some(b) => b,
                    None => {
                        proof {
                            assert(false);
                        }
                        0
                    },
                }
            },
        };
        proof {
            if old(self).ready_list@.len() > 0 {
                assert(old(self).has_ready_thread(old(self).ready_list@[0]));
            }
        }
        let i = self.find_thread(next_base);
        self.mark_running(i);
        self.current = i;
        self.current_thread_ticks = 0;
        proof {
            let oldlist = old(self).ready_list@;
            if oldlist.len() > 0 {
                assert(self.ready_list@ =~= oldlist.drop_first());
                assert forall|k: int|
                    0 <= k < self.ready_list@.len() implies self.has_ready_thread(
                    #[trigger] self.ready_list@[k],
                ) by {
                    assert(self.ready_list@[k] == oldlist[k + 1]);
                    assert(old(self).has_ready_thread(oldlist[k + 1]));
                    let w = choose|w: int|
                        0 <= w < old(self).threads@.len() && (#[trigger] old(self).threads@[w]).base == oldlist[k + 1] && old(self).threads@[w].status
                            == Status::Ready;
                    assert(oldlist[k + 1] != oldlist[0]);
                    assert(w != i as int);
                    assert(self.threads@[w].base == oldlist[k + 1] && self.threads@[w].status
                        == Status::Ready);
                }
                assert forall|j: int|
                    0 <= j < self.threads@.len() && (#[trigger] self.threads@[j]).status
                        == Status::Ready implies self.ready_list@.contains(
                    self.threads@[j].base,
                ) by {
                    assert(j != i as int);
                    assert(old(self).threads@[j].status == Status::Ready);
                    assert(oldlist.contains(old(self).threads@[j].base));
                    let k = choose|k: int|
                        0 <= k < oldlist.len() && oldlist[k] == old(self).threads@[j].base;
                    assert(self.threads@[j].base != oldlist[0]);
                    assert(k != 0);
                    assert(self.ready_list@[k - 1] == self.threads@[j].base);
                }
                assert forall|k1: int, k2: int|
                    0 <= k1 < self.ready_list@.len() && 0 <= k2 < self.ready_list@.len() && k1
                        != k2 implies self.ready_list@[k1] != self.ready_list@[k2] by {
                    assert(self.ready_list@[k1] == oldlist[k1 + 1]);
                    assert(self.ready_list@[k2] == oldlist[k2 + 1]);
                }
            } else {
                assert forall|j: int|
                    0 <= j < self.threads@.len() && (#[trigger] self.threads@[j]).status
                        == Status::Ready implies self.ready_list@.contains(
                    self.threads@[j].base,
                ) by {
                    assert(old(self).threads@[j].status == Status::Ready);
                    assert(old(self).ready_list@.contains(old(self).threads@[j].base));
                }
            }

            match old(self).idle_thread {
                Some(b) => {
                    let w = choose|w: int|
                        0 <= w < old(self).threads@.len() && (#[trigger] old(self).threads@[w]).base == b;
                    assert(self.threads@[w].base == b);
                },
                None => {},
            }
        }
    }

    /// Called by the timer interrupt handler at each timer tick: counts the
    /// tick to the idle thread or to kernel threads, and against the current
    /// slice.
    pub fn tick(&mut self)
        requires
            old(self).wf(),
            old(self).idle_ticks < usize::MAX,
            old(self).kernel_ticks < usize::MAX,
            old(self).current_thread_ticks < usize::MAX,
        ensures
            final(self).wf(),
            final(self).threads@ == old(self).threads@,
            final(self).ready_list@ == old(self).ready_list@,
            final(self).all_list@ == old(self).all_list@,
            final(self).current == old(self).current,
            final(self).idle_thread == old(self).idle_thread,
            final(self).current_thread_ticks == old(self).current_thread_ticks + 1,
            old(self).idle_thread == Some(old(self).spec_current().base) ==> final(self).idle_ticks
                == old(self).idle_ticks + 1 && final(self).kernel_ticks == old(self).kernel_ticks,
            old(self).idle_thread != Some(old(self).spec_current().base) ==> final(self).kernel_ticks == old(self).kernel_ticks + 1 && final(self).idle_ticks == old(self).idle_ticks,
    {
        if self.is_idle_thread() {
            self.idle_ticks = self.idle_ticks + 1;
        } else {
            self.kernel_ticks = self.kernel_ticks + 1;
        }
        self.current_thread_ticks = self.current_thread_ticks + 1;
    }

    /// Returns the running thread: the record the kernel finds by masking its
    /// stack pointer, with its sanity checks already established by the
    /// invariant.
    pub fn current_thread(&self) -> (t: &Thread)
        requires
            self.wf(),
        ensures
            t == self.spec_current(),
            t.spec_is_thread(),
            t.status == Status::Running,
    {
        &self.threads[self.current]
    }

    /// Prints thread statistics: returns the stats line for the console.
    pub fn print_stats(&self) -> (line: Vec<u8>)
        ensures
            line@ =~= spec_thread_stats_line(self.idle_ticks as nat, self.kernel_ticks as nat),
    {
        proof {
            reveal_strlit("Thread: ");
            reveal_strlit(" idle ticks, ");
            reveal_strlit(" kernel ticks.\n");
        }
        let mut line = "Thread: ".as_bytes_vec();
        let mut idle = format_usize(self.idle_ticks);
        line.append(&mut idle);
        let mut middle = " idle ticks, ".as_bytes_vec();
        line.append(&mut middle);
        let mut busy = format_usize(self.kernel_ticks);
        line.append(&mut busy);
        let mut tail = " kernel ticks.\n".as_bytes_vec();
        line.append(&mut tail);
        line
    }

    /// Returns `true` if the current thread is the idle thread.
    fn is_idle_thread(&self) -> (r: bool)
        requires
            self.wf(),
        ensures
            r == (self.idle_thread == Some(self.spec_current().base)),
    {
        match self.idle_thread {
            Some(b) => self.threads[self.current].base == b,
            None => false,
        }
    }
    /// Puts the current thread to sleep: it will not be scheduled again until
    /// awoken by `unblock`. Interrupts must be off; the caller is responsible
    /// for placing the thread on a wait list first if it wants to be found.
    pub fn block_current_thread(&mut self, ints: &Interrupts)
        requires
            old(self).wf(),
            !ints.spec_external(),
            !ints.spec_enabled(),
            old(self).can_schedule(),
        ensures
            final(self).wf(),
            blocked_and_switched(*old(self), *final(self)),
    {
        let cur = self.current;
        self.set_status(cur, Status::Blocked);
        proof {
            assert forall|k: int|
                0 <= k < self.ready_list@.len() implies self.has_ready_thread(
                #[trigger] self.ready_list@[k],
            ) by {
                assert(old(self).has_ready_thread(self.ready_list@[k]));
                let w = choose|w: int|
                    0 <= w < old(self).threads@.len() && (#[trigger] old(self).threads@[w]).base
                        == self.ready_list@[k] && old(self).threads@[w].status == Status::Ready;
                assert(w != cur as int);
                assert(self.threads@[w].base == self.ready_list@[k]);
            }
            assert forall|j: int|
                0 <= j < self.threads@.len() && (#[trigger] self.threads@[j]).status
                    == Status::Ready implies self.ready_list@.contains(self.threads@[j].base) by {
                assert(j != cur as int);
                assert(old(self).threads@[j].status == Status::Ready);
            }
            match old(self).idle_thread {
                Some(b) => {
                    let w = choose|w: int|
                        0 <= w < old(self).threads@.len() && (#[trigger] old(self).threads@[w]).base == b;
                    assert(self.threads@[w].base == b);
                },
                None => {},
            }
        }
        self.schedule();
    }

    /// If the current thread has consumed its time slice, yields.
    pub fn preempt_current_thread(&mut self, ints: &Interrupts)
        requires
            old(self).wf(),
            !ints.spec_enabled(),
        ensures
            final(self).wf(),
            old(self).current_thread_ticks < TIME_SLICE ==> *final(self) == *old(self),
            old(self).current_thread_ticks >= TIME_SLICE ==> yielded_and_switched(
                *old(self),
                *final(self),
            ),
    {
        if self.current_thread_ticks >= TIME_SLICE {
            self.yield_current_thread(ints);
        }
    }

    /// Yields the CPU: the current thread goes to the tail of the ready list
    /// and the scheduler picks the next thread, which may be the same one.
    pub fn yield_current_thread(&mut self, ints: &Interrupts)
        requires
            old(self).wf(),
            !ints.spec_enabled(),
        ensures
            final(self).wf(),
            yielded_and_switched(*old(self), *final(self)),
    {
        let cur = self.current;
        let base = self.threads[cur].base;
        proof {
            if self.ready_list@.contains(base) {
                let k = choose|k: int|
                    0 <= k < self.ready_list@.len() && self.ready_list@[k] == base;
                assert(old(self).has_ready_thread(self.ready_list@[k]));
                let w = choose|w: int|
                    0 <= w < old(self).threads@.len() && (#[trigger] old(self).threads@[w]).base
                        == base && old(self).threads@[w].status == Status::Ready;
                assert(w == cur as int);
                assert(false);
            }
        }
        self.set_status(cur, Status::Ready);
        let mut node = Node::new(base);
        self.ready_list.push_back(&mut node);
        proof {
            let ghost mid_ready = self.ready_list@;
            assert(mid_ready =~= old(self).ready_list@.push(base));
            assert forall|k: int|
                0 <= k < mid_ready.len() implies self.has_ready_thread(#[trigger] mid_ready[k]) by {
                if k == mid_ready.len() - 1 {
                    assert(self.threads@[cur as int].base == base);
                } else {
                    assert(old(self).has_ready_thread(old(self).ready_list@[k]));
                    let w = choose|w: int|
                        0 <= w < old(self).threads@.len() && (#[trigger] old(self).threads@[w]).base == old(self).ready_list@[k] && old(self).threads@[w].status == Status::Ready;
                    assert(w != cur as int);
                    assert(self.threads@[w].base == mid_ready[k]);
                }
            }
            assert forall|j: int|
                0 <= j < self.threads@.len() && (#[trigger] self.threads@[j]).status
                    == Status::Ready implies self.ready_list@.contains(self.threads@[j].base) by {
                if j == cur as int {
                    assert(mid_ready[mid_ready.len() - 1] == base);
                } else {
                    assert(old(self).threads@[j].status == Status::Ready);
                    assert(old(self).ready_list@.contains(old(self).threads@[j].base));
                    let k = choose|k: int|
                        0 <= k < old(self).ready_list@.len() && old(self).ready_list@[k] == old(self).threads@[j].base;
                    assert(mid_ready[k] == self.threads@[j].base);
                }
            }
            assert forall|k1: int, k2: int|
                0 <= k1 < mid_ready.len() && 0 <= k2 < mid_ready.len() && k1 != k2 implies
                mid_ready[k1] != mid_ready[k2] by {
                if k2 == mid_ready.len() - 1 && k1 < k2 {
                    if mid_ready[k1] == base {
                        assert(old(self).ready_list@.contains(base));
                        assert(old(self).has_ready_thread(base));
                        let w = choose|w: int|
                            0 <= w < old(self).threads@.len() && (#[trigger] old(self).threads@[w]).base == base && old(self).threads@[w].status
                                == Status::Ready;
                        assert(w == cur as int);
                        assert(false);
                    }
                } else if k1 == mid_ready.len() - 1 && k2 < k1 {
                    if mid_ready[k2] == base {
                        assert(old(self).ready_list@.contains(base));
                        assert(old(self).has_ready_thread(base));
                        let w = choose|w: int|
                            0 <= w < old(self).threads@.len() && (#[trigger] old(self).threads@[w]).base == base && old(self).threads@[w].status
                                == Status::Ready;
                        assert(w == cur as int);
                        assert(false);
                    }
                }
            }
            match old(self).idle_thread {
                Some(b) => {
                    let w = choose|w: int|
                        0 <= w < old(self).threads@.len() && (#[trigger] old(self).threads@[w]).base == b;
                    assert(self.threads@[w].base == b);
                },
                None => {},
            }
            assert(self.ready_list@.len() > 0);
        }
        self.schedule();
    }

    /// Deschedules the current thread and marks it dying; its record stays as
    /// a tombstone. In the kernel this never returns into the dying thread;
    /// here the switch to the next thread completes and the caller goes on as
    /// that thread.
    pub fn exit_current_thread(&mut self, ints: &mut Interrupts)
        requires
            old(self).wf(),
            !old(ints).spec_external(),
            old(self).ready_list@.len() > 0 || (old(self).idle_thread is Some && old(self).idle_thread != Some(old(self).spec_current().base)),
            old(self).all_list@.contains(old(self).spec_current().base),
        ensures
            final(self).wf(),
            !final(ints).spec_enabled(),
            final(ints).spec_external() == old(ints).spec_external(),
            exists|k: int|
                0 <= k < old(self).all_list@.len() && old(self).all_list@[k] == old(self).spec_current().base && final(self).all_list@ =~= old(self).all_list@.remove(k),
            final(self).threads@[old(self).current as int].status == Status::Dying,
            if old(self).ready_list@.len() > 0 {
                final(self).ready_list@ =~= old(self).ready_list@.drop_first() && final(self).spec_current().base == old(self).ready_list@[0]
            } else {
                final(self).ready_list@ =~= old(self).ready_list@ && Some(
                    final(self).spec_current().base,
                ) == old(self).idle_thread
            },
    {
        ints.disable();
        let cur = self.current;
        let base = self.threads[cur].base;
        let node = Node::new(base);
        let mut cursor = node.cursor_mut(&self.all_list);
        cursor.remove_current(&mut self.all_list);
        self.set_status(cur, Status::Dying);
        proof {
            assert forall|k: int|
                0 <= k < self.ready_list@.len() implies self.has_ready_thread(
                #[trigger] self.ready_list@[k],
            ) by {
                assert(old(self).has_ready_thread(self.ready_list@[k]));
                let w = choose|w: int|
                    0 <= w < old(self).threads@.len() && (#[trigger] old(self).threads@[w]).base
                        == self.ready_list@[k] && old(self).threads@[w].status == Status::Ready;
                assert(w != cur as int);
                assert(self.threads@[w].base == self.ready_list@[k]);
            }
            assert forall|j: int|
                0 <= j < self.threads@.len() && (#[trigger] self.threads@[j]).status
                    == Status::Ready implies self.ready_list@.contains(self.threads@[j].base) by {
                assert(j != cur as int);
                assert(old(self).threads@[j].status == Status::Ready);
            }
            match old(self).idle_thread {
                Some(b) => {
                    let w = choose|w: int|
                        0 <= w < old(self).threads@.len() && (#[trigger] old(self).threads@[w]).base == b;
                    assert(self.threads@[w].base == b);
                },
                None => {},
            }
            if old(self).ready_list@.len() == 0 {
                let w = choose|w: int|
                    0 <= w < old(self).threads@.len() && (#[trigger] old(self).threads@[w]).base
                        == old(self).idle_thread->Some_0;
                assert(w != cur as int);
                assert(self.threads@[w].status != Status::Running);
            }
        }
        self.schedule();
        proof {
            if old(self).ready_list@.len() > 0 {
                let w = choose|w: int|
                    0 <= w < old(self).threads@.len() && (#[trigger] old(self).threads@[w]).base
                        == old(self).ready_list@[0] && old(self).threads@[w].status
                        == Status::Ready;
                assert(w != cur as int);
                assert(self.current == w);
                assert(self.threads@[cur as int].status == Status::Dying);
            } else {
                let w = choose|w: int|
                    0 <= w < old(self).threads@.len() && (#[trigger] old(self).threads@[w]).base
                        == old(self).idle_thread->Some_0;
                assert(w != cur as int);
                assert(self.threads@[cur as int].status == Status::Dying);
            }
        }
    }

    /// Transitions a blocked thread to the ready-to-run state without
    /// preempting the running thread: callers that disabled interrupts can
    /// unblock a thread and update other data atomically. Unblocking a
    /// thread that is not blocked is a fatal error in the kernel, so it is
    /// excluded here.
    pub fn unblock(&mut self, base: u64)
        requires
            old(self).wf(),
            exists|i: int|
                0 <= i < old(self).threads@.len() && (#[trigger] old(self).threads@[i]).base
                    == base && old(self).threads@[i].status == Status::Blocked,
        ensures
            final(self).wf(),
            final(self).ready_list@ =~= old(self).ready_list@.push(base),
            exists|i: int|
                0 <= i < old(self).threads@.len() && (#[trigger] old(self).threads@[i]).base
                    == base && final(self).threads@ =~= old(self).threads@.update(
                    i,
                    (Thread { status: Status::Ready, ..old(self).threads@[i] }),
                ),
            final(self).current == old(self).current,
            final(self).all_list == old(self).all_list,
            final(self).idle_thread == old(self).idle_thread,
            final(self).next_id == old(self).next_id,
            final(self).idle_ticks == old(self).idle_ticks,
            final(self).kernel_ticks == old(self).kernel_ticks,
            final(self).current_thread_ticks == old(self).current_thread_ticks,
    {
        let i = self.find_thread(base);
        proof {
            let w = choose|w: int|
                0 <= w < old(self).threads@.len() && (#[trigger] old(self).threads@[w]).base
                    == base && old(self).threads@[w].status == Status::Blocked;
            assert(w == i as int);
        }
        self.set_status(i, Status::Ready);
        let mut node = Node::new(base);
        self.ready_list.push_back(&mut node);
        proof {
            let mid_ready = self.ready_list@;
            assert(mid_ready =~= old(self).ready_list@.push(base));
            assert forall|k: int|
                0 <= k < mid_ready.len() implies self.has_ready_thread(#[trigger] mid_ready[k]) by {
                if k == mid_ready.len() - 1 {
                    assert(self.threads@[i as int].base == base);
                } else {
                    assert(old(self).has_ready_thread(old(self).ready_list@[k]));
                    let w = choose|w: int|
                        0 <= w < old(self).threads@.len() && (#[trigger] old(self).threads@[w]).base == old(self).ready_list@[k] && old(self).threads@[w].status == Status::Ready;
                    assert(w != i as int);
                    assert(self.threads@[w].base == mid_ready[k]);
                }
            }
            assert forall|j: int|
                0 <= j < self.threads@.len() && (#[trigger] self.threads@[j]).status
                    == Status::Ready implies self.ready_list@.contains(self.threads@[j].base) by {
                if j == i as int {
                    assert(mid_ready[mid_ready.len() - 1] == base);
                } else {
                    assert(old(self).threads@[j].status == Status::Ready);
                    assert(old(self).ready_list@.contains(old(self).threads@[j].base));
                    let k = choose|k: int|
                        0 <= k < old(self).ready_list@.len() && old(self).ready_list@[k] == old(self).threads@[j].base;
                    assert(mid_ready[k] == self.threads@[j].base);
                }
            }
            assert forall|k1: int, k2: int|
                0 <= k1 < mid_ready.len() && 0 <= k2 < mid_ready.len() && k1 != k2 implies
                mid_ready[k1] != mid_ready[k2] by {
                if k1 == mid_ready.len() - 1 || k2 == mid_ready.len() - 1 {
                    let other = if k1 == mid_ready.len() - 1 {
                        k2
                    } else {
                        k1
                    };
                    if mid_ready[other] == base {
                        assert(old(self).has_ready_thread(base));
                        let w = choose|w: int|
                            0 <= w < old(self).threads@.len() && (#[trigger] old(self).threads@[w]).base == base && old(self).threads@[w].status
                                == Status::Ready;
                        assert(w == i as int);
                        assert(false);
                    }
                }
            }
            match old(self).idle_thread {
                Some(b) => {
                    let w = choose|w: int|
                        0 <= w < old(self).threads@.len() && (#[trigger] old(self).threads@[w]).base == b;
                    assert(self.threads@[w].base == b);
                },
                None => {},
            }
        }
    }

    /// Creates a new kernel thread named `name` with the given `priority`,
    /// ready to run.
    ///
    /// Four zeroed, 16 KiB-aligned pages come from the kernel pool; the
    /// thread record is written at their base with the switch frames pushed
    /// onto its stack and its entrypoint closure stored; then the thread is
    /// unblocked into the ready list. Returns the new thread's identity, or
    /// `None` if the pages cannot be had.
    ///
    /// The kernel keeps every live thread's stack pages marked in the kernel
    /// pool, and threads not from the pool (the boot stack) outside it; that
    /// global invariant is this function's precondition, and it holds again
    /// afterwards.
    pub fn spawn(&mut self, palloc: &mut PageAllocator, name: &Vec<u8>, priority: u32) -> (r:
        Option<u64>)
        requires
            old(self).wf(),
            old(palloc).wf(),
            name@.len() <= NAME_LENGTH,
            priority <= PRIORITY_MAX,
            old(self).next_id < u32::MAX,
            old(palloc).kernel_pool.is_initialized() ==> old(palloc).kernel_pool.spec_base() % (
            STACK_SIZE as u64) == 0,
            forall|i: int|
                0 <= i < old(self).threads@.len() ==> thread_stack_placed(
                    #[trigger] old(self).threads@[i],
                    old(palloc).kernel_pool,
                ),
        ensures
            final(self).wf(),
            final(palloc).wf(),
            final(palloc).user_pool == old(palloc).user_pool,
            forall|i: int|
                0 <= i < final(self).threads@.len() ==> thread_stack_placed(
                    #[trigger] final(self).threads@[i],
                    final(palloc).kernel_pool,
                ),
            final(palloc).kernel_pool.is_initialized() == old(palloc).kernel_pool.is_initialized(),
            final(palloc).kernel_pool.spec_base() == old(palloc).kernel_pool.spec_base(),
            final(palloc).kernel_pool.spec_size() == old(palloc).kernel_pool.spec_size(),
            match r {
                Some(base) => spawned(*old(self), *final(self), name@, priority, base),
                None => *final(self) == *old(self) && crate::palloc::pool_unchanged(
                    old(palloc).kernel_pool,
                    final(palloc).kernel_pool,
                ) && (old(palloc).kernel_pool.is_initialized()
                    ==> crate::palloc::pool_exhausted_aligned(
                    old(palloc).kernel_pool,
                    STACK_PAGES as int,
                    STACK_PAGES as int,
                )),
            },
    {
        let page = match palloc.get_pages_aligned(
            STACK_PAGES,
            STACK_PAGES,
            AllocateFlags::zero(),
        ) {
            Some(page) => page,
            None => {
                return None;
            },
        };
        let pool = Ghost(old(palloc).kernel_pool);
        proof {
            crate::palloc::lemma_pool_shape(pool@);
            let i = pool@.spec_page_index(page);
            assert((PAGE_SIZE as int) * i >= 0) by (nonlinear_arith)
                requires
                    i >= 0,
            ;
            assert((PAGE_SIZE as int) * (i + STACK_PAGES) == (PAGE_SIZE as int) * i + (
            PAGE_SIZE as int) * (STACK_PAGES as int)) by (nonlinear_arith);
            assert((PAGE_SIZE as int) * (i + STACK_PAGES) <= (PAGE_SIZE as int)
                * pool@.spec_size()) by (nonlinear_arith)
                requires
                    i + STACK_PAGES <= pool@.spec_size(),
            ;
            let m = i / (STACK_PAGES as int);
            assert(i == (STACK_PAGES as int) * m) by (nonlinear_arith)
                requires
                    i % (STACK_PAGES as int) == 0,
                    m == i / (STACK_PAGES as int),
                    i >= 0,
            ;
            assert((PAGE_SIZE as int) * ((STACK_PAGES as int) * m) == (PAGE_SIZE as int) * (
            STACK_PAGES as int) * m) by (nonlinear_arith);
            assert(page % (STACK_SIZE as u64) == 0) by (nonlinear_arith)
                requires
                    (page as int) == (pool@.spec_base() as int) + (PAGE_SIZE as int) * (
                    STACK_PAGES as int) * m,
                    (pool@.spec_base() as int) % (STACK_SIZE as int) == 0,
                    (PAGE_SIZE as int) * (STACK_PAGES as int) == STACK_SIZE as int,
                    m >= 0,
            ;
            // The fresh run was free; every existing thread is either held in
            // marked pages or outside the pool, so the new identity is new.
            assert forall|k: int|
                0 <= k < old(self).threads@.len() implies (#[trigger] old(self).threads@[k]).base != page by {
                let t = old(self).threads@[k];
                assert(thread_stack_placed(t, pool@));
                if t.base == page {
                    if pool@.is_initialized() && pool@.spec_base() <= t.base && (t.base
                        - pool@.spec_base()) % (PAGE_SIZE as int) == 0 && pool@.spec_page_index(
                        t.base,
                    ) + STACK_PAGES <= pool@.spec_size() && run_matches(
                        pool@.bits(),
                        pool@.spec_page_index(t.base),
                        STACK_PAGES as int,
                        true,
                    ) {
                        assert(pool@.bits()[i] == true);
                        assert(pool@.bits()[i] == false);
                    } else {
                        assert((PAGE_SIZE as int) * pool@.spec_size() >= (PAGE_SIZE as int) * (i
                            + STACK_PAGES));
                    }
                }
            }
        }
        let mut thread = Thread::new(page);
        let id = Id::new(self.next_id);
        self.next_id = self.next_id + 1;
        thread.init(id, name, priority);
        // Stack frame for the switch entry trampoline: one return address.
        thread.push_to_stack(8);
        // Stack frame for the context switch: four callee-saved registers and
        // a return address.
        thread.push_to_stack(40);
        thread.entrypoint();
        let mut all_node = Node::new(page);
        self.all_list.push_back(&mut all_node);
        let ghost mid = *self;
        self.threads.push(thread);
        proof {
            assert forall|k: int|
                0 <= k < self.ready_list@.len() implies self.has_ready_thread(
                #[trigger] self.ready_list@[k],
            ) by {
                assert(old(self).has_ready_thread(self.ready_list@[k]));
                let w = choose|w: int|
                    0 <= w < old(self).threads@.len() && (#[trigger] old(self).threads@[w]).base
                        == self.ready_list@[k] && old(self).threads@[w].status == Status::Ready;
                assert(self.threads@[w].base == self.ready_list@[k]);
            }
            match old(self).idle_thread {
                Some(b) => {
                    let w = choose|w: int|
                        0 <= w < old(self).threads@.len() && (#[trigger] old(self).threads@[w]).base == b;
                    assert(self.threads@[w].base == b);
                },
                None => {},
            }
            assert(self.wf());
            assert(self.threads@[old(self).threads@.len() as int].base == page);
            assert(self.threads@[old(self).threads@.len() as int].status == Status::Blocked);
        }
        self.unblock(page);
        proof {
            assert(self.threads@ =~= old(self).threads@.push(
                (Thread { status: Status::Ready, ..self.threads@[old(self).threads@.len() as int] }),
            ));
            // Every thread is still placed: marked runs stay marked when more
            // pages are marked, and outside stays outside.
            assert forall|k: int|
                0 <= k < self.threads@.len() implies thread_stack_placed(
                #[trigger] self.threads@[k],
                palloc.kernel_pool,
            ) by {
                let i = pool@.spec_page_index(page);
                if k < old(self).threads@.len() {
                    let t = old(self).threads@[k];
                    assert(thread_stack_placed(t, pool@));
                    assert(self.threads@[k].base == t.base);
                    if pool@.is_initialized() && pool@.spec_base() <= t.base && (t.base
                        - pool@.spec_base()) % (PAGE_SIZE as int) == 0 && pool@.spec_page_index(
                        t.base,
                    ) + STACK_PAGES <= pool@.spec_size() && run_matches(
                        pool@.bits(),
                        pool@.spec_page_index(t.base),
                        STACK_PAGES as int,
                        true,
                    ) {
                        let it = pool@.spec_page_index(t.base);
                        assert forall|j: int| it <= j < it + STACK_PAGES implies
                            palloc.kernel_pool.bits()[j] == true by {
                            assert(pool@.bits()[j] == true);
                        }
                    }
                } else {
                    assert forall|j: int| i <= j < i + STACK_PAGES implies
                        palloc.kernel_pool.bits()[j] == true by {}
                }
            }
        }
        Some(page)
    }

    /// Starts preemptive scheduling: records the running thread in the
    /// all-threads list, creates the idle thread, enables interrupts, and
    /// lets the idle thread run once so it can park itself. Returns `false`
    /// if the idle thread's stack cannot be allocated.
    pub fn start(&mut self, palloc: &mut PageAllocator, ints: &mut Interrupts) -> (r: bool)
        requires
            old(self).wf(),
            old(palloc).wf(),
            old(self).ready_list@.len() == 0,
            old(self).next_id < u32::MAX,
            !old(ints).spec_external(),
            old(palloc).kernel_pool.is_initialized() ==> old(palloc).kernel_pool.spec_base() % (
            STACK_SIZE as u64) == 0,
            forall|i: int|
                0 <= i < old(self).threads@.len() ==> thread_stack_placed(
                    #[trigger] old(self).threads@[i],
                    old(palloc).kernel_pool,
                ),
        ensures
            final(self).wf(),
            final(palloc).wf(),
            final(ints).spec_external() == old(ints).spec_external(),
            final(palloc).user_pool == old(palloc).user_pool,
            final(palloc).kernel_pool.is_initialized() == old(palloc).kernel_pool.is_initialized(),
            final(palloc).kernel_pool.spec_base() == old(palloc).kernel_pool.spec_base(),
            final(palloc).kernel_pool.spec_size() == old(palloc).kernel_pool.spec_size(),
            forall|i: int|
                0 <= i < final(self).threads@.len() ==> thread_stack_placed(
                    #[trigger] final(self).threads@[i],
                    final(palloc).kernel_pool,
                ),
            r ==> {
                &&& final(ints).spec_enabled()
                &&& final(self).idle_thread is Some
                &&& final(self).ready_list@.len() == 0
                &&& final(self).spec_current().base == old(self).spec_current().base
                &&& exists|i: int|
                    0 <= i < final(self).threads@.len() && (#[trigger] final(self).threads@[i]).base == final(self).idle_thread->Some_0 && final(self).threads@[i].status == Status::Blocked
            },
            !r ==> {
                &&& final(self).threads@ == old(self).threads@
                &&& final(self).ready_list@ == old(self).ready_list@
                &&& final(self).all_list@ =~= old(self).all_list@.push(
                    old(self).spec_current().base,
                )
                &&& final(self).idle_thread == old(self).idle_thread
                &&& final(self).next_id == old(self).next_id
                &&& final(self).current == old(self).current
                &&& *final(ints) == *old(ints)
                &&& crate::palloc::pool_unchanged(
                    old(palloc).kernel_pool,
                    final(palloc).kernel_pool,
                )
                &&& (old(palloc).kernel_pool.is_initialized()
                    ==> crate::palloc::pool_exhausted_aligned(
                    old(palloc).kernel_pool,
                    STACK_PAGES as int,
                    STACK_PAGES as int,
                ))
            },
    {
        let cur = self.current;
        let main_base = self.threads[cur].base;
        let mut main_node = Node::new(main_base);
        self.all_list.push_back(&mut main_node);
        let name = idle_thread_name();
        let idle_base = match self.spawn(palloc, &name, PRIORITY_MIN) {
            Some(base) => base,
            None => {
                return false;
            },
        };
        self.idle_thread = Some(idle_base);
        proof {
            assert(self.threads@[old(self).threads@.len() as int].base == idle_base);
            assert(self.wf());
        }
        // Start preemptive scheduling.
        ints.enable();
        // Let the idle thread run once; it parks itself and hands control
        // back. In the kernel a semaphore orders this handshake.
        let saved = ints.save_and_disable();
        self.yield_current_thread(ints);
        proof {
            assert(self.spec_current().base == idle_base);
        }
        self.block_current_thread(ints);
        ints.restore(saved);
        proof {
            assert(self.spec_current().base == main_base);
        }
        true
    }

}

/// The stats line the scheduler prints, as bytes.
pub open spec fn spec_thread_stats_line(idle: nat, kernel: nat) -> Seq<u8> {
    "Thread: ".spec_bytes() + spec_decimal(idle) + " idle ticks, ".spec_bytes() + spec_decimal(
        kernel,
    ) + " kernel ticks.\n".spec_bytes()
}

/// What a context switch does: the thread with identity `next_base` is now
/// running at the start of a fresh slice; no other record changed; the
/// bookkeeping that only ticks and spawns touch is untouched.
pub open spec fn switched_to(old_s: Scheduler, new_s: Scheduler, next_base: u64) -> bool {
    &&& new_s.threads@.len() == old_s.threads@.len()
    &&& new_s.current < new_s.threads@.len()
    &&& new_s.threads@[new_s.current as int].base == next_base
    &&& new_s.threads@ =~= old_s.threads@.update(
        new_s.current as int,
        (Thread {
            status: Status::Running,
            ticks: 0,
            ..old_s.threads@[new_s.current as int]
        }),
    )
    &&& new_s.all_list == old_s.all_list
    &&& new_s.idle_thread == old_s.idle_thread
    &&& new_s.next_id == old_s.next_id
    &&& new_s.idle_ticks == old_s.idle_ticks
    &&& new_s.kernel_ticks == old_s.kernel_ticks
    &&& new_s.current_thread_ticks == 0
}

/// What moving the current thread to `outgoing` and then switching does:
/// the outgoing record keeps everything but its status, and the thread with
/// identity `next_base` runs a fresh slice. Nothing else changes.
pub open spec fn after_status_switch(
    old_s: Scheduler,
    new_s: Scheduler,
    outgoing: Status,
    next_base: u64,
) -> bool {
    let mid = old_s.threads@.update(
        old_s.current as int,
        (Thread { status: outgoing, ..old_s.threads@[old_s.current as int] }),
    );
    &&& new_s.threads@.len() == old_s.threads@.len()
    &&& new_s.current < new_s.threads@.len()
    &&& new_s.threads@[new_s.current as int].base == next_base
    &&& new_s.threads@ =~= mid.update(
        new_s.current as int,
        (Thread { status: Status::Running, ticks: 0, ..mid[new_s.current as int] }),
    )
    &&& new_s.all_list == old_s.all_list
    &&& new_s.idle_thread == old_s.idle_thread
    &&& new_s.next_id == old_s.next_id
    &&& new_s.idle_ticks == old_s.idle_ticks
    &&& new_s.kernel_ticks == old_s.kernel_ticks
    &&& new_s.current_thread_ticks == 0
}

/// What blocking the current thread does: it becomes `Blocked` and the head
/// of the ready list (or the idle thread, with the list empty) runs.
pub open spec fn blocked_and_switched(old_s: Scheduler, new_s: Scheduler) -> bool {
    if old_s.ready_list@.len() > 0 {
        after_status_switch(old_s, new_s, Status::Blocked, old_s.ready_list@[0])
            && new_s.ready_list@ =~= old_s.ready_list@.drop_first()
    } else {
        after_status_switch(old_s, new_s, Status::Blocked, old_s.idle_thread->Some_0)
            && new_s.ready_list@ =~= old_s.ready_list@
    }
}

/// What yielding does: the current thread becomes `Ready` at the tail of the
/// ready list, and the head of that grown list runs; with an empty list the
/// yielding thread runs again at once.
pub open spec fn yielded_and_switched(old_s: Scheduler, new_s: Scheduler) -> bool {
    let pre = old_s.ready_list@.push(old_s.spec_current().base);
    after_status_switch(old_s, new_s, Status::Ready, pre[0]) && new_s.ready_list@ =~= pre.drop_first()
}

/// A thread's stack pages sit inside the kernel pool, marked used, or the
/// whole region lies outside the pool (the boot stack does).
pub open spec fn thread_stack_placed(t: Thread, pool: Pool) -> bool {
    ||| (pool.is_initialized() && pool.spec_base() <= t.base && (t.base - pool.spec_base()) % (
    PAGE_SIZE as int) == 0 && pool.spec_page_index(t.base) + STACK_PAGES <= pool.spec_size()
        && run_matches(pool.bits(), pool.spec_page_index(t.base), STACK_PAGES as int, true))
    ||| (!pool.is_initialized() || t.base + STACK_SIZE <= pool.spec_base() || t.base
        >= pool.spec_base() + (PAGE_SIZE as int) * pool.spec_size())
}

/// What a successful spawn does: one new thread record, ready to run at the
/// tail of the ready list, fully initialized on a fresh aligned stack.
pub open spec fn spawned(
    old_s: Scheduler,
    new_s: Scheduler,
    name: Seq<u8>,
    priority: u32,
    base: u64,
) -> bool {
    let t = new_s.threads@[old_s.threads@.len() as int];
    &&& new_s.threads@.len() == old_s.threads@.len() + 1
    &&& forall|k: int| 0 <= k < old_s.threads@.len() ==> new_s.threads@[k] == old_s.threads@[k]
    &&& t.base == base
    &&& base % (STACK_SIZE as u64) == 0
    &&& t.id == Id(old_s.next_id)
    &&& t.status == Status::Ready
    &&& t.spec_name() =~= spec_padded_name(name)
    &&& t.stack == base + STACK_SIZE - 48
    &&& t.priority == priority
    &&& t.ticks == 0
    &&& t.has_entrypoint
    &&& t.wf()
    &&& t.spec_is_thread()
    &&& new_s.ready_list@ =~= old_s.ready_list@.push(base)
    &&& new_s.all_list@ =~= old_s.all_list@.push(base)
    &&& new_s.next_id == old_s.next_id + 1
    &&& new_s.current == old_s.current
    &&& new_s.idle_thread == old_s.idle_thread
    &&& new_s.idle_ticks == old_s.idle_ticks
    &&& new_s.kernel_ticks == old_s.kernel_ticks
    &&& new_s.current_thread_ticks == old_s.current_thread_ticks
}

/// At most one thread is running: every running thread is the current one,
/// and the running thread is never in the ready list.
pub proof fn lemma_running_exclusive(s: Scheduler)
    requires
        s.wf(),
    ensures
        forall|i: int, j: int|
            0 <= i < s.threads@.len() && 0 <= j < s.threads@.len() && (#[trigger] s.threads@[i]).status
                == Status::Running && (#[trigger] s.threads@[j]).status == Status::Running ==> i
                == j,
        !s.ready_list@.contains(s.spec_current().base),
{
    if s.ready_list@.contains(s.spec_current().base) {
        let k = choose|k: int|
            0 <= k < s.ready_list@.len() && s.ready_list@[k] == s.spec_current().base;
        assert(s.has_ready_thread(s.ready_list@[k]));
        let w = choose|w: int|
            0 <= w < s.threads@.len() && (#[trigger] s.threads@[w]).base == s.spec_current().base
                && s.threads@[w].status == Status::Ready;
        assert(w == s.current);
        assert(false);
    }
}

} // verus!
