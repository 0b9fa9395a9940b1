use cheetos::alarm;
use cheetos::interrupt::control::Interrupts;
use cheetos::palloc::PageAllocator;
use cheetos::scheduler::Scheduler;
use cheetos::sync::lock::Lock;
use cheetos::sync::lock::Mutex;
use cheetos::sync::semaphore::Semaphore;
use cheetos::thread;
use cheetos::thread::Status;
use cheetos::timer;
use cheetos::timer::Timer;

const PAGE: u64 = 4096;
const MIB: u64 = 1024 * 1024;
const BOOT_STACK: u64 = 0x7000_0000_0000;

/// Builds a started kernel model: main thread adopted, pools initialized,
/// scheduler running with the idle thread parked.
fn started_kernel() -> (Scheduler, PageAllocator, Interrupts) {
    let mut ints = Interrupts::new();
    let mut sched = Scheduler::new();
    thread::init(&mut sched, BOOT_STACK, &ints);
    let mut palloc = PageAllocator::new();
    palloc.init(3 * PAGE, 3 * PAGE + 16 * MIB, usize::MAX);
    assert!(sched.start(&mut palloc, &mut ints));
    (sched, palloc, ints)
}

/// Checks a wake trace: every thread woke exactly `iterations` times and the
/// products of iteration count and duration never descend.
fn check_wake_trace(output: &[usize], thread_cnt: usize, iterations: usize) {
    let mut counts = vec![0usize; thread_cnt];
    let mut product = 0;
    for &id in output {
        assert!(id < thread_cnt);
        counts[id] += 1;
        let new_product = counts[id] * (id + 1) * 10;
        assert!(new_product >= product, "a thread woke up out of order");
        product = new_product;
    }
    for &c in &counts {
        assert_eq!(c, iterations);
    }
}

/// Five threads sleep once each, thread `i` for `(i + 1) * 10` ticks: they
/// wake strictly in thread order.
#[test]
fn alarm_single() {
    let output = alarm::sleep(5, 1);
    assert_eq!(output, vec![0, 1, 2, 3, 4]);
    check_wake_trace(&output, 5, 1);
}

/// Five threads sleep seven times each: every thread reaches exactly seven
/// iterations and the wake products never descend.
#[test]
fn alarm_multiple() {
    let output = alarm::sleep(5, 7);
    assert_eq!(output.len(), 35);
    check_wake_trace(&output, 5, 7);
}

/// A sleep of zero ticks returns immediately, without yielding and without
/// the clock moving.
#[test]
fn alarm_zero() {
    let (mut sched, _palloc, mut ints) = started_kernel();
    let mut clock = Timer::new();
    let current_before = sched.current;
    timer::sleep(&mut clock, &mut sched, &mut ints, 0);
    assert_eq!(clock.ticks(), 0);
    assert_eq!(sched.current, current_before);
    assert!(sched.ready_list.is_empty());
}

/// A sleep advances the clock by the asked ticks.
#[test]
fn sleep_advances_clock() {
    let (mut sched, _palloc, mut ints) = started_kernel();
    let mut clock = Timer::new();
    timer::sleep(&mut clock, &mut sched, &mut ints, 25);
    assert_eq!(clock.ticks(), 25);
    assert_eq!(clock.elapsed(5), 20);
}

/// Spawned threads run in ready order; yielding moves the processor around
/// the ready ring and back.
#[test]
fn spawn_and_yield() {
    let (mut sched, mut palloc, mut ints) = started_kernel();
    let main_base = sched.threads[sched.current].base;

    let a = sched.spawn(&mut palloc, &b"alpha".to_vec(), 31).unwrap();
    let b = sched.spawn(&mut palloc, &b"beta".to_vec(), 31).unwrap();
    assert_eq!(sched.ready_list.len(), 2);

    // Yield: the first spawned thread runs; we requeue at the tail.
    let saved = ints.save_and_disable();
    sched.yield_current_thread(&ints);
    assert_eq!(sched.threads[sched.current].base, a);
    sched.yield_current_thread(&ints);
    assert_eq!(sched.threads[sched.current].base, b);
    sched.yield_current_thread(&ints);
    assert_eq!(sched.threads[sched.current].base, main_base);
    ints.restore(saved);

    // The running thread is never in the ready list.
    let mut it = sched.ready_list.iter();
    while let Some(id) = it.next() {
        assert_ne!(id, main_base);
    }
}

/// Blocking deschedules the current thread until someone unblocks it.
#[test]
fn block_and_unblock() {
    let (mut sched, mut palloc, mut ints) = started_kernel();
    let main_base = sched.threads[sched.current].base;
    let worker = sched.spawn(&mut palloc, &b"worker".to_vec(), 31).unwrap();

    let saved = ints.save_and_disable();
    // Block the main thread: the worker runs.
    sched.block_current_thread(&ints);
    assert_eq!(sched.threads[sched.current].base, worker);
    // The worker unblocks main and yields back to it.
    sched.unblock(main_base);
    sched.yield_current_thread(&ints);
    assert_eq!(sched.threads[sched.current].base, main_base);
    ints.restore(saved);
}

/// An exiting thread leaves a dying record behind and never runs again.
#[test]
fn exit_thread() {
    let (mut sched, mut palloc, mut ints) = started_kernel();
    let main_base = sched.threads[sched.current].base;
    let doomed = sched.spawn(&mut palloc, &b"doomed".to_vec(), 31).unwrap();

    let saved = ints.save_and_disable();
    sched.yield_current_thread(&ints);
    assert_eq!(sched.threads[sched.current].base, doomed);
    // The doomed thread exits; main runs again.
    sched.exit_current_thread(&mut ints);
    assert_eq!(sched.threads[sched.current].base, main_base);
    ints.restore(saved);

    let dead = sched.threads.iter().find(|t| t.base == doomed).unwrap();
    assert_eq!(dead.status, Status::Dying);
}

/// Ticks are counted to the running thread's slice, and a full slice asks for
/// preemption.
#[test]
fn tick_and_preempt() {
    let (mut sched, mut palloc, mut ints) = started_kernel();
    let main_base = sched.threads[sched.current].base;
    let other = sched.spawn(&mut palloc, &b"other".to_vec(), 31).unwrap();

    let saved = ints.save_and_disable();
    for _ in 0..3 {
        sched.tick();
        sched.preempt_current_thread(&ints);
        assert_eq!(sched.threads[sched.current].base, main_base);
    }
    sched.tick();
    assert_eq!(sched.kernel_ticks, 4);
    sched.preempt_current_thread(&ints);
    assert_eq!(sched.threads[sched.current].base, other);
    ints.restore(saved);
}

/// A semaphore's value comes back up with each up; a positive value never
/// coexists with waiters.
#[test]
fn semaphore() {
    let (mut sched, _palloc, mut ints) = started_kernel();
    let mut sem = Semaphore::new(2);

    sem.down(&mut ints, &mut sched);
    sem.down(&mut ints, &mut sched);
    assert_eq!(sem.inner.peek().value, 0);
    assert!(!sem.try_down(&mut ints));
    sem.up(&mut ints, &mut sched);
    assert_eq!(sem.inner.peek().value, 1);
    // A positive value means nobody waits.
    assert!(sem.inner.peek().waiters.is_empty());
    assert!(sem.try_down(&mut ints));
}

/// A down on an empty semaphore parks the thread on the waiters list until
/// an up wakes it.
#[test]
fn semaphore_blocks() {
    let (mut sched, _palloc, mut ints) = started_kernel();
    let main_base = sched.threads[sched.current].base;
    let mut sem = Semaphore::new(0);

    // The main thread blocks on the semaphore; the idle thread takes over.
    sem.down(&mut ints, &mut sched);
    assert_eq!(sem.inner.peek().waiters.front(), Some(main_base));
    assert_ne!(sched.threads[sched.current].base, main_base);

    // Up wakes main; yielding as the idle thread hands the processor back.
    sem.up(&mut ints, &mut sched);
    assert!(sem.inner.peek().waiters.is_empty());
    let saved = ints.save_and_disable();
    sched.block_current_thread(&ints);
    ints.restore(saved);
    assert_eq!(sched.threads[sched.current].base, main_base);
}

/// A lock is held by one thread at a time and released only by its holder.
#[test]
fn lock() {
    let (mut sched, _palloc, mut ints) = started_kernel();
    let main_base = sched.threads[sched.current].base;
    let mut lock = Lock::new();

    lock.acquire(&mut ints, &mut sched);
    assert_eq!(lock.holder, Some(main_base));
    assert!(!lock.try_acquire(&mut ints, &sched));
    lock.release(&mut ints, &mut sched);
    assert_eq!(lock.holder, None);
    assert!(lock.try_acquire(&mut ints, &sched));
    lock.release(&mut ints, &mut sched);
}

/// The sleeping mutex hands out its data under the lock and releases on the
/// guard's way out.
#[test]
fn sleeping_mutex() {
    let (mut sched, _palloc, mut ints) = started_kernel();
    let mut mutex = Mutex::new(41u64);

    let mut guard = mutex.lock();
    {
        let value = guard.deref_mut(&mut mutex, &mut ints, &mut sched);
        *value = 42;
    }
    guard.release(&mut mutex, &mut ints, &mut sched);
    assert_eq!(mutex.lock().deref(&mutex), &42);
    assert_eq!(mutex.lock.holder, None);
}

/// A thread record is found from any stack pointer in its region by masking,
/// and its magic stays intact.
#[test]
fn thread_record() {
    let (mut sched, mut palloc, _ints) = started_kernel();
    let base = sched.spawn(&mut palloc, &b"probe".to_vec(), 7).unwrap();
    let t = sched.threads.iter().find(|t| t.base == base).unwrap();

    assert!(t.is_thread());
    assert_eq!(t.priority, 7);
    assert_eq!(t.name(), b"probe".to_vec());
    // The saved stack pointer sits below the top, past the two pushed frames.
    assert_eq!(t.stack, base + 0x4000 - 48);
    // Masking any pointer into the stack region recovers the record.
    assert_eq!(thread::running_thread(t.stack), base);
    assert_eq!(thread::running_thread(base + 123), base);
}
