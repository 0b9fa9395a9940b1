use vstd::prelude::*;
use vstd::string::StringSliceAdditionalSpecFns;

verus! {

use crate::console::spec_decimal;
use crate::console::format_usize;
use crate::interrupt::control::Interrupts;
use crate::interrupt::handler::InterruptHandlersRegistry;
use crate::scheduler::Scheduler;

/// Number of timer interrupts per second.
pub const FREQUENCY: usize = 100;

/// The interrupt vector the timer drives.
pub const TIMER_VECTOR: u8 = 0x20;

/// Sets up the timer's interrupt registration: the handler identified by
/// `handler` is registered for the timer vector under the timer's name.
/// Programming the 8254 itself is the caller's port-level step.
pub fn init(registry: &mut InterruptHandlersRegistry, handler: u64)
    requires
        old(registry).wf(),
    ensures
        final(registry).wf(),
        final(registry).registries@[TIMER_VECTOR as int].handler == Some(handler),
        final(registry).registries@[TIMER_VECTOR as int].name@ == "8254 Timer"@,
        forall|k: int|
            0 <= k < 256 && k != TIMER_VECTOR ==> final(registry).registries@[k] == old(
                registry,
            ).registries@[k],
{
    proof {
        reveal_strlit("8254 Timer");
    }
    registry.register(TIMER_VECTOR, handler, "8254 Timer");
}

/// Manages the ticks since boot.
pub struct Timer {
    /// Number of timer ticks since the kernel booted.
    ticks: usize,
}

impl Timer {
    /// Number of ticks so far.
    pub closed spec fn spec_ticks(self) -> nat {
        self.ticks as nat
    }

    /// Creates a new timer at zero ticks.
    pub fn new() -> (r: Timer)
        ensures
            r.spec_ticks() == 0,
    {
        Timer { ticks: 0 }
    }

    /// Counts a timer tick.
    pub fn tick(&mut self)
        requires
            old(self).spec_ticks() < usize::MAX,
        ensures
            final(self).spec_ticks() == old(self).spec_ticks() + 1,
    {
        self.ticks = self.ticks + 1;
    }

    /// Returns the number of timer ticks since the kernel booted.
    pub fn ticks(&self) -> (r: usize)
        ensures
            r == self.spec_ticks(),
    {
        self.ticks
    }

    /// Returns the number of timer ticks elapsed since `then`, which must not
    /// lie in the future.
    pub fn elapsed(&self, then: usize) -> (r: usize)
        requires
            then <= self.spec_ticks(),
        ensures
            r == self.spec_ticks() - then,
    {
        self.ticks - then
    }

    /// Prints timer statistics: returns the stats line for the console.
    pub fn print_stats(&self) -> (line: Vec<u8>)
        ensures
            line@ =~= spec_timer_stats_line(self.spec_ticks()),
    {
        proof {
            reveal_strlit("Timer: ");
            reveal_strlit(" ticks\n");
        }
        let mut line = "Timer: ".as_bytes_vec();
        let mut digits = format_usize(self.ticks);
        line.append(&mut digits);
        let mut tail = " ticks\n".as_bytes_vec();
        line.append(&mut tail);
        line
    }
}

/// The stats line the timer prints, as bytes.
pub open spec fn spec_timer_stats_line(ticks: nat) -> Seq<u8> {
    "Timer: ".spec_bytes() + spec_decimal(ticks) + " ticks\n".spec_bytes()
}

/// Makes the current thread sleep for approximately `ticks` timer ticks by
/// yielding until they have elapsed. Interrupts must be on, as the ticks only
/// advance through the timer interrupt; each yield here stands for the wait
/// during which one tick arrives. A request for zero ticks returns at once
/// without yielding.
pub fn sleep(timer: &mut Timer, sched: &mut Scheduler, ints: &mut Interrupts, ticks: usize)
    requires
        old(timer).spec_ticks() + ticks <= usize::MAX,
        old(sched).wf(),
        old(ints).spec_enabled(),
        !old(ints).spec_external(),
    ensures
        final(sched).wf(),
        final(ints).spec_enabled(),
        final(ints).spec_external() == old(ints).spec_external(),
        final(timer).spec_ticks() == old(timer).spec_ticks() + ticks,
        ticks == 0 ==> *final(timer) == *old(timer) && *final(sched) == *old(sched) && *final(ints) == *old(ints),
{
    if ticks == 0 {
        // Nothing to wait for: return at once, without yielding.
        return ;
    }
    let start = timer.ticks();
    while timer.elapsed(start) < ticks
        invariant
            start == old(timer).spec_ticks(),
            start <= timer.spec_ticks() <= start + ticks,
            start + ticks <= usize::MAX,
            sched.wf(),
            ints.spec_enabled(),
            !ints.spec_external(),
        decreases start + ticks - timer.spec_ticks(),
    {
        // While this thread is off the processor, the next timer interrupt
        // arrives and advances the tick count.
        let saved = ints.save_and_disable();
        sched.yield_current_thread(ints);
        ints.restore(saved);
        timer.tick();
    }
}

} // verus!
