use vstd::prelude::*;

verus! {

/// The processor's interrupt-control state: the interrupt-enable flag, and
/// the flag that is true only while an external interrupt handler runs.
///
/// The kernel reads and writes the enable flag with the architecture's
/// interrupt-flag instructions; here the state is carried as plain values and
/// every primitive that inspects or changes it takes it as a parameter.
pub struct Interrupts {
    /// Whether maskable interrupts are enabled.
    enabled: bool,
    /// Whether an external interrupt handler is currently being dispatched.
    external_context: bool,
}

impl Interrupts {
    /// The state any reachable kernel state satisfies: while an external
    /// handler runs, interrupts are off, so interrupts enabled means no
    /// handler is running.
    pub open spec fn wf(self) -> bool {
        self.spec_enabled() ==> !self.spec_external()
    }

    /// Whether maskable interrupts are enabled.
    pub closed spec fn spec_enabled(self) -> bool {
        self.enabled
    }

    /// Whether an external interrupt handler is currently being dispatched.
    pub closed spec fn spec_external(self) -> bool {
        self.external_context
    }

    /// The state at kernel entry: interrupts disabled, no handler running.
    pub fn new() -> (r: Interrupts)
        ensures
            !r.spec_enabled(),
            !r.spec_external(),
            r.wf(),
    {
        Interrupts { enabled: false, external_context: false }
    }

    /// Returns `true` if interrupts are enabled, and `false` otherwise.
    pub fn are_enabled(&self) -> (r: bool)
        ensures
            r == self.spec_enabled(),
    {
        self.enabled
    }

    /// Returns `true` if interrupts are disabled, and `false` otherwise.
    pub fn are_disabled(&self) -> (r: bool)
        ensures
            r == !self.spec_enabled(),
    {
        !self.enabled
    }

    /// Enables interrupts. Enabling them while an external handler runs is a
    /// fatal error in the kernel, so that state is excluded here.
    pub fn enable(&mut self)
        requires
            !old(self).spec_external(),
        ensures
            final(self).spec_enabled(),
            final(self).spec_external() == old(self).spec_external(),
            final(self).wf(),
    {
        self.enabled = true;
    }

    /// Disables interrupts.
    pub fn disable(&mut self)
        ensures
            !final(self).spec_enabled(),
            final(self).spec_external() == old(self).spec_external(),
            final(self).wf(),
    {
        self.enabled = false;
    }

    /// Returns `true` during processing of an external interrupt, and `false`
    /// at all other times.
    pub fn is_external_handler_context(&self) -> (r: bool)
        ensures
            r == self.spec_external(),
    {
        self.external_context
    }

    /// Marks entry into or exit from an external handler. Only the interrupt
    /// dispatcher uses this.
    pub(crate) fn set_external_context(&mut self, value: bool)
        requires
            value ==> !old(self).spec_enabled(),
        ensures
            final(self).spec_external() == value,
            final(self).spec_enabled() == old(self).spec_enabled(),
            final(self).wf(),
    {
        self.external_context = value;
    }

    /// The entry half of running a body with interrupts disabled: saves the
    /// current enable state and disables interrupts.
    pub fn save_and_disable(&mut self) -> (saved: bool)
        ensures
            saved == old(self).spec_enabled(),
            !final(self).spec_enabled(),
            final(self).spec_external() == old(self).spec_external(),
            final(self).wf(),
    {
        let saved = self.enabled;
        self.enabled = false;
        saved
    }

    /// The exit half of running a body with interrupts disabled: re-enables
    /// interrupts if and only if they were enabled when saved.
    pub fn restore(&mut self, saved: bool)
        requires
            saved ==> !old(self).spec_external(),
        ensures
            final(self).spec_enabled() == (saved || old(self).spec_enabled()),
            final(self).spec_external() == old(self).spec_external(),
            old(self).wf() ==> final(self).wf(),
    {
        if saved {
            self.enable();
        }
    }
}

/// Running a body between `save_and_disable` and `restore` leaves the
/// interrupt-enable state exactly as it was, provided the body keeps
/// interrupts off, as every critical-section body does.
pub proof fn lemma_without_interrupts_preserves_enable(
    before: Interrupts,
    saved: bool,
    after_body: Interrupts,
    restored: Interrupts,
)
    requires
        saved == before.spec_enabled(),
        !after_body.spec_enabled(),
        restored.spec_enabled() == (saved || after_body.spec_enabled()),
    ensures
        restored.spec_enabled() == before.spec_enabled(),
{
}

} // verus!
