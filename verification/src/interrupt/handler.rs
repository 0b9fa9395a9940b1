use vstd::prelude::*;

verus! {

use crate::interrupt::control::Interrupts;

/// Number of x86 interrupt vectors.
pub const NUM_INTERRUPTS: usize = 256;

/// First vector delivered by the interrupt controllers; everything below is a
/// CPU exception.
pub const EXTERNAL_INTERRUPT_OFFSET: u8 = 0x20;

/// First vector delivered by the slave interrupt controller.
pub const SLAVE_INTERRUPT_OFFSET: u8 = 0x28;

/// First vector past the interrupt controllers' range.
pub const EXTERNAL_INTERRUPT_END: u8 = 0x30;

/// Max length for interrupt names.
pub const HANDLER_NAME_LENGTH: usize = 64;

/// The shape of the handler entry that a descriptor-table slot holds.
#[derive(Debug, Clone, Copy, PartialEq, Eq, Structural)]
pub enum GateKind {
    /// The slot is left empty.
    Missing,
    /// The generic handler, taking only the interrupt frame.
    Generic,
    /// A handler that also receives an error code.
    WithErrorCode,
    /// The double-fault handler, which never returns.
    DoubleFault,
    /// The page-fault handler, which receives the page-fault error code.
    PageFault,
}

/// The descriptor-table entry shape that initialization gives vector `i`.
pub open spec fn spec_gate_kind(i: int) -> GateKind {
    if i == 8 {
        GateKind::DoubleFault
    } else if i == 10 || i == 11 || i == 12 || i == 13 || i == 17 || i == 29 || i == 30 {
        GateKind::WithErrorCode
    } else if i == 14 {
        GateKind::PageFault
    } else if i == 15 || i == 18 || (21 <= i <= 28) || i == 31 {
        GateKind::Missing
    } else {
        GateKind::Generic
    }
}

/// Returns the descriptor-table entry shape that initialization gives
/// `vector`.
pub fn gate_kind_for(vector: usize) -> (k: GateKind)
    ensures
        k == spec_gate_kind(vector as int),
{
    if vector == 8 {
        GateKind::DoubleFault
    } else if vector == 10 || vector == 11 || vector == 12 || vector == 13 || vector == 17
        || vector == 29 || vector == 30 {
        GateKind::WithErrorCode
    } else if vector == 14 {
        GateKind::PageFault
    } else if vector == 15 || vector == 18 || (21 <= vector && vector <= 28) || vector == 31 {
        GateKind::Missing
    } else {
        GateKind::Generic
    }
}

/// The name that initialization records for vector `i`.
pub open spec fn spec_vector_name(i: int) -> Seq<char> {
    if i == 0 {
        "#DE Divide Error"@
    } else if i == 1 {
        "#DB Debug Exception"@
    } else if i == 2 {
        "NMI Interrupt"@
    } else if i == 3 {
        "#BP Breakpoint Exception"@
    } else if i == 4 {
        "#OF Overflow Exception"@
    } else if i == 5 {
        "#BR BOUND Range Exceeded Exception"@
    } else if i == 6 {
        "#UD Invalid Opcode Exception"@
    } else if i == 7 {
        "#NM Device Not Available Exception"@
    } else if i == 8 {
        "#DF Double Fault Exception"@
    } else if i == 9 {
        "Coprocessor Segment Overrun"@
    } else if i == 10 {
        "#TS Invalid TSS Exception"@
    } else if i == 11 {
        "#NP Segment Not Present"@
    } else if i == 12 {
        "#SS Stack Fault Exception"@
    } else if i == 13 {
        "#GP General Protection Exception"@
    } else if i == 14 {
        "#PF Page-Fault Exception"@
    } else if i == 16 {
        "#MF x87 FPU Floating-Point Error"@
    } else if i == 17 {
        "#AC Alignment Check Exception"@
    } else if i == 18 {
        "#MC Machine-Check Exception"@
    } else if i == 19 {
        "#XF SIMD Floating-Point Exception"@
    } else if EXTERNAL_INTERRUPT_OFFSET <= i < NUM_INTERRUPTS {
        "unknown"@
    } else {
        Seq::<char>::empty()
    }
}

/// What the interrupt dispatcher asks its caller (the bare interrupt stub)
/// to do: which registered handler to invoke, and which controllers to
/// acknowledge afterwards.
#[derive(Debug)]
pub enum DispatchOutcome {
    /// A CPU exception: invoke the handler if one is registered; no
    /// acknowledgement.
    Internal { handler: Option<u64> },
    /// A controller-delivered interrupt: invoke the handler if one is
    /// registered, then acknowledge the master controller, and the slave as
    /// well when the vector is in its range.
    External { handler: Option<u64>, ack_master: bool, ack_slave: bool },
    /// A spurious vector, silently dropped.
    Spurious,
}

/// The registration for one interrupt vector.
pub struct InterruptHandlerRegistry {
    /// The handler registered for the interrupt, by its identity (the kernel
    /// uses the function's address); `None` if none is registered.
    pub handler: Option<u64>,
    /// Name for the interrupt, for debugging purposes.
    pub name: String,
    /// Number of unexpected invocations of this interrupt: ones that arrived
    /// with no registered handler.
    pub unexpected_count: usize,
}

impl InterruptHandlerRegistry {
    /// Creates an empty registration.
    pub fn new() -> (r: InterruptHandlerRegistry)
        ensures
            r.handler is None,
            r.name@ =~= Seq::<char>::empty(),
            r.unexpected_count == 0,
    {
        proof {
            reveal_strlit("");
        }
        InterruptHandlerRegistry { handler: None, name: "".to_owned(), unexpected_count: 0 }
    }

    /// Returns the name of the interrupt.
    pub fn name(&self) -> (r: &String)
        ensures
            r@ == self.name@,
    {
        &self.name
    }
}

/// The table of all 256 interrupt vectors: the entry shapes loaded into
/// the interrupt descriptor table and the per-vector registrations. The flag that
/// is true only while an external interrupt is dispatched lives with the
/// processor's interrupt-control state.
pub struct InterruptHandlersRegistry {
    /// The entry shape that each descriptor-table slot holds.
    pub gates: Vec<GateKind>,
    /// The registration for each vector.
    pub registries: Vec<InterruptHandlerRegistry>,
}

impl InterruptHandlersRegistry {
    /// Both tables cover every vector.
    pub open spec fn wf(self) -> bool {
        &&& self.gates@.len() == NUM_INTERRUPTS
        &&& self.registries@.len() == NUM_INTERRUPTS
    }

    /// Creates the registry with every slot empty and no handlers
    /// registered.
    pub fn new() -> (r: InterruptHandlersRegistry)
        ensures
            r.wf(),
            forall|i: int| 0 <= i < NUM_INTERRUPTS ==> r.gates@[i] == GateKind::Missing,
            forall|i: int|
                0 <= i < NUM_INTERRUPTS ==> r.registries@[i].handler is None
                    && r.registries@[i].unexpected_count == 0,
            forall|i: int|
                0 <= i < NUM_INTERRUPTS ==> r.registries@[i].name@ == Seq::<char>::empty(),
    {
        let mut gates: Vec<GateKind> = Vec::new();
        let mut registries: Vec<InterruptHandlerRegistry> = Vec::new();
        let mut i: usize = 0;
        while i < NUM_INTERRUPTS
            invariant
                gates@.len() == i,
                registries@.len() == i,
                i <= NUM_INTERRUPTS,
                forall|k: int| 0 <= k < i ==> gates@[k] == GateKind::Missing,
                forall|k: int|
                    0 <= k < i ==> registries@[k].handler is None && registries@[k].unexpected_count
                        == 0 && registries@[k].name@ == Seq::<char>::empty(),
            decreases NUM_INTERRUPTS - i,
        {
            gates.push(GateKind::Missing);
            registries.push(InterruptHandlerRegistry::new());
            i = i + 1;
        }
        InterruptHandlersRegistry { gates, registries }
    }

    /// Records `name` for `vector`, leaving everything else unchanged.
    fn set_name(&mut self, vector: usize, name: &str)
        requires
            old(self).wf(),
            vector < NUM_INTERRUPTS,
            name@.len() <= HANDLER_NAME_LENGTH,
        ensures
            final(self).wf(),
            final(self).gates@ == old(self).gates@,
            final(self).registries@.len() == NUM_INTERRUPTS,
            final(self).registries@[vector as int].name@ == name@,
            final(self).registries@[vector as int].handler == old(self).registries@[vector as int].handler,
            final(self).registries@[vector as int].unexpected_count == old(self).registries@[vector as int].unexpected_count,
            forall|k: int|
                0 <= k < NUM_INTERRUPTS && k != vector ==> final(self).registries@[k] == old(self).registries@[k],
    {
        let handler = self.registries[vector].handler;
        let unexpected_count = self.registries[vector].unexpected_count;
        self.registries.set(
            vector,
            InterruptHandlerRegistry { handler, name: name.to_owned(), unexpected_count },
        );
    }

    /// Initializes the registry: fills the descriptor-table slots with the
    /// default entry shapes and records the standard exception names, with "unknown" for every external vector.
    pub fn init(&mut self)
        requires
            old(self).wf(),
            forall|k: int|
                0 <= k < NUM_INTERRUPTS ==> old(self).registries@[k].name@ == Seq::<char>::empty(),
        ensures
            final(self).wf(),
            forall|i: int|
                0 <= i < NUM_INTERRUPTS ==> final(self).gates@[i] == spec_gate_kind(i),
            forall|i: int|
                0 <= i < NUM_INTERRUPTS ==> final(self).registries@[i].name@ == spec_vector_name(i),
            forall|i: int|
                0 <= i < NUM_INTERRUPTS ==> final(self).registries@[i].handler == old(self).registries@[i].handler && final(self).registries@[i].unexpected_count == old(self).registries@[i].unexpected_count,
    {
        let mut i: usize = 0;
        while i < NUM_INTERRUPTS
            invariant
                old(self).wf(),
                self.wf(),
                i <= NUM_INTERRUPTS,
                self.registries@ == old(self).registries@,
                forall|k: int| 0 <= k < i ==> self.gates@[k] == spec_gate_kind(k),
                forall|k: int| i <= k < NUM_INTERRUPTS ==> self.gates@[k] == old(self).gates@[k],
            decreases NUM_INTERRUPTS - i,
        {
            let kind = gate_kind_for(i);
            self.gates.set(i, kind);
            i = i + 1;
        }
        proof {
            reveal_strlit("#DE Divide Error");
            reveal_strlit("#DB Debug Exception");
            reveal_strlit("NMI Interrupt");
            reveal_strlit("#BP Breakpoint Exception");
            reveal_strlit("#OF Overflow Exception");
            reveal_strlit("#BR BOUND Range Exceeded Exception");
            reveal_strlit("#UD Invalid Opcode Exception");
            reveal_strlit("#NM Device Not Available Exception");
            reveal_strlit("#DF Double Fault Exception");
            reveal_strlit("Coprocessor Segment Overrun");
            reveal_strlit("#TS Invalid TSS Exception");
            reveal_strlit("#NP Segment Not Present");
            reveal_strlit("#SS Stack Fault Exception");
            reveal_strlit("#GP General Protection Exception");
            reveal_strlit("#PF Page-Fault Exception");
            reveal_strlit("#MF x87 FPU Floating-Point Error");
            reveal_strlit("#AC Alignment Check Exception");
            reveal_strlit("#MC Machine-Check Exception");
            reveal_strlit("#XF SIMD Floating-Point Exception");
            reveal_strlit("unknown");
        }
        self.set_name(0, "#DE Divide Error");
        self.set_name(1, "#DB Debug Exception");
        self.set_name(2, "NMI Interrupt");
        self.set_name(3, "#BP Breakpoint Exception");
        self.set_name(4, "#OF Overflow Exception");
        self.set_name(5, "#BR BOUND Range Exceeded Exception");
        self.set_name(6, "#UD Invalid Opcode Exception");
        self.set_name(7, "#NM Device Not Available Exception");
        self.set_name(8, "#DF Double Fault Exception");
        self.set_name(9, "Coprocessor Segment Overrun");
        self.set_name(10, "#TS Invalid TSS Exception");
        self.set_name(11, "#NP Segment Not Present");
        self.set_name(12, "#SS Stack Fault Exception");
        self.set_name(13, "#GP General Protection Exception");
        self.set_name(14, "#PF Page-Fault Exception");
        self.set_name(16, "#MF x87 FPU Floating-Point Error");
        self.set_name(17, "#AC Alignment Check Exception");
        self.set_name(18, "#MC Machine-Check Exception");
        self.set_name(19, "#XF SIMD Floating-Point Exception");
        let mut v: usize = EXTERNAL_INTERRUPT_OFFSET as usize;
        while v < NUM_INTERRUPTS
            invariant
                self.wf(),
                EXTERNAL_INTERRUPT_OFFSET as int <= v <= NUM_INTERRUPTS,
                forall|k: int| 0 <= k < NUM_INTERRUPTS ==> self.gates@[k] == spec_gate_kind(k),
                forall|k: int|
                    0 <= k < v && (k < 15 || k == 16 || k == 17 || k == 18 || k == 19
                        || EXTERNAL_INTERRUPT_OFFSET <= k) ==> self.registries@[k].name@
                        == spec_vector_name(k),
                forall|k: int|
                    0 <= k < NUM_INTERRUPTS && !(k < 15 || k == 16 || k == 17 || k == 18 || k == 19
                        || EXTERNAL_INTERRUPT_OFFSET <= k < v) ==> self.registries@[k].name@
                        == Seq::<char>::empty(),
                forall|k: int|
                    0 <= k < NUM_INTERRUPTS ==> self.registries@[k].handler == old(self).registries@[k].handler && self.registries@[k].unexpected_count == old(self).registries@[k].unexpected_count,
            decreases NUM_INTERRUPTS - v,
        {
            proof {
                reveal_strlit("unknown");
            }
            self.set_name(v, "unknown");
            v = v + 1;
        }
    }

    /// Registers `handler` for `vector` under the given debugging `name`,
    /// leaving every other vector unchanged.
    pub fn register(&mut self, vector: u8, handler: u64, name: &str)
        requires
            old(self).wf(),
            name@.len() <= HANDLER_NAME_LENGTH,
        ensures
            final(self).wf(),
            final(self).gates@ == old(self).gates@,
            final(self).registries@[vector as int].handler == Some(handler),
            final(self).registries@[vector as int].name@ == name@,
            final(self).registries@[vector as int].unexpected_count == old(self).registries@[vector as int].unexpected_count,
            forall|k: int|
                0 <= k < NUM_INTERRUPTS && k != vector ==> final(self).registries@[k] == old(self).registries@[k],
    {
        let v = vector as usize;
        let unexpected_count = self.registries[v].unexpected_count;
        self.registries.set(
            v,
            InterruptHandlerRegistry {
                handler: Some(handler),
                name: name.to_owned(),
                unexpected_count,
            },
        );
    }

    /// Dispatches `vector`, deciding what the bare interrupt stub must do.
    ///
    /// An internal vector (a CPU exception) is handed to its registered
    /// handler with nothing acknowledged. The spurious vectors are silently
    /// dropped. Any other external vector must arrive with interrupts
    /// disabled and outside any handler; the in-external-context flag is
    /// raised before this returns and stays raised while the stub runs the
    /// handler, so the handler observes it throughout its body; the stub
    /// lowers it with `finish_dispatch` before acknowledging the named
    /// controllers. An unexpected arrival is counted here.
    pub fn dispatch(&mut self, ints: &mut Interrupts, vector: u8) -> (outcome: DispatchOutcome)
        requires
            old(self).wf(),
            vector >= EXTERNAL_INTERRUPT_OFFSET ==> !old(ints).spec_enabled() && !old(ints).spec_external(),
            old(self).registries@[vector as int].unexpected_count < usize::MAX,
        ensures
            final(self).wf(),
            final(self).gates@ == old(self).gates@,
            final(ints).spec_enabled() == old(ints).spec_enabled(),
            old(ints).wf() ==> final(ints).wf(),
            (vector < EXTERNAL_INTERRUPT_OFFSET || is_spurious(vector)) ==> final(ints).spec_external() == old(ints).spec_external(),
            (vector >= EXTERNAL_INTERRUPT_OFFSET && !is_spurious(vector)) ==> final(ints).spec_external(),
            vector < EXTERNAL_INTERRUPT_OFFSET ==> final(self).registries@ == old(self).registries@ && outcome == (DispatchOutcome::Internal {
                handler: old(self).registries@[vector as int].handler,
            }),
            is_spurious(vector) ==> final(self).registries@ == old(self).registries@ && outcome
                == DispatchOutcome::Spurious,
            vector >= EXTERNAL_INTERRUPT_OFFSET && !is_spurious(vector) ==> {
                &&& outcome == (DispatchOutcome::External {
                    handler: old(self).registries@[vector as int].handler,
                    ack_master: true,
                    ack_slave: SLAVE_INTERRUPT_OFFSET <= vector < EXTERNAL_INTERRUPT_END,
                })
                &&& final(self).registries@[vector as int].handler == old(self).registries@[vector as int].handler
                &&& final(self).registries@[vector as int].name@ == old(self).registries@[vector as int].name@
                &&& final(self).registries@[vector as int].unexpected_count == old(self).registries@[vector as int].unexpected_count + (if old(self).registries@[vector as int].handler is None {
                    1int
                } else {
                    0int
                })
                &&& forall|k: int|
                    0 <= k < NUM_INTERRUPTS && k != vector ==> final(self).registries@[k] == old(self).registries@[k]
            },
    {
        let v = vector as usize;
        if vector < EXTERNAL_INTERRUPT_OFFSET {
            // An internal interrupt: no acknowledgement, no context flag.
            let handler = self.registries[v].handler;
            return DispatchOutcome::Internal { handler };
        }
        if vector == 0x27 || vector == 0x2f {
            // A spurious interrupt: silently dropped.
            return DispatchOutcome::Spurious;
        }
        // The external-context flag goes up here and stays up while the stub
        // runs the handler; `finish_dispatch` lowers it.
        ints.set_external_context(true);
        let handler = self.registries[v].handler;
        if handler.is_none() {
            // Unexpected interrupt: count it; the caller logs the name.
            let name = self.registries[v].name.clone();
            let unexpected_count = self.registries[v].unexpected_count;
            self.registries.set(
                v,
                InterruptHandlerRegistry {
                    handler: None,
                    name,
                    unexpected_count: unexpected_count + 1,
                },
            );
        }
        let ack_slave = SLAVE_INTERRUPT_OFFSET <= vector && vector < EXTERNAL_INTERRUPT_END;
        DispatchOutcome::External { handler, ack_master: true, ack_slave }
    }
}

impl InterruptHandlersRegistry {
    /// Ends an external dispatch: the handler has returned, so the
    /// in-external-context flag goes down again, before the controllers are
    /// acknowledged.
    pub fn finish_dispatch(&self, ints: &mut Interrupts)
        requires
            old(ints).spec_external(),
        ensures
            !final(ints).spec_external(),
            final(ints).spec_enabled() == old(ints).spec_enabled(),
            final(ints).wf(),
    {
        ints.set_external_context(false);
    }
}

/// The spurious vectors, which the dispatcher drops silently.
pub open spec fn is_spurious(vector: u8) -> bool {
    vector == 0x27 || vector == 0x2f
}

} // verus!
