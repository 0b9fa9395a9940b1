use vstd::prelude::*;

verus! {

/// Master PIC control register address.
pub const PIC0_CONTROL: u16 = 0x20;

/// Master PIC data register address.
pub const PIC0_DATA: u16 = 0x21;

/// Slave PIC control register address.
pub const PIC1_CONTROL: u16 = 0xa0;

/// Slave PIC data register address.
pub const PIC1_DATA: u16 = 0xa1;

/// The end-of-interrupt command byte.
pub const EOI_COMMAND: u8 = 0x20;

/// One 8259A programmable interrupt controller, delivering its eight IRQ
/// lines to the interrupt vectors `offset..offset + 8`.
pub struct Pic {
    /// First interrupt vector this controller delivers.
    pub offset: u8,
}

impl Pic {
    /// Returns `true` if `interrupt_id` is delivered by this controller.
    pub fn can_handle(&self, interrupt_id: u8) -> (r: bool)
        ensures
            r == (self.offset <= interrupt_id < self.offset + 8),
    {
        interrupt_id >= self.offset && interrupt_id - self.offset < 8
    }
}

/// The PC's pair of 8259A programmable interrupt controllers: the master, and
/// the slave cascaded on the master's IRQ line 2.
///
/// By default the PICs deliver interrupts 0..15 to vectors 0..15, which also
/// carry CPU traps and exceptions, so initialization reprograms them to
/// vectors `offset..offset + 15`. The controllers themselves are reached over
/// I/O ports; here each operation returns the sequence of
/// `(port, byte)` writes it performs, in order.
pub struct Pics(pub Pic, pub Pic);

impl Pics {
    /// Creates a new pair of PICs with the given vector offset.
    pub fn new(offset: u8) -> (r: Pics)
        requires
            offset + 8 <= u8::MAX,
        ensures
            r.0.offset == offset,
            r.1.offset == offset + 8,
    {
        Pics(Pic { offset }, Pic { offset: offset + 8 })
    }

    /// Computes the initialization sequence for both controllers: mask all
    /// interrupts, send the four initialization command words to each
    /// controller, then unmask all interrupts.
    pub fn init(&self) -> (writes: Vec<(u16, u8)>)
        ensures
            writes@ =~= spec_pics_init_writes(self.0.offset, self.1.offset),
    {
        let mut writes: Vec<(u16, u8)> = Vec::new();
        // Mask all interrupts on both PICs.
        writes.push((PIC0_DATA, 0xff));
        writes.push((PIC1_DATA, 0xff));
        // Initialize master: single mode, edge triggered, expect the fourth
        // word; route lines to the offset; slave on line 2; 8086 mode.
        writes.push((PIC0_CONTROL, 0x11));
        writes.push((PIC0_DATA, self.0.offset));
        writes.push((PIC0_DATA, 0x04));
        writes.push((PIC0_DATA, 0x01));
        // Initialize slave the same way; its cascade identity is 2.
        writes.push((PIC1_CONTROL, 0x11));
        writes.push((PIC1_DATA, self.1.offset));
        writes.push((PIC1_DATA, 0x02));
        writes.push((PIC1_DATA, 0x01));
        // Unmask all interrupts.
        writes.push((PIC0_DATA, 0x00));
        writes.push((PIC1_DATA, 0x00));
        writes
    }

    /// Computes the end-of-interrupt acknowledgement for `interrupt_id`: the
    /// master PIC is always acknowledged, and the slave PIC as well if the
    /// interrupt is in its range. An id outside both controllers is a fatal
    /// error in the kernel, so it is excluded here.
    pub fn end_of_interrupt(&self, interrupt_id: u8) -> (writes: Vec<(u16, u8)>)
        requires
            self.0.offset <= interrupt_id < self.0.offset + 8 || self.1.offset <= interrupt_id
                < self.1.offset + 8,
        ensures
            writes@ =~= if self.1.offset <= interrupt_id < self.1.offset + 8 {
                seq![(PIC0_CONTROL, EOI_COMMAND), (PIC1_CONTROL, EOI_COMMAND)]
            } else {
                seq![(PIC0_CONTROL, EOI_COMMAND)]
            },
    {
        let mut writes: Vec<(u16, u8)> = Vec::new();
        writes.push((PIC0_CONTROL, EOI_COMMAND));
        if self.1.can_handle(interrupt_id) {
            writes.push((PIC1_CONTROL, EOI_COMMAND));
        }
        writes
    }
}

/// The port writes that initialize the two controllers, in order.
pub open spec fn spec_pics_init_writes(master_offset: u8, slave_offset: u8) -> Seq<(u16, u8)> {
    seq![
        (PIC0_DATA, 0xffu8),
        (PIC1_DATA, 0xffu8),
        (PIC0_CONTROL, 0x11u8),
        (PIC0_DATA, master_offset),
        (PIC0_DATA, 0x04u8),
        (PIC0_DATA, 0x01u8),
        (PIC1_CONTROL, 0x11u8),
        (PIC1_DATA, slave_offset),
        (PIC1_DATA, 0x02u8),
        (PIC1_DATA, 0x01u8),
        (PIC0_DATA, 0x00u8),
        (PIC1_DATA, 0x00u8),
    ]
}

} // verus!
