use vstd::prelude::*;

verus! {

/// I/O port of the emulator's debug-exit device.
pub const ISA_DEBUG_EXIT_PORT: u16 = 0xf4;

/// Byte written on a clean shutdown.
pub const ISA_DEBUG_EXIT_CODE_SUCCESS: u8 = 0x31;

/// Byte written when the kernel shuts down after a panic.
pub const ISA_DEBUG_EXIT_CODE_FAILURE: u8 = 0x42;

/// The exit status the host observes when `code` is written to the
/// debug-exit port: the byte shifted up with the low bit set.
pub fn host_exit_status(code: u8) -> (r: u16)
    ensures
        r == (code as int) * 2 + 1,
{
    proof {
        assert(((code as u16) << 1u16) | 1 == (code as int) * 2 + 1) by (bit_vector);
    }
    ((code as u16) << 1) | 1
}

/// The write that powers the machine off cleanly; the host then sees the
/// success status.
pub fn power_off_write() -> (w: (u16, u8))
    ensures
        w == (ISA_DEBUG_EXIT_PORT, ISA_DEBUG_EXIT_CODE_SUCCESS),
        host_exit_status_spec(w.1) == 0x63,
{
    proof {
        assert((0x31u8 as int) * 2 + 1 == 0x63);
    }
    (ISA_DEBUG_EXIT_PORT, ISA_DEBUG_EXIT_CODE_SUCCESS)
}

/// The write that powers the machine off reporting failure; the host then
/// sees the failure status.
pub fn power_off_with_failure_write() -> (w: (u16, u8))
    ensures
        w == (ISA_DEBUG_EXIT_PORT, ISA_DEBUG_EXIT_CODE_FAILURE),
        host_exit_status_spec(w.1) == 0x85,
{
    (ISA_DEBUG_EXIT_PORT, ISA_DEBUG_EXIT_CODE_FAILURE)
}

/// The exit status the host observes for an exit byte.
pub open spec fn host_exit_status_spec(code: u8) -> int {
    (code as int) * 2 + 1
}

} // verus!
