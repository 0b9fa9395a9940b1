use vstd::prelude::*;

verus! {

use crate::PAGE_SIZE;

/// Base address of the 1:1 physical-to-virtual mapping. Physical memory is
/// mapped starting at this virtual address: physical address 0 is accessible
/// at `PHYS_BASE`, physical address 0x1234 at `PHYS_BASE + 0x1234`, and so
/// on.
///
/// This address also marks the end of user programs' address space.
pub const PHYS_BASE: u64 = 0x0100_0000_0000;

/// Returns `true` if `vaddr` is a user virtual address.
pub fn is_user_vaddr(vaddr: u64) -> (r: bool)
    ensures
        r == (vaddr < PHYS_BASE),
{
    vaddr < PHYS_BASE
}

/// Returns `true` if `vaddr` is a kernel virtual address.
pub fn is_kernel_vaddr(vaddr: u64) -> (r: bool)
    ensures
        r == (vaddr >= PHYS_BASE),
{
    vaddr >= PHYS_BASE
}

/// Returns the kernel virtual address at which physical address `paddr` is
/// mapped. An address beyond the mapped range is a fatal error in the kernel,
/// so it is excluded here.
pub fn ptov(paddr: u64) -> (r: u64)
    requires
        paddr < PHYS_BASE,
    ensures
        r == paddr + PHYS_BASE,
{
    paddr + PHYS_BASE
}

/// Returns the physical address at which kernel virtual address `vaddr` is
/// mapped.
pub fn vtop(vaddr: u64) -> (r: u64)
    requires
        vaddr >= PHYS_BASE,
    ensures
        r == vaddr - PHYS_BASE,
{
    vaddr - PHYS_BASE
}

/// Returns the page number of the page starting at `page_start`.
pub fn page_number(page_start: u64) -> (r: u64)
    ensures
        r == page_start / (PAGE_SIZE as u64),
{
    proof {
        assert(page_start >> 12u64 == page_start / 4096) by (bit_vector);
    }
    page_start >> 12
}

} // verus!
