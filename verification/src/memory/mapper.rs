//! The window through which the kernel sees physical memory: a physical
//! address `p` is reachable at virtual address `p + PHYS_OFFSET`, with bit
//! 47 copied into bits 48 to 63 (so a sum at or above 2^47 shows up in the
//! upper half), for every `p` whose sum lies below 2^48.
use vstd::prelude::*;
use crate::memory::addr::{
    canonicalize, is_canonical, is_phys_addr, phys_addr_new, virt_addr_accepts, virt_addr_new,
    LOWER_HALF_END, PHYS_ADDR_LIMIT,
};

verus! {

/// Offset of the physical-memory window in the virtual address space.
pub const PHYS_OFFSET: u64 = 0x0000001000000000;

/// The physical addresses that `to_virt` accepts: those whose window address
/// `VirtAddr::new` takes.
pub open spec fn to_virt_accepts(phys: int) -> bool {
    is_phys_addr(phys) && virt_addr_accepts(phys + PHYS_OFFSET)
}

/// The virtual address at which a physical address is seen.
pub open spec fn to_virt_spec(phys: int) -> int {
    canonicalize(phys + PHYS_OFFSET)
}

/// The virtual addresses that `to_phys` accepts: canonical addresses inside
/// the window whose physical address `PhysAddr::new` takes.
pub open spec fn to_phys_accepts(virt: int) -> bool {
    is_canonical(virt) && virt >= PHYS_OFFSET && is_phys_addr(virt - PHYS_OFFSET)
}

/// The virtual address at which the window shows a physical address.
pub fn to_virt(phys: u64) -> (virt: u64)
    requires
        to_virt_accepts(phys as int),
    ensures
        virt as int == to_virt_spec(phys as int),
        is_canonical(virt as int),
{
    let p = phys_addr_new(phys);
    virt_addr_new(p + PHYS_OFFSET)
}

/// The physical address behind a virtual address of the window.
pub fn to_phys(virt: u64) -> (phys: u64)
    requires
        to_phys_accepts(virt as int),
    ensures
        phys as int == virt as int - PHYS_OFFSET,
        is_phys_addr(phys as int),
{
    phys_addr_new(virt - PHYS_OFFSET)
}

/// The virtual address of the active level 4 page table, whose physical
/// address the CR3 register holds, when all physical memory is mapped at
/// `physical_memory_offset` (`VirtAddr + u64`).
pub fn level_4_table_address(physical_memory_offset: u64, table_phys: u64) -> (r: u64)
    requires
        physical_memory_offset + table_phys <= u64::MAX,
        virt_addr_accepts(physical_memory_offset + table_phys),
    ensures
        r as int == canonicalize(physical_memory_offset + table_phys),
{
    virt_addr_new(physical_memory_offset + table_phys)
}

/// Reading back through the window gives the physical address that went in,
/// for every physical address whose window address lies in the lower half.
/// (Above that, `VirtAddr::new` sign-extends the address and `to_phys`
/// refuses the result.)
pub proof fn lemma_to_phys_undoes_to_virt(phys: u64)
    requires
        is_phys_addr(phys as int),
        phys as int + PHYS_OFFSET < LOWER_HALF_END,
    ensures
        to_virt_accepts(phys as int),
        to_phys_accepts(to_virt_spec(phys as int)),
        to_virt_spec(phys as int) - PHYS_OFFSET == phys,
{
}

/// Every address that `to_phys` accepts comes back unchanged through
/// `to_virt`.
pub proof fn lemma_to_virt_undoes_to_phys(virt: u64)
    requires
        to_phys_accepts(virt as int),
    ensures
        to_virt_accepts(virt as int - PHYS_OFFSET),
        to_virt_spec(virt as int - PHYS_OFFSET) == virt,
{
}

} // verus!
