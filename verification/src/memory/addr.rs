//! Address arithmetic of the x86_64 architecture, over plain `u64` addresses.
//!
//! Virtual and physical addresses are built by the `x86_64` crate; the
//! wrappers here state what its constructors do and when they panic.
use vstd::prelude::*;

verus! {

/// Size of a 4 KiB page or frame.
pub const PAGE_SIZE: u64 = 4096;

/// First address that no longer fits in the lower canonical half.
pub const LOWER_HALF_END: u64 = 0x0000_8000_0000_0000;

/// First address of the upper canonical half.
pub const UPPER_HALF_START: u64 = 0xffff_8000_0000_0000;

/// The bits that sign extension of bit 47 sets.
pub const SIGN_EXTENSION: u64 = 0xffff_0000_0000_0000;

/// Physical addresses have no bit set at or above this one.
pub const PHYS_ADDR_LIMIT: u64 = 0x0010_0000_0000_0000;

/// An address whose bits 48 to 63 are copies of bit 47.
pub open spec fn is_canonical(addr: int) -> bool {
    (0 <= addr < LOWER_HALF_END) || (UPPER_HALF_START <= addr <= u64::MAX)
}

/// The inputs on which `VirtAddr::new` returns: bits 48 to 63 are either all
/// clear or already a sign extension of bit 47.
pub open spec fn virt_addr_accepts(addr: int) -> bool {
    (0 <= addr < 0x1_0000_0000_0000) || (UPPER_HALF_START <= addr <= u64::MAX)
}

/// What `VirtAddr::new` makes of an accepted address: bit 47 is copied into
/// bits 48 to 63.
pub open spec fn canonicalize(addr: int) -> int {
    if LOWER_HALF_END <= addr < 0x1_0000_0000_0000 {
        addr + SIGN_EXTENSION
    } else {
        addr
    }
}

/// A physical address: no bit at or above bit 52 is set.
pub open spec fn is_phys_addr(addr: int) -> bool {
    0 <= addr < PHYS_ADDR_LIMIT
}

pub open spec fn is_page_aligned(addr: int) -> bool {
    addr % (PAGE_SIZE as int) == 0
}

/// `x86_64::VirtAddr::new`, then `as_u64`: the address with bit 47 copied
/// into bits 48 to 63. The crate panics when those bits already hold
/// anything else, so such inputs are left out.
#[verifier::external_body]
pub(crate) fn virt_addr_new(addr: u64) -> (r: u64)
    requires
        virt_addr_accepts(addr as int),
    ensures
        r as int == canonicalize(addr as int),
{
    x86_64::VirtAddr::new(addr).as_u64()
}

/// `x86_64::PhysAddr::new`, then `as_u64`: the address itself. The crate
/// panics when a bit at or above bit 52 is set, so such inputs are left out.
#[verifier::external_body]
pub(crate) fn phys_addr_new(addr: u64) -> (r: u64)
    requires
        is_phys_addr(addr as int),
    ensures
        r == addr,
{
    x86_64::PhysAddr::new(addr).as_u64()
}

/// `x86_64::structures::paging::PhysFrame::<Size4KiB>::from_start_address`
/// on a physical address: the frame that starts there when the address is
/// 4 KiB aligned, and the crate's `AddressNotAligned` error (here `None`)
/// otherwise.
#[verifier::external_body]
pub(crate) fn phys_frame_from_start_address(addr: u64) -> (r: Option<u64>)
    requires
        is_phys_addr(addr as int),
    ensures
        is_page_aligned(addr as int) ==> r == Some(addr),
        !is_page_aligned(addr as int) ==> r.is_none(),
{
    let start = x86_64::PhysAddr::new(addr);
    match x86_64::structures::paging::PhysFrame::<x86_64::structures::paging::Size4KiB>::from_start_address(start) {
        Ok(frame) => Some(frame.start_address().as_u64()),
        Err(_) => None,
    }
}

/// Whether `VirtAddr::new` takes the address.
pub fn virt_addr_accepted(addr: u64) -> (r: bool)
    ensures
        r == virt_addr_accepts(addr as int),
{
    addr < 0x1_0000_0000_0000 || addr >= UPPER_HALF_START
}

/// `VirtAddr - n`: the address `n` bytes lower, with bit 47 copied into
/// the high bits. `x86_64` panics when the subtraction underflows or when
/// `VirtAddr::new` refuses the difference, so those inputs are left out.
pub fn virt_addr_sub(addr: u64, n: u64) -> (r: u64)
    requires
        n <= addr,
        virt_addr_accepts(addr - n),
    ensures
        r as int == canonicalize(addr - n),
        is_canonical(r as int),
{
    virt_addr_new(addr - n)
}

/// The start of the 4 KiB page that holds `addr` (what
/// `Page::containing_address` computes: the address aligned down).
pub fn page_containing_address(addr: u64) -> (r: u64)
    ensures
        r as int == addr as int - addr as int % (PAGE_SIZE as int),
        is_page_aligned(r as int),
        r <= addr,
        is_page_aligned(addr as int) ==> r == addr,
{
    addr - addr % PAGE_SIZE
}

} // verus!
