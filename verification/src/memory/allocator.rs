//! The kernel heap: where it lives and which pages back it.
use vstd::prelude::*;
use crate::memory::addr::{virt_addr_new, page_containing_address};
use crate::memory::page_alloc::{page_add, PageRange};

verus! {

/// First address of the kernel heap (a 64-bit address, so `u64`).
pub const HEAP_START: u64 = 0x0000_1000_0000_0000;

/// Size of the kernel heap in bytes.
pub const HEAP_SIZE: usize = 1000 * 1024;

/// The pages that back the heap: from the page holding its first byte to
/// the page holding its last byte, both included.
pub fn heap_page_range() -> (r: PageRange)
    ensures
        r.wf(),
        r.start == HEAP_START,
        r.end == HEAP_START + 250 * 4096,
        r.end == HEAP_START + HEAP_SIZE,
{
    let heap_start = virt_addr_new(HEAP_START);
    let heap_end = virt_addr_new(virt_addr_new(heap_start + HEAP_SIZE as u64) - 1);
    let heap_start_page = page_containing_address(heap_start);
    let heap_end_page = page_containing_address(heap_end);
    PageRange { start: heap_start_page, end: page_add(heap_end_page, 1) }
}

} // verus!
