//! Allocation of virtual pages: a bump allocator that hands out pages in
//! increasing address order, and the step that backs each page of a range
//! with a free physical frame.
use vstd::prelude::*;
use crate::memory::addr::{
    canonicalize, is_canonical, is_page_aligned, page_containing_address, virt_addr_accepted, virt_addr_accepts,
    virt_addr_new, PAGE_SIZE, UPPER_HALF_START,
};
use crate::memory::frame::FrameAllocator;

verus! {

/// Where the page allocator starts handing out pages.
pub const START_VIRTADDR: u64 = 0x0000_2000_0000_0000;

/// A page start: a 4 KiB aligned canonical virtual address.
pub open spec fn is_page_start(addr: int) -> bool {
    is_canonical(addr) && is_page_aligned(addr)
}

/// The inputs on which `page + n` does not panic: the byte offset and the
/// sum fit in 64 bits and `VirtAddr::new` takes the sum.
pub open spec fn page_add_accepts(page: int, n: int) -> bool {
    &&& n * 4096 <= u64::MAX
    &&& page + n * 4096 <= u64::MAX
    &&& virt_addr_accepts(page + n * 4096)
}

/// Whether `page + n` is accepted.
pub fn page_add_accepted(page: u64, n: u64) -> (r: bool)
    ensures
        r == page_add_accepts(page as int, n as int),
{
    if n > u64::MAX / PAGE_SIZE {
        return false;
    }
    let offset = n * PAGE_SIZE;
    if page > u64::MAX - offset {
        return false;
    }
    virt_addr_accepted(page + offset)
}

/// The page `n` pages after `page`.
pub open spec fn page_add_spec(page: int, n: int) -> int {
    canonicalize(page + n * 4096)
}

/// `page + n`: the page that starts `n` pages after `page`, with bit 47
/// copied into the high bits as `VirtAddr::new` does.
pub fn page_add(page: u64, n: u64) -> (r: u64)
    requires
        is_page_start(page as int),
        page_add_accepts(page as int, n as int),
    ensures
        r as int == page_add_spec(page as int, n as int),
        is_page_start(r as int),
        page <= r,
{
    let addr = virt_addr_new(page + n * PAGE_SIZE);
    page_containing_address(addr)
}

/// A range of pages by start address, `end` exclusive.
#[derive(Clone, Copy, Debug, PartialEq, Eq)]
pub struct PageRange {
    pub start: u64,
    pub end: u64,
}

impl PageRange {
    /// Both ends are page starts.
    pub open spec fn wf(&self) -> bool {
        is_page_start(self.start as int) && is_page_start(self.end as int)
    }

    /// Whether no page is left in the range.
    pub fn is_empty(&self) -> (r: bool)
        ensures
            r == (self.start >= self.end),
    {
        self.start >= self.end
    }

    /// Takes the first page of the range, or `None` when the range is empty.
    /// Pages come out in increasing address order, each inside the range.
    pub fn next(&mut self) -> (r: Option<u64>)
        requires
            old(self).wf(),
        ensures
            final(self).wf(),
            final(self).end == old(self).end,
            old(self).start >= old(self).end ==> r.is_none() && *final(self) == *old(self),
            old(self).start < old(self).end ==> {
                &&& r == Some(old(self).start)
                &&& final(self).start as int == page_add_spec(old(self).start as int, 1)
                &&& old(self).start < final(self).start <= final(self).end
            },
    {
        if self.start < self.end {
            let page = self.start;
            proof {
                lemma_next_page_accepted(self.start, self.end);
            }
            self.start = page_add(page, 1);
            Some(page)
        } else {
            None
        }
    }
}

/// Below a page start there is room for one more page, and the next page
/// does not pass it.
proof fn lemma_next_page_accepted(start: u64, end: u64)
    requires
        is_page_start(start as int),
        is_page_start(end as int),
        start < end,
    ensures
        page_add_accepts(start as int, 1),
        start < page_add_spec(start as int, 1) <= end,
{
    assert(end <= 0xffff_ffff_ffff_f000u64);
}

/// Bump allocator of virtual pages.
pub struct PageAllocator {
    current_page: u64,
}

impl PageAllocator {
    /// The next page to hand out is a page start.
    pub closed spec fn wf(&self) -> bool {
        is_page_start(self.current_page as int)
    }

    /// The next page to hand out.
    pub closed spec fn current(&self) -> u64 {
        self.current_page
    }

    pub proof fn lemma_wf(&self)
        requires
            self.wf(),
        ensures
            is_page_start(self.current() as int),
    {
    }

    /// An allocator whose first page is the one that holds `START_VIRTADDR`.
    pub fn new() -> (r: Self)
        ensures
            r.wf(),
            r.current() == START_VIRTADDR,
    {
        PageAllocator { current_page: page_containing_address(START_VIRTADDR) }
    }

    /// The next page to hand out.
    pub fn current_page(&self) -> (r: u64)
        ensures
            r == self.current(),
    {
        self.current_page
    }

    /// Hands out the next page.
    pub fn alloc_page(&mut self) -> (page: u64)
        requires
            old(self).wf(),
            page_add_accepts(old(self).current() as int, 1),
        ensures
            final(self).wf(),
            (page as int, final(self).current() as int) == alloc_page_outcome(
                old(self).current() as int,
            ),
            page == old(self).current(),
            final(self).current() as int == page_add_spec(page as int, 1),
            page < final(self).current(),
    {
        let page = self.current_page;
        self.current_page = page_add(page, 1);
        page
    }

    /// Hands out the next `n` pages as one range.
    pub fn alloc_pages(&mut self, n: u64) -> (pages: PageRange)
        requires
            old(self).wf(),
            page_add_accepts(old(self).current() as int, n as int),
        ensures
            final(self).wf(),
            pages.wf(),
            (pages.start as int, pages.end as int) == alloc_pages_outcome(
                old(self).current() as int,
                n as int,
            ),
            pages.start == old(self).current(),
            pages.end == final(self).current(),
            final(self).current() as int == page_add_spec(old(self).current() as int, n as int),
            pages.start <= pages.end,
    {
        let start = self.current_page;
        self.current_page = page_add(start, n);
        PageRange { start, end: self.current_page }
    }
}

/// What `alloc_page` gives on an allocator at `current`: the page handed
/// out and the allocator's next page.
pub open spec fn alloc_page_outcome(current: int) -> (int, int) {
    (current, page_add_spec(current, 1))
}

/// What `alloc_pages(n)` gives on an allocator at `current`: the range
/// handed out, whose end is the allocator's next page.
pub open spec fn alloc_pages_outcome(current: int, n: int) -> (int, int) {
    (current, page_add_spec(current, n))
}

/// Handing out one page is handing out a range of one page: same page and
/// same next page (and both ask `page_add_accepts(current, 1)`).
pub proof fn lemma_alloc_page_is_alloc_one_page(current: u64)
    ensures
        alloc_page_outcome(current as int) == alloc_pages_outcome(current as int, 1),
{
}

/// Two allocations in a row hand out the range that one allocation of both
/// sizes would, split where the first ends: the second starts where the
/// first ended and ends where the single one would (wherever all three are
/// accepted).
pub proof fn lemma_alloc_pages_split(current: u64, a: u64, b: u64)
    requires
        is_page_start(current as int),
        page_add_accepts(current as int, a as int),
        page_add_accepts(page_add_spec(current as int, a as int), b as int),
        page_add_accepts(current as int, a + b),
    ensures
        alloc_pages_outcome(current as int, a as int).1 == alloc_pages_outcome(
            page_add_spec(current as int, a as int),
            b as int,
        ).0,
        alloc_pages_outcome(page_add_spec(current as int, a as int), b as int).1
            == alloc_pages_outcome(current as int, a + b).1,
{
}

/// Ranges handed out one after the other do not overlap: each starts where
/// the one before it ended, and the allocator never moves backwards.
pub proof fn lemma_allocations_disjoint(current: u64, n: u64, m: u64)
    requires
        is_page_start(current as int),
        page_add_accepts(current as int, n as int),
        page_add_accepts(page_add_spec(current as int, n as int), m as int),
    ensures
        is_page_start(page_add_spec(current as int, n as int)),
        current <= page_add_spec(current as int, n as int) <= page_add_spec(
            page_add_spec(current as int, n as int),
            m as int,
        ),
{
    lemma_page_add(current as int, n as int);
    lemma_page_add(page_add_spec(current as int, n as int), m as int);
}

proof fn lemma_page_add(page: int, n: int)
    requires
        is_page_start(page),
        0 <= n,
        page_add_accepts(page, n),
    ensures
        is_page_start(page_add_spec(page, n)),
        page <= page_add_spec(page, n),
{
    assert(is_page_aligned(page + n * 4096));
}

/// What the next step of backing a page range with frames asks for.
#[derive(Clone, Copy, Debug, PartialEq, Eq)]
pub enum MapStep {
    /// Map `page` to `frame`.
    MapTo { page: u64, frame: u64 },
    /// `page` is next but no frame is left.
    OutOfFrames { page: u64 },
    /// Every page of the range has been handled.
    Done,
}

/// Takes the next page of `pages` and a free frame for it.
pub fn next_mapping(pages: &mut PageRange, frames: &mut FrameAllocator) -> (step: MapStep)
    requires
        old(pages).wf(),
        old(frames).wf(),
    ensures
        final(pages).wf(),
        final(frames).wf(),
        final(pages).end == old(pages).end,
        old(pages).start >= old(pages).end ==> step == MapStep::Done && *final(pages) == *old(
            pages,
        ) && final(frames)@ == old(frames)@,
        old(pages).start < old(pages).end ==> final(pages).start as int == page_add_spec(
            old(pages).start as int,
            1,
        ),
        old(pages).start < old(pages).end && old(frames)@.len() == 0 ==> step
            == (MapStep::OutOfFrames { page: old(pages).start }) && final(frames)@ == old(frames)@,
        old(pages).start < old(pages).end && old(frames)@.len() > 0 ==> step == (MapStep::MapTo {
            page: old(pages).start,
            frame: old(frames)@.last(),
        }) && final(frames)@ == old(frames)@.drop_last(),
{
    match pages.next() {
        None => MapStep::Done,
        Some(page) => match frames.pop() {
            Some(frame) => MapStep::MapTo { page, frame },
            None => MapStep::OutOfFrames { page },
        },
    }
}

} // verus!
