//! Allocation of 4 KiB physical frames from the usable regions of the boot
//! memory map.
//!
//! The allocator hands out every usable frame of the map except the first
//! few, which are reserved for the nodes of the free list: one node of
//! `FRAME_NODE_SIZE` bytes per handed-out frame, `NODES_PER_FRAME` nodes per
//! reserved frame, each reached through the physical-memory window.
//! `FrameAllocator::list_node` gives each node (where it goes, the frame it
//! describes, the node it links to) for the kernel to store. Each node links
//! to the one before it, so the list runs from the last usable frame back
//! to the first handed-out one; `FrameAllocator::pop` hands frames out in
//! that order, keeping its place with a cursor over the map rather than by
//! reading the stored nodes.
use vstd::prelude::*;
use crate::memory::addr::{
    canonicalize, is_page_aligned, is_phys_addr, phys_addr_new, phys_frame_from_start_address,
    PAGE_SIZE, PHYS_ADDR_LIMIT,
};
use crate::memory::mapper::{to_virt, to_virt_accepts, to_virt_spec, PHYS_OFFSET};

verus! {

/// Size in bytes of one free-list node: a physical address and a link to
/// the next node.
pub const FRAME_NODE_SIZE: usize = 16;

/// Number of free-list nodes that one reserved frame holds.
pub const NODES_PER_FRAME: usize = 4096 / FRAME_NODE_SIZE;

/// What the boot loader says a region of physical memory is used for.
#[derive(Clone, Copy, Debug, PartialEq, Eq)]
pub enum MemoryRegionType {
    Usable,
    InUse,
    Reserved,
    AcpiReclaimable,
    AcpiNvs,
    BadMemory,
    Kernel,
    KernelStack,
    PageTable,
    Bootloader,
    FrameZero,
    Empty,
    BootInfo,
    Package,
    NonExhaustive,
}

/// A range of physical frames, by frame number, end exclusive.
#[derive(Clone, Copy, Debug, PartialEq, Eq)]
pub struct FrameRange {
    pub start_frame_number: u64,
    pub end_frame_number: u64,
}

/// One region of the boot memory map.
#[derive(Clone, Copy, Debug, PartialEq, Eq)]
pub struct MemoryRegion {
    pub range: FrameRange,
    pub region_type: MemoryRegionType,
}

impl FrameRange {
    /// Physical address of the first frame.
    pub fn start_addr(&self) -> (r: u64)
        requires
            self.start_frame_number * 4096 <= u64::MAX,
        ensures
            r == self.start_frame_number * 4096,
    {
        self.start_frame_number * PAGE_SIZE
    }

    /// Physical address just past the last frame.
    pub fn end_addr(&self) -> (r: u64)
        requires
            self.end_frame_number * 4096 <= u64::MAX,
        ensures
            r == self.end_frame_number * 4096,
    {
        self.end_frame_number * PAGE_SIZE
    }
}

pub open spec fn is_usable(r: MemoryRegion) -> bool {
    r.region_type is Usable
}

/// The frames that a region contributes: for a usable region, the start
/// address of each of its frames in increasing order; nothing otherwise.
pub open spec fn region_frames(r: MemoryRegion) -> Seq<u64> {
    let s = r.range.start_frame_number as int;
    let e = r.range.end_frame_number as int;
    if is_usable(r) && s < e {
        Seq::new((e - s) as nat, |j: int| ((s + j) * 4096) as u64)
    } else {
        Seq::empty()
    }
}

/// All usable frames of a memory map, region by region, in map order.
pub open spec fn usable_frames(rs: Seq<MemoryRegion>) -> Seq<u64>
    decreases rs.len(),
{
    if rs.len() == 0 {
        Seq::empty()
    } else {
        usable_frames(rs.drop_last()) + region_frames(rs.last())
    }
}

/// Number of frames set aside to hold the list of `n` frames.
pub open spec fn reserved_frame_count(n: int) -> int {
    (n + NODES_PER_FRAME - 1) / (NODES_PER_FRAME as int)
}

/// Physical address of the list node that describes the `j`-th handed-out
/// frame: nodes are packed into the reserved frames in order.
pub open spec fn node_address(frames: Seq<u64>, j: int) -> int {
    frames[j / (NODES_PER_FRAME as int)] + (j % (NODES_PER_FRAME as int)) * (FRAME_NODE_SIZE as int)
}

/// The frames that an allocator built from the map hands out, in list
/// order (the last one is handed out first).
pub open spec fn free_frames(rs: Seq<MemoryRegion>) -> Seq<u64> {
    let f = usable_frames(rs);
    f.subrange(reserved_frame_count(f.len() as int), f.len() as int)
}

/// The memory maps on which building the allocator does not panic: the
/// addresses of usable regions fit in 64 bits, the frame count leaves room
/// for the rounding, every handed-out frame is a physical address, and
/// every list node lies in the physical-memory window.
pub open spec fn memory_map_accepted(rs: Seq<MemoryRegion>) -> bool {
    let f = usable_frames(rs);
    let n = f.len() as int;
    let reserved = reserved_frame_count(n);
    &&& usable_regions_in_range(rs)
    &&& n + NODES_PER_FRAME <= usize::MAX
    &&& forall|t: int| reserved <= t < n ==> is_phys_addr(#[trigger] f[t] as int)
    &&& forall|j: int|
        0 <= j < n - reserved ==> to_virt_accepts(#[trigger] node_address(f, j))
}

/// The start and end addresses of every usable region fit in 64 bits.
pub open spec fn usable_regions_in_range(rs: Seq<MemoryRegion>) -> bool {
    forall|i: int|
        0 <= i < rs.len() && is_usable(#[trigger] rs[i]) ==> rs[i].range.start_frame_number * 4096
            <= u64::MAX && rs[i].range.end_frame_number * 4096 <= u64::MAX
}

/// The usable regions of the map do not overlap.
pub open spec fn usable_regions_disjoint(rs: Seq<MemoryRegion>) -> bool {
    forall|i: int, k: int|
        0 <= i < rs.len() && 0 <= k < rs.len() && i != k && is_usable(#[trigger] rs[i])
            && is_usable(#[trigger] rs[k]) ==> rs[i].range.end_frame_number
            <= rs[k].range.start_frame_number || rs[k].range.end_frame_number
            <= rs[i].range.start_frame_number
}

/// One node of the free list, as it is stored in a reserved frame.
#[derive(Clone, Copy, Debug, PartialEq, Eq)]
pub struct FrameNode {
    /// Virtual address, in the physical-memory window, where the node is
    /// stored.
    pub slot: u64,
    /// The free frame that the node describes.
    pub frame: u64,
    /// Where the node it links to is stored; the first node links to none.
    pub next: Option<u64>,
}

/// Virtual address of the `j`-th list node.
pub open spec fn node_slot(frames: Seq<u64>, j: int) -> int {
    to_virt_spec(node_address(frames, j))
}

/// The `j`-th node of the free list built from the map: it describes the
/// `j`-th free frame and links to the node before it, so that the last node
/// is the head of the list and frames are taken from the back.
pub open spec fn list_node(rs: Seq<MemoryRegion>, j: int) -> FrameNode {
    let f = usable_frames(rs);
    let reserved = reserved_frame_count(f.len() as int);
    FrameNode {
        slot: node_slot(f, j) as u64,
        frame: f[reserved + j],
        next: if j == 0 {
            None
        } else {
            Some(node_slot(f, j - 1) as u64)
        },
    }
}

/// The `t`-th usable frame of the map.
fn usable_frame_at(memory_map: &[MemoryRegion], t: usize) -> (r: u64)
    requires
        usable_regions_in_range(memory_map@),
        t < usable_frames(memory_map@).len(),
    ensures
        r == usable_frames(memory_map@)[t as int],
{
    let ghost rs = memory_map@;
    let mut before: usize = 0;
    let mut i: usize = 0;
    while i < memory_map.len()
        invariant
            rs == memory_map@,
            usable_regions_in_range(rs),
            t < usable_frames(rs).len(),
            i <= memory_map.len(),
            before == usable_frames(rs.take(i as int)).len(),
            before <= t,
        decreases memory_map.len() - i,
    {
        proof {
            lemma_usable_frames_step(rs, i as int);
            lemma_usable_frames_prefix(rs, i as int + 1);
        }
        let region = memory_map[i];
        let count = region_frame_count(&region);
        if ((t - before) as u64) < count {
            let ghost pre = usable_frames(rs.take(i as int));
            let ghost rf = region_frames(region);
            assert((pre + rf)[t as int] == rf[t - before]);
            assert(usable_frames(rs.take(i as int + 1))[t as int] == usable_frames(rs)[t as int]);
            return region.range.start_addr() + (t - before) as u64 * PAGE_SIZE;
        }
        before = before + count as usize;
        i = i + 1;
    }
    proof {
        assert(rs.take(rs.len() as int) =~= rs);
    }
    0
}

/// Free-frame allocator over a boot memory map.
///
/// The free frames are the usable frames of the map after the reserved
/// ones; they are handed out from the last one backwards, the order of the
/// free list from its head. A cursor over the map (a region and the number
/// of that region's frames still free) marks the next frame to hand out;
/// the allocator does not read the stored list nodes.
pub struct FrameAllocator<'a> {
    map: &'a [MemoryRegion],
    total: usize,
    reserved: usize,
    remaining: usize,
    region: usize,
    in_region: usize,
}

impl<'a> View for FrameAllocator<'a> {
    type V = Seq<u64>;

    /// The free frames; the last one is handed out next.
    closed spec fn view(&self) -> Seq<u64> {
        usable_frames(self.map@).subrange(self.reserved as int, self.remaining as int)
    }
}

/// Number of frames that a region contributes.
fn region_frame_count(r: &MemoryRegion) -> (count: u64)
    requires
        is_usable(*r) ==> r.range.start_frame_number * 4096 <= u64::MAX
            && r.range.end_frame_number * 4096 <= u64::MAX,
    ensures
        count == region_frames(*r).len(),
{
    if let MemoryRegionType::Usable = r.region_type {
        let s = r.range.start_addr();
        let e = r.range.end_addr();
        if s < e {
            let count = (e - s) / PAGE_SIZE;
            assert(count == r.range.end_frame_number - r.range.start_frame_number);
            return count;
        }
    }
    0
}

impl<'a> FrameAllocator<'a> {
    /// The cursor agrees with the count of free frames, and every free frame
    /// is one the map accepts.
    pub closed spec fn wf(&self) -> bool {
        let rs = self.map@;
        let n = usable_frames(rs).len();
        &&& memory_map_accepted(rs)
        &&& self.total == n
        &&& self.reserved == reserved_frame_count(n as int)
        &&& self.reserved <= self.remaining <= n
        &&& self.region <= rs.len()
        &&& self.remaining == usable_frames(rs.take(self.region as int)).len() + self.in_region
        &&& self.region < rs.len() ==> self.in_region <= region_frames(rs[self.region as int]).len()
        &&& self.region == rs.len() ==> self.in_region == 0
    }

    /// Every free frame is a 4 KiB aligned physical address.
    pub proof fn lemma_wf(&self)
        requires
            self.wf(),
        ensures
            forall|t: int|
                0 <= t < self@.len() ==> is_page_aligned(#[trigger] self@[t] as int)
                    && is_phys_addr(self@[t] as int),
    {
        let rs = self.map@;
        let f = usable_frames(rs);
        assert forall|t: int| 0 <= t < self@.len() implies is_page_aligned(
            #[trigger] self@[t] as int,
        ) && is_phys_addr(self@[t] as int) by {
            assert(self@[t] == f[self.reserved + t]);
            lemma_frame_in_region(rs, self.reserved + t);
        }
    }

    /// Number of frames still free.
    pub fn len(&self) -> (r: usize)
        requires
            self.wf(),
        ensures
            r == self@.len(),
    {
        self.remaining - self.reserved
    }

    pub fn is_empty(&self) -> (r: bool)
        requires
            self.wf(),
        ensures
            r == (self@.len() == 0),
    {
        self.remaining == self.reserved
    }

    /// Number of nodes of the free list as built: one per frame handed out
    /// over the allocator's life.
    pub closed spec fn list_len_spec(&self) -> nat {
        free_frames(self.map@).len()
    }

    /// The map the allocator was built from.
    pub closed spec fn memory_map(&self) -> Seq<MemoryRegion> {
        self.map@
    }

    pub fn list_len(&self) -> (r: usize)
        requires
            self.wf(),
        ensures
            r == self.list_len_spec(),
            r == free_frames(self.memory_map()).len(),
    {
        proof {
            lemma_reserved_frame_count(self.total as int);
        }
        self.total - self.reserved
    }

    /// The `j`-th node of the free list: where it is stored, the frame it
    /// describes and the node it links to. Writing every node, from the
    /// first to the last, lays the list out in the reserved frames.
    pub fn list_node(&self, j: usize) -> (r: FrameNode)
        requires
            self.wf(),
            j < self.list_len_spec(),
        ensures
            r == list_node(self.memory_map(), j as int),
    {
        let ghost rs = self.map@;
        let ghost f = usable_frames(rs);
        proof {
            lemma_reserved_frame_count(self.total as int);
            lemma_node_frame(j as int, self.total as int);
            assert(NODES_PER_FRAME == 256);
            assert(FRAME_NODE_SIZE == 16);
        }
        let frame = usable_frame_at(self.map, self.reserved + j);
        let slot = self.node_slot(j);
        let next = if j == 0 {
            None
        } else {
            Some(self.node_slot(j - 1))
        };
        FrameNode { slot, frame, next }
    }

    /// Virtual address of the `j`-th list node.
    fn node_slot(&self, j: usize) -> (r: u64)
        requires
            self.wf(),
            j < self.list_len_spec(),
        ensures
            r == node_slot(usable_frames(self.memory_map()), j as int),
    {
        let ghost f = usable_frames(self.map@);
        proof {
            lemma_reserved_frame_count(self.total as int);
            lemma_node_frame(j as int, self.total as int);
            assert(NODES_PER_FRAME == 256);
            assert(FRAME_NODE_SIZE == 16);
            assert(to_virt_accepts(node_address(f, j as int)));
        }
        let holder = usable_frame_at(self.map, j / NODES_PER_FRAME);
        let offset = (j % NODES_PER_FRAME) as u64 * (FRAME_NODE_SIZE as u64);
        to_virt(holder + offset)
    }

    /// Builds the allocator from the boot memory map: counts the usable
    /// frames and reserves the first of them for the free list's nodes.
    pub fn new(memory_map: &'a [MemoryRegion]) -> (r: Self)
        requires
            memory_map_accepted(memory_map@),
        ensures
            r.wf(),
            r.memory_map() == memory_map@,
            r@ == free_frames(memory_map@),
            r.list_len_spec() == free_frames(memory_map@).len(),
    {
        let ghost rs = memory_map@;
        let mut frames_n: usize = 0;
        let mut i: usize = 0;
        while i < memory_map.len()
            invariant
                rs == memory_map@,
                memory_map_accepted(rs),
                i <= memory_map.len(),
                frames_n == usable_frames(rs.take(i as int)).len(),
            decreases memory_map.len() - i,
        {
            proof {
                lemma_usable_frames_step(rs, i as int);
                lemma_usable_frames_prefix(rs, i as int + 1);
            }
            let count = region_frame_count(&memory_map[i]);
            frames_n = frames_n + count as usize;
            i = i + 1;
        }
        proof {
            assert(rs.take(rs.len() as int) =~= rs);
            assert(NODES_PER_FRAME == 256);
            lemma_reserved_frame_count(frames_n as int);
        }
        let need_frames = (frames_n + NODES_PER_FRAME - 1) / NODES_PER_FRAME;
        FrameAllocator {
            map: memory_map,
            total: frames_n,
            reserved: need_frames,
            remaining: frames_n,
            region: memory_map.len(),
            in_region: 0,
        }
    }

    /// Hands out a free frame: the last one of the free frames, or `None`
    /// when no frame is left.
    pub fn pop(&mut self) -> (r: Option<u64>)
        requires
            old(self).wf(),
        ensures
            final(self).wf(),
            final(self).memory_map() == old(self).memory_map(),
            final(self).list_len_spec() == old(self).list_len_spec(),
            old(self)@.len() == 0 ==> r.is_none() && final(self)@ == old(self)@,
            old(self)@.len() > 0 ==> r == Some(old(self)@.last()) && final(self)@ == old(
                self,
            )@.drop_last(),
    {
        if self.remaining == self.reserved {
            return None;
        }
        let ghost rs = self.map@;
        let ghost f = usable_frames(rs);
        let ghost old_view = self@;
        while self.in_region == 0
            invariant
                rs == self.map@,
                f == usable_frames(rs),
                old_view == f.subrange(self.reserved as int, self.remaining as int),
                self.wf(),
                self.remaining > self.reserved,
            decreases self.region,
        {
            proof {
                if self.region == 0 {
                    assert(rs.take(0) =~= Seq::<MemoryRegion>::empty());
                }
                lemma_usable_frames_step(rs, self.region - 1);
            }
            self.region = self.region - 1;
            proof {
                lemma_usable_frames_prefix(rs, self.region as int + 1);
            }
            let count = region_frame_count(&self.map[self.region]);
            self.in_region = count as usize;
        }
        proof {
            lemma_usable_frames_step(rs, self.region as int);
            lemma_usable_frames_prefix(rs, self.region as int + 1);
        }
        let region = self.map[self.region];
        let ghost rf = region_frames(region);
        let ghost pre = usable_frames(rs.take(self.region as int));
        self.in_region = self.in_region - 1;
        self.remaining = self.remaining - 1;
        assert(self.remaining == pre.len() + self.in_region);
        assert(usable_frames(rs.take(self.region as int + 1)) == pre + rf);
        assert((pre + rf)[self.remaining as int] == rf[self.in_region as int]);
        assert(usable_frames(rs.take(self.region as int + 1))[self.remaining as int] == f[self.remaining as int]);
        assert(f[self.remaining as int] == rf[self.in_region as int]);
        let addr = region.range.start_addr() + self.in_region as u64 * PAGE_SIZE;
        let addr = phys_addr_new(addr);
        assert(self@ =~= old_view.drop_last());
        phys_frame_from_start_address(addr)
    }
}

/// What the `t`-th usable frame must satisfy: a handed-out frame must be a
/// physical address; a reserved frame that holds list nodes must have its
/// last used node inside the physical-memory window.
pub open spec fn frame_accepted(f: Seq<u64>, t: int) -> bool {
    let n = f.len() as int;
    let reserved = reserved_frame_count(n);
    let k = n - reserved;
    let per = NODES_PER_FRAME as int;
    &&& reserved <= t ==> is_phys_addr(f[t] as int)
    &&& t < reserved && per * t < k ==> to_virt_accepts(
        f[t] + (if k - per * t < per {
            k - per * t
        } else {
            per
        } - 1) * (FRAME_NODE_SIZE as int),
    )
}

/// The map's condition on nodes and handed-out frames, frame by frame.
proof fn lemma_accepted_by_frame(rs: Seq<MemoryRegion>)
    ensures
        memory_map_accepted(rs) <==> ({
            &&& usable_regions_in_range(rs)
            &&& usable_frames(rs).len() + NODES_PER_FRAME <= usize::MAX
            &&& forall|t: int|
                0 <= t < usable_frames(rs).len() ==> #[trigger] frame_accepted(usable_frames(rs), t)
        }),
{
    let f = usable_frames(rs);
    let n = f.len() as int;
    let reserved = reserved_frame_count(n);
    let k = n - reserved;
    lemma_reserved_frame_count(n);
    assert(NODES_PER_FRAME == 256);
    assert(FRAME_NODE_SIZE == 16);
    if usable_regions_in_range(rs) && n + NODES_PER_FRAME <= usize::MAX && (forall|t: int|
        0 <= t < n ==> #[trigger] frame_accepted(f, t)) {
        assert forall|j: int| 0 <= j < n - reserved implies to_virt_accepts(
            #[trigger] node_address(f, j),
        ) by {
            let t = j / 256;
            lemma_node_frame(j, n);
            assert(frame_accepted(f, t));
            let m = if k - 256 * t < 256 {
                k - 256 * t
            } else {
                256
            };
            assert(j % 256 <= m - 1);
            assert(node_address(f, j) == f[t] + (j % 256) * 16);
        }
        assert forall|t: int| reserved <= t < n implies is_phys_addr(#[trigger] f[t] as int) by {
            assert(frame_accepted(f, t));
        }
    }
    if memory_map_accepted(rs) {
        assert forall|t: int| 0 <= t < n implies #[trigger] frame_accepted(f, t) by {
            if t < reserved && 256 * t < k {
                let m = if k - 256 * t < 256 {
                    k - 256 * t
                } else {
                    256
                };
                let j = 256 * t + m - 1;
                assert(j / 256 == t);
                assert(j % 256 == m - 1);
                assert(to_virt_accepts(node_address(f, j)));
            }
        }
    }
}

/// Every frame the allocator holds, and so every frame `pop` hands out,
/// is the 4 KiB aligned start of a frame inside a region of its map whose
/// type is `MemoryRegionType::Usable`.
pub proof fn lemma_free_frames_are_usable(fa: &FrameAllocator)
    requires
        fa.wf(),
    ensures
        forall|t: int|
            0 <= t < fa@.len() ==> #[trigger] fa@[t] % 4096 == 0 && exists|i: int|
                0 <= i < fa.memory_map().len() && fa.memory_map()[i].region_type
                    == MemoryRegionType::Usable && fa.memory_map()[i].range.start_frame_number
                    * 4096 <= fa@[t] < fa.memory_map()[i].range.end_frame_number * 4096,
{
    let rs = fa.memory_map();
    let f = usable_frames(rs);
    assert forall|t: int| 0 <= t < fa@.len() implies #[trigger] fa@[t] % 4096 == 0 && exists|
        i: int,
    |
        0 <= i < fa.memory_map().len() && fa.memory_map()[i].region_type
            == MemoryRegionType::Usable && fa.memory_map()[i].range.start_frame_number * 4096
            <= fa@[t] < fa.memory_map()[i].range.end_frame_number * 4096 by {
        assert(fa@[t] == f[fa.reserved + t]);
        lemma_frame_in_region(rs, fa.reserved + t);
        let i = choose|i: int|
            0 <= i < rs.len() && is_usable(#[trigger] rs[i]) && rs[i].range.start_frame_number
                * 4096 <= f[fa.reserved + t] < rs[i].range.end_frame_number * 4096;
        assert(fa.memory_map()[i].region_type == MemoryRegionType::Usable);
        assert(fa.memory_map()[i].range.start_frame_number * 4096 <= fa@[t]
            < fa.memory_map()[i].range.end_frame_number * 4096);
    }
}

/// The frames set aside for the list: with `n` usable frames, `r` of them
/// are reserved where `r` is the least count of 256-node frames that covers
/// all `n` (`256 * (r - 1) < n <= 256 * r`, none when `n` is 0), the other
/// `n - r` are free, and the `n - r` nodes fit in the `r` reserved frames.
pub proof fn lemma_reserved_frames_hold_the_list(rs: Seq<MemoryRegion>)
    ensures
        ({
            let n = usable_frames(rs).len() as int;
            let k = free_frames(rs).len() as int;
            let r = n - k;
            &&& 0 <= r <= n
            &&& n == 0 ==> r == 0
            &&& n > 0 ==> 256 * (r - 1) < n <= 256 * r
            &&& k <= 256 * r
            &&& forall|j: int| 0 <= j < k ==> #[trigger] (j / 256) < r
        }),
{
    let n = usable_frames(rs).len() as int;
    lemma_reserved_frame_count(n);
    assert(NODES_PER_FRAME == 256);
    let r = reserved_frame_count(n);
    assert(n > 0 ==> 256 * (r - 1) < n <= 256 * r) by (nonlinear_arith)
        requires
            r == (n + 255) / 256,
            n >= 0,
    ;
    assert forall|j: int| 0 <= j < n - r implies #[trigger] (j / 256) < r by {
        lemma_node_frame(j, n);
    }
}

/// Where each list node goes: node `j` lies at byte `16 * (j % 256)` of
/// the reserved frame `j / 256`, seen through the physical-memory window
/// (offset `0x10_0000_0000`, bit 47 copied into the high bits), and that
/// frame is one of the reserved ones.
pub proof fn lemma_list_node_slots(rs: Seq<MemoryRegion>)
    requires
        memory_map_accepted(rs),
    ensures
        forall|j: int|
            0 <= j < free_frames(rs).len() ==> {
                &&& j / 256 < usable_frames(rs).len() - free_frames(rs).len()
                &&& (#[trigger] list_node(rs, j)).slot as int == canonicalize(
                    usable_frames(rs)[j / 256] + (j % 256) * 16 + 0x10_0000_0000,
                )
            },
{
    assert forall|j: int| 0 <= j < free_frames(rs).len() implies {
        &&& j / 256 < usable_frames(rs).len() - free_frames(rs).len()
        &&& (#[trigger] list_node(rs, j)).slot as int == canonicalize(
            usable_frames(rs)[j / 256] + (j % 256) * 16 + 0x10_0000_0000,
        )
    } by {
        lemma_list_node_slot(rs, j);
    }
}

proof fn lemma_list_node_slot(rs: Seq<MemoryRegion>, j: int)
    requires
        memory_map_accepted(rs),
        0 <= j < free_frames(rs).len(),
    ensures
        j / 256 < usable_frames(rs).len() - free_frames(rs).len(),
        list_node(rs, j).slot as int == canonicalize(
            usable_frames(rs)[j / 256] + (j % 256) * 16 + 0x10_0000_0000,
        ),
{
    let f = usable_frames(rs);
    let n = f.len() as int;
    lemma_reserved_frame_count(n);
    assert(NODES_PER_FRAME == 256);
    assert(FRAME_NODE_SIZE == 16);
    lemma_node_frame(j, n);
    assert(to_virt_accepts(node_address(f, j)));
}

/// Which maps are accepted, in plain terms: the addresses of every region
/// of type `MemoryRegionType::Usable` fit in 64 bits, the usable frame count
/// `n` leaves room for adding 256, every frame after the first
/// `r = ceil(n / 256)` is below 2^52, and every list node, at byte
/// `16 * (j % 256)` of reserved frame `j / 256`, lies below 2^48 once moved
/// by the window offset `0x10_0000_0000`.
pub proof fn lemma_memory_map_acceptance(rs: Seq<MemoryRegion>)
    ensures
        memory_map_accepted(rs) <==> ({
            let f = usable_frames(rs);
            let n = f.len() as int;
            let r = (n + 255) / 256;
            &&& forall|i: int|
                0 <= i < rs.len() && (#[trigger] rs[i]).region_type == MemoryRegionType::Usable
                    ==> rs[i].range.start_frame_number * 4096 <= u64::MAX
                    && rs[i].range.end_frame_number * 4096 <= u64::MAX
            &&& n + 256 <= usize::MAX
            &&& forall|t: int| r <= t < n ==> #[trigger] f[t] < 0x10_0000_0000_0000
            &&& forall|j: int|
                0 <= j < n - r ==> #[trigger] f[j / 256] + (j % 256) * 16 + 0x10_0000_0000
                    < 0x1_0000_0000_0000
        }),
{
    let f = usable_frames(rs);
    let n = f.len() as int;
    lemma_reserved_frame_count(n);
    assert(NODES_PER_FRAME == 256);
    assert(FRAME_NODE_SIZE == 16);
    let r = (n + 255) / 256;
    assert(reserved_frame_count(n) == r);
    if memory_map_accepted(rs) {
        assert forall|i: int|
            0 <= i < rs.len() && (#[trigger] rs[i]).region_type == MemoryRegionType::Usable
            implies rs[i].range.start_frame_number * 4096 <= u64::MAX
            && rs[i].range.end_frame_number * 4096 <= u64::MAX by {
            assert(is_usable(rs[i]));
        }
        assert(n + 256 <= usize::MAX);
        assert forall|t: int| r <= t < n implies #[trigger] f[t] < 0x10_0000_0000_0000 by {
            assert(is_phys_addr(f[t] as int));
        }
        assert forall|j: int| 0 <= j < n - r implies #[trigger] f[j / 256] + (j % 256) * 16
            + 0x10_0000_0000 < 0x1_0000_0000_0000 by {
            assert(to_virt_accepts(node_address(f, j)));
        }
    }
    if ({
        &&& forall|i: int|
            0 <= i < rs.len() && (#[trigger] rs[i]).region_type == MemoryRegionType::Usable
                ==> rs[i].range.start_frame_number * 4096 <= u64::MAX
                && rs[i].range.end_frame_number * 4096 <= u64::MAX
        &&& n + 256 <= usize::MAX
        &&& forall|t: int| r <= t < n ==> #[trigger] f[t] < 0x10_0000_0000_0000
        &&& forall|j: int|
            0 <= j < n - r ==> #[trigger] f[j / 256] + (j % 256) * 16 + 0x10_0000_0000
                < 0x1_0000_0000_0000
    }) {
        assert forall|i: int| 0 <= i < rs.len() && is_usable(#[trigger] rs[i]) implies rs[i].range.start_frame_number
            * 4096 <= u64::MAX && rs[i].range.end_frame_number * 4096 <= u64::MAX by {
            assert(rs[i].region_type == MemoryRegionType::Usable);
        }
        assert(usable_regions_in_range(rs));
        assert forall|t: int| r <= t < n implies is_phys_addr(#[trigger] f[t] as int) by {
            assert(f[t] < 0x10_0000_0000_0000);
        }
        assert forall|j: int| 0 <= j < n - r implies to_virt_accepts(#[trigger] node_address(f, j)) by {
            assert(f[j / 256] + (j % 256) * 16 + 0x10_0000_0000 < 0x1_0000_0000_0000);
        }
    }
}

/// No two list nodes share a slot: when the usable regions of an accepted
/// map do not overlap, distinct nodes are stored at distinct addresses, so
/// writing one node never overwrites another.
pub proof fn lemma_list_node_slots_distinct(rs: Seq<MemoryRegion>)
    requires
        memory_map_accepted(rs),
        usable_regions_disjoint(rs),
    ensures
        forall|j1: int, j2: int|
            0 <= j1 < free_frames(rs).len() && 0 <= j2 < free_frames(rs).len() && j1 != j2
                ==> (#[trigger] list_node(rs, j1)).slot != (#[trigger] list_node(rs, j2)).slot,
{
    lemma_usable_frames_distinct(rs);
    assert forall|j1: int, j2: int|
        0 <= j1 < free_frames(rs).len() && 0 <= j2 < free_frames(rs).len() && j1 != j2
        implies (#[trigger] list_node(rs, j1)).slot != (#[trigger] list_node(rs, j2)).slot by {
        lemma_two_slots(rs, j1, j2);
    }
}

proof fn lemma_two_slots(rs: Seq<MemoryRegion>, j1: int, j2: int)
    requires
        memory_map_accepted(rs),
        usable_frames(rs).no_duplicates(),
        0 <= j1 < free_frames(rs).len(),
        0 <= j2 < free_frames(rs).len(),
        j1 != j2,
    ensures
        list_node(rs, j1).slot != list_node(rs, j2).slot,
{
    let f = usable_frames(rs);
    let n = f.len() as int;
    lemma_reserved_frame_count(n);
    assert(NODES_PER_FRAME == 256);
    assert(FRAME_NODE_SIZE == 16);
    let t1 = j1 / 256;
    let t2 = j2 / 256;
    lemma_node_frame(j1, n);
    lemma_node_frame(j2, n);
    lemma_frame_in_region(rs, t1);
    lemma_frame_in_region(rs, t2);
    assert(to_virt_accepts(node_address(f, j1)));
    assert(to_virt_accepts(node_address(f, j2)));
    assert(t1 != t2 ==> f[t1] != f[t2]);
    lemma_slot_arith(f[t1] as int, f[t2] as int, (j1 % 256) * 16, (j2 % 256) * 16);
}

proof fn lemma_slot_arith(a1: int, a2: int, o1: int, o2: int)
    requires
        0 <= a1,
        0 <= a2,
        a1 % 4096 == 0,
        a2 % 4096 == 0,
        0 <= o1 < 4096,
        0 <= o2 < 4096,
        a1 != a2 || o1 != o2,
        a1 + o1 + 0x10_0000_0000 < 0x1_0000_0000_0000,
        a2 + o2 + 0x10_0000_0000 < 0x1_0000_0000_0000,
    ensures
        canonicalize(a1 + o1 + 0x10_0000_0000) != canonicalize(a2 + o2 + 0x10_0000_0000),
{
    assert(a1 + o1 != a2 + o2);
}

/// The free list describes exactly the allocator's frames: its `j`-th node
/// holds the `j`-th free frame and links to the node before it, so that
/// following the list from its head (the last node) meets the frames in the
/// order in which `pop` hands them out.
pub proof fn lemma_list_describes_free_frames(rs: Seq<MemoryRegion>)
    requires
        memory_map_accepted(rs),
    ensures
        forall|j: int|
            0 <= j < free_frames(rs).len() ==> (#[trigger] list_node(rs, j)).frame == free_frames(
                rs,
            )[j],
        forall|j: int|
            0 < j < free_frames(rs).len() ==> (#[trigger] list_node(rs, j)).next == Some(
                list_node(rs, j - 1).slot,
            ),
        free_frames(rs).len() > 0 ==> list_node(rs, 0).next.is_none(),
{
    let f = usable_frames(rs);
    lemma_reserved_frame_count(f.len() as int);
}

/// Whether building a frame allocator from the map goes through (the test
/// to make before `FrameAllocator::new`).
pub fn memory_map_is_accepted(memory_map: &[MemoryRegion]) -> (r: bool)
    ensures
        r == memory_map_accepted(memory_map@),
{
    let ghost rs = memory_map@;
    proof {
        lemma_accepted_by_frame(rs);
    }
    // The addresses of every usable region fit in 64 bits.
    let mut i: usize = 0;
    while i < memory_map.len()
        invariant
            rs == memory_map@,
            i <= memory_map.len(),
            forall|i2: int|
                0 <= i2 < i && is_usable(#[trigger] rs[i2]) ==> rs[i2].range.start_frame_number
                    * 4096 <= u64::MAX && rs[i2].range.end_frame_number * 4096 <= u64::MAX,
        decreases memory_map.len() - i,
    {
        let r = memory_map[i];
        if let MemoryRegionType::Usable = r.region_type {
            if r.range.start_frame_number > u64::MAX / PAGE_SIZE || r.range.end_frame_number
                > u64::MAX / PAGE_SIZE {
                assert(!usable_regions_in_range(rs));
                return false;
            }
            assert(r.range.start_frame_number * 4096 <= u64::MAX);
            assert(r.range.end_frame_number * 4096 <= u64::MAX);
        }
        i = i + 1;
    }
    assert(usable_regions_in_range(rs));
    // The frame count leaves room for the rounding.
    let mut frames_n: usize = 0;
    i = 0;
    while i < memory_map.len()
        invariant
            rs == memory_map@,
            usable_regions_in_range(rs),
            i <= memory_map.len(),
            frames_n == usable_frames(rs.take(i as int)).len(),
        decreases memory_map.len() - i,
    {
        proof {
            lemma_usable_frames_step(rs, i as int);
            lemma_usable_frames_prefix(rs, i as int + 1);
        }
        let count = region_frame_count(&memory_map[i]);
        if count > (usize::MAX - frames_n) as u64 {
            return false;
        }
        frames_n = frames_n + count as usize;
        i = i + 1;
    }
    proof {
        assert(rs.take(rs.len() as int) =~= rs);
    }
    if frames_n > usize::MAX - NODES_PER_FRAME {
        return false;
    }
    proof {
        lemma_reserved_frame_count(frames_n as int);
    }
    let ghost all = usable_frames(rs);
    let reserved = (frames_n + NODES_PER_FRAME - 1) / NODES_PER_FRAME;
    let k = frames_n - reserved;
    let used_frames = (k + NODES_PER_FRAME - 1) / NODES_PER_FRAME;
    // Frame by frame.
    let mut idx: usize = 0;
    i = 0;
    while i < memory_map.len()
        invariant
            rs == memory_map@,
            all == usable_frames(rs),
            usable_regions_in_range(rs),
            frames_n == all.len(),
            frames_n + NODES_PER_FRAME <= usize::MAX,
            reserved == reserved_frame_count(all.len() as int),
            k == frames_n - reserved,
            used_frames == (k + 255) / 256,
            NODES_PER_FRAME == 256,
            i <= memory_map.len(),
            idx == usable_frames(rs.take(i as int)).len(),
            forall|t: int| 0 <= t < idx ==> #[trigger] frame_accepted(all, t),
        decreases memory_map.len() - i,
    {
        let region = memory_map[i];
        let ghost pre = usable_frames(rs.take(i as int));
        let ghost rf = region_frames(region);
        proof {
            lemma_usable_frames_step(rs, i as int);
            lemma_usable_frames_prefix(rs, i as int + 1);
        }
        if let MemoryRegionType::Usable = region.region_type {
            let s = region.range.start_addr();
            let e = region.range.end_addr();
            let mut addr = s;
            let ghost mut j: int = 0;
            while addr < e
                invariant
                    rs == memory_map@,
                    all == usable_frames(rs),
                    usable_regions_in_range(rs),
                    frames_n == all.len(),
                    frames_n + NODES_PER_FRAME <= usize::MAX,
                    reserved == reserved_frame_count(all.len() as int),
                    k == frames_n - reserved,
                    used_frames == (k + 255) / 256,
                    NODES_PER_FRAME == 256,
                    i < memory_map.len(),
                    region == rs[i as int],
                    is_usable(region),
                    pre == usable_frames(rs.take(i as int)),
                    rf == region_frames(region),
                    usable_frames(rs.take(i as int + 1)) == pre + rf,
                    pre.len() + rf.len() <= all.len(),
                    forall|t: int| 0 <= t < pre.len() + rf.len() ==> (pre + rf)[t] == all[t],
                    s == region.range.start_frame_number * 4096,
                    e == region.range.end_frame_number * 4096,
                    e <= u64::MAX,
                    0 <= j,
                    addr == s + j * 4096,
                    s < e ==> j <= rf.len(),
                    s < e ==> rf.len() == region.range.end_frame_number
                        - region.range.start_frame_number,
                    s >= e ==> rf.len() == 0 && j == 0,
                    idx == pre.len() + j,
                    forall|t: int| 0 <= t < idx ==> #[trigger] frame_accepted(all, t),
                decreases e - addr,
            {
                assert(rf[j] == addr);
                assert((pre + rf)[pre.len() + j] == addr);
                assert(all[idx as int] == addr);
                if idx >= reserved {
                    if addr >= PHYS_ADDR_LIMIT {
                        assert(!frame_accepted(all, idx as int));
                        return false;
                    }
                } else if idx < used_frames {
                    proof {
                        lemma_used_frame(idx as int, k as int);
                        assert(addr + 4096 <= e);
                    }
                    let unused = k - idx * NODES_PER_FRAME;
                    let nodes = if unused < NODES_PER_FRAME {
                        unused
                    } else {
                        NODES_PER_FRAME
                    };
                    let node_count: u64 = nodes as u64;
                    let node_size: u64 = FRAME_NODE_SIZE as u64;
                    assert(1 <= node_count <= 256);
                    assert(node_size == 16);
                    let last_offset: u64 = (node_count - 1) * node_size;
                    assert(last_offset <= 4080);
                    let last_node = addr + last_offset;
                    if last_node >= PHYS_ADDR_LIMIT || last_node + PHYS_OFFSET >= 0x1_0000_0000_0000 {
                        assert(idx < frames_n);
                        assert(!frame_accepted(all, idx as int));
                        proof {
                            lemma_accepted_by_frame(rs);
                        }
                        return false;
                    }
                }
                assert(frame_accepted(all, idx as int));
                idx = idx + 1;
                addr = addr + PAGE_SIZE;
                proof {
                    j = j + 1;
                }
            }
            proof {
                if s < e {
                    assert(j == rf.len());
                }
            }
        }
        i = i + 1;
    }
    proof {
        assert(rs.take(rs.len() as int) =~= rs);
    }
    true
}

/// A frame whose index is below the rounded-up node-frame count holds nodes.
proof fn lemma_used_frame(t: int, k: int)
    requires
        0 <= t < (k + 255) / 256,
        0 <= k,
    ensures
        256 * t < k,
{
    assert(256 * t < k) by (nonlinear_arith)
        requires
            0 <= t < (k + 255) / 256,
            0 <= k,
    ;
}

/// The node of the `j`-th handed-out frame lies in a reserved frame.
proof fn lemma_node_frame(j: int, n: int)
    requires
        0 <= j < n,
    ensures
        j / 256 < (n + 255) / 256,
        256 * (j / 256) <= j,
        j % 256 == j - 256 * (j / 256),
{
    assert(j / 256 < (n + 255) / 256) by (nonlinear_arith)
        requires
            0 <= j < n,
    ;
}

proof fn lemma_reserved_frame_count(n: int)
    requires
        0 <= n,
    ensures
        0 <= reserved_frame_count(n) <= n,
        n > 0 ==> reserved_frame_count(n) > 0,
{
    assert(NODES_PER_FRAME == 256);
}

proof fn lemma_usable_frames_step(rs: Seq<MemoryRegion>, i: int)
    requires
        0 <= i < rs.len(),
    ensures
        usable_frames(rs.take(i + 1)) == usable_frames(rs.take(i)) + region_frames(rs[i]),
{
    assert(rs.take(i + 1).drop_last() =~= rs.take(i));
    assert(rs.take(i + 1).last() == rs[i]);
}

/// The frames of a prefix of the map are a prefix of the map's frames.
proof fn lemma_usable_frames_prefix(rs: Seq<MemoryRegion>, i: int)
    requires
        0 <= i <= rs.len(),
    ensures
        usable_frames(rs.take(i)).len() <= usable_frames(rs).len(),
        forall|t: int|
            0 <= t < usable_frames(rs.take(i)).len() ==> #[trigger] usable_frames(rs.take(i))[t]
                == usable_frames(rs)[t],
    decreases rs.len(),
{
    if i == rs.len() {
        assert(rs.take(i) =~= rs);
    } else {
        let d = rs.drop_last();
        lemma_usable_frames_prefix(d, i);
        assert(d.take(i) =~= rs.take(i));
    }
}

/// Every usable frame is the aligned start of a frame of some usable region.
proof fn lemma_frame_in_region(rs: Seq<MemoryRegion>, t: int)
    requires
        0 <= t < usable_frames(rs).len(),
        forall|i: int|
            0 <= i < rs.len() && is_usable(#[trigger] rs[i]) ==> rs[i].range.end_frame_number * 4096
                <= u64::MAX,
    ensures
        is_page_aligned(usable_frames(rs)[t] as int),
        exists|i: int|
            0 <= i < rs.len() && is_usable(#[trigger] rs[i]) && rs[i].range.start_frame_number
                * 4096 <= usable_frames(rs)[t] < rs[i].range.end_frame_number * 4096,
    decreases rs.len(),
{
    let d = rs.drop_last();
    let a = usable_frames(d);
    let r = rs.last();
    if t < a.len() {
        assert forall|i: int|
            0 <= i < d.len() && is_usable(#[trigger] d[i]) implies d[i].range.end_frame_number
            * 4096 <= u64::MAX by {
            assert(d[i] == rs[i]);
        }
        lemma_frame_in_region(d, t);
        let i = choose|i: int|
            0 <= i < d.len() && is_usable(#[trigger] d[i]) && d[i].range.start_frame_number
                * 4096 <= a[t] < d[i].range.end_frame_number * 4096;
        assert(rs[i] == d[i]);
    } else {
        let j = t - a.len();
        let s = r.range.start_frame_number as int;
        assert(rs[rs.len() - 1] == r);
        assert(usable_frames(rs)[t] == ((s + j) * 4096) as u64);
        assert(((s + j) * 4096) % 4096 == 0);
    }
}

/// When the usable regions of the map do not overlap, no frame occurs twice
/// among its usable frames.
proof fn lemma_usable_frames_distinct(rs: Seq<MemoryRegion>)
    requires
        usable_regions_in_range(rs),
        usable_regions_disjoint(rs),
    ensures
        usable_frames(rs).no_duplicates(),
    decreases rs.len(),
{
    if rs.len() > 0 {
        let d = rs.drop_last();
        let a = usable_frames(d);
        let r = rs.last();
        let b = region_frames(r);
        let last = rs.len() - 1;
        assert(rs[last] == r);
        assert forall|i: int| 0 <= i < d.len() implies #[trigger] d[i] == rs[i] by {}
        lemma_usable_frames_distinct(d);
        let s = r.range.start_frame_number as int;
        let e = r.range.end_frame_number as int;
        assert forall|p: int, q: int|
            0 <= p < q < a.len() + b.len() implies (a + b)[p] != (a + b)[q] by {
            if q < a.len() {
            } else if p >= a.len() {
                assert(b[p - a.len()] == ((s + p - a.len()) * 4096) as u64);
                assert(b[q - a.len()] == ((s + q - a.len()) * 4096) as u64);
            } else {
                lemma_frame_in_region(d, p);
                let i = choose|i: int|
                    0 <= i < d.len() && is_usable(#[trigger] d[i]) && d[i].range.start_frame_number
                        * 4096 <= a[p] < d[i].range.end_frame_number * 4096;
                assert(rs[i] == d[i]);
                assert(b[q - a.len()] == ((s + q - a.len()) * 4096) as u64);
            }
        }
    }
}

/// No frame is handed out twice, and none of the frames that hold the list
/// is handed out: when the usable regions of an accepted map do not
/// overlap, the frames of the allocator built from it are pairwise
/// distinct and distinct from every reserved frame.
pub proof fn lemma_free_frames_distinct(rs: Seq<MemoryRegion>)
    requires
        memory_map_accepted(rs),
        usable_regions_disjoint(rs),
    ensures
        free_frames(rs).no_duplicates(),
        forall|t: int, u: int|
            0 <= t < reserved_frame_count(usable_frames(rs).len() as int) && 0 <= u < free_frames(
                rs,
            ).len() ==> #[trigger] usable_frames(rs)[t] != #[trigger] free_frames(rs)[u],
{
    let f = usable_frames(rs);
    let reserved = reserved_frame_count(f.len() as int);
    lemma_usable_frames_distinct(rs);
    lemma_reserved_frame_count(f.len() as int);
    assert forall|p: int, q: int|
        0 <= p < q < free_frames(rs).len() implies free_frames(rs)[p] != free_frames(rs)[q] by {
        assert(free_frames(rs)[p] == f[reserved + p]);
        assert(free_frames(rs)[q] == f[reserved + q]);
    }
    assert forall|t: int, u: int|
        0 <= t < reserved && 0 <= u < free_frames(rs).len() implies #[trigger] f[t]
        != #[trigger] free_frames(rs)[u] by {
        assert(free_frames(rs)[u] == f[reserved + u]);
    }
}

} // verus!
