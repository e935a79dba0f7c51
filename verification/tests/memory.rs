use rust_os::memory::addr::{page_containing_address, PAGE_SIZE};
use rust_os::memory::allocator::{heap_page_range, HEAP_SIZE, HEAP_START};
use rust_os::memory::frame::{memory_map_is_accepted, FrameAllocator, FrameNode, FrameRange, MemoryRegion, MemoryRegionType};
use rust_os::memory::mapper::{to_phys, to_virt, PHYS_OFFSET};
use rust_os::memory::page_alloc::{next_mapping, page_add, page_add_accepted, MapStep, PageAllocator, PageRange, START_VIRTADDR};

fn region(start: u64, end: u64, region_type: MemoryRegionType) -> MemoryRegion {
    MemoryRegion {
        range: FrameRange { start_frame_number: start, end_frame_number: end },
        region_type,
    }
}

#[test]
fn to_virt_adds_the_window_offset() {
    assert_eq!(to_virt(0x1000), 0x0000_0010_0000_1000);
    assert_eq!(to_virt(0), PHYS_OFFSET);
}

#[test]
fn to_virt_sign_extends_past_the_lower_half() {
    // 0x7ff0_0000_0000 + 0x10_0000_0000 = 0x8000_0000_0000: bit 47 is copied up.
    assert_eq!(to_virt(0x7ff0_0000_0000), 0xffff_8000_0000_0000);
}

#[test]
fn to_phys_subtracts_the_window_offset() {
    assert_eq!(to_phys(0x0000_0010_0000_1000), 0x1000);
    assert_eq!(to_phys(PHYS_OFFSET), 0);
}

#[test]
fn window_round_trip() {
    for p in [0u64, 0x1000, 0x1234_5678, 0x7fe0_0000_0000] {
        assert_eq!(to_phys(to_virt(p)), p);
    }
    for v in [PHYS_OFFSET, PHYS_OFFSET + 0x42, 0x7fff_ffff_ffff] {
        assert_eq!(to_virt(to_phys(v)), v);
    }
}

#[test]
fn frame_range_addresses() {
    let r = FrameRange { start_frame_number: 2, end_frame_number: 5 };
    assert_eq!(r.start_addr(), 0x2000);
    assert_eq!(r.end_addr(), 0x5000);
}

#[test]
fn frame_allocator_reserves_list_frames_and_pops_last_first() {
    let map = vec![
        region(0, 1, MemoryRegionType::FrameZero),
        region(0x100, 0x110, MemoryRegionType::Usable),
        region(0x110, 0x200, MemoryRegionType::Reserved),
        region(0x200, 0x202, MemoryRegionType::Usable),
        region(0x300, 0x300, MemoryRegionType::Usable),
    ];
    let mut frames = FrameAllocator::new(&map);
    // 18 usable frames, one of which holds the list.
    assert_eq!(frames.len(), 17);
    assert_eq!(frames.pop(), Some(0x201000));
    assert_eq!(frames.pop(), Some(0x200000));
    assert_eq!(frames.pop(), Some(0x10f000));
    let mut rest = Vec::new();
    while let Some(f) = frames.pop() {
        rest.push(f);
    }
    assert_eq!(rest.len(), 14);
    assert_eq!(*rest.last().unwrap(), 0x101000);
    assert!(!rest.contains(&0x100000));
    assert!(frames.is_empty());
    assert_eq!(frames.pop(), None);
}

#[test]
fn frame_allocator_reserves_one_frame_per_256_frames() {
    let map = vec![region(0x1000, 0x1000 + 300, MemoryRegionType::Usable)];
    let mut frames = FrameAllocator::new(&map);
    assert_eq!(frames.len(), 298);
    assert_eq!(frames.pop(), Some((0x1000 + 299) * 4096));
    let map = vec![region(0x1000, 0x1000 + 256, MemoryRegionType::Usable)];
    assert_eq!(FrameAllocator::new(&map).len(), 255);
    let map = vec![region(0x1000, 0x1000 + 257, MemoryRegionType::Usable)];
    assert_eq!(FrameAllocator::new(&map).len(), 255);
}

#[test]
fn frame_allocator_without_usable_memory_is_empty() {
    let map = vec![region(0, 0x100, MemoryRegionType::Reserved), region(5, 3, MemoryRegionType::Usable)];
    let mut frames = FrameAllocator::new(&map);
    assert_eq!(frames.len(), 0);
    assert_eq!(frames.pop(), None);
    let mut frames = FrameAllocator::new(&[]);
    assert_eq!(frames.pop(), None);
}

#[test]
fn frames_are_never_handed_out_twice() {
    let map = vec![
        region(0x100, 0x180, MemoryRegionType::Usable),
        region(0x400, 0x480, MemoryRegionType::Usable),
    ];
    let mut frames = FrameAllocator::new(&map);
    let mut seen = std::collections::BTreeSet::new();
    while let Some(f) = frames.pop() {
        assert_eq!(f % 4096, 0);
        assert!(seen.insert(f));
    }
    assert_eq!(seen.len(), 255);
}

#[test]
fn page_containing_address_aligns_down() {
    assert_eq!(page_containing_address(0x1fff), 0x1000);
    assert_eq!(page_containing_address(0x2000), 0x2000);
}

#[test]
fn page_add_moves_whole_pages() {
    assert_eq!(page_add(0x1000, 3), 0x4000);
    assert_eq!(page_add(0x1000, 0), 0x1000);
}

#[test]
fn page_add_crosses_into_the_upper_half() {
    assert_eq!(page_add(0x7fff_ffff_f000, 1), 0xffff_8000_0000_0000);
}

#[test]
fn page_allocator_hands_out_consecutive_pages() {
    let mut pages = PageAllocator::new();
    assert_eq!(pages.current_page(), START_VIRTADDR);
    assert_eq!(pages.alloc_page(), START_VIRTADDR);
    let range = pages.alloc_pages(3);
    assert_eq!(range, PageRange { start: START_VIRTADDR + PAGE_SIZE, end: START_VIRTADDR + 4 * PAGE_SIZE });
    let next = pages.alloc_pages(2);
    assert_eq!(next.start, range.end);
    assert_eq!(pages.alloc_page(), START_VIRTADDR + 6 * PAGE_SIZE);
    assert_eq!(pages.current_page(), START_VIRTADDR + 7 * PAGE_SIZE);
}

#[test]
fn page_range_yields_each_page_once() {
    let mut range = PageRange { start: 0x10000, end: 0x13000 };
    assert_eq!(range.next(), Some(0x10000));
    assert_eq!(range.next(), Some(0x11000));
    assert_eq!(range.next(), Some(0x12000));
    assert!(range.is_empty());
    assert_eq!(range.next(), None);
}

#[test]
fn next_mapping_backs_each_page_with_a_frame() {
    let map = vec![region(0x100, 0x104, MemoryRegionType::Usable)];
    let mut frames = FrameAllocator::new(&map);
    let mut pages = PageRange { start: 0x5000, end: 0x8000 };
    assert_eq!(next_mapping(&mut pages, &mut frames), MapStep::MapTo { page: 0x5000, frame: 0x103000 });
    assert_eq!(next_mapping(&mut pages, &mut frames), MapStep::MapTo { page: 0x6000, frame: 0x102000 });
    assert_eq!(next_mapping(&mut pages, &mut frames), MapStep::MapTo { page: 0x7000, frame: 0x101000 });
    assert_eq!(next_mapping(&mut pages, &mut frames), MapStep::Done);
    assert_eq!(pages, PageRange { start: 0x8000, end: 0x8000 });
}

#[test]
fn next_mapping_reports_running_out_of_frames() {
    let map = vec![region(0x100, 0x102, MemoryRegionType::Usable)];
    let mut frames = FrameAllocator::new(&map);
    let mut pages = PageRange { start: 0x5000, end: 0x7000 };
    assert_eq!(next_mapping(&mut pages, &mut frames), MapStep::MapTo { page: 0x5000, frame: 0x101000 });
    assert_eq!(next_mapping(&mut pages, &mut frames), MapStep::OutOfFrames { page: 0x6000 });
}

#[test]
fn heap_spans_exactly_its_pages() {
    let mut range = heap_page_range();
    assert_eq!(range.start, HEAP_START);
    assert_eq!(range.end, HEAP_START + HEAP_SIZE as u64);
    let mut count = 0;
    while let Some(page) = range.next() {
        assert_eq!(page, HEAP_START + count * PAGE_SIZE);
        count += 1;
    }
    assert_eq!(count, 250);
}

#[test]
fn ordinary_memory_map_is_accepted() {
    let map = vec![
        region(0, 1, MemoryRegionType::FrameZero),
        region(0x100, 0x110, MemoryRegionType::Usable),
        region(0x200, 0x8000, MemoryRegionType::Usable),
    ];
    assert!(memory_map_is_accepted(&map));
    assert!(memory_map_is_accepted(&[]));
}

#[test]
fn memory_map_with_frames_beyond_physical_addresses_is_refused() {
    // The second usable frame (the first handed out) starts at bit 52.
    let map = vec![region((1 << 40) - 1, (1 << 40) + 1, MemoryRegionType::Usable)];
    assert!(!memory_map_is_accepted(&map));
    // Reserved or unusable frames up there do not matter.
    let map = vec![region((1 << 40) - 1, (1 << 40) + 1, MemoryRegionType::Reserved)];
    assert!(memory_map_is_accepted(&map));
}

#[test]
fn memory_map_with_overflowing_region_is_refused() {
    let map = vec![region(0, (1 << 52) + 1, MemoryRegionType::Usable)];
    assert!(!memory_map_is_accepted(&map));
}

#[test]
fn memory_map_whose_list_frame_is_outside_the_window_is_refused() {
    // The reserved frame's node lies above the lower half once offset.
    let map = vec![region(0xf_fff0_0000, 0xf_fff0_0002, MemoryRegionType::Usable)];
    assert!(!memory_map_is_accepted(&map));
    // A single frame is reserved and holds no node: nothing to place.
    let map = vec![region(0xf_fff0_0000, 0xf_fff0_0001, MemoryRegionType::Usable)];
    assert!(memory_map_is_accepted(&map));
}

#[test]
fn page_add_acceptance() {
    assert!(page_add_accepted(0x1000, 1));
    assert!(page_add_accepted(0x7fff_ffff_f000, 1));
    assert!(!page_add_accepted(0xffff_ffff_ffff_f000, 1));
    assert!(!page_add_accepted(0xffff_f000_0000, 0x10_0000));
    assert!(!page_add_accepted(0, u64::MAX));
}

#[test]
fn level_4_table_is_seen_through_the_offset() {
    assert_eq!(rust_os::memory::mapper::level_4_table_address(0x1000_0000_0000, 0x5000), 0x1000_0000_5000);
    assert_eq!(rust_os::memory::mapper::level_4_table_address(0x7fff_ffff_0000, 0x1_0000), 0xffff_8000_0000_0000);
}

#[test]
fn list_nodes_are_packed_into_the_reserved_frame_and_linked_backwards() {
    let map = vec![
        region(0x100, 0x102, MemoryRegionType::Usable),
        region(0x200, 0x202, MemoryRegionType::Usable),
    ];
    let frames = FrameAllocator::new(&map);
    assert_eq!(frames.list_len(), 3);
    // The reserved frame is 0x100000; nodes are 16 bytes apart in the window.
    assert_eq!(frames.list_node(0), FrameNode { slot: PHYS_OFFSET + 0x100000, frame: 0x101000, next: None });
    assert_eq!(
        frames.list_node(1),
        FrameNode { slot: PHYS_OFFSET + 0x100010, frame: 0x200000, next: Some(PHYS_OFFSET + 0x100000) }
    );
    assert_eq!(
        frames.list_node(2),
        FrameNode { slot: PHYS_OFFSET + 0x100020, frame: 0x201000, next: Some(PHYS_OFFSET + 0x100010) }
    );
}

#[test]
fn list_nodes_spill_into_the_second_reserved_frame() {
    let map = vec![region(0x1000, 0x1000 + 300, MemoryRegionType::Usable)];
    let frames = FrameAllocator::new(&map);
    assert_eq!(frames.list_len(), 298);
    let node = frames.list_node(256);
    assert_eq!(node.slot, PHYS_OFFSET + 0x1001000);
    assert_eq!(node.frame, (0x1000 + 258) * 4096);
    assert_eq!(node.next, Some(PHYS_OFFSET + 0x1000000 + 255 * 16));
}

#[test]
fn list_len_stays_after_pops() {
    let map = vec![region(0x100, 0x104, MemoryRegionType::Usable)];
    let mut frames = FrameAllocator::new(&map);
    frames.pop();
    assert_eq!(frames.list_len(), 3);
    assert_eq!(frames.len(), 2);
}

#[test]
fn single_usable_frame_is_reserved_and_no_node_is_laid_out() {
    let map = vec![region(1, 2, MemoryRegionType::Usable)];
    let mut frames = FrameAllocator::new(&map);
    assert_eq!(frames.len(), 0);
    assert_eq!(frames.list_len(), 0);
    assert_eq!(frames.pop(), None);
}
