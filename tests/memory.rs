use rustos::frame_allocator::{
    BootInfoFrameAllocator, EmptyFrameAllocator, FrameAllocator, MemoryRegion, MemoryRegionType, PhysFrame,
};
use rustos::paging::{
    create_example_mapping, AddressSpace, MapToError, Page, PageTableFlags, HUGE_PAGE,
    PRESENT, WRITABLE,
};

fn region(start: u64, end: u64, region_type: MemoryRegionType) -> MemoryRegion {
    MemoryRegion { start_frame_number: start, end_frame_number: end, region_type }
}

fn sample_map() -> Vec<MemoryRegion> {
    vec![
        region(0, 1, MemoryRegionType::FrameZero),
        region(1, 4, MemoryRegionType::Usable),
        region(4, 6, MemoryRegionType::Reserved),
        region(6, 7, MemoryRegionType::AcpiReclaimable),
        region(10, 12, MemoryRegionType::Usable),
        region(12, 20, MemoryRegionType::Kernel),
    ]
}

fn frame(addr: u64) -> PhysFrame {
    PhysFrame::containing_address(addr)
}

#[test]
fn allocator_hands_out_usable_frames_in_order_then_none() {
    let mut a = BootInfoFrameAllocator::init(sample_map());
    let mut got = Vec::new();
    for _ in 0..8 {
        got.push(a.allocate_frame().map(|f| f.start_address()));
    }
    assert_eq!(
        got,
        vec![Some(0x1000), Some(0x2000), Some(0x3000), Some(0xa000), Some(0xb000), None, None, None]
    );
}

#[test]
fn allocator_frames_are_distinct_and_ascending() {
    let mut a = BootInfoFrameAllocator::init(sample_map());
    let mut frames = Vec::new();
    while let Some(f) = a.allocate_frame() {
        frames.push(f.start_address());
    }
    assert_eq!(frames.len(), 5);
    for w in frames.windows(2) {
        assert!(w[0] + 4096 <= w[1]);
    }
}

#[test]
fn allocator_over_map_without_usable_region_is_empty() {
    let mut a = BootInfoFrameAllocator::init(vec![region(0, 5, MemoryRegionType::Reserved), region(5, 5, MemoryRegionType::Usable)]);
    assert_eq!(a.allocate_frame(), None);
    let mut b = BootInfoFrameAllocator::init(Vec::new());
    assert_eq!(b.allocate_frame(), None);
}

#[test]
fn empty_allocator_never_has_a_frame() {
    let mut a = EmptyFrameAllocator;
    assert_eq!(a.allocate_frame(), None);
    assert_eq!(a.allocate_frame(), None);
}

#[test]
fn frame_containing_address_aligns_down() {
    assert_eq!(PhysFrame::containing_address(0xb8123).start_address(), 0xb8000);
    assert_eq!(PhysFrame::containing_address(0x2000).start_address(), 0x2000);
    assert_eq!(Page::containing_address(0xdeadbeaf123).start_address(), 0xdeadbeaf000);
}

#[test]
fn flags_drop_address_bits() {
    assert_eq!(PageTableFlags::from_bits_truncate(u64::MAX).bits(), 0xfff0_0000_0000_0fff);
    assert_eq!(PageTableFlags::from_bits_truncate(PRESENT | WRITABLE).bits(), 3);
}

/// Tables: level 4 in 0x1000, level 3 in 0x2000, level 2 in 0x3000, level 1
/// in 0x4000, mapping virtual page 0xb8000 to physical frame 0x7000.
fn sample_space() -> AddressSpace {
    let mut s = AddressSpace::new(frame(0x1000));
    s.set_entry(0x1000, 0, 0x2000 | 3);
    s.set_entry(0x2000, 0, 0x3000 | 3);
    s.set_entry(0x3000, 0, 0x4000 | 3);
    s.set_entry(0x4000, 184, 0x7000 | 3);
    s
}

#[test]
fn translate_present_chain_adds_page_offset() {
    let s = sample_space();
    assert_eq!(s.translate(0xb8000), Some(0x7000));
    assert_eq!(s.translate(0xb8abc), Some(0x7abc));
    assert_eq!(s.translate(0xb8fff), Some(0x7fff));
}

#[test]
fn translate_absent_entries_is_not_mapped() {
    let s = sample_space();
    // level-1 entry absent
    assert_eq!(s.translate(0xb9000), None);
    // level-2 entry absent
    assert_eq!(s.translate(0x20_0000), None);
    // level-3 entry absent
    assert_eq!(s.translate(0x4000_0000), None);
    // level-4 entry absent
    assert_eq!(s.translate(0x80_0000_0000), None);
    // an entry with an address but no present bit
    let mut t = sample_space();
    t.set_entry(0x3000, 0, 0x4000 | WRITABLE);
    assert_eq!(t.translate(0xb8000), None);
}

#[test]
fn translate_huge_entry_is_reported() {
    let mut s = sample_space();
    s.set_entry(0x3000, 1, 0x20_0000 | PRESENT | HUGE_PAGE);
    assert!(s.meets_huge_page(0x20_0123));
    assert!(!s.meets_huge_page(0xb8000));
    assert!(!s.meets_huge_page(0x4000_0000));
}

#[test]
fn map_then_translate_gives_the_frame() {
    let mut s = AddressSpace::new(frame(0x1000));
    let mut a = BootInfoFrameAllocator::init(vec![region(0x10, 0x20, MemoryRegionType::Usable)]);
    let page = Page::containing_address(0xdeadbeaf000);
    let flags = PageTableFlags::from_bits_truncate(PRESENT | WRITABLE);
    assert_eq!(s.translate(0xdeadbeaf000), None);
    assert_eq!(s.map_to(page, frame(0x55000), flags, &mut a), Ok(page));
    assert_eq!(s.translate(0xdeadbeaf000), Some(0x55000));
    assert_eq!(s.translate(0xdeadbeaf123), Some(0x55123));
    // three new tables were taken from the allocator
    assert_eq!(a.allocate_frame().map(|f| f.start_address()), Some(0x13000));
    // the neighbouring page stays unmapped
    assert_eq!(s.translate(0xdeadbeb0000), None);
}

#[test]
fn map_keeps_existing_translations_and_needs_no_frame_under_present_tables() {
    let mut s = sample_space();
    let mut a = EmptyFrameAllocator;
    let flags = PageTableFlags::from_bits_truncate(PRESENT | WRITABLE);
    assert_eq!(s.map_to(Page::containing_address(0xb9000), frame(0x9000), flags, &mut a), Ok(Page::containing_address(0xb9000)));
    assert_eq!(s.translate(0xb9010), Some(0x9010));
    assert_eq!(s.translate(0xb8010), Some(0x7010));
}

#[test]
fn map_of_mapped_page_fails() {
    let mut s = sample_space();
    let mut a = EmptyFrameAllocator;
    let flags = PageTableFlags::from_bits_truncate(PRESENT | WRITABLE);
    assert_eq!(
        s.map_to(Page::containing_address(0xb8000), frame(0x9000), flags, &mut a),
        Err(MapToError::PageAlreadyMapped)
    );
    assert_eq!(s.translate(0xb8000), Some(0x7000));
}

#[test]
fn map_without_frames_for_tables_fails() {
    let mut s = AddressSpace::new(frame(0x1000));
    let mut a = EmptyFrameAllocator;
    let flags = PageTableFlags::from_bits_truncate(PRESENT | WRITABLE);
    assert_eq!(
        s.map_to(Page::containing_address(0x5000), frame(0x9000), flags, &mut a),
        Err(MapToError::FrameAllocationFailed)
    );
}

#[test]
fn map_under_huge_parent_fails() {
    let mut s = sample_space();
    s.set_entry(0x3000, 1, 0x20_0000 | PRESENT | HUGE_PAGE);
    let mut a = EmptyFrameAllocator;
    let flags = PageTableFlags::from_bits_truncate(PRESENT | WRITABLE);
    assert_eq!(
        s.map_to(Page::containing_address(0x20_1000), frame(0x9000), flags, &mut a),
        Err(MapToError::ParentEntryHugePage)
    );
}

#[test]
fn map_refuses_frame_that_holds_a_table() {
    let mut s = sample_space();
    // the allocator offers frame 0x2000, which holds the level-3 table
    let mut a = BootInfoFrameAllocator::init(vec![region(2, 3, MemoryRegionType::Usable)]);
    let flags = PageTableFlags::from_bits_truncate(PRESENT | WRITABLE);
    assert_eq!(
        s.map_to(Page::containing_address(0x80_0000_0000), frame(0x9000), flags, &mut a),
        Err(MapToError::FrameAlreadyInUse)
    );
    assert_eq!(s.translate(0xb8000), Some(0x7000));
}

#[test]
fn example_mapping_points_at_the_screen_buffer() {
    let mut s = AddressSpace::new(frame(0x1000));
    let mut a = BootInfoFrameAllocator::init(vec![region(0x10, 0x20, MemoryRegionType::Usable)]);
    let page = Page::containing_address(0xdeadbeaf000);
    assert_eq!(create_example_mapping(page, &mut s, &mut a), page);
    assert_eq!(s.translate(0xdeadbeaf000 + 400 * 8), Some(0xb8000 + 400 * 8));
    let l4 = s.level_4_table_frame();
    assert_eq!(l4, 0x1000);
}

#[test]
fn map_creates_only_the_missing_tables() {
    // level-4 and level-3 entries exist; the level-2 entry for 0x20_0000 is missing
    let mut s = sample_space();
    let mut a = BootInfoFrameAllocator::init(vec![region(0x10, 0x20, MemoryRegionType::Usable)]);
    let flags = PageTableFlags::from_bits_truncate(PRESENT | WRITABLE);
    let page = Page::containing_address(0x20_0000);
    assert_eq!(s.map_to(page, frame(0x66000), flags, &mut a), Ok(page));
    assert_eq!(s.translate(0x20_0042), Some(0x66042));
    assert_eq!(s.translate(0xb8010), Some(0x7010));
    // one table was created, so the allocator moved on by one frame
    assert_eq!(a.allocate_frame().map(|f| f.start_address()), Some(0x11000));
}

#[test]
fn example_mapping_under_existing_tables_takes_no_frame() {
    let mut s = sample_space();
    let mut a = BootInfoFrameAllocator::init(vec![region(0x10, 0x20, MemoryRegionType::Usable)]);
    let page = Page::containing_address(0x1000);
    assert_eq!(create_example_mapping(page, &mut s, &mut a), page);
    assert_eq!(s.translate(0x1abc), Some(0xb8abc));
    assert_eq!(s.entry(0x4000, 1), 0xb8003);
    assert_eq!(a.allocate_frame().map(|f| f.start_address()), Some(0x10000));
}
