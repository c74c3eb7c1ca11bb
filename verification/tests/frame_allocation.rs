use kernel_memory::memory::{AreaFrameAllocator, Frame, FrameAllocator, MemoryArea};

fn area(base_addr: u64, length: u64) -> MemoryArea {
    MemoryArea { base_addr, length }
}

fn drain(allocator: &mut AreaFrameAllocator) -> Vec<u64> {
    let mut numbers = Vec::new();
    while let Some(frame) = allocator.allocate_frame() {
        numbers.push(frame.number());
        assert!(numbers.len() < 100_000);
    }
    numbers
}

#[test]
fn one_area_with_a_kernel_in_the_middle() {
    let mut allocator =
        AreaFrameAllocator::new(0x150000, 0x160000, 0, 0, vec![area(0x100000, 0x100000)]);
    let first = allocator.allocate_frame().unwrap();
    assert_eq!(first.start_address(), 0x100000);
    let mut count = 1u64;
    while let Some(frame) = allocator.allocate_frame() {
        let address = frame.start_address();
        assert!(address < 0x150000 || address >= 0x160000);
        assert!(address >= 0x100000 && address < 0x200000);
        count += 1;
    }
    assert_eq!(count, (0x200000 - 0x100000) / 4096 - (0x160000 - 0x150000) / 4096);
    assert_eq!(count, 240);
    assert_eq!(allocator.allocate_frame(), None);
}

#[test]
fn frames_come_in_strictly_rising_order() {
    let areas = vec![area(0x9000, 0x3000), area(0x1000, 0x2000), area(0x5000, 0x1000)];
    let mut allocator = AreaFrameAllocator::new(0, 0, 0, 0, areas);
    let numbers = drain(&mut allocator);
    assert_eq!(numbers, vec![1, 2, 5, 9, 10, 11]);
    for pair in numbers.windows(2) {
        assert!(pair[0] < pair[1]);
    }
}

#[test]
fn exhausted_allocator_stays_exhausted() {
    let mut allocator = AreaFrameAllocator::new(0, 0, 0, 0, vec![area(0x2000, 0x1000)]);
    assert_eq!(allocator.allocate_frame().map(|f| f.number()), Some(2));
    assert_eq!(allocator.allocate_frame(), None);
    assert_eq!(allocator.allocate_frame(), None);
}

#[test]
fn no_areas_no_frames() {
    let mut allocator = AreaFrameAllocator::new(0x1000, 0x2000, 0x3000, 0x4000, Vec::new());
    assert_eq!(allocator.allocate_frame(), None);
}

#[test]
fn empty_area_holds_no_frame() {
    let mut allocator = AreaFrameAllocator::new(0, 0, 0, 0, vec![area(0x4000, 0)]);
    assert_eq!(allocator.allocate_frame(), None);
}

#[test]
fn reserved_range_spanning_two_areas_is_skipped() {
    // frames 0..=3 and 6..=9; the kernel covers frames 2..=7
    let areas = vec![area(0x0, 0x4000), area(0x6000, 0x4000)];
    let mut allocator = AreaFrameAllocator::new(0x2000, 0x8000, 0, 0, areas);
    assert_eq!(drain(&mut allocator), vec![0, 1, 8, 9]);
}

#[test]
fn both_reserved_ranges_are_skipped() {
    let areas = vec![area(0x0, 0x10000)];
    let mut allocator = AreaFrameAllocator::new(0x1000, 0x3000, 0x3000, 0x5000, areas);
    assert_eq!(drain(&mut allocator), vec![0, 5, 6, 7, 8, 9, 10, 11, 12, 13, 14, 15]);
}

#[test]
fn partly_used_last_frame_of_the_kernel_is_not_handed_out() {
    let areas = vec![area(0x0, 0x4000)];
    let mut allocator = AreaFrameAllocator::new(0x1000, 0x2001, 0, 0, areas);
    assert_eq!(drain(&mut allocator), vec![0, 3]);
}

#[test]
fn reserved_range_at_an_area_boundary() {
    let areas = vec![area(0x0, 0x2000), area(0x2000, 0x2000)];
    let mut allocator = AreaFrameAllocator::new(0, 0, 0x1800, 0x2800, areas);
    assert_eq!(drain(&mut allocator), vec![0, 3]);
}

#[test]
fn area_that_is_not_aligned_counts_by_its_frames() {
    let mut allocator = AreaFrameAllocator::new(0, 0, 0, 0, vec![area(0x1800, 0x1000)]);
    assert_eq!(drain(&mut allocator), vec![1, 2]);
}

#[test]
fn area_running_past_the_address_space_stops_there() {
    let mut allocator =
        AreaFrameAllocator::new(0, 0, 0, 0, vec![area(0xffff_ffff_ffff_e000, 0xffff_ffff)]);
    assert_eq!(drain(&mut allocator), vec![0xf_ffff_ffff_fffe, 0xf_ffff_ffff_ffff]);
}

#[test]
fn frame_round_trip() {
    let frame = Frame::containing_address(0x12345);
    assert_eq!(frame.number(), 0x12);
    assert_eq!(frame.start_address(), 0x12000);
    assert_eq!(Frame::from_number(7).start_address(), 7 * 4096);
    assert!(Frame::from_number(3) < Frame::from_number(4));
    assert_eq!(Frame::from_number(3), Frame::containing_address(0x3fff));
}

#[test]
fn area_frames() {
    let a = area(0x1800, 0x1000);
    assert_eq!(a.first_frame().number(), 1);
    assert_eq!(a.last_frame().number(), 2);
    assert_eq!(area(0x1000, 0x1000).last_frame().number(), 1);
    assert_eq!(area(1, u64::MAX).last_frame().number(), 0xf_ffff_ffff_ffff);
}
