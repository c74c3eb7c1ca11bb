use kernel_memory::memory::paging::entry::{
    Entry, EntryFlags, HUGE_PAGE, NO_EXECUTE, PRESENT, WRITABLE,
};
use kernel_memory::memory::paging::table::{Table, TableLevel, TableMemory};
use kernel_memory::memory::paging::{ActivePageTable, Page};
use kernel_memory::memory::{AreaFrameAllocator, Frame, FrameAllocator, MemoryArea, MemoryError};

/// Frames 0x100..=0x1ff.
fn allocator() -> AreaFrameAllocator {
    AreaFrameAllocator::new(0, 0, 0, 0, vec![MemoryArea { base_addr: 0x100000, length: 0x100000 }])
}

fn empty_allocator() -> AreaFrameAllocator {
    AreaFrameAllocator::new(0, 0, 0, 0, Vec::new())
}

fn new_table() -> ActivePageTable {
    ActivePageTable::new(Frame::from_number(0x50)).unwrap()
}

/// Hands out the frames it was given, in order.
struct Fixed {
    frames: Vec<Frame>,
    next: usize,
}

impl FrameAllocator for Fixed {
    fn allocate_frame(&mut self) -> Option<Frame> {
        let frame = self.frames.get(self.next).copied();
        self.next += 1;
        frame
    }
}

fn page(address: u64) -> Page {
    Page::containing_address(address).unwrap()
}

/// The page whose four indices are these.
fn page_at(p4: u64, p3: u64, p2: u64, p1: u64) -> Page {
    let number = (p4 << 27) | (p3 << 18) | (p2 << 9) | p1;
    let address = number << 12;
    let address = if p4 >= 256 { address | 0xffff_0000_0000_0000 } else { address };
    page(address)
}

#[test]
fn page_round_trip() {
    for address in [0u64, 1, 4095, 4096, 0x1234_5678, 0x7fff_ffff_ffff, 0xffff_8000_0000_0000,
        0xffff_ffff_ffff_ffff]
    {
        let page = Page::containing_address(address).unwrap();
        assert_eq!(page.start_address(), address - address % 4096);
        assert_eq!(page.number(), address / 4096);
    }
}

#[test]
fn non_canonical_address_is_refused() {
    for address in [0x0000_8000_0000_0000u64, 0x1234_0000_0000_0000, 0xffff_7fff_ffff_ffff] {
        assert_eq!(Page::containing_address(address), Err(MemoryError::InvalidAddress));
    }
}

#[test]
fn page_indices() {
    let p = page_at(1, 2, 3, 4);
    assert_eq!((p.p4_index(), p.p3_index(), p.p2_index(), p.p1_index()), (1, 2, 3, 4));
    let p = page_at(511, 510, 509, 508);
    assert_eq!((p.p4_index(), p.p3_index(), p.p2_index(), p.p1_index()), (511, 510, 509, 508));
    let p = page(42 * 512 * 512 * 4096);
    assert_eq!((p.p4_index(), p.p3_index(), p.p2_index(), p.p1_index()), (0, 42, 0, 0));
}

#[test]
fn new_table_holds_only_the_recursive_entry() {
    let table = new_table();
    let words = table.memory().words(Frame::from_number(0x50)).unwrap();
    assert_eq!(words.len(), 512);
    for (i, word) in words.iter().enumerate() {
        if i == 511 {
            assert_eq!(*word, 0x50 * 4096 | PRESENT | WRITABLE);
        } else {
            assert_eq!(*word, 0);
        }
    }
    assert_eq!(table.p4().frame, Frame::from_number(0x50));
    assert_eq!(table.p4().level, TableLevel::Four);
}

#[test]
fn new_table_in_a_frame_that_does_not_fit() {
    let frame = Frame::from_number(0x100_0000_0000);
    assert!(matches!(ActivePageTable::new(frame), Err(MemoryError::InvalidFrame)));
}

#[test]
fn recursive_entry_reaches_the_top_level_table() {
    let table = new_table();
    assert_eq!(table.translate(0xffff_ffff_ffff_f000), Ok(Some(0x50 * 4096)));
    assert_eq!(table.translate(0xffff_ffff_ffff_f123), Ok(Some(0x50 * 4096 + 0x123)));
}

#[test]
fn identity_map_then_translate() {
    let mut table = new_table();
    let mut allocator = allocator();
    let address = 42 * 512 * 512 * 4096u64;
    assert_eq!(table.translate(address), Ok(None));
    let frame = Frame::containing_address(address);
    assert_eq!(table.identity_map(frame, EntryFlags::empty(), &mut allocator), Ok(()));
    assert_eq!(table.translate(address), Ok(Some(address)));
}

#[test]
fn map_to_then_translate_every_offset() {
    let mut table = new_table();
    let mut allocator = allocator();
    let page = page(0x4000_1000);
    let frame = Frame::from_number(0x777);
    assert_eq!(table.map_to(page, frame, EntryFlags::writable(), &mut allocator), Ok(()));
    assert_eq!(table.translate_page(page), Ok(Some(frame)));
    for k in 0..4096u64 {
        assert_eq!(
            table.translate(page.start_address() + k),
            Ok(Some(frame.start_address() + k))
        );
    }
    assert_eq!(table.translate(page.start_address() + 4096), Ok(None));
}

#[test]
fn map_to_creates_three_tables_in_fresh_frames() {
    let mut table = new_table();
    let mut allocator = allocator();
    let page = page_at(1, 2, 3, 4);
    let frame = Frame::from_number(0x999);
    let flags = EntryFlags::from_bits_truncate(WRITABLE | NO_EXECUTE);
    assert_eq!(table.map_to(page, frame, flags, &mut allocator), Ok(()));
    let memory = table.memory();
    let p4 = memory.words(Frame::from_number(0x50)).unwrap();
    assert_eq!(p4[1], 0x100 * 4096 | PRESENT | WRITABLE);
    let p3 = memory.words(Frame::from_number(0x100)).unwrap();
    assert_eq!(p3[2], 0x101 * 4096 | PRESENT | WRITABLE);
    let p2 = memory.words(Frame::from_number(0x101)).unwrap();
    assert_eq!(p2[3], 0x102 * 4096 | PRESENT | WRITABLE);
    let p1 = memory.words(Frame::from_number(0x102)).unwrap();
    assert_eq!(p1[4], 0x999 * 4096 | PRESENT | WRITABLE | NO_EXECUTE);
    assert_eq!(p1.iter().filter(|w| **w != 0).count(), 1);
    assert_eq!(p2.iter().filter(|w| **w != 0).count(), 1);
    assert_eq!(p3.iter().filter(|w| **w != 0).count(), 1);
    // the next frame of the allocator is untouched
    assert_eq!(allocator.allocate_frame().map(|f| f.number()), Some(0x103));
}

#[test]
fn map_to_reuses_tables_that_exist() {
    let mut table = new_table();
    let mut allocator = allocator();
    assert_eq!(
        table.map_to(page_at(1, 2, 3, 4), Frame::from_number(7), EntryFlags::empty(), &mut allocator),
        Ok(())
    );
    let mut none = empty_allocator();
    assert_eq!(
        table.map_to(page_at(1, 2, 3, 5), Frame::from_number(8), EntryFlags::empty(), &mut none),
        Ok(())
    );
    assert_eq!(table.translate_page(page_at(1, 2, 3, 4)), Ok(Some(Frame::from_number(7))));
    assert_eq!(table.translate_page(page_at(1, 2, 3, 5)), Ok(Some(Frame::from_number(8))));
}

#[test]
fn map_to_a_mapped_page_is_refused() {
    let mut table = new_table();
    let mut allocator = allocator();
    let page = page(0x1000);
    assert_eq!(
        table.map_to(page, Frame::from_number(1), EntryFlags::empty(), &mut allocator),
        Ok(())
    );
    assert_eq!(
        table.map_to(page, Frame::from_number(2), EntryFlags::empty(), &mut allocator),
        Err(MemoryError::AlreadyMapped)
    );
    assert_eq!(table.translate_page(page), Ok(Some(Frame::from_number(1))));
}

#[test]
fn map_to_without_frames_for_tables() {
    let mut table = new_table();
    let mut none = empty_allocator();
    assert_eq!(
        table.map_to(page(0x1000), Frame::from_number(1), EntryFlags::empty(), &mut none),
        Err(MemoryError::OutOfFrames)
    );
    assert_eq!(table.translate(0x1000), Ok(None));
}

#[test]
fn map_asks_the_allocator_for_the_frame() {
    let mut table = new_table();
    let mut allocator = allocator();
    let page = page(0x20_0000);
    assert_eq!(table.map(page, EntryFlags::empty(), &mut allocator), Ok(()));
    assert_eq!(table.translate_page(page), Ok(Some(Frame::from_number(0x100))));
    let mut none = empty_allocator();
    assert_eq!(
        table.map(page_at(0, 0, 1, 1), EntryFlags::empty(), &mut none),
        Err(MemoryError::OutOfFrames)
    );
}

#[test]
fn map_to_a_frame_that_does_not_fit_in_an_entry() {
    let mut table = new_table();
    let mut allocator = allocator();
    let frame = Frame::from_number(0x100_0000_0000);
    assert_eq!(
        table.map_to(page(0x1000), frame, EntryFlags::empty(), &mut allocator),
        Err(MemoryError::InvalidFrame)
    );
}

#[test]
fn table_frame_that_is_in_use_is_refused() {
    let mut table = new_table();
    let mut fixed = Fixed { frames: vec![Frame::from_number(0x50)], next: 0 };
    assert_eq!(
        table.map_to(page(0x1000), Frame::from_number(1), EntryFlags::empty(), &mut fixed),
        Err(MemoryError::FrameInUse)
    );
    // the top-level table was not wiped
    assert_eq!(table.translate(0xffff_ffff_ffff_f000), Ok(Some(0x50 * 4096)));
}

#[test]
fn table_frame_that_does_not_fit_is_refused() {
    let mut table = new_table();
    let mut fixed = Fixed { frames: vec![Frame::from_number(0x100_0000_0000)], next: 0 };
    assert_eq!(
        table.map_to(page(0x1000), Frame::from_number(1), EntryFlags::empty(), &mut fixed),
        Err(MemoryError::InvalidFrame)
    );
}

#[test]
fn identity_map_of_a_frame_without_a_page() {
    let mut table = new_table();
    let mut allocator = allocator();
    let frame = Frame::containing_address(0x0000_8000_0000_0000);
    assert_eq!(
        table.identity_map(frame, EntryFlags::empty(), &mut allocator),
        Err(MemoryError::InvalidAddress)
    );
}

#[test]
fn unmap_then_translate() {
    let mut table = new_table();
    let mut allocator = allocator();
    let page = page(0x7000);
    let other = page_at(0, 0, 0, 8);
    table.map_to(page, Frame::from_number(3), EntryFlags::empty(), &mut allocator).unwrap();
    table.map_to(other, Frame::from_number(4), EntryFlags::empty(), &mut allocator).unwrap();
    assert_eq!(table.unmap(page, &mut allocator), Ok(0x7000));
    assert_eq!(table.translate(page.start_address()), Ok(None));
    assert_eq!(table.translate_page(other), Ok(Some(Frame::from_number(4))));
    // the frames of the tables are not given back
    assert_eq!(allocator.allocate_frame().map(|f| f.number()), Some(0x103));
}

#[test]
fn unmap_of_an_unmapped_page_is_refused() {
    let mut table = new_table();
    let mut allocator = allocator();
    assert_eq!(table.unmap(page(0x7000), &mut allocator), Err(MemoryError::NotMapped));
    table.map_to(page(0x7000), Frame::from_number(3), EntryFlags::empty(), &mut allocator).unwrap();
    assert_eq!(table.unmap(page(0x8000), &mut allocator), Err(MemoryError::NotMapped));
}

#[test]
fn translate_of_a_non_canonical_address() {
    let table = new_table();
    assert_eq!(table.translate(0x0000_8000_0000_0000), Err(MemoryError::InvalidAddress));
}

/// A table with a level-3 table under entry 0 whose entry 7 is a huge page
/// that starts at `start`.
fn table_with_huge_level3_entry(start: u64) -> ActivePageTable {
    let mut table = new_table();
    let mut allocator = allocator();
    table.map_to(page_at(0, 0, 0, 0), Frame::from_number(1), EntryFlags::empty(), &mut allocator)
        .unwrap();
    // through the recursive entry, the level-3 table is written like a level-1 table
    table
        .map_to(
            page_at(511, 511, 0, 7),
            Frame::from_number(start),
            EntryFlags::from_bits_truncate(HUGE_PAGE),
            &mut allocator,
        )
        .unwrap();
    table
}

#[test]
fn huge_page_of_one_gibibyte_is_read() {
    let table = table_with_huge_level3_entry(3 * 512 * 512);
    assert_eq!(
        table.translate_page(page_at(0, 7, 5, 9)),
        Ok(Some(Frame::from_number(3 * 512 * 512 + 5 * 512 + 9)))
    );
    assert_eq!(
        table.translate(page_at(0, 7, 5, 9).start_address() + 0x21),
        Ok(Some((3 * 512 * 512 + 5 * 512 + 9) * 4096 + 0x21))
    );
}

#[test]
fn huge_page_of_one_gibibyte_that_is_not_aligned() {
    let table = table_with_huge_level3_entry(3 * 512 * 512 + 512);
    assert_eq!(table.translate_page(page_at(0, 7, 5, 9)), Err(MemoryError::UnalignedHugePage));
}

#[test]
fn huge_page_of_two_mebibytes_is_read() {
    let mut table = new_table();
    let mut allocator = allocator();
    table.map_to(page_at(0, 0, 0, 0), Frame::from_number(1), EntryFlags::empty(), &mut allocator)
        .unwrap();
    let huge = EntryFlags::from_bits_truncate(HUGE_PAGE);
    table.map_to(page_at(511, 0, 0, 6), Frame::from_number(1024), huge, &mut allocator).unwrap();
    assert_eq!(table.translate_page(page_at(0, 0, 6, 33)), Ok(Some(Frame::from_number(1024 + 33))));
    table.map_to(page_at(511, 0, 0, 7), Frame::from_number(1025), huge, &mut allocator).unwrap();
    assert_eq!(table.translate_page(page_at(0, 0, 7, 33)), Err(MemoryError::UnalignedHugePage));
}

#[test]
fn mapping_code_does_not_touch_huge_pages() {
    let mut table = table_with_huge_level3_entry(3 * 512 * 512);
    let mut allocator = allocator();
    assert_eq!(
        table.map_to(page_at(0, 7, 5, 9), Frame::from_number(2), EntryFlags::empty(), &mut allocator),
        Err(MemoryError::HugePage)
    );
    assert_eq!(table.unmap(page_at(0, 7, 5, 9), &mut allocator), Err(MemoryError::HugePage));
    assert_eq!(
        table.translate_page(page_at(0, 7, 5, 9)),
        Ok(Some(Frame::from_number(3 * 512 * 512 + 5 * 512 + 9)))
    );
}

#[test]
fn pointer_to_a_frame_that_holds_no_table() {
    let mut table = new_table();
    let mut allocator = allocator();
    // writes entry 5 of the top-level table like a level-1 entry
    table
        .map_to(page_at(511, 511, 511, 5), Frame::from_number(0x3000), EntryFlags::empty(), &mut allocator)
        .unwrap();
    assert_eq!(table.translate_page(page_at(5, 0, 0, 0)), Err(MemoryError::UntrackedTable));
    assert_eq!(
        table.map_to(page_at(5, 0, 0, 0), Frame::from_number(1), EntryFlags::empty(), &mut allocator),
        Err(MemoryError::UntrackedTable)
    );
    assert_eq!(table.unmap(page_at(5, 0, 0, 0), &mut allocator), Err(MemoryError::UntrackedTable));
}

#[test]
fn next_table_and_next_table_create() {
    let mut memory = TableMemory::new();
    let mut allocator = allocator();
    let mut table = new_table();
    table.map_to(page_at(3, 0, 0, 0), Frame::from_number(1), EntryFlags::empty(), &mut allocator)
        .unwrap();
    let p4 = table.p4();
    let p3 = table.memory().next_table(p4, 3).unwrap();
    assert_eq!(p3.frame.number(), 0x100);
    assert_eq!(p3.level, TableLevel::Three);
    assert!(table.memory().next_table(p4, 4).is_none());
    assert_eq!(table.memory().descend(p4, 4), Ok(None));
    let again = table.memory().next_table(p4, 511).unwrap();
    assert_eq!(again.frame.number(), 0x50);
    assert!(!memory.contains(Frame::from_number(0x50)));
    assert!(table.memory().contains(Frame::from_number(0x50)));
    assert_eq!(memory.entry(Frame::from_number(0x50), 0), None);
    assert_eq!(table.memory().entry(Frame::from_number(0x50), 512), None);
    assert_eq!(
        memory.next_table_create(p4, 0, &mut allocator),
        Err(MemoryError::UntrackedTable)
    );
    assert!(memory.words(Frame::from_number(0x50)).is_none());
}

#[test]
fn next_table_create_in_a_given_frame() {
    let mut table = new_table();
    let mut allocator = allocator();
    table.map_to(page_at(3, 0, 0, 0), Frame::from_number(1), EntryFlags::empty(), &mut allocator)
        .unwrap();
    let p4 = table.p4();
    let mut fixed = Fixed { frames: vec![Frame::from_number(0x60)], next: 0 };
    let mut copy = ActivePageTable::new(Frame::from_number(0x50)).unwrap();
    copy.map_to(page_at(4, 0, 0, 0), Frame::from_number(1), EntryFlags::empty(), &mut fixed)
        .unwrap_err();
    assert_eq!(copy.memory().next_table(p4, 4).unwrap().frame.number(), 0x60);
    let zeroed = copy.memory().words(Frame::from_number(0x60)).unwrap();
    assert!(zeroed.iter().all(|w| *w == 0));
}

#[test]
fn entry_set_and_read() {
    let mut entry = Entry::unused();
    assert!(entry.is_unused());
    assert_eq!(entry.pointed_frame(), None);
    entry.set(Frame::from_number(0xabc), EntryFlags::from_bits_truncate(PRESENT | NO_EXECUTE));
    assert_eq!(entry.bits(), 0xabc000 | PRESENT | NO_EXECUTE);
    assert!(!entry.is_unused());
    assert!(entry.is_present());
    assert!(!entry.is_huge());
    assert_eq!(entry.pointed_frame(), Some(Frame::from_number(0xabc)));
    assert_eq!(entry.flags().bits(), PRESENT | NO_EXECUTE);
    entry.set(Frame::from_number(0xabc), EntryFlags::writable());
    assert_eq!(entry.pointed_frame(), None);
    entry.set_unused();
    assert_eq!(entry.bits(), 0);
    assert_eq!(Entry::from_bits(0xffff_ffff_ffff_ffff).pointed_frame().unwrap().number(), 0xff_ffff_ffff);
    assert!(Entry::from_bits(HUGE_PAGE).is_huge());
}

#[test]
fn entry_flags() {
    assert_eq!(EntryFlags::empty().bits(), 0);
    assert!(EntryFlags::empty().is_empty());
    assert_eq!(EntryFlags::present().bits(), 1);
    assert_eq!(EntryFlags::writable().bits(), 2);
    assert_eq!(EntryFlags::no_execute().bits(), 1 << 63);
    assert_eq!(EntryFlags::from_bits_truncate(0xffff_ffff_ffff_ffff).bits(), 0x8000_0000_0000_01ff);
    assert_eq!(EntryFlags::from_bits(0x1000), None);
    assert_eq!(EntryFlags::from_bits(0x81).map(|f| f.bits()), Some(0x81));
    let both = EntryFlags::present().union(EntryFlags::writable());
    assert_eq!(both.bits(), 3);
    assert!(both.contains(EntryFlags::present()));
    assert!(!EntryFlags::present().contains(both));
    assert!(both.contains(EntryFlags::empty()));
}

#[test]
fn table_of_entries() {
    let table = Table::new();
    assert!(table.words().iter().all(|w| *w == 0));
    let changed = table.with_entry(9, Entry::from_bits(0x1234));
    assert_eq!(changed.entry(9).bits(), 0x1234);
    assert_eq!(changed.entry(8).bits(), 0);
    assert_eq!(table.entry(9).bits(), 0);
    assert_eq!(changed.words().len(), 512);
    assert_eq!(TableLevel::Four.next_level(), TableLevel::Three);
    assert_eq!(TableLevel::Three.next_level(), TableLevel::Two);
    assert_eq!(TableLevel::Two.next_level(), TableLevel::One);
}

#[test]
fn tables_are_found_at_their_recursive_addresses() {
    let mut table = new_table();
    let mut allocator = allocator();
    table.map_to(page_at(3, 4, 5, 6), Frame::from_number(1), EntryFlags::empty(), &mut allocator)
        .unwrap();
    let p4 = table.p4();
    assert_eq!(p4.address, 0xffff_ffff_ffff_f000);
    let p3 = table.memory().next_table(p4, 3).unwrap();
    assert_eq!(p3.address, 0xffff_ffff_ffe0_3000);
    let p2 = table.memory().next_table(p3, 4).unwrap();
    assert_eq!(p2.address, 0xffff_ffff_c060_4000);
    let p1 = table.memory().next_table(p2, 5).unwrap();
    assert_eq!(p1.address, 0xffff_ff80_c080_5000);
    assert_eq!(p1.level, TableLevel::One);
    for t in [p4, p3, p2, p1] {
        assert_eq!(table.translate(t.address), Ok(Some(t.frame.start_address())));
    }
}

#[test]
fn tracked_frames_are_listed_each_once() {
    let mut table = new_table();
    let mut allocator = allocator();
    table.map_to(page_at(3, 4, 5, 6), Frame::from_number(1), EntryFlags::empty(), &mut allocator)
        .unwrap();
    let mut numbers: Vec<u64> = table.memory().frames().iter().map(|f| f.number()).collect();
    numbers.sort();
    assert_eq!(numbers, vec![0x50, 0x100, 0x101, 0x102]);
    assert!(TableMemory::new().frames().is_empty());
}

#[test]
fn map_draws_the_page_frame_first_and_then_the_table_frames() {
    let mut table = new_table();
    let mut allocator = AreaFrameAllocator::new(
        0x150000,
        0x160000,
        0,
        0,
        vec![MemoryArea { base_addr: 0x100000, length: 0x100000 }],
    );
    let page = page(0xA_8000_0000);
    assert_eq!(table.map(page, EntryFlags::empty(), &mut allocator), Ok(()));
    assert_eq!(table.translate(0xA_8000_0000), Ok(Some(0x100000)));
    let mut tables: Vec<u64> = table.memory().frames().iter().map(|f| f.number()).collect();
    tables.sort();
    assert_eq!(tables, vec![0x50, 0x101, 0x102, 0x103]);
    assert_eq!(allocator.allocate_frame().map(|f| f.number()), Some(0x104));
}

/// Counts how often it is asked.
struct Counting {
    inner: AreaFrameAllocator,
    requests: usize,
}

impl FrameAllocator for Counting {
    fn allocate_frame(&mut self) -> Option<Frame> {
        self.requests += 1;
        self.inner.allocate_frame()
    }
}

#[test]
fn one_request_for_each_missing_table() {
    let mut table = new_table();
    let mut counting = Counting { inner: allocator(), requests: 0 };
    let empty = EntryFlags::empty();
    table.map_to(page_at(1, 2, 3, 4), Frame::from_number(7), empty, &mut counting).unwrap();
    assert_eq!(counting.requests, 3);
    table.map_to(page_at(1, 2, 3, 5), Frame::from_number(8), empty, &mut counting).unwrap();
    assert_eq!(counting.requests, 3);
    table.map_to(page_at(1, 2, 4, 0), Frame::from_number(9), empty, &mut counting).unwrap();
    assert_eq!(counting.requests, 4);
    table.map_to(page_at(1, 3, 0, 0), Frame::from_number(10), empty, &mut counting).unwrap();
    assert_eq!(counting.requests, 6);
    assert_eq!(
        table.map_to(page_at(1, 2, 3, 4), Frame::from_number(7), empty, &mut counting),
        Err(MemoryError::AlreadyMapped)
    );
    assert_eq!(counting.requests, 6);
    table.map(page_at(2, 0, 0, 0), empty, &mut counting).unwrap();
    assert_eq!(counting.requests, 10);
}

#[test]
fn identity_map_of_a_frame_without_a_page_asks_for_nothing() {
    let mut table = new_table();
    let mut counting = Counting { inner: allocator(), requests: 0 };
    let frame = Frame::from_number(0x8_0000_0000);
    assert_eq!(
        table.identity_map(frame, EntryFlags::empty(), &mut counting),
        Err(MemoryError::InvalidAddress)
    );
    assert_eq!(counting.requests, 0);
    assert_eq!(table.memory().frames().len(), 1);
}
