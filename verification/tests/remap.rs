use kernel_memory::boot::{
    kernel_bounds, BootInformation, ElfSection, ELF_SECTION_ALLOCATED, ELF_SECTION_EXECUTABLE,
    ELF_SECTION_WRITABLE,
};
use kernel_memory::memory::paging::entry::{EntryFlags, NO_EXECUTE, PRESENT, WRITABLE};
use kernel_memory::memory::paging::{ActivePageTable, Page};
use kernel_memory::memory::remap::{Mapping, VGA_BUFFER_ADDRESS};
use kernel_memory::memory::{
    remap_the_kernel, AreaFrameAllocator, Frame, FrameAllocator, MemoryArea, MemoryError,
};

fn section(addr: u64, size: u64, flags: u64) -> ElfSection {
    ElfSection { addr, size, flags }
}

/// A kernel at 1 MiB: two pages of code, one of constants, two of data, and
/// a section that takes no memory.
fn boot_info() -> BootInformation {
    BootInformation {
        start_address: 0x9000,
        total_size: 0x1800,
        memory_areas: Some(vec![
            MemoryArea { base_addr: 0, length: 0x9f000 },
            MemoryArea { base_addr: 0x100000, length: 0x700000 },
        ]),
        elf_sections: Some(vec![
            section(0x100000, 0x2000, ELF_SECTION_ALLOCATED | ELF_SECTION_EXECUTABLE),
            section(0x102000, 0x1000, ELF_SECTION_ALLOCATED),
            section(0x103000, 0x2000, ELF_SECTION_ALLOCATED | ELF_SECTION_WRITABLE),
            section(0x200000, 0x5000, 0),
        ]),
    }
}

fn leaf_word(table: &ActivePageTable, address: u64) -> u64 {
    let page = Page::containing_address(address).unwrap();
    let memory = table.memory();
    let p3 = memory.next_table(table.p4(), page.p4_index()).unwrap();
    let p2 = memory.next_table(p3, page.p3_index()).unwrap();
    let p1 = memory.next_table(p2, page.p2_index()).unwrap();
    memory.entry(p1.frame, page.p1_index()).unwrap().bits()
}

#[test]
fn section_flags_become_entry_flags() {
    let flags = |f: u64| EntryFlags::from_elf_section_flags(&section(0, 0, f)).bits();
    assert_eq!(flags(ELF_SECTION_ALLOCATED | ELF_SECTION_EXECUTABLE), PRESENT);
    assert_eq!(flags(ELF_SECTION_ALLOCATED), PRESENT | NO_EXECUTE);
    assert_eq!(
        flags(ELF_SECTION_ALLOCATED | ELF_SECTION_WRITABLE),
        PRESENT | WRITABLE | NO_EXECUTE
    );
    assert_eq!(
        flags(ELF_SECTION_ALLOCATED | ELF_SECTION_WRITABLE | ELF_SECTION_EXECUTABLE),
        PRESENT | WRITABLE
    );
    assert_eq!(flags(0), NO_EXECUTE);
}

#[test]
fn kernel_bounds_are_lowest_start_and_highest_end() {
    let sections = boot_info().elf_sections.unwrap();
    assert_eq!(kernel_bounds(&sections), Some((0x100000, 0x205000)));
    assert_eq!(kernel_bounds(&Vec::new()), None);
    let unsorted = vec![section(0x3000, 0x1000, 0), section(0x1000, 0x500, 0)];
    assert_eq!(kernel_bounds(&unsorted), Some((0x1000, 0x4000)));
    let huge = vec![section(0xffff_ffff_ffff_0000, 0x20000, 0)];
    assert_eq!(kernel_bounds(&huge), Some((0xffff_ffff_ffff_0000, u64::MAX)));
}

#[test]
fn section_predicates() {
    let s = section(0x1000, 0x234, ELF_SECTION_ALLOCATED | ELF_SECTION_WRITABLE);
    assert!(s.is_allocated());
    assert!(s.is_writable());
    assert!(!s.is_executable());
    assert_eq!(s.end_address(), 0x1234);
    assert_eq!(s.area(), MemoryArea { base_addr: 0x1000, length: 0x234 });
    let info = boot_info();
    assert_eq!(info.end_address(), 0xa800);
    assert_eq!(info.area(), MemoryArea { base_addr: 0x9000, length: 0x1800 });
}

#[test]
fn allocator_from_boot_information_spares_kernel_and_report() {
    let mut allocator = boot_info().frame_allocator().unwrap();
    let mut numbers = Vec::new();
    while let Some(frame) = allocator.allocate_frame() {
        numbers.push(frame.number());
    }
    // frames 0..=0x9e without the report at 9..=0xa, then 0x205..=0x7ff
    assert_eq!(numbers.len(), 0x9f - 2 + (0x800 - 0x205));
    assert_eq!(numbers[0], 0);
    assert!(!numbers.contains(&0x9) && !numbers.contains(&0xa));
    assert!(numbers.contains(&0x8) && numbers.contains(&0xb));
    assert!(!numbers.iter().any(|n| (0x100..0x205).contains(n)));
    assert!(numbers.contains(&0x205));
    assert_eq!(*numbers.last().unwrap(), 0x7ff);
}

#[test]
fn allocator_needs_memory_map_and_sections() {
    let mut info = boot_info();
    info.memory_areas = None;
    assert!(matches!(info.frame_allocator(), Err(MemoryError::MissingMemoryMap)));
    let mut info = boot_info();
    info.elf_sections = None;
    assert!(matches!(info.frame_allocator(), Err(MemoryError::MissingElfSections)));
    let mut info = boot_info();
    info.elf_sections = Some(Vec::new());
    assert!(matches!(info.frame_allocator(), Err(MemoryError::MissingElfSections)));
}

#[test]
fn kernel_mappings_list_sections_report_and_text_buffer() {
    let mappings = boot_info().kernel_mappings().unwrap();
    let listed: Vec<(u64, u64)> =
        mappings.iter().map(|m: &Mapping| (m.frame.number(), m.flags.bits())).collect();
    assert_eq!(
        listed,
        vec![
            (0x100, PRESENT),
            (0x101, PRESENT),
            (0x102, PRESENT | NO_EXECUTE),
            (0x103, PRESENT | WRITABLE | NO_EXECUTE),
            (0x104, PRESENT | WRITABLE | NO_EXECUTE),
            (0x9, 0),
            (0xa, 0),
            (VGA_BUFFER_ADDRESS / 4096, WRITABLE),
        ]
    );
    let mut info = boot_info();
    info.elf_sections = None;
    assert!(matches!(info.kernel_mappings(), Err(MemoryError::MissingElfSections)));
}

#[test]
fn remapped_kernel_is_identity_mapped_with_section_flags() {
    let info = boot_info();
    let mut allocator = info.frame_allocator().unwrap();
    let old_p4 = Frame::from_number(0x104);
    let table = remap_the_kernel(&mut allocator, &info, old_p4).unwrap();
    for address in [0x100000u64, 0x100fff, 0x101234, 0x102000, 0x103008, 0x9000, 0xa7ff, 0xb8000,
        0xb8f9f]
    {
        assert_eq!(table.translate(address), Ok(Some(address)));
    }
    // the page of the old top-level table is a guard page now
    assert_eq!(table.translate(0x104000), Ok(None));
    // what is not part of the kernel is not mapped
    for address in [0u64, 0x8fff, 0xb000, 0xb7fff, 0xb9000, 0x105000, 0x200000] {
        assert_eq!(table.translate(address), Ok(None));
    }
    assert_eq!(leaf_word(&table, 0x100000), 0x100000 | PRESENT);
    assert_eq!(leaf_word(&table, 0x102000), 0x102000 | PRESENT | NO_EXECUTE);
    assert_eq!(leaf_word(&table, 0x103000), 0x103000 | PRESENT | WRITABLE | NO_EXECUTE);
    assert_eq!(leaf_word(&table, 0x9000), 0x9000 | PRESENT);
    assert_eq!(leaf_word(&table, 0xb8000), 0xb8000 | PRESENT | WRITABLE);
    assert_eq!(leaf_word(&table, 0x104000), 0);
    // the new top-level table lies in the first free frame and reaches itself
    assert_eq!(table.p4().frame.number(), 0);
    assert_eq!(table.translate(0xffff_ffff_ffff_f000), Ok(Some(0)));
}

#[test]
fn remap_fails_where_the_old_table_is_not_part_of_the_kernel() {
    let info = boot_info();
    let mut allocator = info.frame_allocator().unwrap();
    let result = remap_the_kernel(&mut allocator, &info, Frame::from_number(0x300));
    assert!(matches!(result, Err(MemoryError::NotMapped)));
}

#[test]
fn remap_without_memory_fails() {
    let info = boot_info();
    let mut allocator = AreaFrameAllocator::new(0, 0, 0, 0, Vec::new());
    let result = remap_the_kernel(&mut allocator, &info, Frame::from_number(0x104));
    assert!(matches!(result, Err(MemoryError::OutOfFrames)));
    let mut one =
        AreaFrameAllocator::new(0, 0, 0, 0, vec![MemoryArea { base_addr: 0, length: 0x1000 }]);
    let result = remap_the_kernel(&mut one, &info, Frame::from_number(0x104));
    assert!(matches!(result, Err(MemoryError::OutOfFrames)));
}

#[test]
fn remap_without_sections_fails() {
    let mut info = boot_info();
    let mut allocator = info.frame_allocator().unwrap();
    info.elf_sections = None;
    let result = remap_the_kernel(&mut allocator, &info, Frame::from_number(0x104));
    assert!(matches!(result, Err(MemoryError::MissingElfSections)));
}

#[test]
fn remap_of_sections_that_share_a_frame_fails() {
    let mut info = boot_info();
    info.elf_sections = Some(vec![
        section(0x100000, 0x800, ELF_SECTION_ALLOCATED),
        section(0x100800, 0x800, ELF_SECTION_ALLOCATED),
    ]);
    let mut allocator = info.frame_allocator().unwrap();
    let result = remap_the_kernel(&mut allocator, &info, Frame::from_number(0x100));
    assert!(matches!(result, Err(MemoryError::AlreadyMapped)));
}

#[test]
fn identity_map_all_stops_at_the_first_failure() {
    let mut table = ActivePageTable::new(Frame::from_number(0x50)).unwrap();
    let mut allocator = AreaFrameAllocator::new(
        0,
        0,
        0,
        0,
        vec![MemoryArea { base_addr: 0x100000, length: 0x100000 }],
    );
    let mapping = |n: u64| Mapping { frame: Frame::from_number(n), flags: EntryFlags::empty() };
    let mappings = vec![mapping(1), mapping(2), mapping(1), mapping(3)];
    assert_eq!(table.identity_map_all(&mappings, &mut allocator), Err(MemoryError::AlreadyMapped));
    assert_eq!(table.translate(0x1000), Ok(Some(0x1000)));
    assert_eq!(table.translate(0x2000), Ok(Some(0x2000)));
    assert_eq!(table.translate(0x3000), Ok(None));
}

#[test]
fn every_error_has_its_own_words() {
    let all = [
        MemoryError::InvalidAddress,
        MemoryError::AlreadyMapped,
        MemoryError::NotMapped,
        MemoryError::UnalignedHugePage,
        MemoryError::HugePage,
        MemoryError::OutOfFrames,
        MemoryError::InvalidFrame,
        MemoryError::FrameInUse,
        MemoryError::UntrackedTable,
        MemoryError::MissingMemoryMap,
        MemoryError::MissingElfSections,
    ];
    for (i, a) in all.iter().enumerate() {
        assert!(!a.description().is_empty());
        for b in &all[i + 1..] {
            assert_ne!(a.description(), b.description());
        }
    }
    assert_eq!(MemoryError::OutOfFrames.description(), "out of memory");
    assert_eq!(
        MemoryError::HugePage.description(),
        "mapping code does not support huge pages"
    );
}
