//! What the boot loader reports, as plain values: the usable memory areas,
//! the sections of the kernel image, and where the report itself lies.

use vstd::prelude::*;
use crate::memory::{AreaFrameAllocator, MemoryArea, MemoryError};
use crate::memory::area_frame_allocator::FrameSpan;
use crate::memory::paging::entry::has_flag;

verus! {

/// The section may be written at run time.
pub const ELF_SECTION_WRITABLE: u64 = 0x1;

/// The section occupies memory at run time.
pub const ELF_SECTION_ALLOCATED: u64 = 0x2;

/// The section holds instructions.
pub const ELF_SECTION_EXECUTABLE: u64 = 0x4;

/// One section of the kernel image.
#[derive(Clone, Copy, Debug, PartialEq, Eq, Structural)]
pub struct ElfSection {
    pub addr: u64,
    pub size: u64,
    pub flags: u64,
}

impl ElfSection {
    /// The address just past the section, or the highest address if the
    /// section would run past the end of the address space.
    pub open spec fn spec_end_address(self) -> u64 {
        if self.addr + self.size <= u64::MAX {
            (self.addr + self.size) as u64
        } else {
            u64::MAX
        }
    }

    pub fn end_address(&self) -> (end: u64)
        ensures
            end == self.spec_end_address(),
    {
        match self.addr.checked_add(self.size) {
            Some(end) => end,
            None => u64::MAX,
        }
    }

    /// Whether the section occupies memory at run time.
    pub fn is_allocated(&self) -> (allocated: bool)
        ensures
            allocated == has_flag(self.flags, ELF_SECTION_ALLOCATED),
    {
        self.flags & ELF_SECTION_ALLOCATED == ELF_SECTION_ALLOCATED
    }

    /// Whether the section may be written.
    pub fn is_writable(&self) -> (writable: bool)
        ensures
            writable == has_flag(self.flags, ELF_SECTION_WRITABLE),
    {
        self.flags & ELF_SECTION_WRITABLE == ELF_SECTION_WRITABLE
    }

    /// Whether the section holds instructions.
    pub fn is_executable(&self) -> (executable: bool)
        ensures
            executable == has_flag(self.flags, ELF_SECTION_EXECUTABLE),
    {
        self.flags & ELF_SECTION_EXECUTABLE == ELF_SECTION_EXECUTABLE
    }

    /// The memory the section occupies.
    pub fn area(&self) -> (area: MemoryArea)
        ensures
            area == (MemoryArea { base_addr: self.addr, length: self.size }),
    {
        MemoryArea { base_addr: self.addr, length: self.size }
    }
}

/// `start` is the lowest start address among `sections`, `end` the highest
/// end address.
pub open spec fn bounds_of(sections: Seq<ElfSection>, start: u64, end: u64) -> bool {
    &&& exists|i: int| 0 <= i < sections.len() && #[trigger] sections[i].addr == start
    &&& exists|i: int| 0 <= i < sections.len() && #[trigger] sections[i].spec_end_address() == end
    &&& forall|i: int|
        0 <= i < sections.len() ==> start <= (#[trigger] sections[i]).addr
            && sections[i].spec_end_address() <= end
}

/// The lowest start address and the highest end address among `sections`,
/// or `None` if there is no section.
pub fn kernel_bounds(sections: &Vec<ElfSection>) -> (bounds: Option<(u64, u64)>)
    ensures
        bounds is None <==> sections@.len() == 0,
        bounds matches Some(b) ==> bounds_of(sections@, b.0, b.1),
{
    if sections.len() == 0 {
        return None;
    }
    let mut start: u64 = sections[0].addr;
    let mut end: u64 = sections[0].end_address();
    let ghost mut lowest: int = 0;
    let ghost mut highest: int = 0;
    let mut i: usize = 1;
    while i < sections.len()
        invariant
            1 <= i <= sections.len(),
            0 <= lowest < i,
            0 <= highest < i,
            sections[lowest].addr == start,
            sections[highest].spec_end_address() == end,
            forall|j: int|
                0 <= j < i ==> start <= (#[trigger] sections[j]).addr
                    && sections[j].spec_end_address() <= end,
        decreases sections.len() - i,
    {
        let section = sections[i];
        if section.addr < start {
            start = section.addr;
            proof {
                lowest = i as int;
            }
        }
        let section_end = section.end_address();
        if section_end > end {
            end = section_end;
            proof {
                highest = i as int;
            }
        }
        i += 1;
    }
    Some((start, end))
}

/// The boot loader's report.  A part that the boot loader left out is `None`.
pub struct BootInformation {
    /// Address of the first byte of the report itself.
    pub start_address: u64,
    /// Size in bytes of the report itself.
    pub total_size: u32,
    /// The usable memory areas.
    pub memory_areas: Option<Vec<MemoryArea>>,
    /// The sections of the kernel image.
    pub elf_sections: Option<Vec<ElfSection>>,
}

impl BootInformation {
    /// The address just past the report.
    pub open spec fn spec_end_address(self) -> u64 {
        if self.start_address + self.total_size <= u64::MAX {
            (self.start_address + self.total_size) as u64
        } else {
            u64::MAX
        }
    }

    pub fn end_address(&self) -> (end: u64)
        ensures
            end == self.spec_end_address(),
    {
        match self.start_address.checked_add(self.total_size as u64) {
            Some(end) => end,
            None => u64::MAX,
        }
    }

    /// The memory the report occupies.
    pub fn area(&self) -> (area: MemoryArea)
        ensures
            area == (MemoryArea {
                base_addr: self.start_address,
                length: self.total_size as u64,
            }),
    {
        MemoryArea { base_addr: self.start_address, length: self.total_size as u64 }
    }

    /// A frame allocator over the reported memory areas that spares the
    /// kernel image, from its lowest section start to its highest section
    /// end, and the report itself.
    ///
    /// Fails with `MissingMemoryMap` where the memory areas are left out, and
    /// with `MissingElfSections` where the sections are left out or empty.
    pub fn frame_allocator(&self) -> (allocator: Result<AreaFrameAllocator, MemoryError>)
        ensures
            self.memory_areas is None ==> allocator is Err && allocator->Err_0
                == MemoryError::MissingMemoryMap,
            self.memory_areas is Some && (self.elf_sections is None
                || self.elf_sections->0@.len() == 0) ==> allocator is Err && allocator->Err_0
                == MemoryError::MissingElfSections,
            self.memory_areas is Some && self.elf_sections is Some && self.elf_sections->0@.len()
                > 0 ==> allocator is Ok,
            allocator matches Ok(a) ==> {
                &&& a@.areas == self.memory_areas->0@
                &&& a@.multiboot == FrameSpan::of_bytes(
                    self.start_address,
                    self.spec_end_address(),
                )
                &&& exists|start: u64, end: u64|
                    bounds_of(self.elf_sections->0@, start, end) && a@.kernel
                        == #[trigger] FrameSpan::of_bytes(start, end)
                &&& forall|g: nat| g < a@.cursor ==> !a@.is_usable(g)
            },
    {
        let areas = match &self.memory_areas {
            Some(areas) => areas,
            None => {
                return Err(MemoryError::MissingMemoryMap);
            },
        };
        let sections = match &self.elf_sections {
            Some(sections) => sections,
            None => {
                return Err(MemoryError::MissingElfSections);
            },
        };
        let (kernel_start, kernel_end) = match kernel_bounds(sections) {
            Some(bounds) => bounds,
            None => {
                return Err(MemoryError::MissingElfSections);
            },
        };
        let mut copy: Vec<MemoryArea> = Vec::new();
        let mut i: usize = 0;
        while i < areas.len()
            invariant
                i <= areas.len(),
                copy@ == areas@.subrange(0, i as int),
            decreases areas.len() - i,
        {
            copy.push(areas[i]);
            assert(copy@ =~= areas@.subrange(0, i + 1));
            i += 1;
        }
        assert(copy@ =~= areas@);
        let allocator = AreaFrameAllocator::new(
            kernel_start,
            kernel_end,
            self.start_address,
            self.end_address(),
            copy,
        );
        assert(allocator@.kernel == FrameSpan::of_bytes(kernel_start, kernel_end));
        Ok(allocator)
    }
}

} // verus!
