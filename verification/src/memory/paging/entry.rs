//! One 64-bit page-table entry: the number of a physical frame packed with
//! permission and attribute bits.

use vstd::prelude::*;
use crate::boot::{
    ElfSection, ELF_SECTION_ALLOCATED, ELF_SECTION_EXECUTABLE, ELF_SECTION_WRITABLE,
};
use crate::memory::Frame;

verus! {

/// The entry is in use and the hardware may follow it.
pub const PRESENT: u64 = 0x1;

/// The memory behind the entry may be written.
pub const WRITABLE: u64 = 0x2;

/// The memory behind the entry may be accessed from user mode.
pub const USER_ACCESSIBLE: u64 = 0x4;

/// Writes go straight to memory.
pub const WRITE_THROUGH: u64 = 0x8;

/// The memory behind the entry is not cached.
pub const NO_CACHE: u64 = 0x10;

/// Set by the processor when the entry is used.
pub const ACCESSED: u64 = 0x20;

/// Set by the processor when the page is written.
pub const DIRTY: u64 = 0x40;

/// In a level-3 or level-2 table: the entry maps a 1 GiB or 2 MiB page
/// instead of pointing to a table.
pub const HUGE_PAGE: u64 = 0x80;

/// The translation survives an address-space switch.
pub const GLOBAL: u64 = 0x100;

/// Instructions may not be fetched from the page.
pub const NO_EXECUTE: u64 = 0x8000_0000_0000_0000;

/// Every bit that is a flag.
pub const ALL_FLAGS: u64 = 0x8000_0000_0000_01ff;

/// The bits of an entry that hold the address of the frame it points to.
pub const ADDRESS_MASK: u64 = 0x000f_ffff_ffff_f000;

/// The highest frame number that fits in an entry.
pub const MAX_ENTRY_FRAME: u64 = 0xff_ffff_ffff;

/// Whether all bits of `flag` are set in `bits`.
pub open spec fn has_flag(bits: u64, flag: u64) -> bool {
    bits & flag == flag
}

/// Whether an entry with these bits is present.
pub open spec fn entry_present(bits: u64) -> bool {
    has_flag(bits, PRESENT)
}

/// Whether an entry with these bits has the huge-page flag.
pub open spec fn entry_huge(bits: u64) -> bool {
    has_flag(bits, HUGE_PAGE)
}

/// Number of the frame that an entry with these bits points to.
pub open spec fn entry_frame(bits: u64) -> nat {
    ((bits & ADDRESS_MASK) / 4096) as nat
}

/// The bits of an entry that points to frame `frame` with flags `flags`.
pub open spec fn entry_bits(frame: nat, flags: u64) -> u64 {
    ((frame * 4096) as u64) | flags
}

/// The entry flags for a kernel section with the given section flags: present
/// if the section is allocated, writable if it is writable, and no-execute
/// unless it is executable.
pub open spec fn spec_section_flags(section_flags: u64) -> u64 {
    (if has_flag(section_flags, ELF_SECTION_ALLOCATED) {
        PRESENT
    } else {
        0
    }) | (if has_flag(section_flags, ELF_SECTION_WRITABLE) {
        WRITABLE
    } else {
        0
    }) | (if has_flag(section_flags, ELF_SECTION_EXECUTABLE) {
        0
    } else {
        NO_EXECUTE
    })
}

/// An entry built from a frame that fits and from flag bits gives back that
/// frame and those flags.
pub proof fn lemma_entry_bits(frame: nat, flags: u64)
    requires
        frame <= MAX_ENTRY_FRAME,
        flags & ALL_FLAGS == flags,
    ensures
        entry_frame(entry_bits(frame, flags)) == frame,
        entry_bits(frame, flags) & ALL_FLAGS == flags,
        entry_present(entry_bits(frame, flags)) == has_flag(flags, PRESENT),
        entry_huge(entry_bits(frame, flags)) == has_flag(flags, HUGE_PAGE),
        entry_bits(frame, flags) == 0 <==> frame == 0 && flags == 0,
{
    let f = frame as u64;
    let a = (frame * 4096) as u64;
    assert(a == f << 12 && (f << 12) / 4096 == f) by (bit_vector)
        requires
            f <= 0xff_ffff_ffffu64,
            a == f * 4096,
    ;
    assert({
        &&& ((f << 12) | flags) & 0x000f_ffff_ffff_f000 == f << 12
        &&& ((f << 12) | flags) & 0x8000_0000_0000_01ff == flags
        &&& (((f << 12) | flags) & 0x1 == 0x1) == (flags & 0x1 == 0x1)
        &&& (((f << 12) | flags) & 0x80 == 0x80) == (flags & 0x80 == 0x80)
        &&& (((f << 12) | flags) == 0) == (f == 0 && flags == 0)
    }) by (bit_vector)
        requires
            f <= 0xff_ffff_ffffu64,
            flags & 0x8000_0000_0000_01ff == flags,
    ;
}

/// Whether an entry with these bits is in one of its two valid states:
/// entirely unused, or present.
pub open spec fn entry_valid(bits: u64) -> bool {
    bits == 0 || entry_present(bits)
}

/// An entry built with the present flag is present, whatever else it holds.
pub proof fn lemma_present_entry(frame: nat, flags: u64)
    ensures
        entry_present(entry_bits(frame, flags | PRESENT)),
{
    let a = (frame * 4096) as u64;
    assert((a | (flags | 0x1)) & 0x1 == 0x1) by (bit_vector);
}

/// An entry that is all zero is not present.
pub proof fn lemma_unused_entry()
    ensures
        !entry_present(0),
        !entry_huge(0),
{
    assert(0u64 & 0x1 != 0x1 && 0u64 & 0x80 != 0x80) by (bit_vector);
}

/// An entry that links a table is present and writable, not a huge page, and
/// points to the frame of the table.
pub proof fn lemma_link_entry(frame: nat)
    requires
        frame <= MAX_ENTRY_FRAME,
    ensures
        entry_present(entry_bits(frame, PRESENT | WRITABLE)),
        !entry_huge(entry_bits(frame, PRESENT | WRITABLE)),
        entry_frame(entry_bits(frame, PRESENT | WRITABLE)) == frame,
        (PRESENT | WRITABLE) & ALL_FLAGS == PRESENT | WRITABLE,
{
    assert((0x1u64 | 0x2u64) & 0x8000_0000_0000_01ff == 0x1u64 | 0x2u64 && (0x1u64 | 0x2u64) & 0x1
        == 0x1 && (0x1u64 | 0x2u64) & 0x80 != 0x80) by (bit_vector);
    lemma_entry_bits(frame, PRESENT | WRITABLE);
}

/// The frame that an entry points to always fits in an entry.
pub proof fn lemma_entry_frame_bound(bits: u64)
    ensures
        entry_frame(bits) <= MAX_ENTRY_FRAME,
{
    assert((bits & 0x000f_ffff_ffff_f000) / 4096 <= 0xff_ffff_ffffu64) by (bit_vector);
}

/// A set of entry flags.  Its view is the flag bits, and no other bit is
/// ever set in it.
#[derive(Clone, Copy, Debug, PartialEq, Eq, Structural)]
pub struct EntryFlags {
    bits: u64,
}

impl View for EntryFlags {
    type V = u64;

    closed spec fn view(&self) -> u64 {
        self.bits
    }
}

impl EntryFlags {
    /// No bit is set that is not a flag.
    #[verifier::type_invariant]
    pub open spec fn only_flags(&self) -> bool {
        self@ & ALL_FLAGS == self@
    }

    /// No flag at all.
    pub fn empty() -> (flags: EntryFlags)
        ensures
            flags@ == 0,
    {
        assert(0u64 & 0x8000_0000_0000_01ff == 0u64) by (bit_vector);
        EntryFlags { bits: 0 }
    }

    /// The present flag alone.
    pub fn present() -> (flags: EntryFlags)
        ensures
            flags@ == PRESENT,
    {
        assert(0x1u64 & 0x8000_0000_0000_01ff == 0x1u64) by (bit_vector);
        EntryFlags { bits: PRESENT }
    }

    /// The writable flag alone.
    pub fn writable() -> (flags: EntryFlags)
        ensures
            flags@ == WRITABLE,
    {
        assert(0x2u64 & 0x8000_0000_0000_01ff == 0x2u64) by (bit_vector);
        EntryFlags { bits: WRITABLE }
    }

    /// The no-execute flag alone.
    pub fn no_execute() -> (flags: EntryFlags)
        ensures
            flags@ == NO_EXECUTE,
    {
        assert(0x8000_0000_0000_0000u64 & 0x8000_0000_0000_01ff == 0x8000_0000_0000_0000u64)
            by (bit_vector);
        EntryFlags { bits: NO_EXECUTE }
    }

    /// The flags with which the memory of a kernel section is mapped.
    pub fn from_elf_section_flags(section: &ElfSection) -> (flags: EntryFlags)
        ensures
            flags@ == spec_section_flags(section.flags),
    {
        let present = if section.is_allocated() {
            EntryFlags::present()
        } else {
            EntryFlags::empty()
        };
        let writable = if section.is_writable() {
            EntryFlags::writable()
        } else {
            EntryFlags::empty()
        };
        let no_execute = if section.is_executable() {
            EntryFlags::empty()
        } else {
            EntryFlags::no_execute()
        };
        present.union(writable).union(no_execute)
    }

    /// The flags among `bits`; bits that are no flag are dropped.
    pub fn from_bits_truncate(bits: u64) -> (flags: EntryFlags)
        ensures
            flags@ == bits & ALL_FLAGS,
    {
        assert((bits & 0x8000_0000_0000_01ff) & 0x8000_0000_0000_01ff == bits
            & 0x8000_0000_0000_01ff) by (bit_vector);
        EntryFlags { bits: bits & ALL_FLAGS }
    }

    /// The flags `bits`, if every bit set in `bits` is a flag.
    pub fn from_bits(bits: u64) -> (flags: Option<EntryFlags>)
        ensures
            flags matches Some(f) ==> f@ == bits,
            flags is Some <==> bits & ALL_FLAGS == bits,
    {
        if bits & ALL_FLAGS == bits {
            Some(EntryFlags { bits })
        } else {
            None
        }
    }

    /// The flag bits, none of which lies outside `ALL_FLAGS`.
    pub fn bits(&self) -> (bits: u64)
        ensures
            bits == self@,
            bits & ALL_FLAGS == bits,
    {
        proof {
            use_type_invariant(self);
        }
        self.bits
    }

    /// Whether no flag is set.
    pub fn is_empty(&self) -> (empty: bool)
        ensures
            empty == (self@ == 0),
    {
        self.bits == 0
    }

    /// Whether every flag of `other` is set in `self`.
    pub fn contains(&self, other: EntryFlags) -> (contained: bool)
        ensures
            contained == has_flag(self@, other@),
    {
        self.bits & other.bits == other.bits
    }

    /// The flags of `self` together with those of `other`.
    pub fn union(self, other: EntryFlags) -> (flags: EntryFlags)
        ensures
            flags@ == self@ | other@,
    {
        proof {
            use_type_invariant(self);
            use_type_invariant(other);
        }
        let a = self.bits;
        let b = other.bits;
        assert((a | b) & 0x8000_0000_0000_01ff == a | b) by (bit_vector)
            requires
                a & 0x8000_0000_0000_01ff == a,
                b & 0x8000_0000_0000_01ff == b,
        ;
        EntryFlags { bits: a | b }
    }
}

/// One slot of a page table.  Its view is the raw 64-bit word.
#[derive(Clone, Copy, Debug, PartialEq, Eq, Structural)]
pub struct Entry(u64);

impl View for Entry {
    type V = u64;

    closed spec fn view(&self) -> u64 {
        self.0
    }
}

impl Entry {
    /// An entry that is not in use.
    pub fn unused() -> (entry: Entry)
        ensures
            entry@ == 0,
    {
        Entry(0)
    }

    /// The entry with the given raw bits.
    pub fn from_bits(bits: u64) -> (entry: Entry)
        ensures
            entry@ == bits,
    {
        Entry(bits)
    }

    /// The raw bits.
    pub fn bits(&self) -> (bits: u64)
        ensures
            bits == self@,
    {
        self.0
    }

    /// Whether the entry is entirely zero.
    pub fn is_unused(&self) -> (unused: bool)
        ensures
            unused == (self@ == 0),
    {
        self.0 == 0
    }

    /// Whether the present flag is set.
    pub fn is_present(&self) -> (present: bool)
        ensures
            present == entry_present(self@),
    {
        self.0 & PRESENT == PRESENT
    }

    /// Whether the huge-page flag is set.
    pub fn is_huge(&self) -> (huge: bool)
        ensures
            huge == entry_huge(self@),
    {
        self.0 & HUGE_PAGE == HUGE_PAGE
    }

    /// Clears the entry.
    pub fn set_unused(&mut self)
        ensures
            final(self)@ == 0,
    {
        self.0 = 0;
    }

    /// The flags of the entry.
    pub fn flags(&self) -> (flags: EntryFlags)
        ensures
            flags@ == self@ & ALL_FLAGS,
    {
        EntryFlags::from_bits_truncate(self.0)
    }

    /// The frame the entry points to, if the entry is present.
    pub fn pointed_frame(&self) -> (frame: Option<Frame>)
        ensures
            frame is Some <==> entry_present(self@),
            frame matches Some(f) ==> f@ == entry_frame(self@),
    {
        if self.0 & PRESENT == PRESENT {
            proof {
                lemma_entry_frame_bound(self.0);
            }
            Some(Frame::containing_address(self.0 & ADDRESS_MASK))
        } else {
            None
        }
    }

    /// Points the entry to `frame` with `flags`.
    pub fn set(&mut self, frame: Frame, flags: EntryFlags)
        requires
            frame@ <= MAX_ENTRY_FRAME,
        ensures
            final(self)@ == entry_bits(frame@, flags@),
    {
        self.0 = frame.start_address() | flags.bits();
    }
}

} // verus!
