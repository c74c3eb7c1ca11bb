//! Frames of physical memory, the areas the firmware reports as usable, and
//! the allocator capability the paging code draws table frames from.

use vstd::prelude::*;

pub mod area_frame_allocator;
pub mod paging;
pub mod remap;

pub use self::area_frame_allocator::AreaFrameAllocator;
pub use self::remap::remap_the_kernel;

verus! {

/// Size in bytes of a frame and of a page.
pub const PAGE_SIZE: u64 = 4096;

/// The highest frame number whose start address fits in 64 bits.
pub const MAX_FRAME_NUMBER: u64 = 0xf_ffff_ffff_ffff;

/// What can go wrong in this subsystem.  Each kind stands for one violated
/// condition, so that a caller can tell them apart.
#[derive(Clone, Copy, Debug, PartialEq, Eq, Structural)]
pub enum MemoryError {
    /// A virtual address lies in the gap between the two canonical halves.
    InvalidAddress,
    /// The page to map is mapped already.
    AlreadyMapped,
    /// The page to unmap is not mapped.
    NotMapped,
    /// A huge-page entry points to a frame that is not aligned to its size.
    UnalignedHugePage,
    /// A huge page stands where a table is needed; huge pages are only read.
    HugePage,
    /// The frame allocator has no frame left.
    OutOfFrames,
    /// The number of a frame does not fit in a page-table entry.
    InvalidFrame,
    /// A frame offered for a new table already holds a table.
    FrameInUse,
    /// An entry points to a table in a frame that holds no tracked table.
    UntrackedTable,
    /// The boot information lacks its memory map.
    MissingMemoryMap,
    /// The boot information lacks the kernel's ELF sections.
    MissingElfSections,
}

impl MemoryError {
    /// The words for each kind of error.
    pub open spec fn spec_description(self) -> Seq<char> {
        match self {
            MemoryError::InvalidAddress => "invalid address"@,
            MemoryError::AlreadyMapped => "page is already mapped"@,
            MemoryError::NotMapped => "page is not mapped"@,
            MemoryError::UnalignedHugePage => "huge page is not aligned"@,
            MemoryError::HugePage => "mapping code does not support huge pages"@,
            MemoryError::OutOfFrames => "out of memory"@,
            MemoryError::InvalidFrame => "frame does not fit in an entry"@,
            MemoryError::FrameInUse => "frame already holds a table"@,
            MemoryError::UntrackedTable => "entry points to a frame without a table"@,
            MemoryError::MissingMemoryMap => "memory map tag required"@,
            MemoryError::MissingElfSections => "elf sections tag required"@,
        }
    }

    /// A few words that say what went wrong, for a diagnostic.
    pub fn description(&self) -> (words: &'static str)
        ensures
            words@ == self.spec_description(),
    {
        match self {
            MemoryError::InvalidAddress => "invalid address",
            MemoryError::AlreadyMapped => "page is already mapped",
            MemoryError::NotMapped => "page is not mapped",
            MemoryError::UnalignedHugePage => "huge page is not aligned",
            MemoryError::HugePage => "mapping code does not support huge pages",
            MemoryError::OutOfFrames => "out of memory",
            MemoryError::InvalidFrame => "frame does not fit in an entry",
            MemoryError::FrameInUse => "frame already holds a table",
            MemoryError::UntrackedTable => "entry points to a frame without a table",
            MemoryError::MissingMemoryMap => "memory map tag required",
            MemoryError::MissingElfSections => "elf sections tag required",
        }
    }
}

/// A 4 KiB frame of physical memory, identified by its number.
///
/// The view of a frame is its number; its first byte lies at `number * 4096`.
#[derive(Clone, Copy, Debug, PartialEq, Eq, PartialOrd, Ord, Structural)]
pub struct Frame {
    number: u64,
}

impl View for Frame {
    type V = nat;

    closed spec fn view(&self) -> nat {
        self.number as nat
    }
}

impl Frame {
    /// The start address of a frame fits in 64 bits.
    #[verifier::type_invariant]
    pub open spec fn addressable(&self) -> bool {
        self@ <= MAX_FRAME_NUMBER
    }

    /// The frame that holds the byte at `address`.
    pub fn containing_address(address: u64) -> (frame: Frame)
        ensures
            frame@ == address / 4096,
    {
        Frame { number: address / PAGE_SIZE }
    }

    /// The frame with the given number.
    pub fn from_number(number: u64) -> (frame: Frame)
        requires
            number <= MAX_FRAME_NUMBER,
        ensures
            frame@ == number,
    {
        Frame { number }
    }

    /// This frame's number, which never exceeds `MAX_FRAME_NUMBER`.
    pub fn number(&self) -> (number: u64)
        ensures
            number == self@,
            number <= MAX_FRAME_NUMBER,
    {
        proof {
            use_type_invariant(self);
        }
        self.number
    }

    /// The physical address of this frame's first byte.
    pub fn start_address(&self) -> (address: u64)
        ensures
            address == self@ * 4096,
    {
        proof {
            use_type_invariant(self);
        }
        self.number * PAGE_SIZE
    }
}

/// Whether the bytes of frame `frame` meet the byte range `[start, end)`.
pub open spec fn frame_meets_range(frame: nat, start: u64, end: u64) -> bool {
    start < end && frame * 4096 < end && start < (frame + 1) * 4096
}

/// A range of physical memory that the firmware reports as usable RAM.
#[derive(Clone, Copy, Debug, PartialEq, Eq, Structural)]
pub struct MemoryArea {
    pub base_addr: u64,
    pub length: u64,
}

impl MemoryArea {
    /// Number of the frame that holds the area's first byte.
    pub open spec fn spec_first_frame(self) -> nat {
        (self.base_addr / 4096) as nat
    }

    /// Number of the frame that holds the area's last byte.  An area that
    /// would run past the end of the address space stops there.
    pub open spec fn spec_last_frame(self) -> nat {
        if self.base_addr + self.length - 1 <= u64::MAX {
            ((self.base_addr + self.length - 1) / 4096) as nat
        } else {
            MAX_FRAME_NUMBER as nat
        }
    }

    /// Whether frame `frame` counts as part of this area: the area is not
    /// empty and the frame lies between the frames of its first and last byte.
    pub open spec fn contains_frame(self, frame: nat) -> bool {
        self.length > 0 && self.spec_first_frame() <= frame <= self.spec_last_frame()
    }

    pub fn first_frame(&self) -> (frame: Frame)
        ensures
            frame@ == self.spec_first_frame(),
    {
        Frame::containing_address(self.base_addr)
    }

    pub fn last_frame(&self) -> (frame: Frame)
        requires
            self.length > 0,
        ensures
            frame@ == self.spec_last_frame(),
    {
        match self.base_addr.checked_add(self.length - 1) {
            Some(address) => Frame::containing_address(address),
            None => Frame::from_number(MAX_FRAME_NUMBER),
        }
    }
}

/// The frame number of an optional frame.
pub open spec fn frame_number(frame: Option<Frame>) -> Option<nat> {
    match frame {
        Some(f) => Some(f@),
        None => None,
    }
}

/// The capability to hand out unused physical frames.
///
/// `None` means that no frame is left.  An implementation says by its
/// relation `allocates` how a request changes it and which answers it may
/// give; no answer is promised to be a frame, and the paging code checks
/// each frame it is given.
pub trait FrameAllocator: Sized {
    /// Whether a request to this allocator may be answered with `answer`
    /// and leave the allocator as `after`.  An implementation that does not
    /// say leaves every answer and every state open.
    open spec fn allocates(&self, answer: Option<nat>, after: Self) -> bool {
        true
    }

    fn allocate_frame(&mut self) -> (frame: Option<Frame>)
        ensures
            old(self).allocates(frame_number(frame), *final(self)),
    ;
}

/// Whether `after` is what becomes of `before` through one request for each
/// of `answers`, in order, and through nothing else.
pub open spec fn answered<A: FrameAllocator>(
    before: A,
    answers: Seq<Option<nat>>,
    after: A,
) -> bool
    decreases answers.len(),
{
    if answers.len() == 0 {
        after == before
    } else {
        exists|between: A|
            answered(before, answers.drop_last(), between) && #[trigger] between.allocates(
                answers.last(),
                after,
            )
    }
}

/// One request is a list of one answer.
pub proof fn lemma_answered_one<A: FrameAllocator>(before: A, answer: Option<nat>, after: A)
    requires
        before.allocates(answer, after),
    ensures
        answered(before, seq![answer], after),
{
    let answers = seq![answer];
    assert(answers.drop_last() =~= Seq::<Option<nat>>::empty());
    assert(answered(before, answers.drop_last(), before));
    assert(answers.last() == answer);
}

/// Requests made one after the other are the requests of the joined list.
pub proof fn lemma_answered_append<A: FrameAllocator>(
    before: A,
    first: Seq<Option<nat>>,
    between: A,
    second: Seq<Option<nat>>,
    after: A,
)
    requires
        answered(before, first, between),
        answered(between, second, after),
    ensures
        answered(before, first + second, after),
    decreases second.len(),
{
    if second.len() == 0 {
        assert(first + second =~= first);
    } else {
        let middle = choose|middle: A|
            answered(between, second.drop_last(), middle) && #[trigger] middle.allocates(
                second.last(),
                after,
            );
        lemma_answered_append(before, first, between, second.drop_last(), middle);
        assert((first + second).drop_last() =~= first + second.drop_last());
        assert((first + second).last() == second.last());
    }
}

} // verus!
