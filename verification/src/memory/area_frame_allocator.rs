//! A bump allocator over the usable memory areas that steps over the frames
//! of the kernel image and of the boot information.

use vstd::prelude::*;
use crate::memory::{
    answered, frame_meets_range, frame_number, Frame, FrameAllocator, MemoryArea,
    MAX_FRAME_NUMBER,
};

verus! {

/// An inclusive range of frame numbers; empty when `first > last`.
pub struct FrameSpan {
    pub first: nat,
    pub last: nat,
}

impl FrameSpan {
    pub open spec fn contains(self, frame: nat) -> bool {
        self.first <= frame <= self.last
    }

    /// The frames that meet the byte range `[start, end)`.
    pub open spec fn of_bytes(start: u64, end: u64) -> FrameSpan {
        if start < end {
            FrameSpan { first: (start / 4096) as nat, last: ((end - 1) / 4096) as nat }
        } else {
            FrameSpan { first: 1, last: 0 }
        }
    }

    /// `of_bytes` holds exactly the frames that meet the byte range.
    pub proof fn lemma_of_bytes(start: u64, end: u64, frame: nat)
        ensures
            FrameSpan::of_bytes(start, end).contains(frame) <==> frame_meets_range(frame, start, end),
    {
    }
}

/// Whether frame `frame` lies in one of `areas`.
pub open spec fn usable_in(areas: Seq<MemoryArea>, frame: nat) -> bool {
    exists|i: int| 0 <= i < areas.len() && #[trigger] areas[i].contains_frame(frame)
}

/// What an `AreaFrameAllocator` stands for: the cursor below which nothing is
/// handed out any more, the usable areas, and the two reserved spans.
pub struct AllocatorView {
    pub cursor: nat,
    pub areas: Seq<MemoryArea>,
    pub kernel: FrameSpan,
    pub multiboot: FrameSpan,
}

impl AllocatorView {
    /// Frame `frame` lies in one of the usable areas.
    pub open spec fn is_usable(self, frame: nat) -> bool {
        usable_in(self.areas, frame)
    }

    /// Frame `frame` belongs to the kernel image or to the boot information.
    pub open spec fn is_reserved(self, frame: nat) -> bool {
        self.kernel.contains(frame) || self.multiboot.contains(frame)
    }

    /// Frame `frame` may be handed out: it is usable and not reserved.
    pub open spec fn is_free(self, frame: nat) -> bool {
        self.is_usable(frame) && !self.is_reserved(frame)
    }

    /// No frame from `from` up to, but not including, `to` is free.
    pub open spec fn none_free_between(self, from: nat, to: nat) -> bool {
        forall|g: nat| from <= g < to ==> !self.is_free(g)
    }

    /// The same allocator with its cursor moved to `cursor`.
    pub open spec fn with_cursor(self, cursor: nat) -> AllocatorView {
        AllocatorView { cursor, ..self }
    }

    /// The relation between the state before a request, the answer, and the
    /// state after it: the answer is the lowest free frame at or above the
    /// cursor, and the cursor moves just past it; the answer is `None` only
    /// when no frame at or above the cursor is free.
    pub open spec fn allocates(self, answer: Option<nat>, after: AllocatorView) -> bool {
        match answer {
            Some(frame) => {
                &&& self.cursor <= frame
                &&& self.is_free(frame)
                &&& self.none_free_between(self.cursor, frame)
                &&& after == self.with_cursor(frame + 1)
            },
            None => {
                &&& forall|g: nat| self.cursor <= g ==> !self.is_free(g)
                &&& self.cursor <= after.cursor
                &&& after == self.with_cursor(after.cursor)
            },
        }
    }
}

impl AllocatorView {
    /// A frame that is handed out lies in a usable area and meets neither the
    /// bytes of the kernel image nor those of the boot information.
    pub proof fn lemma_allocated_frame_is_free(
        self,
        frame: nat,
        after: AllocatorView,
        kernel_start: u64,
        kernel_end: u64,
        multiboot_start: u64,
        multiboot_end: u64,
    )
        requires
            self.allocates(Some(frame), after),
            self.kernel == FrameSpan::of_bytes(kernel_start, kernel_end),
            self.multiboot == FrameSpan::of_bytes(multiboot_start, multiboot_end),
        ensures
            usable_in(self.areas, frame),
            !frame_meets_range(frame, kernel_start, kernel_end),
            !frame_meets_range(frame, multiboot_start, multiboot_end),
    {
        FrameSpan::lemma_of_bytes(kernel_start, kernel_end, frame);
        FrameSpan::lemma_of_bytes(multiboot_start, multiboot_end, frame);
    }

    /// The answer to a request is determined by the state before it.
    pub proof fn lemma_answer_is_determined(
        self,
        answer: Option<nat>,
        after: AllocatorView,
        other_answer: Option<nat>,
        other_after: AllocatorView,
    )
        requires
            self.allocates(answer, after),
            self.allocates(other_answer, other_after),
        ensures
            answer == other_answer,
    {
        if answer is Some && other_answer is Some {
            let a = answer->0;
            let b = other_answer->0;
            if a < b {
                assert(!self.is_free(a));
            } else if b < a {
                assert(!self.is_free(b));
            }
        } else if answer is Some {
            assert(!self.is_free(answer->0));
        } else if other_answer is Some {
            assert(!self.is_free(other_answer->0));
        }
    }

    /// Of two frames handed out one after the other, the second has the
    /// higher number.
    pub proof fn lemma_frames_rise(
        self,
        first: nat,
        between: AllocatorView,
        second: nat,
        after: AllocatorView,
    )
        requires
            self.allocates(Some(first), between),
            between.allocates(Some(second), after),
        ensures
            first < second,
    {
    }

    /// A frame that was handed out, or passed over, is never handed out later.
    pub proof fn lemma_no_frame_twice(
        self,
        first: Option<nat>,
        between: AllocatorView,
        second: nat,
        after: AllocatorView,
    )
        requires
            self.allocates(first, between),
            between.allocates(Some(second), after),
        ensures
            self.cursor <= second,
            first matches Some(f) ==> f < second,
            between.cursor <= second,
    {
    }

    /// An allocator that has answered `None` answers `None` ever after.
    pub proof fn lemma_exhausted_for_good(
        self,
        between: AllocatorView,
        answer: Option<nat>,
        after: AllocatorView,
    )
        requires
            self.allocates(None, between),
            between.allocates(answer, after),
        ensures
            answer is None,
    {
        if answer is Some {
            assert(!self.is_free(answer->0));
        }
    }

    /// Once the cursor lies past the last frame of every area, the answer is
    /// `None`; and each frame handed out moves the cursor up by at least one.
    pub proof fn lemma_frames_run_out(self, answer: Option<nat>, after: AllocatorView)
        requires
            self.allocates(answer, after),
        ensures
            answer is Some ==> self.cursor < after.cursor,
            (forall|i: int|
                0 <= i < self.areas.len() ==> (#[trigger] self.areas[i]).length == 0
                    || self.areas[i].spec_last_frame() < self.cursor) ==> answer is None,
    {
    }
}

/// Hands out, in rising order, the frames of the usable areas that belong
/// neither to the kernel image nor to the boot information.
pub struct AreaFrameAllocator {
    next_free_frame: u64,
    current_area: Option<MemoryArea>,
    areas: Vec<MemoryArea>,
    kernel_start: u64,
    kernel_end: u64,
    multiboot_start: u64,
    multiboot_end: u64,
}

impl View for AreaFrameAllocator {
    type V = AllocatorView;

    closed spec fn view(&self) -> AllocatorView {
        AllocatorView {
            cursor: self.next_free_frame as nat,
            areas: self.areas@,
            kernel: FrameSpan { first: self.kernel_start as nat, last: self.kernel_end as nat },
            multiboot: FrameSpan {
                first: self.multiboot_start as nat,
                last: self.multiboot_end as nat,
            },
        }
    }
}

/// First and last frame number of the frames that meet `[start, end)`.
fn span_of_bytes(start: u64, end: u64) -> (span: (u64, u64))
    ensures
        FrameSpan::of_bytes(start, end).first == span.0,
        FrameSpan::of_bytes(start, end).last == span.1,
        span.1 <= MAX_FRAME_NUMBER,
{
    if start < end {
        (start / 4096, (end - 1) / 4096)
    } else {
        (1, 0)
    }
}

impl AreaFrameAllocator {
    #[verifier::type_invariant]
    spec fn wf(self) -> bool {
        &&& self.next_free_frame <= MAX_FRAME_NUMBER + 1
        &&& self.kernel_end <= MAX_FRAME_NUMBER
        &&& self.multiboot_end <= MAX_FRAME_NUMBER
        &&& self.current_area matches Some(area) ==> {
            &&& area.length > 0
            &&& area.spec_first_frame() <= self.next_free_frame
            &&& self.areas@.contains(area)
        }
    }

    /// Whether the cursor lies in the area chosen last.
    spec fn in_current_area(self) -> bool {
        self.current_area matches Some(area) && self.next_free_frame <= area.spec_last_frame()
    }

    /// An allocator over `memory_areas` that never hands out a frame meeting
    /// the kernel image `[kernel_start, kernel_end)` or the boot information
    /// `[multiboot_start, multiboot_end)`.
    pub fn new(
        kernel_start: u64,
        kernel_end: u64,
        multiboot_start: u64,
        multiboot_end: u64,
        memory_areas: Vec<MemoryArea>,
    ) -> (allocator: AreaFrameAllocator)
        ensures
            allocator@.areas == memory_areas@,
            allocator@.kernel == FrameSpan::of_bytes(kernel_start, kernel_end),
            allocator@.multiboot == FrameSpan::of_bytes(multiboot_start, multiboot_end),
            forall|g: nat| g < allocator@.cursor ==> !usable_in(memory_areas@, g),
    {
        let kernel = span_of_bytes(kernel_start, kernel_end);
        let multiboot = span_of_bytes(multiboot_start, multiboot_end);
        let mut allocator = AreaFrameAllocator {
            next_free_frame: 0,
            current_area: None,
            areas: memory_areas,
            kernel_start: kernel.0,
            kernel_end: kernel.1,
            multiboot_start: multiboot.0,
            multiboot_end: multiboot.1,
        };
        allocator.choose_next_area();
        allocator
    }

    /// Picks, among the areas that still hold a frame at or above the cursor,
    /// the one with the lowest base address, and moves the cursor up to its
    /// first frame if it lies below.
    fn choose_next_area(&mut self)
        ensures
            final(self)@ == old(self)@.with_cursor(final(self)@.cursor),
            old(self)@.cursor <= final(self)@.cursor,
            forall|g: nat|
                old(self)@.cursor <= g < final(self)@.cursor ==> !usable_in(old(self)@.areas, g),
            final(self).current_area is None ==> forall|g: nat|
                old(self)@.cursor <= g ==> !usable_in(old(self)@.areas, g),
            final(self).current_area is Some ==> final(self).in_current_area(),
    {
        proof {
            use_type_invariant(&*self);
        }
        let cursor = self.next_free_frame;
        let mut best: Option<MemoryArea> = None;
        let mut i: usize = 0;
        while i < self.areas.len()
            invariant
                0 <= i <= self.areas.len(),
                *self == *old(self),
                cursor == self.next_free_frame,
                best matches Some(area) ==> {
                    &&& area.length > 0
                    &&& cursor <= area.spec_last_frame()
                    &&& self.areas@.contains(area)
                },
                forall|j: int|
                    0 <= j < i && (#[trigger] self.areas[j]).length > 0 && cursor
                        <= self.areas[j].spec_last_frame() ==> best is Some
                        && best->0.base_addr <= self.areas[j].base_addr,
            decreases self.areas.len() - i,
        {
            let area = self.areas[i];
            if area.length > 0 && area.last_frame().number() >= cursor {
                let better = match best {
                    Some(chosen) => area.base_addr < chosen.base_addr,
                    None => true,
                };
                if better {
                    best = Some(area);
                }
            }
            i += 1;
        }
        match best {
            Some(area) => {
                let first = area.first_frame().number();
                assert forall|g: nat| cursor <= g < first implies !usable_in(self.areas@, g) by {
                    if usable_in(self.areas@, g) {
                        let j = choose|j: int|
                            0 <= j < self.areas@.len() && #[trigger] self.areas@[j].contains_frame(g);
                        assert(self.areas[j].base_addr >= area.base_addr);
                    }
                }
                if cursor < first {
                    self.next_free_frame = first;
                }
                self.current_area = Some(area);
            },
            None => {
                self.current_area = None;
            },
        }
    }
}

/// The allocator as it stood before the last request of a run.
proof fn lemma_last_request(
    before: AreaFrameAllocator,
    answers: Seq<Option<nat>>,
    after: AreaFrameAllocator,
) -> (between: AreaFrameAllocator)
    requires
        answers.len() > 0,
        answered(before, answers, after),
    ensures
        answered(before, answers.drop_last(), between),
        between@.allocates(answers.last(), after@),
{
    let between = choose|between: AreaFrameAllocator|
        answered(before, answers.drop_last(), between) && #[trigger] between.allocates(
            answers.last(),
            after,
        );
    between
}

/// A run of requests to an area allocator keeps the configuration and lets
/// the cursor only rise; after a frame was handed out, the cursor lies just
/// past it.
#[verifier::rlimit(100)]
pub proof fn lemma_answered_cursor(
    before: AreaFrameAllocator,
    answers: Seq<Option<nat>>,
    after: AreaFrameAllocator,
)
    requires
        answered(before, answers, after),
    ensures
        after@ == before@.with_cursor(after@.cursor),
        before@.cursor <= after@.cursor,
        forall|g: nat| after@.is_free(g) == before@.is_free(g),
        answers.len() > 0 && answers.last() is Some ==> after@.cursor == answers.last()->0 + 1,
    decreases answers.len(),
{
    if answers.len() > 0 {
        let between = lemma_last_request(before, answers, after);
        lemma_answered_cursor(before, answers.drop_last(), between);
    }
}

/// Each frame that a run of requests hands out is free, lies at or above
/// the cursor before the run and below the cursor after it, and has a
/// higher number than the frames handed out before it.
#[verifier::rlimit(100)]
pub proof fn lemma_answered_frames(
    before: AreaFrameAllocator,
    answers: Seq<Option<nat>>,
    after: AreaFrameAllocator,
)
    requires
        answered(before, answers, after),
    ensures
        forall|i: int|
            0 <= i < answers.len() && (#[trigger] answers[i]) is Some ==> before@.is_free(
                answers[i]->0,
            ) && before@.cursor <= answers[i]->0 < after@.cursor,
        forall|i: int, j: int|
            0 <= i < j < answers.len() && (#[trigger] answers[i]) is Some && (
            #[trigger] answers[j]) is Some ==> answers[i]->0 < answers[j]->0,
    decreases answers.len(),
{
    if answers.len() > 0 {
        let earlier = answers.drop_last();
        let last = answers.len() - 1;
        let between = lemma_last_request(before, answers, after);
        lemma_answered_frames(before, earlier, between);
        lemma_answered_cursor(before, earlier, between);
        assert forall|i: int| 0 <= i < answers.len() && (#[trigger] answers[i]) is Some implies
            before@.is_free(answers[i]->0) && before@.cursor <= answers[i]->0 < after@.cursor by {
            if i < last {
                assert(earlier[i] == answers[i]);
            }
        }
        assert forall|i: int, j: int|
            0 <= i < j < answers.len() && (#[trigger] answers[i]) is Some && (
            #[trigger] answers[j]) is Some implies answers[i]->0 < answers[j]->0 by {
            assert(earlier[i] == answers[i]);
            if j < last {
                assert(earlier[j] == answers[j]);
            }
        }
    }
}

/// A run of requests passes over no free frame: every free frame between
/// the cursor before the run and the cursor after it was handed out, and an
/// answer is `None` only when every free frame at or above the first cursor
/// had been handed out before.
#[verifier::rlimit(100)]
pub proof fn lemma_answered_all(
    before: AreaFrameAllocator,
    answers: Seq<Option<nat>>,
    after: AreaFrameAllocator,
)
    requires
        answered(before, answers, after),
    ensures
        forall|g: nat|
            before@.cursor <= g < after@.cursor && #[trigger] before@.is_free(g)
                ==> answers.contains(Some(g)),
        forall|i: int, g: nat|
            0 <= i < answers.len() && (#[trigger] answers[i]) is None && before@.cursor <= g
                && #[trigger] before@.is_free(g) ==> answers.take(i).contains(Some(g)),
    decreases answers.len(),
{
    if answers.len() > 0 {
        let earlier = answers.drop_last();
        let last = answers.len() - 1;
        let between = lemma_last_request(before, answers, after);
        lemma_answered_all(before, earlier, between);
        lemma_answered_cursor(before, earlier, between);
        assert forall|g: nat|
            before@.cursor <= g < after@.cursor && #[trigger] before@.is_free(
                g,
            ) implies answers.contains(Some(g)) by {
            if g < between@.cursor {
                assert(earlier.contains(Some(g)));
                let j = choose|j: int| 0 <= j < earlier.len() && earlier[j] == Some(g);
                assert(answers[j] == Some(g));
            } else {
                assert(between@.is_free(g));
                assert(answers[last] == Some(g));
            }
        }
        assert forall|i: int, g: nat|
            0 <= i < answers.len() && (#[trigger] answers[i]) is None && before@.cursor <= g
                && #[trigger] before@.is_free(g) implies answers.take(i).contains(Some(g)) by {
            if i < last {
                assert(earlier[i] == answers[i]);
                assert(earlier.take(i) =~= answers.take(i));
            } else {
                assert(answers.take(i) =~= earlier);
                assert(between@.is_free(g));
                if g >= between@.cursor {
                    assert(!between@.is_free(g));
                }
            }
        }
    }
}

/// In a run of requests, the first frame handed out is the lowest free
/// frame at or above the cursor, and a frame handed out right after another
/// is the lowest free frame above that one.
#[verifier::rlimit(100)]
pub proof fn lemma_answered_lowest(
    before: AreaFrameAllocator,
    answers: Seq<Option<nat>>,
    after: AreaFrameAllocator,
)
    requires
        answered(before, answers, after),
    ensures
        answers.len() > 0 && answers[0] is Some ==> before@.none_free_between(
            before@.cursor,
            answers[0]->0,
        ),
        forall|i: int|
            0 <= i < answers.len() - 1 && (#[trigger] answers[i]) is Some && answers[i + 1]
                is Some ==> before@.none_free_between(answers[i]->0 + 1, answers[i + 1]->0),
    decreases answers.len(),
{
    if answers.len() > 0 {
        let earlier = answers.drop_last();
        let last = answers.len() - 1;
        let between = lemma_last_request(before, answers, after);
        lemma_answered_lowest(before, earlier, between);
        lemma_answered_cursor(before, earlier, between);
        assert forall|g: nat, from: nat, to: nat|
            between@.none_free_between(from, to) && from <= g < to implies !before@.is_free(g) by {
            assert(!between@.is_free(g));
        }
        if answers[0] is Some {
            if last == 0 {
                assert(between@ == before@);
            } else {
                assert(earlier[0] == answers[0]);
            }
        }
        assert forall|i: int|
            0 <= i < answers.len() - 1 && (#[trigger] answers[i]) is Some && answers[i + 1]
                is Some implies before@.none_free_between(
            answers[i]->0 + 1,
            answers[i + 1]->0,
        ) by {
            assert(earlier[i] == answers[i]);
            if i + 1 < last {
                assert(earlier[i + 1] == answers[i + 1]);
            } else {
                assert(earlier.last() == answers[i]);
                assert(between@.cursor == answers[i]->0 + 1);
            }
        }
    }
}

impl FrameAllocator for AreaFrameAllocator {
    /// A request is answered as `AllocatorView::allocates` says.
    open spec fn allocates(&self, answer: Option<nat>, after: Self) -> bool {
        self@.allocates(answer, after@)
    }

    /// The lowest free frame at or above the cursor.
    fn allocate_frame(&mut self) -> (frame: Option<Frame>)
        ensures
            old(self)@.allocates(frame_number(frame), final(self)@),
            frame matches Some(f) ==> old(self)@.cursor <= f@ < final(self)@.cursor
                && old(self)@.is_free(f@),
            old(self)@.cursor <= final(self)@.cursor,
    {
        proof {
            use_type_invariant(&*self);
        }
        loop
            invariant
                self@ == old(self)@.with_cursor(self@.cursor),
                old(self)@.cursor <= self@.cursor,
                old(self)@.none_free_between(old(self)@.cursor, self@.cursor),
            decreases
                    MAX_FRAME_NUMBER + 2 - self.next_free_frame,
                    (if self.in_current_area() { 0int } else { 1int }),
        {
            proof {
                use_type_invariant(&*self);
            }
            let cursor = self.next_free_frame;
            let in_area = match self.current_area {
                Some(area) => cursor <= area.last_frame().number(),
                None => false,
            };
            if !in_area {
                self.choose_next_area();
                if self.current_area.is_none() {
                    return None;
                }
                proof {
                    use_type_invariant(&*self);
                }
            } else if self.kernel_start <= cursor && cursor <= self.kernel_end {
                self.next_free_frame = self.kernel_end + 1;
            } else if self.multiboot_start <= cursor && cursor <= self.multiboot_end {
                self.next_free_frame = self.multiboot_end + 1;
            } else {
                proof {
                    let area = self.current_area->0;
                    let i = choose|i: int| 0 <= i < self.areas@.len() && self.areas@[i] == area;
                    assert(self.areas@[i].contains_frame(cursor as nat));
                }
                let frame = Frame::from_number(cursor);
                self.next_free_frame = cursor + 1;
                return Some(frame);
            }
        }
    }
}

} // verus!
