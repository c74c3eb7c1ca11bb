//! Building the address space of the running kernel: every frame of the
//! kernel image, of the boot information and of the text buffer is mapped to
//! the page with its own number, so that the kernel keeps running at the
//! same addresses once the processor switches to the new table.

use vstd::prelude::*;
use crate::boot::{
    BootInformation, ElfSection, ELF_SECTION_ALLOCATED, ELF_SECTION_EXECUTABLE,
    ELF_SECTION_WRITABLE,
};
use crate::memory::{
    answered, frame_number, lemma_answered_append, lemma_answered_one, Frame, FrameAllocator,
    MemoryArea, MemoryError, MAX_FRAME_NUMBER,
};
use crate::memory::paging::{
    is_canonical, lemma_new_table, new_table, ActivePageTable, Page, PageTableView,
};
use crate::memory::paging::table::P4_ADDRESS;
use crate::memory::paging::entry::{
    has_flag, spec_section_flags, EntryFlags, ALL_FLAGS, MAX_ENTRY_FRAME, NO_EXECUTE, PRESENT,
    WRITABLE,
};

verus! {

/// Physical address of the memory-mapped text buffer.
pub const VGA_BUFFER_ADDRESS: u64 = 0xb8000;

/// One identity mapping to make: a frame and the flags for its page.
#[derive(Clone, Copy, Debug)]
pub struct Mapping {
    pub frame: Frame,
    pub flags: EntryFlags,
}

/// What the allocator answers during one mapping, for the tables of level 3,
/// 2 and 1.
pub type Answers = (Option<nat>, Option<nat>, Option<nat>);

/// Frame number and flag bits of each mapping.
pub open spec fn mapping_views(mappings: Seq<Mapping>) -> Seq<(nat, u64)> {
    mappings.map_values(|m: Mapping| (m.frame@, m.flags@))
}

/// One mapping with `flags` for each frame of `area`, in rising order.
pub open spec fn area_plan(area: MemoryArea, flags: u64) -> Seq<(nat, u64)> {
    if area.length == 0 {
        Seq::empty()
    } else {
        Seq::new(
            (area.spec_last_frame() - area.spec_first_frame() + 1) as nat,
            |i: int| ((area.spec_first_frame() + i) as nat, flags),
        )
    }
}

/// The mappings for the allocated sections among `sections`, section by
/// section, each with the flags that fit the section.
pub open spec fn sections_plan(sections: Seq<ElfSection>) -> Seq<(nat, u64)>
    decreases sections.len(),
{
    if sections.len() == 0 {
        Seq::empty()
    } else {
        let section = sections.last();
        sections_plan(sections.drop_last()) + (if has_flag(section.flags, ELF_SECTION_ALLOCATED) {
            area_plan(
                MemoryArea { base_addr: section.addr, length: section.size },
                spec_section_flags(section.flags),
            )
        } else {
            Seq::empty()
        })
    }
}

/// Every mapping of the kernel's address space: the allocated sections, then
/// the boot information, read-only, then the text buffer, writable.
pub open spec fn kernel_plan(boot_info: BootInformation) -> Seq<(nat, u64)> {
    sections_plan(boot_info.elf_sections->0@) + area_plan(
        MemoryArea { base_addr: boot_info.start_address, length: boot_info.total_size as u64 },
        0,
    ) + seq![((VGA_BUFFER_ADDRESS / 4096) as nat, WRITABLE)]
}

impl PageTableView {
    /// The table after, and the result of, making the identity mappings of
    /// `plan` in order, stopping at the first that fails.  `answers[i]` is
    /// what the allocator answers during mapping `i`.
    pub open spec fn identity_map_all(self, plan: Seq<(nat, u64)>, answers: Seq<Answers>) -> (
        PageTableView,
        Result<(), MemoryError>,
    )
        decreases plan.len(),
    {
        if plan.len() == 0 {
            (self, Ok(()))
        } else {
            let (before, result) = self.identity_map_all(plan.drop_last(), answers);
            match result {
                Err(e) => (before, Err(e)),
                Ok(()) => {
                    let last = plan.len() - 1;
                    before.identity_map(
                        plan[last].0,
                        plan[last].1,
                        answers[last].0,
                        answers[last].1,
                        answers[last].2,
                    )
                },
            }
        }
    }

    /// The answers that the allocator gives while the mappings of `plan` are
    /// made: those of each mapping in turn, up to and with the first mapping
    /// that fails.
    pub open spec fn identity_map_all_requests(
        self,
        plan: Seq<(nat, u64)>,
        answers: Seq<Answers>,
    ) -> Seq<Option<nat>>
        decreases plan.len(),
    {
        if plan.len() == 0 {
            Seq::empty()
        } else {
            let (before, result) = self.identity_map_all(plan.drop_last(), answers);
            let earlier = self.identity_map_all_requests(plan.drop_last(), answers);
            match result {
                Err(_) => earlier,
                Ok(()) => {
                    let last = plan.len() - 1;
                    earlier + before.identity_map_requests(
                        plan[last].0,
                        answers[last].0,
                        answers[last].1,
                        answers[last].2,
                    )
                },
            }
        }
    }

    /// The mappings of a plan look at the answers given during them only.
    pub proof fn lemma_identity_map_all_answers(
        self,
        plan: Seq<(nat, u64)>,
        answers: Seq<Answers>,
        others: Seq<Answers>,
    )
        requires
            forall|i: int| 0 <= i < plan.len() ==> answers[i] == others[i],
        ensures
            self.identity_map_all(plan, answers) == self.identity_map_all(plan, others),
            self.identity_map_all_requests(plan, answers) == self.identity_map_all_requests(
                plan,
                others,
            ),
        decreases plan.len(),
    {
        if plan.len() > 0 {
            self.lemma_identity_map_all_answers(plan.drop_last(), answers, others);
        }
    }

    /// Once a mapping of a plan has failed, the rest of the plan is not
    /// touched.
    pub proof fn lemma_identity_map_all_stops(
        self,
        plan: Seq<(nat, u64)>,
        answers: Seq<Answers>,
        done: int,
    )
        requires
            0 <= done <= plan.len(),
            self.identity_map_all(plan.take(done), answers).1 is Err,
        ensures
            self.identity_map_all(plan, answers) == self.identity_map_all(
                plan.take(done),
                answers,
            ),
            self.identity_map_all_requests(plan, answers) == self.identity_map_all_requests(
                plan.take(done),
                answers,
            ),
        decreases plan.len(),
    {
        if done < plan.len() {
            assert(plan.drop_last().take(done) =~= plan.take(done));
            self.lemma_identity_map_all_stops(plan.drop_last(), answers, done);
        } else {
            assert(plan.take(done) =~= plan);
        }
    }
}

/// Every flag word in `plan` holds flag bits only.
pub open spec fn plan_flags_valid(plan: Seq<(nat, u64)>) -> bool {
    forall|i: int| 0 <= i < plan.len() ==> (#[trigger] plan[i]).1 & ALL_FLAGS == plan[i].1
}

impl PageTableView {
    /// Making the mappings of a plan keeps the table well formed, keeps its
    /// top-level frame, leaves every tracked frame tracked, and changes no
    /// translation that was there before.
    #[verifier::rlimit(100)]
    pub proof fn lemma_identity_map_all_keeps(
        self,
        plan: Seq<(nat, u64)>,
        answers: Seq<Answers>,
        other: nat,
    )
        requires
            self.wf(),
        ensures
            self.identity_map_all(plan, answers).0.wf(),
            self.identity_map_all(plan, answers).0.p4 == self.p4,
            forall|f: nat|
                self.tables.contains_key(f) ==> #[trigger] self.identity_map_all(
                    plan,
                    answers,
                ).0.tables.contains_key(f),
            self.translate_page(other) is Ok && self.translate_page(other)->Ok_0 is Some
                ==> self.identity_map_all(plan, answers).0.translate_page(other)
                == self.translate_page(other),
            self.translate_page(other) is Ok && self.translate_page(other)->Ok_0 is Some
                && self.level1_table(other) is Some ==> self.identity_map_all(
                plan,
                answers,
            ).0.level1_table(other) == self.level1_table(other),
        decreases plan.len(),
    {
        if plan.len() > 0 {
            self.lemma_identity_map_all_keeps(plan.drop_last(), answers, other);
            let (before, result) = self.identity_map_all(plan.drop_last(), answers);
            if result is Ok {
                let last = plan.len() - 1;
                let a = answers[last];
                before.lemma_map_to_keeps_wf(plan[last].0, plan[last].0, plan[last].1, a.0, a.1, a.2);
                if before.translate_page(other) is Ok && before.translate_page(other)->Ok_0
                    is Some {
                    before.lemma_map_to_keeps_translations(
                        plan[last].0,
                        plan[last].0,
                        plan[last].1,
                        a.0,
                        a.1,
                        a.2,
                        other,
                    );
                }
            }
        }
    }

    /// After all mappings of a plan have been made, the page with the number
    /// of each planned frame translates to that frame, through a level-1
    /// table.
    #[verifier::rlimit(100)]
    pub proof fn lemma_identity_map_all_translates(
        self,
        plan: Seq<(nat, u64)>,
        answers: Seq<Answers>,
        i: int,
    )
        requires
            self.wf(),
            plan_flags_valid(plan),
            self.identity_map_all(plan, answers).1 is Ok,
            0 <= i < plan.len(),
        ensures
            self.identity_map_all(plan, answers).0.translate_page(plan[i].0) == Ok::<
                Option<nat>,
                MemoryError,
            >(Some(plan[i].0)),
            self.identity_map_all(plan, answers).0.level1_table(plan[i].0) is Some,
        decreases plan.len(),
    {
        let earlier = plan.drop_last();
        let (before, result) = self.identity_map_all(earlier, answers);
        let last = plan.len() - 1;
        let a = answers[last];
        self.lemma_identity_map_all_keeps(earlier, answers, 0);
        assert(plan[last].1 & ALL_FLAGS == plan[last].1);
        if i == last {
            before.lemma_map_to_then_translate(plan[last].0, plan[last].0, plan[last].1, a.0, a.1, a.2);
        } else {
            assert(plan_flags_valid(earlier)) by {
                assert forall|j: int| 0 <= j < earlier.len() implies (#[trigger] earlier[j]).1
                    & ALL_FLAGS == earlier[j].1 by {
                    assert(earlier[j] == plan[j]);
                }
            }
            self.lemma_identity_map_all_translates(earlier, answers, i);
            assert(earlier[i] == plan[i]);
            before.lemma_map_to_keeps_translations(
                plan[last].0,
                plan[last].0,
                plan[last].1,
                a.0,
                a.1,
                a.2,
                plan[i].0,
            );
        }
    }
}

/// The kernel's new page table, or the reason why it could not be built,
/// when `first` is what the allocator answers for the top-level table and
/// `answers[i]` what it answers during mapping `i` of the plan.
///
/// The new table gets the mappings of `kernel_plan`; then the page at the
/// frame of the table that was active so far, `active_p4`, is unmapped, so
/// that it guards what lies next to it.
pub open spec fn spec_remap(
    boot_info: BootInformation,
    active_p4: nat,
    first: Option<nat>,
    answers: Seq<Answers>,
) -> Result<PageTableView, MemoryError> {
    match first {
        None => Err(MemoryError::OutOfFrames),
        Some(p4) => if p4 > MAX_ENTRY_FRAME {
            Err(MemoryError::InvalidFrame)
        } else if boot_info.elf_sections is None {
            Err(MemoryError::MissingElfSections)
        } else {
            let (built, result) = new_table(p4).identity_map_all(kernel_plan(boot_info), answers);
            match result {
                Err(e) => Err(e),
                Ok(()) => if !is_canonical((active_p4 * 4096) as u64) {
                    Err(MemoryError::InvalidAddress)
                } else {
                    let (guarded, unmapping) = built.unmap(active_p4);
                    match unmapping {
                        Err(e) => Err(e),
                        Ok(()) => Ok(guarded),
                    }
                },
            }
        },
    }
}

/// The answers that the allocator gives during `remap_the_kernel`: the frame
/// for the top-level table first, then those of the mappings of the plan.
/// The unmapping at the end asks for nothing.
pub open spec fn spec_remap_requests(
    boot_info: BootInformation,
    first: Option<nat>,
    answers: Seq<Answers>,
) -> Seq<Option<nat>> {
    match first {
        None => seq![first],
        Some(p4) => if p4 > MAX_ENTRY_FRAME || boot_info.elf_sections is None {
            seq![first]
        } else {
            seq![first] + new_table(p4).identity_map_all_requests(kernel_plan(boot_info), answers)
        },
    }
}

/// The flags for a kernel section are flag bits only.
pub proof fn lemma_section_flags_valid(section_flags: u64)
    ensures
        spec_section_flags(section_flags) & ALL_FLAGS == spec_section_flags(section_flags),
{
    let p: u64 = if has_flag(section_flags, ELF_SECTION_ALLOCATED) {
        PRESENT
    } else {
        0
    };
    let w: u64 = if has_flag(section_flags, ELF_SECTION_WRITABLE) {
        WRITABLE
    } else {
        0
    };
    let n: u64 = if has_flag(section_flags, ELF_SECTION_EXECUTABLE) {
        0
    } else {
        NO_EXECUTE
    };
    assert((p | w | n) & 0x8000_0000_0000_01ff == p | w | n) by (bit_vector)
        requires
            p == 0 || p == 1,
            w == 0 || w == 2,
            n == 0 || n == 0x8000_0000_0000_0000,
    ;
}

/// Every flag word in the plan for kernel sections holds flag bits only.
pub proof fn lemma_sections_plan_flags(sections: Seq<ElfSection>)
    ensures
        plan_flags_valid(sections_plan(sections)),
    decreases sections.len(),
{
    if sections.len() > 0 {
        lemma_sections_plan_flags(sections.drop_last());
        lemma_section_flags_valid(sections.last().flags);
    }
}

/// Every flag word in the plan for the kernel holds flag bits only.
pub proof fn lemma_kernel_plan_flags(boot_info: BootInformation)
    ensures
        plan_flags_valid(kernel_plan(boot_info)),
{
    lemma_sections_plan_flags(boot_info.elf_sections->0@);
    assert(0u64 & 0x8000_0000_0000_01ff == 0u64 && 0x2u64 & 0x8000_0000_0000_01ff == 0x2u64)
        by (bit_vector);
}

/// In the page table that `spec_remap` gives, the page of the table that was
/// active before translates to nothing.  Before that page was unmapped, the
/// top-level table was found at `P4_ADDRESS` and the page of each planned
/// frame translated to the frame; it still does where
/// the frame is not that of the unmapped page and that page was a planned
/// one whose frame holds no table.
#[verifier::rlimit(100)]
pub proof fn lemma_remap(
    boot_info: BootInformation,
    active_p4: nat,
    first: Option<nat>,
    answers: Seq<Answers>,
    i: int,
)
    requires
        spec_remap(boot_info, active_p4, first, answers) is Ok,
        0 <= i < kernel_plan(boot_info).len(),
    ensures
        ({
            let table = spec_remap(boot_info, active_p4, first, answers)->Ok_0;
            let plan = kernel_plan(boot_info);
            let built = new_table(first->0).identity_map_all(plan, answers).0;
            &&& table.wf()
            &&& table.p4 == first->0
            &&& table == built.unmap(active_p4).0
            &&& table.translate_page(active_p4) == Ok::<Option<nat>, MemoryError>(None)
            &&& built.translate_page(plan[i].0) == Ok::<Option<nat>, MemoryError>(Some(plan[i].0))
            &&& built.translate(P4_ADDRESS) == Ok::<Option<u64>, MemoryError>(
                Some((first->0 * 4096) as u64),
            )
            &&& plan[i].0 != active_p4 && !built.tables.contains_key(active_p4) && (exists|j: int|
                0 <= j < plan.len() && (#[trigger] plan[j]).0 == active_p4)
                ==> table.translate_page(plan[i].0) == Ok::<Option<nat>, MemoryError>(
                Some(plan[i].0),
            )
        }),
{
    let p4 = first->0;
    let plan = kernel_plan(boot_info);
    let start = new_table(p4);
    let built = start.identity_map_all(plan, answers).0;
    lemma_new_table(p4);
    lemma_kernel_plan_flags(boot_info);
    start.lemma_identity_map_all_keeps(plan, answers, 0);
    start.lemma_identity_map_all_translates(plan, answers, i);
    built.lemma_unmap_then_translate(active_p4);
    start.lemma_p4_address();
    start.lemma_table_at_translates(P4_ADDRESS, p4);
    start.lemma_identity_map_all_keeps(plan, answers, (P4_ADDRESS / 4096) as nat);
    if plan[i].0 != active_p4 && !built.tables.contains_key(active_p4) && (exists|j: int|
        0 <= j < plan.len() && (#[trigger] plan[j]).0 == active_p4) {
        let j = choose|j: int| 0 <= j < plan.len() && (#[trigger] plan[j]).0 == active_p4;
        start.lemma_identity_map_all_translates(plan, answers, j);
        built.lemma_unmap_keeps_translations(active_p4, plan[i].0);
    }
}

/// Appends one mapping with `flags` for each frame of `area`.
fn push_area(plan: &mut Vec<Mapping>, area: MemoryArea, flags: EntryFlags)
    ensures
        mapping_views(final(plan)@) == mapping_views(old(plan)@) + area_plan(area, flags@),
{
    if area.length == 0 {
        assert(mapping_views(plan@) =~= mapping_views(plan@) + area_plan(area, flags@));
        return ;
    }
    let first = area.first_frame().number();
    let last = area.last_frame().number();
    let mut number = first;
    while number <= last
        invariant
            area.length > 0,
            first == area.spec_first_frame(),
            last == area.spec_last_frame(),
            first <= number <= last + 1,
            last <= MAX_FRAME_NUMBER,
            mapping_views(plan@) == mapping_views(old(plan)@) + area_plan(area, flags@).take(
                number - first,
            ),
        decreases last + 1 - number,
    {
        let ghost earlier = plan@;
        let ghost done = number - first;
        plan.push(Mapping { frame: Frame::from_number(number), flags });
        proof {
            let whole = area_plan(area, flags@);
            assert(mapping_views(plan@) =~= mapping_views(earlier).push((number as nat, flags@)));
            assert(whole.take(done + 1) =~= whole.take(done).push(whole[done]));
            assert(mapping_views(plan@) =~= mapping_views(old(plan)@) + whole.take(done + 1));
        }
        number += 1;
    }
    assert(area_plan(area, flags@).take(number - first) =~= area_plan(area, flags@));
}

impl BootInformation {
    /// The identity mappings of the kernel's address space, as `kernel_plan`
    /// lists them.  Fails with `MissingElfSections` where the boot loader
    /// left the sections out.
    pub fn kernel_mappings(&self) -> (mappings: Result<Vec<Mapping>, MemoryError>)
        ensures
            self.elf_sections is None ==> mappings is Err && mappings->Err_0
                == MemoryError::MissingElfSections,
            self.elf_sections is Some ==> mappings is Ok && mapping_views(mappings->Ok_0@)
                == kernel_plan(*self),
    {
        let sections = match &self.elf_sections {
            Some(sections) => sections,
            None => {
                return Err(MemoryError::MissingElfSections);
            },
        };
        let mut plan: Vec<Mapping> = Vec::new();
        assert(mapping_views(plan@) =~= sections_plan(sections@.take(0)));
        let mut i: usize = 0;
        while i < sections.len()
            invariant
                i <= sections.len(),
                mapping_views(plan@) == sections_plan(sections@.take(i as int)),
            decreases sections.len() - i,
        {
            let section = sections[i];
            assert(sections@.take(i + 1).drop_last() =~= sections@.take(i as int));
            if section.is_allocated() {
                push_area(&mut plan, section.area(), EntryFlags::from_elf_section_flags(&section));
            } else {
                assert(mapping_views(plan@) + Seq::<(nat, u64)>::empty() =~= mapping_views(plan@));
            }
            i += 1;
        }
        assert(sections@.take(i as int) =~= sections@);
        push_area(&mut plan, self.area(), EntryFlags::empty());
        let ghost before = plan@;
        plan.push(
            Mapping {
                frame: Frame::containing_address(VGA_BUFFER_ADDRESS),
                flags: EntryFlags::writable(),
            },
        );
        assert(mapping_views(plan@) =~= mapping_views(before) + seq![
            ((VGA_BUFFER_ADDRESS / 4096) as nat, WRITABLE),
        ]);
        Ok(plan)
    }
}

impl ActivePageTable {
    /// Makes the identity mappings in `mappings`, in order, and stops at the
    /// first that fails.  The allocator goes through the requests of these
    /// mappings and through no other.
    #[verifier::rlimit(100)]
    pub fn identity_map_all<A: FrameAllocator>(
        &mut self,
        mappings: &Vec<Mapping>,
        allocator: &mut A,
    ) -> (result: Result<(), MemoryError>)
        ensures
            exists|answers: Seq<Answers>|
                (final(self)@, result) == #[trigger] old(self)@.identity_map_all(
                    mapping_views(mappings@),
                    answers,
                ) && answered(
                    *old(allocator),
                    old(self)@.identity_map_all_requests(mapping_views(mappings@), answers),
                    *final(allocator),
                ),
            mappings@.len() == 0 ==> *final(allocator) == *old(allocator) && *final(self) == *old(self) && result is Ok,
    {
        let ghost before = self@;
        let ghost a0 = *allocator;
        let ghost plan = mapping_views(mappings@);
        let ghost mut answers: Seq<Answers> = Seq::empty();
        let mut i: usize = 0;
        assert(plan.take(0) =~= Seq::<(nat, u64)>::empty());
        while i < mappings.len()
            invariant
                i <= mappings.len(),
                before == old(self)@,
                a0 == *old(allocator),
                mappings@.len() == 0 ==> *self == *old(self) && *allocator == a0,
                plan == mapping_views(mappings@),
                answers.len() == i,
                answered(a0, before.identity_map_all_requests(plan.take(i as int), answers), *allocator),
                (self@, Ok::<(), MemoryError>(())) == before.identity_map_all(
                    plan.take(i as int),
                    answers,
                ),
            decreases mappings.len() - i,
        {
            let mapping = mappings[i];
            let ghost current = self@;
            let ghost a1 = *allocator;
            let result = self.identity_map(mapping.frame, mapping.flags, allocator);
            proof {
                let (f3, f2, f1) = choose|f3: Option<nat>, f2: Option<nat>, f1: Option<nat>|
                    (self@, result) == #[trigger] current.identity_map(
                        mapping.frame@,
                        mapping.flags@,
                        f3,
                        f2,
                        f1,
                    ) && answered(
                        a1,
                        current.identity_map_requests(mapping.frame@, f3, f2, f1),
                        *allocator,
                    );
                let extended = answers.push((f3, f2, f1));
                before.lemma_identity_map_all_answers(plan.take(i as int), answers, extended);
                assert(plan.take(i + 1).drop_last() =~= plan.take(i as int));
                assert((self@, result) == before.identity_map_all(plan.take(i + 1), extended));
                lemma_answered_append(
                    a0,
                    before.identity_map_all_requests(plan.take(i as int), extended),
                    a1,
                    current.identity_map_requests(mapping.frame@, f3, f2, f1),
                    *allocator,
                );
                assert(answered(
                    a0,
                    before.identity_map_all_requests(plan.take(i + 1), extended),
                    *allocator,
                ));
                answers = extended;
            }
            if let Err(e) = result {
                proof {
                    before.lemma_identity_map_all_stops(plan, answers, i + 1);
                    assert((self@, Err::<(), MemoryError>(e)) == before.identity_map_all(
                        mapping_views(mappings@),
                        answers,
                    ));
                }
                return Err(e);
            }
            i += 1;
        }
        assert(plan.take(i as int) =~= plan);
        Ok(())
    }
}

/// The view of the table in a result.
pub open spec fn remapped(result: Result<ActivePageTable, MemoryError>) -> Result<
    PageTableView,
    MemoryError,
> {
    match result {
        Ok(table) => Ok(table@),
        Err(e) => Err(e),
    }
}

/// Builds the page table under which the kernel goes on running.
///
/// The top-level table is put in a frame asked from `allocator`.  Every
/// frame of every allocated section of the kernel is mapped to the page with
/// its own number: writable where the section is writable, and not
/// executable unless the section is executable.  The boot information is
/// mapped in the same way, read-only, and the text buffer writable.  Last,
/// the page at `active_p4`, the frame of the top-level table that was active
/// so far, is unmapped.
///
/// The allocator is asked for the frame of the top-level table and then as
/// the mappings ask it, and for nothing else.
///
/// The caller then copies the tables to their frames and loads the base
/// register with the frame of the new top-level table.  Of a failure nothing
/// is kept: a table that is built in part is of no use.
#[verifier::rlimit(100)]
pub fn remap_the_kernel<A: FrameAllocator>(
    allocator: &mut A,
    boot_info: &BootInformation,
    active_p4: Frame,
) -> (result: Result<ActivePageTable, MemoryError>)
    ensures
        exists|first: Option<nat>, answers: Seq<Answers>|
            remapped(result) == #[trigger] spec_remap(*boot_info, active_p4@, first, answers)
                && answered(
                *old(allocator),
                spec_remap_requests(*boot_info, first, answers),
                *final(allocator),
            ),
        result matches Ok(table) ==> table@.translate_page(active_p4@) == Ok::<
            Option<nat>,
            MemoryError,
        >(None),
{
    let ghost none: Seq<Answers> = Seq::empty();
    let ghost a0 = *allocator;
    let answer = allocator.allocate_frame();
    let ghost a1 = *allocator;
    proof {
        lemma_answered_one(a0, frame_number(answer), a1);
    }
    let frame = match answer {
        Some(frame) => frame,
        None => {
            assert(remapped(Err(MemoryError::OutOfFrames)) == spec_remap(
                *boot_info,
                active_p4@,
                None,
                none,
            ));
            return Err(MemoryError::OutOfFrames);
        },
    };
    let mut table = match ActivePageTable::new(frame) {
        Ok(table) => table,
        Err(e) => {
            assert(remapped(Err(e)) == spec_remap(*boot_info, active_p4@, Some(frame@), none));
            return Err(e);
        },
    };
    let mappings = match boot_info.kernel_mappings() {
        Ok(mappings) => mappings,
        Err(e) => {
            assert(remapped(Err(e)) == spec_remap(*boot_info, active_p4@, Some(frame@), none));
            return Err(e);
        },
    };
    let ghost start = table@;
    let mapped = table.identity_map_all(&mappings, allocator);
    let ghost a2 = *allocator;
    let ghost answers = choose|answers: Seq<Answers>|
        (table@, mapped) == #[trigger] start.identity_map_all(mapping_views(mappings@), answers)
            && answered(
            a1,
            start.identity_map_all_requests(mapping_views(mappings@), answers),
            a2,
        );
    proof {
        lemma_answered_append(
            a0,
            seq![Some(frame@)],
            a1,
            start.identity_map_all_requests(mapping_views(mappings@), answers),
            a2,
        );
        assert(answered(a0, spec_remap_requests(*boot_info, Some(frame@), answers), a2));
    }
    if let Err(e) = mapped {
        assert(remapped(Err(e)) == spec_remap(*boot_info, active_p4@, Some(frame@), answers));
        return Err(e);
    }
    let guard = match Page::containing_address(active_p4.start_address()) {
        Ok(page) => page,
        Err(e) => {
            assert(remapped(Err(e)) == spec_remap(*boot_info, active_p4@, Some(frame@), answers));
            return Err(e);
        },
    };
    match table.unmap(guard, allocator) {
        Ok(_) => {
            assert(remapped(Ok(table)) == spec_remap(
                *boot_info,
                active_p4@,
                Some(frame@),
                answers,
            ));
            proof {
                lemma_remap(*boot_info, active_p4@, Some(frame@), answers, 0);
            }
            Ok(table)
        },
        Err(e) => {
            assert(remapped(Err(e)) == spec_remap(*boot_info, active_p4@, Some(frame@), answers));
            Err(e)
        },
    }
}

} // verus!
