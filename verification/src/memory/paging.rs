//! Pages of virtual memory and the four-level page table that maps them.

use vstd::prelude::*;
use crate::memory::{
    answered, frame_number, lemma_answered_append, lemma_answered_one, Frame, FrameAllocator,
    MemoryError, MAX_FRAME_NUMBER, PAGE_SIZE,
};
use self::entry::{
    entry_bits, entry_frame, entry_huge, entry_present, entry_valid, lemma_entry_bits,
    lemma_entry_frame_bound, lemma_link_entry, lemma_present_entry, lemma_unused_entry, Entry,
    EntryFlags, ALL_FLAGS, MAX_ENTRY_FRAME, PRESENT, WRITABLE,
};
use self::table::{
    lemma_next_table_create, lemma_write_keeps_links, spec_descend,
    spec_create_requests, spec_next_table, spec_next_table_address, spec_next_table_create,
    spec_write, step_number,
    tables_wf, zeroed_table, TableLevel, TableMemory, TableRef, P4_ADDRESS,
};

pub mod entry;
pub mod table;

verus! {

pub type PhysicalAddress = u64;

pub type VirtualAddress = u64;

/// The index of the top-level entry that points back to the top-level table.
pub const RECURSIVE_INDEX: usize = 511;

/// Whether a virtual address lies in the lower or in the upper canonical
/// half, and not in the gap between them.
pub open spec fn is_canonical(address: u64) -> bool {
    address < 0x0000_8000_0000_0000 || address >= 0xffff_8000_0000_0000
}

/// Index into the level-4 table for page number `page`.
pub open spec fn spec_p4_index(page: nat) -> int {
    ((page / 0x800_0000) % 512) as int
}

/// Index into the level-3 table for page number `page`.
pub open spec fn spec_p3_index(page: nat) -> int {
    ((page / 0x4_0000) % 512) as int
}

/// Index into the level-2 table for page number `page`.
pub open spec fn spec_p2_index(page: nat) -> int {
    ((page / 0x200) % 512) as int
}

/// Index into the level-1 table for page number `page`.
pub open spec fn spec_p1_index(page: nat) -> int {
    (page % 512) as int
}

/// A 4 KiB page of virtual memory, identified by its number.
///
/// The view of a page is its number; its first byte lies at `number * 4096`,
/// which is always a canonical address.
#[derive(Clone, Copy, Debug, PartialEq, Eq, Structural)]
pub struct Page {
    number: u64,
}

impl View for Page {
    type V = nat;

    closed spec fn view(&self) -> nat {
        self.number as nat
    }
}

impl Page {
    /// The number of a page is that of a page at a canonical address.
    #[verifier::type_invariant]
    pub open spec fn canonical(&self) -> bool {
        self@ < 0x8_0000_0000 || 0xf_fff8_0000_0000 <= self@ <= MAX_FRAME_NUMBER
    }

    /// The page that holds `address`, or `InvalidAddress` if the address is
    /// not canonical.
    pub fn containing_address(address: VirtualAddress) -> (page: Result<Page, MemoryError>)
        ensures
            is_canonical(address) ==> page is Ok && page->Ok_0@ == address / 4096,
            is_canonical(address) ==> page->Ok_0@ * 4096 == address - address % 4096,
            !is_canonical(address) ==> page == Err::<Page, MemoryError>(MemoryError::InvalidAddress),
    {
        if address < 0x0000_8000_0000_0000 || address >= 0xffff_8000_0000_0000 {
            Ok(Page { number: address / PAGE_SIZE })
        } else {
            Err(MemoryError::InvalidAddress)
        }
    }

    /// This page's number.
    pub fn number(&self) -> (number: u64)
        ensures
            number == self@,
            is_canonical((number * 4096) as u64),
            number <= MAX_FRAME_NUMBER,
    {
        proof {
            use_type_invariant(self);
        }
        self.number
    }

    /// The virtual address of this page's first byte.
    pub fn start_address(&self) -> (address: VirtualAddress)
        ensures
            address == self@ * 4096,
            is_canonical(address),
    {
        proof {
            use_type_invariant(self);
        }
        self.number * PAGE_SIZE
    }

    /// Index of this page's entry in the level-4 table.
    pub fn p4_index(&self) -> (index: usize)
        ensures
            index == spec_p4_index(self@),
            index < 512,
    {
        let n = self.number;
        assert((n >> 27) & 0o777 == (n / 0x800_0000) % 512) by (bit_vector);
        ((self.number >> 27) & 0o777) as usize
    }

    /// Index of this page's entry in the level-3 table.
    pub fn p3_index(&self) -> (index: usize)
        ensures
            index == spec_p3_index(self@),
            index < 512,
    {
        let n = self.number;
        assert((n >> 18) & 0o777 == (n / 0x4_0000) % 512) by (bit_vector);
        ((self.number >> 18) & 0o777) as usize
    }

    /// Index of this page's entry in the level-2 table.
    pub fn p2_index(&self) -> (index: usize)
        ensures
            index == spec_p2_index(self@),
            index < 512,
    {
        let n = self.number;
        assert((n >> 9) & 0o777 == (n / 0x200) % 512) by (bit_vector);
        ((self.number >> 9) & 0o777) as usize
    }

    /// Index of this page's entry in the level-1 table.
    pub fn p1_index(&self) -> (index: usize)
        ensures
            index == spec_p1_index(self@),
            index < 512,
    {
        let n = self.number;
        assert((n >> 0) & 0o777 == n % 512) by (bit_vector);
        ((self.number >> 0) & 0o777) as usize
    }
}

/// The start of the page that holds a canonical address is that address
/// rounded down to a multiple of the page size, and is canonical itself.
pub proof fn lemma_page_round_trip(address: u64)
    requires
        is_canonical(address),
    ensures
        (address / 4096) * 4096 == address - address % 4096,
        is_canonical(((address / 4096) * 4096) as u64),
        (address / 4096) < 0x8_0000_0000 || 0xf_fff8_0000_0000 <= (address / 4096)
            <= MAX_FRAME_NUMBER,
{
}

/// All four indices of the page at `P4_ADDRESS` are 511.
pub proof fn lemma_p4_address_indices()
    ensures
        is_canonical(P4_ADDRESS),
        P4_ADDRESS % 4096 == 0,
        spec_p4_index((P4_ADDRESS / 4096) as nat) == 511,
        spec_p3_index((P4_ADDRESS / 4096) as nat) == 511,
        spec_p2_index((P4_ADDRESS / 4096) as nat) == 511,
        spec_p1_index((P4_ADDRESS / 4096) as nat) == 511,
{
    let page: u64 = 0xf_ffff_ffff_ffff;
    assert(P4_ADDRESS / 4096 == page);
    assert((page / 0x800_0000) % 512 == 511 && (page / 0x4_0000) % 512 == 511 && (page / 0x200)
        % 512 == 511 && page % 512 == 511) by (bit_vector)
        requires
            page == 0xf_ffff_ffff_ffffu64,
    ;
}

/// The frame that a huge page starting at frame `start` gives for the page
/// `offset` frames into it, if `start` is a multiple of `alignment`.
pub open spec fn spec_huge_frame(start: nat, alignment: nat, offset: nat) -> Result<
    Option<nat>,
    MemoryError,
> {
    if start % alignment == 0 {
        Ok(Some(start + offset))
    } else {
        Err(MemoryError::UnalignedHugePage)
    }
}

/// What a page table stands for: the number of the frame that holds its
/// top-level table, and the words of every tracked table frame.
pub struct PageTableView {
    pub p4: nat,
    pub tables: Map<nat, Seq<u64>>,
}

impl PageTableView {
    /// The same table over other table frames.
    pub open spec fn with_tables(self, tables: Map<nat, Seq<u64>>) -> PageTableView {
        PageTableView { p4: self.p4, tables }
    }

    /// The level-1 table for page number `page`, if the walk from the top
    /// reaches one.
    pub open spec fn level1_table(self, page: nat) -> Option<nat> {
        match spec_next_table(self.tables, self.p4, spec_p4_index(page)) {
            None => None,
            Some(p3) => match spec_next_table(self.tables, p3, spec_p3_index(page)) {
                None => None,
                Some(p2) => spec_next_table(self.tables, p2, spec_p2_index(page)),
            },
        }
    }

    /// The frame that page number `page` is mapped to.
    ///
    /// The walk goes down from the top-level table.  An entry that is not
    /// present ends it with `None`.  A huge-page entry at level 3 or 2 ends
    /// it with a frame inside the huge page, or with `UnalignedHugePage`; at
    /// level 4 that flag means nothing is mapped.  A pointer to a frame that
    /// holds no tracked table ends it with `UntrackedTable`.
    pub open spec fn translate_page(self, page: nat) -> Result<Option<nat>, MemoryError> {
        match spec_descend(self.tables, self.p4, spec_p4_index(page)) {
            Ok(None) => Ok(None),
            Err(MemoryError::HugePage) => Ok(None),
            Err(e) => Err(e),
            Ok(Some(p3)) => match spec_descend(self.tables, p3, spec_p3_index(page)) {
                Ok(None) => Ok(None),
                Err(MemoryError::HugePage) => spec_huge_frame(
                    entry_frame(self.tables[p3][spec_p3_index(page)]),
                    512 * 512,
                    (spec_p2_index(page) * 512 + spec_p1_index(page)) as nat,
                ),
                Err(e) => Err(e),
                Ok(Some(p2)) => match spec_descend(self.tables, p2, spec_p2_index(page)) {
                    Ok(None) => Ok(None),
                    Err(MemoryError::HugePage) => spec_huge_frame(
                        entry_frame(self.tables[p2][spec_p2_index(page)]),
                        512,
                        spec_p1_index(page) as nat,
                    ),
                    Err(e) => Err(e),
                    Ok(Some(p1)) => {
                        let bits = self.tables[p1][spec_p1_index(page)];
                        if entry_present(bits) {
                            Ok(Some(entry_frame(bits)))
                        } else {
                            Ok(None)
                        }
                    },
                },
            },
        }
    }

    /// The physical address that `address` is mapped to: the start of the
    /// frame of its page plus its offset in the page.
    pub open spec fn translate(self, address: u64) -> Result<Option<u64>, MemoryError> {
        if !is_canonical(address) {
            Err(MemoryError::InvalidAddress)
        } else {
            match self.translate_page((address / 4096) as nat) {
                Ok(Some(frame)) => Ok(Some((frame * 4096 + address % 4096) as u64)),
                Ok(None) => Ok(None),
                Err(e) => Err(e),
            }
        }
    }

    /// The table after, and the result of, mapping page number `page` to
    /// frame `frame` with `flags`, when `f3`, `f2` and `f1` are what the
    /// frame allocator answers where the table of level 3, 2 or 1 is missing.
    ///
    /// Each missing table is created as `spec_next_table_create` says; the
    /// first failure ends the walk and leaves what was created before it.
    /// The level-1 entry must be unused and the frame must fit in an entry;
    /// the entry then points to the frame with `flags` and the present flag.
    pub open spec fn map_to(
        self,
        page: nat,
        frame: nat,
        flags: u64,
        f3: Option<nat>,
        f2: Option<nat>,
        f1: Option<nat>,
    ) -> (PageTableView, Result<(), MemoryError>) {
        let (t3, r3) = spec_next_table_create(self.tables, self.p4, spec_p4_index(page), f3);
        match r3 {
            Err(e) => (self.with_tables(t3), Err(e)),
            Ok(p3) => {
                let (t2, r2) = spec_next_table_create(t3, p3, spec_p3_index(page), f2);
                match r2 {
                    Err(e) => (self.with_tables(t2), Err(e)),
                    Ok(p2) => {
                        let (t1, r1) = spec_next_table_create(t2, p2, spec_p2_index(page), f1);
                        match r1 {
                            Err(e) => (self.with_tables(t1), Err(e)),
                            Ok(p1) => if t1[p1][spec_p1_index(page)] != 0 {
                                (self.with_tables(t1), Err(MemoryError::AlreadyMapped))
                            } else if frame > MAX_ENTRY_FRAME {
                                (self.with_tables(t1), Err(MemoryError::InvalidFrame))
                            } else {
                                (
                                    self.with_tables(
                                        spec_write(
                                            t1,
                                            p1,
                                            spec_p1_index(page),
                                            entry_bits(frame, flags | PRESENT),
                                        ),
                                    ),
                                    Ok(()),
                                )
                            },
                        }
                    },
                }
            },
        }
    }

    /// How many tables are missing on the walk to page number `page`: three
    /// where the top-level entry is not present, two where the level-3 entry
    /// is not, one where the level-2 entry is not, and none where the walk
    /// reaches a level-1 table or ends at an entry that is no table.
    pub open spec fn missing_tables(self, page: nat) -> nat {
        match spec_descend(self.tables, self.p4, spec_p4_index(page)) {
            Ok(None) => 3,
            Ok(Some(p3)) => match spec_descend(self.tables, p3, spec_p3_index(page)) {
                Ok(None) => 2,
                Ok(Some(p2)) => match spec_descend(self.tables, p2, spec_p2_index(page)) {
                    Ok(None) => 1,
                    _ => 0,
                },
                _ => 0,
            },
            _ => 0,
        }
    }

    /// The answers that the allocator gives during `map_to`, in order: one
    /// for each table that has to be created, as far as the walk gets.
    pub open spec fn map_to_requests(
        self,
        page: nat,
        f3: Option<nat>,
        f2: Option<nat>,
        f1: Option<nat>,
    ) -> Seq<Option<nat>> {
        let (t3, r3) = spec_next_table_create(self.tables, self.p4, spec_p4_index(page), f3);
        let q3 = spec_create_requests(self.tables, self.p4, spec_p4_index(page), f3);
        match r3 {
            Err(_) => q3,
            Ok(p3) => {
                let (t2, r2) = spec_next_table_create(t3, p3, spec_p3_index(page), f2);
                let q2 = spec_create_requests(t3, p3, spec_p3_index(page), f2);
                match r2 {
                    Err(_) => q3 + q2,
                    Ok(p2) => q3 + q2 + spec_create_requests(t2, p2, spec_p2_index(page), f1),
                }
            },
        }
    }

    /// The answers that the allocator gives during `map`: the frame for the
    /// page first, then, if that is a frame, those of `map_to`.
    pub open spec fn map_requests(
        self,
        page: nat,
        frame: Option<nat>,
        f3: Option<nat>,
        f2: Option<nat>,
        f1: Option<nat>,
    ) -> Seq<Option<nat>> {
        match frame {
            None => seq![frame],
            Some(_) => seq![frame] + self.map_to_requests(page, f3, f2, f1),
        }
    }

    /// The answers that the allocator gives during `identity_map`: those of
    /// `map_to` where the frame has a page, none where it has not.
    pub open spec fn identity_map_requests(
        self,
        frame: nat,
        f3: Option<nat>,
        f2: Option<nat>,
        f1: Option<nat>,
    ) -> Seq<Option<nat>> {
        if frame <= MAX_FRAME_NUMBER && is_canonical((frame * 4096) as u64) {
            self.map_to_requests(frame, f3, f2, f1)
        } else {
            Seq::empty()
        }
    }

    /// The table after, and the result of, mapping page number `page` to the
    /// frame `frame` that the allocator answers first: without a frame
    /// nothing is done, with one the outcome is that of `map_to`.
    pub open spec fn map(
        self,
        page: nat,
        flags: u64,
        frame: Option<nat>,
        f3: Option<nat>,
        f2: Option<nat>,
        f1: Option<nat>,
    ) -> (PageTableView, Result<(), MemoryError>) {
        match frame {
            None => (self, Err(MemoryError::OutOfFrames)),
            Some(f) => self.map_to(page, f, flags, f3, f2, f1),
        }
    }

    /// The table after, and the result of, mapping the page with the number
    /// of frame `frame` to that frame.  The page must exist: the address of
    /// the frame has to be canonical.
    pub open spec fn identity_map(
        self,
        frame: nat,
        flags: u64,
        f3: Option<nat>,
        f2: Option<nat>,
        f1: Option<nat>,
    ) -> (PageTableView, Result<(), MemoryError>) {
        if frame <= MAX_FRAME_NUMBER && is_canonical((frame * 4096) as u64) {
            self.map_to(frame, frame, flags, f3, f2, f1)
        } else {
            (self, Err(MemoryError::InvalidAddress))
        }
    }

    /// The table after, and the result of, unmapping page number `page`: the
    /// page must be mapped, and through a level-1 table, whose entry is then
    /// cleared.  Nothing else changes, and on failure nothing at all.
    pub open spec fn unmap(self, page: nat) -> (PageTableView, Result<(), MemoryError>) {
        match self.translate_page(page) {
            Err(e) => (self, Err(e)),
            Ok(None) => (self, Err(MemoryError::NotMapped)),
            Ok(Some(_)) => match self.level1_table(page) {
                None => (self, Err(MemoryError::HugePage)),
                Some(p1) => (
                    self.with_tables(spec_write(self.tables, p1, spec_p1_index(page), 0)),
                    Ok(()),
                ),
            },
        }
    }
}

impl PageTableView {
    /// Every tracked frame fits in an entry and holds 512 words.
    pub open spec fn wf(self) -> bool {
        tables_wf(self.tables)
    }

    /// Mapping keeps the table well formed, keeps its top-level frame, and
    /// leaves every tracked frame tracked.
    #[verifier::rlimit(100)]
    pub proof fn lemma_map_to_keeps_wf(
        self,
        page: nat,
        frame: nat,
        flags: u64,
        f3: Option<nat>,
        f2: Option<nat>,
        f1: Option<nat>,
    )
        requires
            self.wf(),
        ensures
            self.map_to(page, frame, flags, f3, f2, f1).0.wf(),
            self.map_to(page, frame, flags, f3, f2, f1).0.p4 == self.p4,
            forall|f: nat|
                self.tables.contains_key(f) ==> #[trigger] self.map_to(
                    page,
                    frame,
                    flags,
                    f3,
                    f2,
                    f1,
                ).0.tables.contains_key(f),
    {
        let (t3, r3) = spec_next_table_create(self.tables, self.p4, spec_p4_index(page), f3);
        lemma_next_table_create(self.tables, self.p4, spec_p4_index(page), f3);
        if let Ok(p3) = r3 {
            let (t2, r2) = spec_next_table_create(t3, p3, spec_p3_index(page), f2);
            lemma_next_table_create(t3, p3, spec_p3_index(page), f2);
            if let Ok(p2) = r2 {
                let (t1, r1) = spec_next_table_create(t2, p2, spec_p2_index(page), f1);
                lemma_next_table_create(t2, p2, spec_p2_index(page), f1);
                if let Ok(p1) = r1 {
                    if t1[p1][spec_p1_index(page)] == 0 && frame <= MAX_ENTRY_FRAME {
                        lemma_unused_entry();
                        lemma_present_entry(frame, flags);
                        lemma_write_keeps_links(
                            t1,
                            p1,
                            spec_p1_index(page),
                            entry_bits(frame, flags | PRESENT),
                        );
                    }
                }
            }
        }
    }

    /// After a page has been mapped to a frame, the page translates to that
    /// frame.
    #[verifier::rlimit(100)]
    pub proof fn lemma_map_to_then_translate(
        self,
        page: nat,
        frame: nat,
        flags: u64,
        f3: Option<nat>,
        f2: Option<nat>,
        f1: Option<nat>,
    )
        requires
            self.wf(),
            flags & ALL_FLAGS == flags,
            self.map_to(page, frame, flags, f3, f2, f1).1 is Ok,
        ensures
            self.map_to(page, frame, flags, f3, f2, f1).0.translate_page(page) == Ok::<
                Option<nat>,
                MemoryError,
            >(Some(frame)),
            self.map_to(page, frame, flags, f3, f2, f1).0.level1_table(page) is Some,
    {
        let (t3, r3) = spec_next_table_create(self.tables, self.p4, spec_p4_index(page), f3);
        lemma_next_table_create(self.tables, self.p4, spec_p4_index(page), f3);
        let p3 = r3->Ok_0;
        let (t2, r2) = spec_next_table_create(t3, p3, spec_p3_index(page), f2);
        lemma_next_table_create(t3, p3, spec_p3_index(page), f2);
        let p2 = r2->Ok_0;
        let (t1, r1) = spec_next_table_create(t2, p2, spec_p2_index(page), f1);
        lemma_next_table_create(t2, p2, spec_p2_index(page), f1);
        let p1 = r1->Ok_0;
        let bits = entry_bits(frame, flags | PRESENT);
        let after = spec_write(t1, p1, spec_p1_index(page), bits);
        lemma_unused_entry();
        lemma_present_entry(frame, flags);
        lemma_write_keeps_links(t1, p1, spec_p1_index(page), bits);
        assert((flags | 0x1) & 0x8000_0000_0000_01ff == flags | 0x1 && (flags | 0x1) & 0x1 == 0x1)
            by (bit_vector)
            requires
                flags & 0x8000_0000_0000_01ff == flags,
        ;
        lemma_entry_bits(frame, flags | PRESENT);
    }

    /// Mapping a page changes no translation that was there before: it only
    /// fills entries that were not in use.
    #[verifier::rlimit(100)]
    pub proof fn lemma_map_to_keeps_translations(
        self,
        page: nat,
        frame: nat,
        flags: u64,
        f3: Option<nat>,
        f2: Option<nat>,
        f1: Option<nat>,
        other: nat,
    )
        requires
            self.wf(),
            self.translate_page(other) is Ok,
            self.translate_page(other)->Ok_0 is Some,
        ensures
            self.map_to(page, frame, flags, f3, f2, f1).0.translate_page(other)
                == self.translate_page(other),
            self.level1_table(other) is Some ==> self.map_to(
                page,
                frame,
                flags,
                f3,
                f2,
                f1,
            ).0.level1_table(other) == self.level1_table(other),
    {
        lemma_unused_entry();
        let (t3, r3) = spec_next_table_create(self.tables, self.p4, spec_p4_index(page), f3);
        lemma_next_table_create(self.tables, self.p4, spec_p4_index(page), f3);
        self.with_tables(t3).lemma_same_translation(self, other);
        if let Ok(p3) = r3 {
            let (t2, r2) = spec_next_table_create(t3, p3, spec_p3_index(page), f2);
            lemma_next_table_create(t3, p3, spec_p3_index(page), f2);
            self.with_tables(t2).lemma_same_translation(self.with_tables(t3), other);
            if let Ok(p2) = r2 {
                let (t1, r1) = spec_next_table_create(t2, p2, spec_p2_index(page), f1);
                lemma_next_table_create(t2, p2, spec_p2_index(page), f1);
                self.with_tables(t1).lemma_same_translation(self.with_tables(t2), other);
                if let Ok(p1) = r1 {
                    if t1[p1][spec_p1_index(page)] == 0 && frame <= MAX_ENTRY_FRAME {
                        let bits = entry_bits(frame, flags | PRESENT);
                        lemma_present_entry(frame, flags);
                        lemma_write_keeps_links(t1, p1, spec_p1_index(page), bits);
                        self.with_tables(
                            spec_write(t1, p1, spec_p1_index(page), bits),
                        ).lemma_same_translation(self.with_tables(t1), other);
                    }
                }
            }
        }
    }

    /// A table that keeps every tracked frame and every present entry of
    /// `before` translates a page that `before` maps in the same way.
    #[verifier::rlimit(100)]
    proof fn lemma_same_translation(self, before: PageTableView, page: nat)
        requires
            before.wf(),
            self.p4 == before.p4,
            forall|f: nat| before.tables.contains_key(f) ==> #[trigger] self.tables.contains_key(f),
            forall|a: nat, i: int|
                0 <= i < 512 && before.tables.contains_key(a) && entry_present(
                    #[trigger] before.tables[a][i],
                ) ==> self.tables[a][i] == before.tables[a][i],
            before.translate_page(page) is Ok,
            before.translate_page(page)->Ok_0 is Some,
        ensures
            self.translate_page(page) == before.translate_page(page),
            before.level1_table(page) is Some ==> self.level1_table(page) == before.level1_table(
                page,
            ),
    {
    }

    /// Where a page translates to a frame, each address in the page
    /// translates to the address at the same offset in the frame.
    pub proof fn lemma_translate_offset(self, page: nat, frame: nat, offset: nat)
        requires
            self.translate_page(page) == Ok::<Option<nat>, MemoryError>(Some(frame)),
            page <= MAX_FRAME_NUMBER,
            is_canonical((page * 4096) as u64),
            offset < 4096,
        ensures
            self.translate((page * 4096 + offset) as u64) == Ok::<Option<u64>, MemoryError>(
                Some((frame * 4096 + offset) as u64),
            ),
    {
        let start = (page * 4096) as u64;
        let address = (page * 4096 + offset) as u64;
        assert(is_canonical(address)) by {
            if start < 0x0000_8000_0000_0000 {
                assert(page < 0x8_0000_0000);
            }
        }
        assert(address / 4096 == page);
        assert(address % 4096 == offset);
    }

    /// After a page has been mapped to a frame, every address in the page
    /// translates to the address at the same offset in the frame.
    pub proof fn lemma_map_to_then_translate_address(
        self,
        page: nat,
        frame: nat,
        flags: u64,
        f3: Option<nat>,
        f2: Option<nat>,
        f1: Option<nat>,
        offset: nat,
    )
        requires
            self.wf(),
            flags & ALL_FLAGS == flags,
            page <= MAX_FRAME_NUMBER,
            is_canonical((page * 4096) as u64),
            offset < 4096,
            self.map_to(page, frame, flags, f3, f2, f1).1 is Ok,
        ensures
            self.map_to(page, frame, flags, f3, f2, f1).0.translate(
                (page * 4096 + offset) as u64,
            ) == Ok::<Option<u64>, MemoryError>(Some((frame * 4096 + offset) as u64)),
    {
        self.lemma_map_to_then_translate(page, frame, flags, f3, f2, f1);
        self.map_to(page, frame, flags, f3, f2, f1).0.lemma_translate_offset(page, frame, offset);
    }

    /// Where the walk to a page reaches a level-1 table, nothing is created,
    /// so that the answers of the allocator play no part: the mapping
    /// succeeds exactly if the entry is unused and the frame fits, and it
    /// changes that entry only.
    #[verifier::rlimit(100)]
    pub proof fn lemma_map_to_without_tables(
        self,
        page: nat,
        frame: nat,
        flags: u64,
        f3: Option<nat>,
        f2: Option<nat>,
        f1: Option<nat>,
    )
        requires
            self.level1_table(page) is Some,
        ensures
            ({
                let p1 = self.level1_table(page)->0;
                let i1 = spec_p1_index(page);
                self.map_to(page, frame, flags, f3, f2, f1) == (if self.tables[p1][i1] != 0 {
                    (self, Err::<(), MemoryError>(MemoryError::AlreadyMapped))
                } else if frame > MAX_ENTRY_FRAME {
                    (self, Err::<(), MemoryError>(MemoryError::InvalidFrame))
                } else {
                    (
                        self.with_tables(
                            spec_write(self.tables, p1, i1, entry_bits(frame, flags | PRESENT)),
                        ),
                        Ok::<(), MemoryError>(()),
                    )
                })
            }),
    {
    }

    /// Where the walk to a page reaches a level-1 table of a well-formed
    /// table, the page is mapped exactly if its level-1 entry is in use.
    #[verifier::rlimit(100)]
    pub proof fn lemma_mapped_iff_entry_used(self, page: nat)
        requires
            self.wf(),
            self.level1_table(page) is Some,
        ensures
            self.tables[self.level1_table(page)->0][spec_p1_index(page)] != 0
                <==> self.translate_page(page) is Ok && self.translate_page(page)->Ok_0 is Some,
            self.translate_page(page) is Ok,
    {
        lemma_unused_entry();
        let p1 = self.level1_table(page)->0;
        assert(entry_valid(self.tables[p1][spec_p1_index(page)]));
    }

    /// After `map` has succeeded, the page translates to the frame that the
    /// allocator answered first, and the requests that follow are those of
    /// the tables that were created.
    #[verifier::rlimit(100)]
    pub proof fn lemma_map_then_translate(
        self,
        page: nat,
        flags: u64,
        frame: Option<nat>,
        f3: Option<nat>,
        f2: Option<nat>,
        f1: Option<nat>,
    )
        requires
            self.wf(),
            flags & ALL_FLAGS == flags,
            self.map(page, flags, frame, f3, f2, f1).1 is Ok,
        ensures
            frame is Some,
            self.map_requests(page, frame, f3, f2, f1)[0] == frame,
            self.map_requests(page, frame, f3, f2, f1) == seq![frame] + self.map_to_requests(
                page,
                f3,
                f2,
                f1,
            ),
            self.map(page, flags, frame, f3, f2, f1).0.translate_page(page) == Ok::<
                Option<nat>,
                MemoryError,
            >(Some(frame->0)),
    {
        self.lemma_map_to_then_translate(page, frame->0, flags, f3, f2, f1);
    }

    /// Where no table would have to be created even if the allocator gave no
    /// frame, none is created whatever it gives: the allocator is not asked,
    /// and the outcome is the same for all answers.  This is so where the
    /// walk reaches a level-1 table.
    #[verifier::rlimit(100)]
    pub proof fn lemma_requests_without_answers(
        self,
        page: nat,
        frame: nat,
        flags: u64,
        f3: Option<nat>,
        f2: Option<nat>,
        f1: Option<nat>,
    )
        ensures
            self.level1_table(page) is Some ==> self.missing_tables(page) == 0,
            self.missing_tables(page) == 0 <==> self.map_to_requests(page, None, None, None).len()
                == 0,
            self.map_to_requests(page, None, None, None).len() == 0 ==> {
                &&& self.map_to_requests(page, f3, f2, f1).len() == 0
                &&& self.map_to(page, frame, flags, f3, f2, f1) == self.map_to(
                    page,
                    frame,
                    flags,
                    None,
                    None,
                    None,
                )
            },
    {
    }

    /// During a mapping the allocator is asked at most three times, once
    /// for each table that is missing; where the walk reaches a level-1
    /// table it is not asked at all.  Where the mapping succeeds, every
    /// answer was a frame that held no table before and holds one after.
    #[verifier::rlimit(100)]
    pub proof fn lemma_map_to_requests(
        self,
        page: nat,
        frame: nat,
        flags: u64,
        f3: Option<nat>,
        f2: Option<nat>,
        f1: Option<nat>,
    )
        requires
            self.wf(),
        ensures
            self.map_to_requests(page, f3, f2, f1).len() <= self.missing_tables(page) <= 3,
            self.level1_table(page) is Some ==> self.map_to_requests(page, f3, f2, f1).len() == 0,
            self.map_to(page, frame, flags, f3, f2, f1).1 is Ok ==> self.map_to_requests(
                page,
                f3,
                f2,
                f1,
            ) == seq![f3, f2, f1].subrange(3 - self.missing_tables(page), 3),
            self.map_to(page, frame, flags, f3, f2, f1).1 is Ok ==> forall|i: int|
                0 <= i < self.map_to_requests(page, f3, f2, f1).len() ==> {
                    let answer = #[trigger] self.map_to_requests(page, f3, f2, f1)[i];
                    &&& answer is Some
                    &&& !self.tables.contains_key(answer->0)
                    &&& self.map_to(page, frame, flags, f3, f2, f1).0.tables.contains_key(answer->0)
                },
    {
        lemma_unused_entry();
        let all = seq![f3, f2, f1];
        let (t3, r3) = spec_next_table_create(self.tables, self.p4, spec_p4_index(page), f3);
        lemma_next_table_create(self.tables, self.p4, spec_p4_index(page), f3);
        if let Ok(p3) = r3 {
            let (t2, r2) = spec_next_table_create(t3, p3, spec_p3_index(page), f2);
            lemma_next_table_create(t3, p3, spec_p3_index(page), f2);
            if spec_descend(self.tables, self.p4, spec_p4_index(page)) == Ok::<
                Option<nat>,
                MemoryError,
            >(None) {
                assert(t3[p3] == zeroed_table());
                assert(t3[p3][spec_p3_index(page)] == 0);
            }
            if let Ok(p2) = r2 {
                let (t1, r1) = spec_next_table_create(t2, p2, spec_p2_index(page), f1);
                lemma_next_table_create(t2, p2, spec_p2_index(page), f1);
                if spec_descend(t3, p3, spec_p3_index(page)) == Ok::<Option<nat>, MemoryError>(
                    None,
                ) {
                    assert(t2[p2] == zeroed_table());
                    assert(t2[p2][spec_p2_index(page)] == 0);
                }
                if r1 is Ok {
                    let requests = self.map_to_requests(page, f3, f2, f1);
                    let m = self.missing_tables(page);
                    assert(requests =~= all.subrange(3 - m, 3));
                }
                self.lemma_map_to_keeps_wf(page, frame, flags, f3, f2, f1);
                if let Ok(p1) = r1 {
                    if t1[p1][spec_p1_index(page)] == 0 && frame <= MAX_ENTRY_FRAME {
                        lemma_unused_entry();
                        lemma_present_entry(frame, flags);
                        lemma_write_keeps_links(
                            t1,
                            p1,
                            spec_p1_index(page),
                            entry_bits(frame, flags | PRESENT),
                        );
                    }
                }
            }
        }
    }

    /// Mapping a page that translates to a frame already fails and changes
    /// nothing: with `AlreadyMapped` where the page is mapped through a
    /// level-1 table, with `HugePage` where it lies in a huge page.
    #[verifier::rlimit(100)]
    pub proof fn lemma_map_to_mapped_page(
        self,
        page: nat,
        frame: nat,
        flags: u64,
        f3: Option<nat>,
        f2: Option<nat>,
        f1: Option<nat>,
    )
        requires
            self.translate_page(page) is Ok,
            self.translate_page(page)->Ok_0 is Some,
        ensures
            self.map_to(page, frame, flags, f3, f2, f1).0 == self,
            self.level1_table(page) is Some ==> self.map_to(page, frame, flags, f3, f2, f1).1
                == Err::<(), MemoryError>(MemoryError::AlreadyMapped),
            self.level1_table(page) is None ==> self.map_to(page, frame, flags, f3, f2, f1).1
                == Err::<(), MemoryError>(MemoryError::HugePage),
    {
        lemma_unused_entry();
    }

    /// `lemma_unmap_then_translate`, where the unmapping succeeds.
    proof fn lemma_unmap_then_translate_if_ok(self, page: nat)
        requires
            self.wf(),
        ensures
            self.unmap(page).1 is Ok ==> self.unmap(page).0.translate_page(page) == Ok::<
                Option<nat>,
                MemoryError,
            >(None),
    {
        if self.unmap(page).1 is Ok {
            self.lemma_unmap_then_translate(page);
        }
    }

    /// Unmapping a page leaves the translation of another page as it is,
    /// where that page is mapped through a level-1 table to another frame and
    /// the frame of the unmapped page holds no table.
    #[verifier::rlimit(100)]
    pub proof fn lemma_unmap_keeps_translations(self, page: nat, other: nat)
        requires
            self.wf(),
            self.unmap(page).1 is Ok,
            self.level1_table(other) is Some,
            self.translate_page(other) is Ok,
            self.translate_page(other)->Ok_0 is Some,
            self.translate_page(other) != self.translate_page(page),
            !self.tables.contains_key(self.translate_page(page)->Ok_0->0),
        ensures
            self.unmap(page).0.translate_page(other) == self.translate_page(other),
    {
        lemma_unused_entry();
        let p3 = spec_next_table(self.tables, self.p4, spec_p4_index(page))->0;
        let p2 = spec_next_table(self.tables, p3, spec_p3_index(page))->0;
        let p1 = spec_next_table(self.tables, p2, spec_p2_index(page))->0;
        let i1 = spec_p1_index(page);
        let after = spec_write(self.tables, p1, i1, 0);
        assert forall|a: nat, i: int|
            0 <= i < 512 && self.tables.contains_key(a) && !(a == p1 && i == i1) implies after[a][i]
            == self.tables[a][i] by {
            if a != p1 {
                assert(after[a] == self.tables[a]);
            }
        }
    }

    /// The table in frame `table` is found at the virtual address `address`:
    /// the address is that of a page whose walk starts at the last top-level
    /// entry and ends at a level-1 entry that points to `table` and could be
    /// followed as a pointer to a table.
    pub open spec fn table_at(self, address: u64, table: nat) -> bool {
        let page = (address / 4096) as nat;
        &&& is_canonical(address)
        &&& address % 4096 == 0
        &&& spec_p4_index(page) == 511
        &&& self.level1_table(page) matches Some(p1) && {
            let bits = self.tables[p1][spec_p1_index(page)];
            &&& entry_present(bits)
            &&& !entry_huge(bits)
            &&& entry_frame(bits) == table
        }
    }

    /// The address at which a table is found translates to the start of the
    /// frame that holds the table.
    #[verifier::rlimit(100)]
    pub proof fn lemma_table_at_translates(self, address: u64, table: nat)
        requires
            self.table_at(address, table),
        ensures
            self.translate(address) == Ok::<Option<u64>, MemoryError>(Some((table * 4096) as u64)),
    {
        lemma_entry_frame_bound(self.tables[self.level1_table((address / 4096) as nat)->0][spec_p1_index(
            (address / 4096) as nat,
        )]);
    }

    /// As long as the last top-level entry points back to the top-level
    /// table, the top-level table is found at `P4_ADDRESS`.
    #[verifier::rlimit(100)]
    pub proof fn lemma_p4_address(self)
        requires
            spec_next_table(self.tables, self.p4, 511) == Some(self.p4),
        ensures
            self.table_at(P4_ADDRESS, self.p4),
    {
        lemma_p4_address_indices();
    }

    /// As long as the last top-level entry points back to the top-level
    /// table: where a table of level 4, 3 or 2 is found at `address`, the
    /// table below its entry `index` is found at the address that
    /// `spec_next_table_address` computes.
    #[verifier::rlimit(100)]
    pub proof fn lemma_next_table_address(self, address: u64, table: nat, index: int, next: nat)
        requires
            spec_next_table(self.tables, self.p4, 511) == Some(self.p4),
            self.table_at(address, table),
            spec_p3_index((address / 4096) as nat) == 511,
            0 <= index < 512,
            spec_next_table(self.tables, table, index) == Some(next),
        ensures
            self.table_at(spec_next_table_address(address, index), next),
            spec_p3_index((spec_next_table_address(address, index) / 4096) as nat) == spec_p2_index(
                (address / 4096) as nat,
            ),
    {
        let below = spec_next_table_address(address, index);
        let i = index as u64;
        assert({
            &&& below >= 0xffff_8000_0000_0000
            &&& below % 4096 == 0
            &&& ((below / 4096) / 0x800_0000) % 512 == 511
            &&& ((below / 4096) / 0x4_0000) % 512 == ((address / 4096) / 0x200) % 512
            &&& ((below / 4096) / 0x200) % 512 == (address / 4096) % 512
            &&& (below / 4096) % 512 == i
        }) by (bit_vector)
            requires
                below == (address << 9) | (i << 12),
                i < 512,
                address >= 0xffff_8000_0000_0000,
                address % 4096 == 0,
                ((address / 4096) / 0x800_0000) % 512 == 511,
                ((address / 4096) / 0x4_0000) % 512 == 511,
        ;
    }

    /// After a page has been unmapped, it translates to nothing.
    #[verifier::rlimit(100)]
    pub proof fn lemma_unmap_then_translate(self, page: nat)
        requires
            self.wf(),
            self.unmap(page).1 is Ok,
        ensures
            self.unmap(page).0.wf(),
            self.unmap(page).0.translate_page(page) == Ok::<Option<nat>, MemoryError>(None),
    {
        lemma_unused_entry();
        let p3 = spec_next_table(self.tables, self.p4, spec_p4_index(page))->0;
        let p2 = spec_next_table(self.tables, p3, spec_p3_index(page))->0;
        let p1 = spec_next_table(self.tables, p2, spec_p2_index(page))->0;
        let i1 = spec_p1_index(page);
        let after = spec_write(self.tables, p1, i1, 0);
        assert(tables_wf(after));
        assert(after[p1][i1] == 0);
        assert forall|a: nat, i: int|
            0 <= i < 512 && self.tables.contains_key(a) && !(a == p1 && i == i1) implies after[a][i]
            == self.tables[a][i] by {
            if a != p1 {
                assert(after[a] == self.tables[a]);
            }
        }
    }
}

/// The table that `ActivePageTable::new` makes in frame `p4`.
pub open spec fn new_table(p4: nat) -> PageTableView {
    PageTableView {
        p4,
        tables: Map::<nat, Seq<u64>>::empty().insert(
            p4,
            zeroed_table().update(511, entry_bits(p4, PRESENT | WRITABLE)),
        ),
    }
}

/// The table that `ActivePageTable::new` makes is well formed, and its last
/// top-level entry leads back to the top-level table.
pub proof fn lemma_new_table(p4: nat)
    requires
        p4 <= MAX_ENTRY_FRAME,
    ensures
        new_table(p4).wf(),
        spec_next_table(new_table(p4).tables, p4, 511) == Some(p4),
{
    lemma_link_entry(p4);
    lemma_unused_entry();
}

/// The result of an unmapping without the address it names.
pub open spec fn unmapped(result: Result<VirtualAddress, MemoryError>) -> Result<(), MemoryError> {
    match result {
        Ok(_) => Ok(()),
        Err(e) => Err(e),
    }
}

/// The frame number in the result of translating a page.
pub open spec fn translated_number(frame: Result<Option<Frame>, MemoryError>) -> Result<
    Option<nat>,
    MemoryError,
> {
    match frame {
        Ok(f) => Ok(frame_number(f)),
        Err(e) => Err(e),
    }
}

/// A four-level page table: the frame of its top-level table and the memory
/// that holds the tables.
pub struct ActivePageTable {
    p4: Frame,
    memory: TableMemory,
}

impl View for ActivePageTable {
    type V = PageTableView;

    closed spec fn view(&self) -> PageTableView {
        PageTableView { p4: self.p4@, tables: self.memory@ }
    }
}

impl ActivePageTable {
    /// A page table whose top-level table lies in `p4`.  The table is empty
    /// but for its last entry, which points back to the table itself, so
    /// that every table can be reached by address arithmetic alone.
    pub fn new(p4: Frame) -> (table: Result<ActivePageTable, MemoryError>)
        ensures
            p4@ > MAX_ENTRY_FRAME ==> table is Err && table->Err_0 == MemoryError::InvalidFrame,
            p4@ <= MAX_ENTRY_FRAME ==> table is Ok && table->Ok_0@ == new_table(p4@),
    {
        if p4.number() > MAX_ENTRY_FRAME {
            return Err(MemoryError::InvalidFrame);
        }
        let mut memory = TableMemory::new();
        memory.insert_zeroed(p4);
        let mut entry = Entry::unused();
        entry.set(p4, EntryFlags::from_bits_truncate(PRESENT | WRITABLE));
        proof {
            lemma_link_entry(p4@);
        }
        memory.set_entry(p4, RECURSIVE_INDEX, entry);
        let table = ActivePageTable { p4, memory };
        assert(table@.tables =~= Map::<nat, Seq<u64>>::empty().insert(
            p4@,
            zeroed_table().update(511, entry_bits(p4@, PRESENT | WRITABLE)),
        ));
        Ok(table)
    }

    /// The top-level table.
    pub fn p4(&self) -> (table: TableRef)
        ensures
            table.frame@ == self@.p4,
            table.level == TableLevel::Four,
            table.address == P4_ADDRESS,
    {
        TableRef { frame: self.p4, level: TableLevel::Four, address: P4_ADDRESS }
    }

    /// The memory that holds the tables.
    pub fn memory(&self) -> (memory: &TableMemory)
        ensures
            memory@ == self@.tables,
    {
        &self.memory
    }

    /// The frame inside the huge page that entry `index` of `table` maps.
    fn huge_frame(&self, table: TableRef, index: usize, alignment: u64, offset: u64) -> (frame:
        Result<Option<Frame>, MemoryError>)
        requires
            index < 512,
            spec_descend(self@.tables, table.frame@, index as int) == Err::<
                Option<nat>,
                MemoryError,
            >(MemoryError::HugePage),
            0 < alignment,
            offset < 512 * 512,
        ensures
            translated_number(frame) == spec_huge_frame(
                entry_frame(self@.tables[table.frame@][index as int]),
                alignment as nat,
                offset as nat,
            ),
    {
        match self.memory.entry(table.frame, index) {
            Some(entry) => match entry.pointed_frame() {
                Some(start) => {
                    proof {
                        lemma_entry_frame_bound(entry@);
                    }
                    if start.number() % alignment == 0 {
                        Ok(Some(Frame::from_number(start.number() + offset)))
                    } else {
                        Err(MemoryError::UnalignedHugePage)
                    }
                },
                None => Ok(None),
            },
            None => Ok(None),
        }
    }

    /// The frame that `page` is mapped to, or `None` if it is not mapped.
    #[verifier::rlimit(100)]
    pub fn translate_page(&self, page: Page) -> (frame: Result<Option<Frame>, MemoryError>)
        ensures
            translated_number(frame) == self@.translate_page(page@),
    {
        let p4 = self.p4();
        let p3 = match self.memory.descend(p4, page.p4_index()) {
            Ok(Some(table)) => table,
            Ok(None) => {
                return Ok(None);
            },
            Err(MemoryError::HugePage) => {
                return Ok(None);
            },
            Err(e) => {
                return Err(e);
            },
        };
        let p2 = match self.memory.descend(p3, page.p3_index()) {
            Ok(Some(table)) => table,
            Ok(None) => {
                return Ok(None);
            },
            Err(MemoryError::HugePage) => {
                let offset = (page.p2_index() * 512 + page.p1_index()) as u64;
                return self.huge_frame(p3, page.p3_index(), 512 * 512, offset);
            },
            Err(e) => {
                return Err(e);
            },
        };
        let p1 = match self.memory.descend(p2, page.p2_index()) {
            Ok(Some(table)) => table,
            Ok(None) => {
                return Ok(None);
            },
            Err(MemoryError::HugePage) => {
                return self.huge_frame(p2, page.p2_index(), 512, page.p1_index() as u64);
            },
            Err(e) => {
                return Err(e);
            },
        };
        match self.memory.entry(p1.frame, page.p1_index()) {
            Some(entry) => Ok(entry.pointed_frame()),
            None => Ok(None),
        }
    }

    /// The physical address that `virtual_address` is mapped to, or `None`
    /// if its page is not mapped.
    pub fn translate(&self, virtual_address: VirtualAddress) -> (address: Result<
        Option<PhysicalAddress>,
        MemoryError,
    >)
        ensures
            address == self@.translate(virtual_address),
    {
        let offset = virtual_address % PAGE_SIZE;
        let page = match Page::containing_address(virtual_address) {
            Ok(page) => page,
            Err(e) => {
                return Err(e);
            },
        };
        match self.translate_page(page) {
            Ok(Some(frame)) => Ok(Some(frame.start_address() + offset)),
            Ok(None) => Ok(None),
            Err(e) => Err(e),
        }
    }

    /// Maps `page` to `frame` with `flags` and the present flag.
    ///
    /// Tables that are missing on the way down are created in frames asked
    /// from `allocator`, one request for each and no other.  The outcome is
    /// that of `PageTableView::map_to` for the answers of the allocator, and
    /// the allocator went through exactly the requests of
    /// `PageTableView::map_to_requests`; where no table has to be created,
    /// it is left as it was.
    #[verifier::rlimit(100)]
    pub fn map_to<A: FrameAllocator>(
        &mut self,
        page: Page,
        frame: Frame,
        flags: EntryFlags,
        allocator: &mut A,
    ) -> (result: Result<(), MemoryError>)
        ensures
            exists|f3: Option<nat>, f2: Option<nat>, f1: Option<nat>|
                (final(self)@, result) == #[trigger] old(self)@.map_to(
                    page@,
                    frame@,
                    flags@,
                    f3,
                    f2,
                    f1,
                ) && answered(
                    *old(allocator),
                    old(self)@.map_to_requests(page@, f3, f2, f1),
                    *final(allocator),
                ),
            old(self)@.missing_tables(page@) == 0 ==> *final(allocator) == *old(allocator) && (
            final(self)@, result) == old(self)@.map_to(page@, frame@, flags@, None, None, None),
            result is Ok ==> final(self)@.translate_page(page@) == Ok::<Option<nat>, MemoryError>(
                Some(frame@),
            ),
            result is Ok ==> final(self)@.translate((page@ * 4096) as u64) == Ok::<
                Option<u64>,
                MemoryError,
            >(Some((frame@ * 4096) as u64)),
            result is Ok ==> final(self)@.level1_table(page@) is Some,
            old(self)@.level1_table(page@) is Some ==> *final(allocator) == *old(allocator) && (
            final(self)@, result) == old(self)@.map_to(page@, frame@, flags@, None, None, None),
    {
        let ghost before = self@;
        let ghost a0 = *allocator;
        let ghost none: Option<nat> = None;
        let p4 = self.p4();
        let (i4, i3, i2, i1) = (page.p4_index(), page.p3_index(), page.p2_index(), page.p1_index());
        let ghost t4 = self.memory@;
        proof {
            use_type_invariant(&self.memory);
        }
        let r3 = self.memory.next_table_create(p4, i4, allocator);
        let ghost a1 = *allocator;
        let ghost f3 = choose|f: Option<nat>|
            (self.memory@, step_number(r3)) == #[trigger] spec_next_table_create(
                t4,
                p4.frame@,
                i4 as int,
                f,
            ) && answered(a0, spec_create_requests(t4, p4.frame@, i4 as int, f), a1);
        let p3 = match r3 {
            Ok(table) => table,
            Err(e) => {
                proof {
                    assert((self@, Err::<(), MemoryError>(e)) == before.map_to(
                        page@,
                        frame@,
                        flags@,
                        f3,
                        none,
                        none,
                    ));
                    before.lemma_requests_without_answers(page@, frame@, flags@, f3, none, none);
                }
                return Err(e);
            },
        };
        let ghost t3 = self.memory@;
        let r2 = self.memory.next_table_create(p3, i3, allocator);
        let ghost a2 = *allocator;
        let ghost f2 = choose|f: Option<nat>|
            (self.memory@, step_number(r2)) == #[trigger] spec_next_table_create(
                t3,
                p3.frame@,
                i3 as int,
                f,
            ) && answered(a1, spec_create_requests(t3, p3.frame@, i3 as int, f), a2);
        proof {
            lemma_answered_append(
                a0,
                spec_create_requests(t4, p4.frame@, i4 as int, f3),
                a1,
                spec_create_requests(t3, p3.frame@, i3 as int, f2),
                a2,
            );
        }
        let p2 = match r2 {
            Ok(table) => table,
            Err(e) => {
                proof {
                    assert((self@, Err::<(), MemoryError>(e)) == before.map_to(
                        page@,
                        frame@,
                        flags@,
                        f3,
                        f2,
                        none,
                    ));
                    before.lemma_requests_without_answers(page@, frame@, flags@, f3, f2, none);
                }
                return Err(e);
            },
        };
        let ghost t2 = self.memory@;
        let r1 = self.memory.next_table_create(p2, i2, allocator);
        let ghost f1 = choose|f: Option<nat>|
            (self.memory@, step_number(r1)) == #[trigger] spec_next_table_create(
                t2,
                p2.frame@,
                i2 as int,
                f,
            ) && answered(a2, spec_create_requests(t2, p2.frame@, i2 as int, f), *allocator);
        proof {
            lemma_answered_append(
                a0,
                spec_create_requests(t4, p4.frame@, i4 as int, f3) + spec_create_requests(
                    t3,
                    p3.frame@,
                    i3 as int,
                    f2,
                ),
                a2,
                spec_create_requests(t2, p2.frame@, i2 as int, f1),
                *allocator,
            );
            assert(answered(a0, before.map_to_requests(page@, f3, f2, f1), *allocator));
            before.lemma_requests_without_answers(page@, frame@, flags@, f3, f2, f1);
        }
        let p1 = match r1 {
            Ok(table) => table,
            Err(e) => {
                assert((self@, Err::<(), MemoryError>(e)) == before.map_to(
                    page@,
                    frame@,
                    flags@,
                    f3,
                    f2,
                    f1,
                ));
                return Err(e);
            },
        };
        let result = match self.memory.entry(p1.frame, i1) {
            None => Err(MemoryError::UntrackedTable),
            Some(entry) => {
                if !entry.is_unused() {
                    Err(MemoryError::AlreadyMapped)
                } else if frame.number() > MAX_ENTRY_FRAME {
                    Err(MemoryError::InvalidFrame)
                } else {
                    let mut entry = Entry::unused();
                    entry.set(frame, flags.union(EntryFlags::present()));
                    proof {
                        lemma_present_entry(frame@, flags@);
                    }
                    self.memory.set_entry(p1.frame, i1, entry);
                    Ok(())
                }
            },
        };
        assert((self@, result) == before.map_to(page@, frame@, flags@, f3, f2, f1));
        proof {
            if result is Ok {
                use_type_invariant(&flags);
                use_type_invariant(&page);
                before.lemma_map_to_then_translate(page@, frame@, flags@, f3, f2, f1);
                self@.lemma_translate_offset(page@, frame@, 0);
            }
        }
        result
    }

    /// Maps `page` to a frame asked from `allocator`, with `flags` and the
    /// present flag.
    ///
    /// The allocator is asked for the frame first and then as `map_to` asks
    /// it: it goes through exactly the requests of
    /// `PageTableView::map_requests`.
    #[verifier::rlimit(100)]
    pub fn map<A: FrameAllocator>(&mut self, page: Page, flags: EntryFlags, allocator: &mut A) -> (result:
        Result<(), MemoryError>)
        ensures
            exists|frame: Option<nat>, f3: Option<nat>, f2: Option<nat>, f1: Option<nat>|
                (final(self)@, result) == #[trigger] old(self)@.map(
                    page@,
                    flags@,
                    frame,
                    f3,
                    f2,
                    f1,
                ) && answered(
                    *old(allocator),
                    old(self)@.map_requests(page@, frame, f3, f2, f1),
                    *final(allocator),
                ),
            result is Ok ==> exists|frame: nat, between: A|
                (#[trigger] old(allocator).allocates(Some(frame), between)) && final(self)@.translate_page(page@) == Ok::<Option<nat>, MemoryError>(Some(frame)),
    {
        let ghost before = self@;
        let ghost a0 = *allocator;
        let ghost none: Option<nat> = None;
        let answer = allocator.allocate_frame();
        let ghost a1 = *allocator;
        proof {
            lemma_answered_one(a0, frame_number(answer), a1);
        }
        match answer {
            None => {
                assert((self@, Err::<(), MemoryError>(MemoryError::OutOfFrames)) == before.map(
                    page@,
                    flags@,
                    none,
                    none,
                    none,
                    none,
                ));
                Err(MemoryError::OutOfFrames)
            },
            Some(frame) => {
                let result = self.map_to(page, frame, flags, allocator);
                proof {
                    let (f3, f2, f1) = choose|f3: Option<nat>, f2: Option<nat>, f1: Option<nat>|
                        (self@, result) == #[trigger] before.map_to(
                            page@,
                            frame@,
                            flags@,
                            f3,
                            f2,
                            f1,
                        ) && answered(a1, before.map_to_requests(page@, f3, f2, f1), *allocator);
                    lemma_answered_append(
                        a0,
                        seq![Some(frame@)],
                        a1,
                        before.map_to_requests(page@, f3, f2, f1),
                        *allocator,
                    );
                    assert((self@, result) == before.map(page@, flags@, Some(frame@), f3, f2, f1));
                    assert(a0.allocates(Some(frame@), a1));
                }
                result
            },
        }
    }

    /// Maps the page whose number is that of `frame` to `frame`, with `flags`
    /// and the present flag, so that the virtual addresses of the page equal
    /// the physical addresses behind them.
    ///
    /// A frame whose address is no canonical virtual address has no such
    /// page: the call fails before the table or the allocator is touched.
    /// Otherwise the table and the allocator fare as in `map_to` for that
    /// page.
    #[verifier::rlimit(100)]
    pub fn identity_map<A: FrameAllocator>(
        &mut self,
        frame: Frame,
        flags: EntryFlags,
        allocator: &mut A,
    ) -> (result: Result<(), MemoryError>)
        ensures
            exists|f3: Option<nat>, f2: Option<nat>, f1: Option<nat>|
                (final(self)@, result) == #[trigger] old(self)@.identity_map(
                    frame@,
                    flags@,
                    f3,
                    f2,
                    f1,
                ) && answered(
                    *old(allocator),
                    old(self)@.identity_map_requests(frame@, f3, f2, f1),
                    *final(allocator),
                ),
            !(frame@ <= MAX_FRAME_NUMBER && is_canonical((frame@ * 4096) as u64)) ==> *final(allocator) == *old(allocator) && *final(self) == *old(self) && result == Err::<
                (),
                MemoryError,
            >(MemoryError::InvalidAddress),
            old(self)@.level1_table(frame@) is Some ==> *final(allocator) == *old(allocator) && (
            final(self)@, result) == old(self)@.identity_map(frame@, flags@, None, None, None),
            old(self)@.missing_tables(frame@) == 0 ==> *final(allocator) == *old(allocator) && (
            final(self)@, result) == old(self)@.identity_map(frame@, flags@, None, None, None),
            result is Ok ==> final(self)@.translate_page(frame@) == Ok::<Option<nat>, MemoryError>(
                Some(frame@),
            ),
            result is Ok ==> final(self)@.translate((frame@ * 4096) as u64) == Ok::<
                Option<u64>,
                MemoryError,
            >(Some((frame@ * 4096) as u64)),
    {
        let ghost before = self@;
        let ghost a0 = *allocator;
        let ghost none: Option<nat> = None;
        proof {
            use_type_invariant(&frame);
            before.lemma_requests_without_answers(frame@, frame@, flags@, none, none, none);
        }
        match Page::containing_address(frame.start_address()) {
            Err(e) => {
                assert((self@, Err::<(), MemoryError>(e)) == before.identity_map(
                    frame@,
                    flags@,
                    none,
                    none,
                    none,
                ));
                assert(answered(a0, before.identity_map_requests(frame@, none, none, none), a0));
                Err(e)
            },
            Ok(page) => {
                let result = self.map_to(page, frame, flags, allocator);
                proof {
                    let (f3, f2, f1) = choose|f3: Option<nat>, f2: Option<nat>, f1: Option<nat>|
                        (self@, result) == #[trigger] before.map_to(
                            page@,
                            frame@,
                            flags@,
                            f3,
                            f2,
                            f1,
                        ) && answered(a0, before.map_to_requests(page@, f3, f2, f1), *allocator);
                    assert((self@, result) == before.identity_map(frame@, flags@, f3, f2, f1));
                }
                result
            },
        }
    }

    /// Unmaps `page` and names the virtual address whose cached translation
    /// the caller has to flush before the address is used again.
    ///
    /// The frame behind the page and tables that became empty are not given
    /// back: `allocator` is left as it is.
    #[verifier::rlimit(100)]
    pub fn unmap<A: FrameAllocator>(&mut self, page: Page, allocator: &mut A) -> (result: Result<
        VirtualAddress,
        MemoryError,
    >)
        ensures
            (final(self)@, unmapped(result)) == old(self)@.unmap(page@),
            result matches Ok(address) ==> address == page@ * 4096,
            result is Ok ==> final(self)@.translate_page(page@) == Ok::<Option<nat>, MemoryError>(
                None,
            ),
            *final(allocator) == *old(allocator),
    {
        proof {
            use_type_invariant(&self.memory);
            old(self)@.lemma_unmap_then_translate_if_ok(page@);
        }
        let address = page.start_address();
        match self.translate(address) {
            Err(e) => {
                return Err(e);
            },
            Ok(None) => {
                return Err(MemoryError::NotMapped);
            },
            Ok(Some(_)) => {},
        }
        let p3 = match self.memory.next_table(self.p4(), page.p4_index()) {
            Some(table) => table,
            None => {
                return Err(MemoryError::HugePage);
            },
        };
        let p2 = match self.memory.next_table(p3, page.p3_index()) {
            Some(table) => table,
            None => {
                return Err(MemoryError::HugePage);
            },
        };
        let p1 = match self.memory.next_table(p2, page.p2_index()) {
            Some(table) => table,
            None => {
                return Err(MemoryError::HugePage);
            },
        };
        self.memory.set_entry(p1.frame, page.p1_index(), Entry::unused());
        Ok(address)
    }
}

} // verus!
