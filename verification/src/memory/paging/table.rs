//! Page tables as frames of 512 entries, and the steps from a table to the
//! table one level below.
//!
//! `TableMemory` tracks the physical frames that hold page tables.  A frame
//! carries no level of its own: the level belongs to the way a table was
//! reached, so the same frame may serve at several levels, as the top-level
//! table does through an entry that points back to itself.

use vstd::prelude::*;
use std::collections::HashMap;
use crate::memory::{
    answered, frame_number, lemma_answered_one, Frame, FrameAllocator, MemoryError,
};
use crate::memory::paging::entry::{
    entry_bits, entry_frame, entry_huge, entry_present, entry_valid, lemma_link_entry, Entry,
    EntryFlags, MAX_ENTRY_FRAME, PRESENT, WRITABLE,
};

verus! {

/// Number of entries in a table.
pub const ENTRY_COUNT: usize = 512;

/// The words of a table whose entries are all unused.
pub open spec fn zeroed_table() -> Seq<u64> {
    Seq::new(512, |i: int| 0u64)
}

/// Every tracked frame has a number that fits in an entry and holds exactly
/// 512 words, each of them an entry that is unused or present.
pub open spec fn tables_wf(tables: Map<nat, Seq<u64>>) -> bool {
    &&& forall|f: nat| #[trigger]
        tables.contains_key(f) ==> f <= MAX_ENTRY_FRAME && tables[f].len() == 512
    &&& forall|f: nat, i: int|
        tables.contains_key(f) && 0 <= i < 512 ==> entry_valid(#[trigger] tables[f][i])
}

/// Where entry `index` of the table in frame `table` leads when it is taken
/// as a pointer to a table: to a tracked table, to nothing because it is not
/// present, or to an error because `table` itself is not tracked, because
/// the entry is a huge page, or because it points to a frame that holds no
/// tracked table.
pub open spec fn spec_descend(tables: Map<nat, Seq<u64>>, table: nat, index: int) -> Result<
    Option<nat>,
    MemoryError,
> {
    if !tables.contains_key(table) {
        Err(MemoryError::UntrackedTable)
    } else {
        let bits = tables[table][index];
        if !entry_present(bits) {
            Ok(None)
        } else if entry_huge(bits) {
            Err(MemoryError::HugePage)
        } else if tables.contains_key(entry_frame(bits)) {
            Ok(Some(entry_frame(bits)))
        } else {
            Err(MemoryError::UntrackedTable)
        }
    }
}

/// The table one level below, if entry `index` of `table` leads to one.
pub open spec fn spec_next_table(tables: Map<nat, Seq<u64>>, table: nat, index: int) -> Option<
    nat,
> {
    match spec_descend(tables, table, index) {
        Ok(Some(next)) => Some(next),
        _ => None,
    }
}

/// `tables` with word `index` of table `table` replaced by `bits`.
pub open spec fn spec_write(tables: Map<nat, Seq<u64>>, table: nat, index: int, bits: u64) -> Map<
    nat,
    Seq<u64>,
> {
    tables.insert(table, tables[table].update(index, bits))
}

/// The tables after, and the result of, asking for the table below entry
/// `index` of `table` when `frame` is what the frame allocator would answer.
///
/// Where the entry leads to a table, that table is the result.  Where it is
/// not present, a table is created: the frame must be there, fit in an entry
/// and hold no table yet; it is then zeroed and linked as present and
/// writable.  `frame` is looked at in that case only.
pub open spec fn spec_next_table_create(
    tables: Map<nat, Seq<u64>>,
    table: nat,
    index: int,
    frame: Option<nat>,
) -> (Map<nat, Seq<u64>>, Result<nat, MemoryError>) {
    match spec_descend(tables, table, index) {
        Ok(Some(next)) => (tables, Ok(next)),
        Err(e) => (tables, Err(e)),
        Ok(None) => match frame {
            None => (tables, Err(MemoryError::OutOfFrames)),
            Some(f) => if f > MAX_ENTRY_FRAME {
                (tables, Err(MemoryError::InvalidFrame))
            } else if tables.contains_key(f) {
                (tables, Err(MemoryError::FrameInUse))
            } else {
                (
                    spec_write(
                        tables.insert(f, zeroed_table()),
                        table,
                        index,
                        entry_bits(f, PRESENT | WRITABLE),
                    ),
                    Ok(f),
                )
            },
        },
    }
}

/// The answers that the allocator gives while the table below entry `index`
/// of `table` is asked for: one, `frame`, where the entry is not present and
/// a table has to be created; none otherwise.
pub open spec fn spec_create_requests(
    tables: Map<nat, Seq<u64>>,
    table: nat,
    index: int,
    frame: Option<nat>,
) -> Seq<Option<nat>> {
    if spec_descend(tables, table, index) == Ok::<Option<nat>, MemoryError>(None) {
        seq![frame]
    } else {
        Seq::empty()
    }
}

/// Creating a table keeps the tables well formed, leaves every tracked frame
/// tracked, makes the entry lead to the resulting table, and changes no
/// entry that led to a table before.
#[verifier::rlimit(100)]
pub proof fn lemma_next_table_create(
    tables: Map<nat, Seq<u64>>,
    table: nat,
    index: int,
    frame: Option<nat>,
)
    requires
        tables_wf(tables),
        0 <= index < 512,
    ensures
        ({
            let (after, result) = spec_next_table_create(tables, table, index, frame);
            &&& tables_wf(after)
            &&& forall|f: nat| tables.contains_key(f) ==> #[trigger] after.contains_key(f)
            &&& result is Err ==> after == tables
            &&& result matches Ok(next) ==> spec_descend(after, table, index) == Ok::<
                Option<nat>,
                MemoryError,
            >(Some(next))
            &&& forall|a: nat, i: int|
                0 <= i < 512 && (#[trigger] spec_descend(tables, a, i)) is Ok && spec_descend(
                    tables,
                    a,
                    i,
                )->Ok_0 is Some ==> spec_descend(after, a, i) == spec_descend(tables, a, i)
            &&& forall|a: nat, i: int|
                0 <= i < 512 && tables.contains_key(a) && entry_present(#[trigger] tables[a][i])
                    ==> after[a][i] == tables[a][i]
        }),
{
    let (after, result) = spec_next_table_create(tables, table, index, frame);
    if spec_descend(tables, table, index) == Ok::<Option<nat>, MemoryError>(None) && frame is Some
        && frame->0 <= MAX_ENTRY_FRAME && !tables.contains_key(frame->0) {
        let f = frame->0;
        let bits = entry_bits(f, PRESENT | WRITABLE);
        lemma_link_entry(f);
        let grown = tables.insert(f, zeroed_table());
        assert(after == spec_write(grown, table, index, bits));
        assert(after[table][index] == bits);
        assert forall|a: nat, i: int|
            0 <= i < 512 && (#[trigger] spec_descend(tables, a, i)) is Ok && spec_descend(
                tables,
                a,
                i,
            )->Ok_0 is Some implies spec_descend(after, a, i) == spec_descend(tables, a, i) by {
            assert(tables.contains_key(a));
            assert(a != f);
            if a == table {
                assert(i != index);
                assert(after[a][i] == tables[a][i]);
            } else {
                assert(after[a] == tables[a]);
            }
        }
        assert forall|a: nat, i: int|
            0 <= i < 512 && tables.contains_key(a) && entry_present(
                #[trigger] tables[a][i],
            ) implies after[a][i] == tables[a][i] by {
            if a != table {
                assert(after[a] == tables[a]);
            }
        }
    }
}

/// Writing an entry that did not lead to a table keeps the tables well
/// formed and changes no entry that led to a table before.
#[verifier::rlimit(100)]
pub proof fn lemma_write_keeps_links(tables: Map<nat, Seq<u64>>, table: nat, index: int, bits: u64)
    requires
        tables_wf(tables),
        tables.contains_key(table),
        0 <= index < 512,
        spec_next_table(tables, table, index) is None,
        entry_valid(bits),
    ensures
        tables_wf(spec_write(tables, table, index, bits)),
        spec_write(tables, table, index, bits)[table][index] == bits,
        forall|f: nat|
            tables.contains_key(f) <==> #[trigger] spec_write(
                tables,
                table,
                index,
                bits,
            ).contains_key(f),
        forall|a: nat, i: int|
            0 <= i < 512 && (#[trigger] spec_descend(tables, a, i)) is Ok && spec_descend(
                tables,
                a,
                i,
            )->Ok_0 is Some ==> spec_descend(spec_write(tables, table, index, bits), a, i)
                == spec_descend(tables, a, i),
        forall|a: nat, i: int|
            0 <= i < 512 && tables.contains_key(a) && !(a == table && i == index)
                ==> #[trigger] spec_write(tables, table, index, bits)[a][i] == tables[a][i],
{
    let after = spec_write(tables, table, index, bits);
    assert forall|a: nat, i: int|
        0 <= i < 512 && (#[trigger] spec_descend(tables, a, i)) is Ok && spec_descend(
            tables,
            a,
            i,
        )->Ok_0 is Some implies spec_descend(after, a, i) == spec_descend(tables, a, i) by {
        assert(tables.contains_key(a));
        if a == table {
            assert(i != index);
            assert(after[a][i] == tables[a][i]);
        } else {
            assert(after[a] == tables[a]);
        }
    }
    assert forall|a: nat, i: int|
        0 <= i < 512 && tables.contains_key(a) && !(a == table && i == index) implies #[trigger] after[a][i]
        == tables[a][i] by {
        if a != table {
            assert(after[a] == tables[a]);
        }
    }
}

/// The depth at which a table is used.  Tables of levels four to two point
/// to tables one level below; the entries of a level-one table point to the
/// frames of pages.
#[derive(Clone, Copy, Debug, PartialEq, Eq, Structural)]
pub enum TableLevel {
    Four,
    Three,
    Two,
    One,
}

impl TableLevel {
    /// Whether tables of this level point to further tables.
    pub open spec fn has_next(self) -> bool {
        !(self is One)
    }

    pub open spec fn spec_next_level(self) -> TableLevel {
        match self {
            TableLevel::Four => TableLevel::Three,
            TableLevel::Three => TableLevel::Two,
            _ => TableLevel::One,
        }
    }

    /// The level below this one.
    pub fn next_level(self) -> (level: TableLevel)
        requires
            self.has_next(),
        ensures
            level == self.spec_next_level(),
    {
        match self {
            TableLevel::Four => TableLevel::Three,
            TableLevel::Three => TableLevel::Two,
            _ => TableLevel::One,
        }
    }
}

/// The virtual address at which the top-level table is found as long as its
/// last entry points back to it.
pub const P4_ADDRESS: u64 = 0xffff_ffff_ffff_f000;

/// The virtual address at which the table below entry `index` of the table
/// at `table_address` is found through the top-level entry that points back:
/// the address of the table moves up by one level and `index` takes the
/// place of the lowest level.
pub open spec fn spec_next_table_address(table_address: u64, index: int) -> u64 {
    (table_address << 9) | ((index as u64) << 12)
}

pub fn next_table_address(table_address: u64, index: usize) -> (address: u64)
    requires
        index < 512,
    ensures
        address == spec_next_table_address(table_address, index as int),
{
    (table_address << 9) | ((index as u64) << 12)
}

/// A table in use: the frame that holds it, the level it is used at, and
/// the virtual address at which it is found through the top-level entry
/// that points back.
#[derive(Clone, Copy, Debug, PartialEq, Eq, Structural)]
pub struct TableRef {
    pub frame: Frame,
    pub level: TableLevel,
    pub address: u64,
}

impl TableRef {
    /// The table one level below, reached through entry `index`, in `frame`.
    pub open spec fn spec_below(self, index: int, frame: nat, next: TableRef) -> bool {
        &&& next.frame@ == frame
        &&& next.level == self.level.spec_next_level()
        &&& next.address == spec_next_table_address(self.address, index)
    }

    fn below(&self, index: usize, frame: Frame) -> (next: TableRef)
        requires
            self.level.has_next(),
            index < 512,
        ensures
            self.spec_below(index as int, frame@, next),
    {
        TableRef {
            frame,
            level: self.level.next_level(),
            address: next_table_address(self.address, index),
        }
    }
}

/// The frame number in an optional table reference.
pub open spec fn table_number(table: Option<TableRef>) -> Option<nat> {
    match table {
        Some(t) => Some(t.frame@),
        None => None,
    }
}

/// The frame number in the result of following an entry.
pub open spec fn descend_number(next: Result<Option<TableRef>, MemoryError>) -> Result<
    Option<nat>,
    MemoryError,
> {
    match next {
        Ok(t) => Ok(table_number(t)),
        Err(e) => Err(e),
    }
}

/// The frame number in the result of a step that may fail.
pub open spec fn step_number(step: Result<TableRef, MemoryError>) -> Result<nat, MemoryError> {
    match step {
        Ok(t) => Ok(t.frame@),
        Err(e) => Err(e),
    }
}

/// The 512 entries of one page table.  Its view is the sequence of their
/// raw words.
pub struct Table {
    entries: Vec<Entry>,
}

impl View for Table {
    type V = Seq<u64>;

    closed spec fn view(&self) -> Seq<u64> {
        Seq::new(self.entries@.len(), |i: int| self.entries@[i]@)
    }
}

impl Table {
    #[verifier::type_invariant]
    pub open spec fn full(&self) -> bool {
        self@.len() == 512
    }

    /// A table whose entries are all unused.
    pub fn new() -> (table: Table)
        ensures
            table@ == zeroed_table(),
    {
        let mut entries: Vec<Entry> = Vec::new();
        let mut i: usize = 0;
        while i < ENTRY_COUNT
            invariant
                i <= 512,
                entries@.len() == i,
                forall|j: int| 0 <= j < i ==> entries@[j]@ == 0,
            decreases 512 - i,
        {
            entries.push(Entry::unused());
            i += 1;
        }
        let table = Table { entries };
        assert(table@ =~= zeroed_table());
        table
    }

    /// Entry `index`.
    pub fn entry(&self, index: usize) -> (entry: Entry)
        requires
            index < 512,
        ensures
            entry@ == self@[index as int],
    {
        proof {
            use_type_invariant(self);
        }
        self.entries[index]
    }

    /// A copy of this table in which entry `index` is `entry`.
    pub fn with_entry(&self, index: usize, entry: Entry) -> (table: Table)
        requires
            index < 512,
        ensures
            table@ == self@.update(index as int, entry@),
    {
        proof {
            use_type_invariant(self);
        }
        let mut entries: Vec<Entry> = Vec::new();
        let mut i: usize = 0;
        while i < ENTRY_COUNT
            invariant
                i <= 512,
                index < 512,
                self.entries@.len() == 512,
                entries@.len() == i,
                forall|j: int|
                    0 <= j < i ==> entries@[j] == (if j == index {
                        entry
                    } else {
                        self.entries@[j]
                    }),
            decreases 512 - i,
        {
            entries.push(if i == index { entry } else { self.entries[i] });
            i += 1;
        }
        let table = Table { entries };
        assert(table@ =~= self@.update(index as int, entry@));
        table
    }

    /// The raw words of the entries, in order.
    pub fn words(&self) -> (words: Vec<u64>)
        ensures
            words@ == self@,
    {
        proof {
            use_type_invariant(self);
        }
        let mut words: Vec<u64> = Vec::new();
        let mut i: usize = 0;
        while i < ENTRY_COUNT
            invariant
                i <= 512,
                self.entries@.len() == 512,
                words@.len() == i,
                forall|j: int| 0 <= j < i ==> words@[j] == self.entries@[j]@,
            decreases 512 - i,
        {
            words.push(self.entries[i].bits());
            i += 1;
        }
        assert(words@ =~= self@);
        words
    }
}

/// The tables by the number of their frame, and a list of the frames.
struct Store {
    tables: HashMap<u64, Table>,
    order: Vec<Frame>,
}

/// The physical frames that hold page tables, each with its table.
///
/// Its view maps the number of each tracked frame to the 512 words in it.
/// A frame that is not tracked is taken to hold no table: a step that would
/// enter it fails with `UntrackedTable`.
pub struct TableMemory {
    store: Store,
}

impl View for TableMemory {
    type V = Map<nat, Seq<u64>>;

    closed spec fn view(&self) -> Map<nat, Seq<u64>> {
        Map::new(
            |f: nat| f <= u64::MAX && self.store.tables@.contains_key(f as u64),
            |f: nat| self.store.tables@[f as u64]@,
        )
    }
}

impl TableMemory {
    #[verifier::type_invariant]
    pub open spec fn wf(&self) -> bool {
        tables_wf(self@) && self.listed()
    }

    /// The list of frames names each tracked frame once, and no other.
    pub closed spec fn listed(&self) -> bool {
        &&& forall|i: int|
            0 <= i < self.store.order@.len() ==> self@.contains_key(
                (#[trigger] self.store.order@[i])@,
            )
        &&& forall|f: nat| #[trigger]
            self@.contains_key(f) ==> exists|i: int|
                0 <= i < self.store.order@.len() && (#[trigger] self.store.order@[i])@ == f
        &&& forall|i: int, j: int|
            0 <= i < j < self.store.order@.len() ==> (#[trigger] self.store.order@[i])@ != (
            #[trigger] self.store.order@[j])@
    }

    /// A memory that tracks no table.
    pub fn new() -> (memory: TableMemory)
        ensures
            memory@ == Map::<nat, Seq<u64>>::empty(),
    {
        let memory = TableMemory { store: Store { tables: HashMap::new(), order: Vec::new() } };
        assert(memory@ =~= Map::<nat, Seq<u64>>::empty());
        memory
    }

    /// The tracked frames, each once.
    pub fn frames(&self) -> (frames: Vec<Frame>)
        ensures
            forall|i: int| 0 <= i < frames@.len() ==> self@.contains_key((#[trigger] frames@[i])@),
            forall|f: nat| #[trigger]
                self@.contains_key(f) ==> exists|i: int|
                    0 <= i < frames@.len() && (#[trigger] frames@[i])@ == f,
            forall|i: int, j: int|
                0 <= i < j < frames@.len() ==> (#[trigger] frames@[i])@ != (#[trigger] frames@[j])@,
    {
        proof {
            use_type_invariant(self);
        }
        let mut frames: Vec<Frame> = Vec::new();
        let mut i: usize = 0;
        while i < self.store.order.len()
            invariant
                i <= self.store.order.len(),
                frames@ == self.store.order@.subrange(0, i as int),
            decreases self.store.order.len() - i,
        {
            frames.push(self.store.order[i]);
            assert(frames@ =~= self.store.order@.subrange(0, i + 1));
            i += 1;
        }
        assert(frames@ =~= self.store.order@);
        frames
    }

    /// Whether `frame` holds a tracked table.
    pub fn contains(&self, frame: Frame) -> (held: bool)
        ensures
            held == self@.contains_key(frame@),
    {
        broadcast use vstd::std_specs::hash::group_hash_axioms;

        let number = frame.number();
        self.store.tables.contains_key(&number)
    }

    /// Entry `index` of the table in `frame`, if the frame is tracked and the
    /// index lies in the table.
    pub fn entry(&self, frame: Frame, index: usize) -> (entry: Option<Entry>)
        ensures
            entry is Some <==> self@.contains_key(frame@) && index < 512,
            entry matches Some(e) ==> e@ == self@[frame@][index as int],
    {
        broadcast use vstd::std_specs::hash::group_hash_axioms;

        let number = frame.number();
        match self.store.tables.get(&number) {
            Some(table) => if index < ENTRY_COUNT {
                Some(table.entry(index))
            } else {
                None
            },
            None => None,
        }
    }

    /// The words of the table in `frame`, if the frame is tracked.
    pub fn words(&self, frame: Frame) -> (words: Option<Vec<u64>>)
        ensures
            words is Some <==> self@.contains_key(frame@),
            words matches Some(w) ==> w@ == self@[frame@],
    {
        broadcast use vstd::std_specs::hash::group_hash_axioms;

        let number = frame.number();
        match self.store.tables.get(&number) {
            Some(table) => Some(table.words()),
            None => None,
        }
    }

    /// Replaces entry `index` of the tracked table in `frame`.
    #[verifier::rlimit(100)]
    pub(crate) fn set_entry(&mut self, frame: Frame, index: usize, entry: Entry)
        requires
            old(self)@.contains_key(frame@),
            index < 512,
            entry_valid(entry@),
        ensures
            final(self)@ == spec_write(old(self)@, frame@, index as int, entry@),
    {
        broadcast use vstd::std_specs::hash::group_hash_axioms;

        proof {
            use_type_invariant(&*self);
        }
        let number = frame.number();
        let mut store = Store { tables: HashMap::new(), order: Vec::new() };
        std::mem::swap(&mut self.store, &mut store);
        let changed = match store.tables.get(&number) {
            Some(table) => table.with_entry(index, entry),
            None => Table::new(),
        };
        proof {
            use_type_invariant(&changed);
        }
        store.tables.insert(number, changed);
        proof {
            let next = TableMemory { store };
            assert(next@ =~= spec_write(old(self)@, frame@, index as int, entry@));
            assert forall|f: nat| #[trigger] next@.contains_key(f) implies f <= MAX_ENTRY_FRAME
                && next@[f].len() == 512 by {
                if f != frame@ {
                    assert(old(self)@.contains_key(f));
                }
            }
            assert forall|f: nat, i: int| next@.contains_key(f) && 0 <= i < 512 implies entry_valid(
                #[trigger] next@[f][i],
            ) by {
                if f != frame@ {
                    assert(old(self)@.contains_key(f));
                    assert(next@[f][i] == old(self)@[f][i]);
                }
            }
            assert(next.listed()) by {
                assert forall|f: nat| #[trigger] next@.contains_key(f) implies exists|i: int|
                    0 <= i < next.store.order@.len() && (#[trigger] next.store.order@[i])@
                        == f by {
                    assert(old(self)@.contains_key(f));
                    let i = choose|i: int|
                        0 <= i < old(self).store.order@.len() && (
                        #[trigger] old(self).store.order@[i])@ == f;
                    assert(next.store.order@[i]@ == f);
                }
                assert forall|i: int| 0 <= i < next.store.order@.len() implies next@.contains_key(
                    (#[trigger] next.store.order@[i])@,
                ) by {
                    assert(old(self)@.contains_key(old(self).store.order@[i]@));
                }
            }
        }
        self.store = store;
    }

    /// Starts tracking `frame` with a table whose entries are all unused.
    #[verifier::rlimit(100)]
    pub(crate) fn insert_zeroed(&mut self, frame: Frame)
        requires
            frame@ <= MAX_ENTRY_FRAME,
            !old(self)@.contains_key(frame@),
        ensures
            final(self)@ == old(self)@.insert(frame@, zeroed_table()),
    {
        broadcast use vstd::std_specs::hash::group_hash_axioms;

        proof {
            use_type_invariant(&*self);
        }
        let number = frame.number();
        let mut store = Store { tables: HashMap::new(), order: Vec::new() };
        std::mem::swap(&mut self.store, &mut store);
        let table = Table::new();
        proof {
            use_type_invariant(&table);
        }
        store.tables.insert(number, table);
        store.order.push(frame);
        proof {
            let next = TableMemory { store };
            let count = old(self).store.order@.len() as int;
            assert(next@ =~= old(self)@.insert(frame@, zeroed_table()));
            assert forall|f: nat| #[trigger] next@.contains_key(f) implies f <= MAX_ENTRY_FRAME
                && next@[f].len() == 512 by {
                if f != frame@ {
                    assert(old(self)@.contains_key(f));
                }
            }
            assert forall|f: nat, i: int| next@.contains_key(f) && 0 <= i < 512 implies entry_valid(
                #[trigger] next@[f][i],
            ) by {
                if f != frame@ {
                    assert(old(self)@.contains_key(f));
                    assert(next@[f][i] == old(self)@[f][i]);
                }
            }
            assert(next.listed()) by {
                assert forall|i: int| 0 <= i < next.store.order@.len() implies next@.contains_key(
                    (#[trigger] next.store.order@[i])@,
                ) by {
                    if i < count {
                        assert(next.store.order@[i] == old(self).store.order@[i]);
                    }
                }
                assert forall|f: nat| #[trigger] next@.contains_key(f) implies exists|i: int|
                    0 <= i < next.store.order@.len() && (#[trigger] next.store.order@[i])@
                        == f by {
                    if f != frame@ {
                        assert(old(self)@.contains_key(f));
                        let i = choose|i: int|
                            0 <= i < count && (#[trigger] old(self).store.order@[i])@ == f;
                        assert(next.store.order@[i]@ == f);
                    } else {
                        assert(next.store.order@[count]@ == f);
                    }
                }
                assert forall|i: int, j: int| 0 <= i < j < next.store.order@.len() implies (
                #[trigger] next.store.order@[i])@ != (#[trigger] next.store.order@[j])@ by {
                    assert(next.store.order@[i] == old(self).store.order@[i]);
                    if j < count {
                        assert(next.store.order@[j] == old(self).store.order@[j]);
                    }
                }
            }
        }
        self.store = store;
    }

    /// Follows entry `index` of `table` as a pointer to the table one level
    /// below.
    pub fn descend(&self, table: TableRef, index: usize) -> (next: Result<
        Option<TableRef>,
        MemoryError,
    >)
        requires
            table.level.has_next(),
            index < 512,
        ensures
            descend_number(next) == spec_descend(self@, table.frame@, index as int),
            next matches Ok(Some(t)) ==> table.spec_below(index as int, t.frame@, t),
    {
        match self.entry(table.frame, index) {
            None => Err(MemoryError::UntrackedTable),
            Some(entry) => {
                match entry.pointed_frame() {
                    None => Ok(None),
                    Some(frame) => {
                        if entry.is_huge() {
                            Err(MemoryError::HugePage)
                        } else if self.contains(frame) {
                            Ok(Some(table.below(index, frame)))
                        } else {
                            Err(MemoryError::UntrackedTable)
                        }
                    },
                }
            },
        }
    }

    /// The table one level below `table` at entry `index`, if that entry is
    /// present, is no huge page and points to a tracked table.
    pub fn next_table(&self, table: TableRef, index: usize) -> (next: Option<TableRef>)
        requires
            table.level.has_next(),
            index < 512,
        ensures
            table_number(next) == spec_next_table(self@, table.frame@, index as int),
            next matches Some(t) ==> table.spec_below(index as int, t.frame@, t),
    {
        match self.descend(table, index) {
            Ok(Some(next)) => Some(next),
            _ => None,
        }
    }

    /// The table one level below `table` at entry `index`, created in `frame`
    /// if the entry is not present.  `frame` is what a frame allocator
    /// answered, or would answer.
    #[verifier::rlimit(100)]
    pub fn next_table_create_in(&mut self, table: TableRef, index: usize, frame: Option<Frame>) -> (next:
        Result<TableRef, MemoryError>)
        requires
            table.level.has_next(),
            index < 512,
        ensures
            (final(self)@, step_number(next)) == spec_next_table_create(
                old(self)@,
                table.frame@,
                index as int,
                frame_number(frame),
            ),
            next matches Ok(t) ==> table.spec_below(index as int, t.frame@, t),
    {
        match self.descend(table, index) {
            Ok(Some(next)) => Ok(next),
            Err(e) => Err(e),
            Ok(None) => match frame {
                None => Err(MemoryError::OutOfFrames),
                Some(fresh) => {
                    if fresh.number() > MAX_ENTRY_FRAME {
                        Err(MemoryError::InvalidFrame)
                    } else if self.contains(fresh) {
                        Err(MemoryError::FrameInUse)
                    } else {
                        self.insert_zeroed(fresh);
                        let mut entry = Entry::unused();
                        entry.set(fresh, EntryFlags::from_bits_truncate(PRESENT | WRITABLE));
                        proof {
                            lemma_link_entry(fresh@);
                        }
                        self.set_entry(table.frame, index, entry);
                        Ok(table.below(index, fresh))
                    }
                },
            },
        }
    }

    /// The table one level below `table` at entry `index`; if the entry is not
    /// present, the table is created in a frame asked from `allocator`.
    ///
    /// The allocator is asked only where a table has to be created, and then
    /// once: for some answer `frame`, the outcome is that of
    /// `next_table_create_in` for it, and the allocator went through the
    /// requests of `spec_create_requests` and through no other.
    #[verifier::rlimit(100)]
    pub fn next_table_create<A: FrameAllocator>(
        &mut self,
        table: TableRef,
        index: usize,
        allocator: &mut A,
    ) -> (next: Result<TableRef, MemoryError>)
        requires
            table.level.has_next(),
            index < 512,
        ensures
            exists|frame: Option<nat>|
                (final(self)@, step_number(next)) == #[trigger] spec_next_table_create(
                    old(self)@,
                    table.frame@,
                    index as int,
                    frame,
                ) && answered(
                    *old(allocator),
                    spec_create_requests(old(self)@, table.frame@, index as int, frame),
                    *final(allocator),
                ),
            spec_descend(old(self)@, table.frame@, index as int) != Ok::<
                Option<nat>,
                MemoryError,
            >(None) ==> *final(allocator) == *old(allocator),
            spec_descend(old(self)@, table.frame@, index as int) == Ok::<
                Option<nat>,
                MemoryError,
            >(None) ==> exists|frame: Option<nat>|
                (#[trigger] old(allocator).allocates(frame, *final(allocator))) && (
                final(self)@, step_number(next)) == spec_next_table_create(
                    old(self)@,
                    table.frame@,
                    index as int,
                    frame,
                ),
            next matches Ok(t) ==> table.spec_below(index as int, t.frame@, t),
    {
        let ghost before = *allocator;
        match self.descend(table, index) {
            Ok(None) => {
                let frame = allocator.allocate_frame();
                let next = self.next_table_create_in(table, index, frame);
                proof {
                    lemma_answered_one(before, frame_number(frame), *allocator);
                    assert(spec_create_requests(
                        old(self)@,
                        table.frame@,
                        index as int,
                        frame_number(frame),
                    ) == seq![frame_number(frame)]);
                }
                next
            },
            _ => {
                let next = self.next_table_create_in(table, index, None);
                proof {
                    assert(answered(before, Seq::<Option<nat>>::empty(), *allocator));
                }
                next
            },
        }
    }
}

} // verus!
