//! The tables of the four-level hierarchy.
//!
//! A table owns the tables that its entries lead to, so the hierarchy is a
//! tree. The level of a table is part of its type: only tables of level 2
//! to 4 can be walked to a deeper level.
use vstd::prelude::*;
use core::marker::PhantomData;
use super::entry::{
    word_frame, word_huge, word_present, EntryFlags, PageEntry, HUGEPAGE, PRESENT, WRITABLE,
};
use super::PagingError;
use super::super::frames::{drawn, FrameAlloc, PhysicalFrame};

verus! {

/// What the entries of a level-1 table lead to: nothing.
pub struct NoTable {}

/// A level of the hierarchy.
pub trait TableLevel {
    /// What the entries of a table of this level lead to.
    type Child;
}

/// A level whose tables lead to tables of the level below.
pub trait PageHiearchy: TableLevel<Child = PageTable<Self::Target>> {
    /// The level below.
    type Target: TableLevel;
}

/// The level of the tables whose entries map pages.
pub enum TableLevel1 {
    /// Marks the level.
    Level,
}

/// The level of the tables that lead to level-1 tables.
pub enum TableLevel2 {
    /// Marks the level.
    Level,
}

/// The level of the tables that lead to level-2 tables.
pub enum TableLevel3 {
    /// Marks the level.
    Level,
}

/// The level of the root table.
pub enum TableLevel4 {
    /// Marks the level.
    Level,
}

impl TableLevel for TableLevel1 {
    type Child = NoTable;
}

impl TableLevel for TableLevel2 {
    type Child = PageTable<TableLevel1>;
}

impl TableLevel for TableLevel3 {
    type Child = PageTable<TableLevel2>;
}

impl TableLevel for TableLevel4 {
    type Child = PageTable<TableLevel3>;
}

impl PageHiearchy for TableLevel4 {
    type Target = TableLevel3;
}

impl PageHiearchy for TableLevel3 {
    type Target = TableLevel2;
}

impl PageHiearchy for TableLevel2 {
    type Target = TableLevel1;
}

/// A table of 512 entries, together with the tables that it leads to.
pub struct PageTable<L: TableLevel> {
    entries: [PageEntry; 512],
    children: Vec<Option<Box<L::Child>>>,
    level: PhantomData<L>,
}

impl<L: TableLevel> View for PageTable<L> {
    type V = Seq<u64>;

    /// The words of the 512 entries.
    closed spec fn view(&self) -> Seq<u64> {
        self.entries@.map_values(|e: PageEntry| e@)
    }
}

/// The words of a table that maps nothing.
pub open spec fn zero_words() -> Seq<u64> {
    Seq::new(512, |i: int| 0u64)
}

impl<L: TableLevel> PageTable<L> {
    #[verifier::type_invariant]
    spec fn sized(self) -> bool {
        self.children@.len() == 512
    }

    /// What each of the 512 entries leads to, whatever the entry says.
    pub closed spec fn children(&self) -> Seq<Option<L::Child>> {
        self.children@.map_values(
            |c: Option<Box<L::Child>>|
                match c {
                    Some(b) => Some(*b),
                    None => None,
                },
        )
    }

    /// Whether the table maps nothing and leads nowhere.
    pub open spec fn is_zero(&self) -> bool {
        self@ == zero_words() && self.children() == Seq::new(512, |i: int| None::<L::Child>)
    }

    /// A table that maps nothing and leads nowhere.
    pub fn new() -> (table: Self)
        ensures
            table.is_zero(),
    {
        let entries: [PageEntry; 512] = [PageEntry::unused();512];
        let mut children: Vec<Option<Box<L::Child>>> = Vec::new();
        let mut k: usize = 0;
        while k < 512
            invariant
                k <= 512,
                children@.len() == k,
                forall|i: int| 0 <= i < k ==> (#[trigger] children@[i]) is None,
            decreases 512 - k,
        {
            children.push(None);
            k += 1;
        }
        let table = PageTable { entries, children, level: PhantomData };
        assert(table@ =~= zero_words());
        assert(table.children() =~= Seq::new(512, |i: int| None::<L::Child>));
        table
    }

    /// Makes every entry unused and drops the tables that the entries led
    /// to.
    pub fn zero(&mut self) -> (table: &mut Self)
        ensures
            table.is_zero(),
            *final(self) == *final(table),
    {
        let fresh: PageTable<L> = PageTable::new();
        *self = fresh;
        self
    }

    /// Number of entries of the table: 512, for every table.
    pub fn len(&self) -> (n: usize)
        ensures
            n == 512,
            self@.len() == 512,
            self.children().len() == 512,
    {
        proof {
            use_type_invariant(self);
        }
        self.entries.len()
    }

    /// The entry at `index`.
    pub fn index(&self, index: usize) -> (entry: &PageEntry)
        requires
            index < 512,
        ensures
            entry@ == self@[index as int],
            self@.len() == 512,
            self.children().len() == 512,
    {
        proof {
            use_type_invariant(self);
        }
        &self.entries[index]
    }

    /// Whether the table holds a table behind the entry at `index`,
    /// whatever the entry says.
    pub fn holds_table(&self, index: usize) -> (holds: bool)
        requires
            index < 512,
        ensures
            holds == self.children()[index as int] is Some,
            self@.len() == 512,
            self.children().len() == 512,
    {
        proof {
            use_type_invariant(self);
        }
        self.children[index].is_some()
    }

    /// The entry at `index`, to be changed in place.
    pub fn index_mut(&mut self, index: usize) -> (entry: &mut PageEntry)
        requires
            index < 512,
        ensures
            entry@ == old(self)@[index as int],
            old(self)@.len() == 512,
            old(self).children().len() == 512,
            final(self)@ =~= old(self)@.update(index as int, final(entry)@),
            final(self).children() =~= old(self).children(),
    {
        proof {
            use_type_invariant(&*self);
        }
        entry_at(&mut self.entries, index)
    }
}

/// The entry at `index` of the 512 entries, to be changed in place.
fn entry_at(entries: &mut [PageEntry; 512], index: usize) -> (entry: &mut PageEntry)
    requires
        index < 512,
    ensures
        *entry == old(entries)@[index as int],
        final(entries)@ == old(entries)@.update(index as int, *final(entry)),
    no_unwind
{
    &mut entries[index]
}

/// Whether an entry with this word leads to a table: it is present and maps
/// no huge page.
pub open spec fn leads_on(word: u64) -> bool {
    word_present(word) && !word_huge(word)
}

/// How a table changes when the table behind its entry at `index` is handed
/// out for editing, created first where the entry was free.
///
/// `start` is the table behind the entry as it is handed out: the one that
/// was there, or a table that maps nothing. `end` is that table once the
/// editing is over. Of `before` only the entry at `index` may differ in
/// `after`, and only where it was free: it then leads on. Behind it stands
/// `end`; what the other entries lead to stays.
pub open spec fn descends<H: PageHiearchy>(
    before: PageTable<H>,
    after: PageTable<H>,
    index: int,
    start: PageTable<H::Target>,
    end: PageTable<H::Target>,
) -> bool {
    &&& before@.len() == 512
    &&& before.children().len() == 512
    &&& before.blocked(index) is None
    &&& match before.next_level_spec(index) {
        Some(o) => start == o && after@ == before@,
        None => start.is_zero() && after@ =~= before@.update(index, after@[index]),
    }
    &&& leads_on(after@[index])
    &&& after.children() =~= before.children().update(index, Some(end))
}

/// Whether two tables have the same entries and lead to the same tables.
pub open spec fn kept<L: TableLevel>(before: PageTable<L>, after: PageTable<L>) -> bool {
    after@ =~= before@ && after.children() =~= before.children()
}

/// Whether the answer of a frame source can hold a new table: it is a
/// frame, and one that fits into an entry.
pub open spec fn usable_frame(answer: Option<PhysicalFrame>) -> bool {
    answer matches Some(f) && f@ < 0x100_0000_0000
}

/// The refusal that an answer which cannot hold a new table leads to.
pub open spec fn frame_refusal(answer: Option<PhysicalFrame>) -> PagingError {
    if answer is None {
        PagingError::OutOfMemory
    } else {
        PagingError::FrameOutOfRange
    }
}

impl<H: PageHiearchy> PageTable<H> {
    /// The table that the entry at `index` leads to: the one that this
    /// table holds there, provided that the entry is present and maps no
    /// huge page.
    pub open spec fn next_level_spec(&self, index: int) -> Option<PageTable<H::Target>> {
        if leads_on(self@[index]) {
            self.children()[index]
        } else {
            None
        }
    }

    /// What `next_level_create` does at `index` before it asks for a frame:
    /// the refusal, if there is one.
    pub open spec fn blocked(&self, index: int) -> Option<PagingError> {
        if self.next_level_spec(index) is Some {
            None
        } else if self@[index] & HUGEPAGE == HUGEPAGE {
            Some(PagingError::HugePage)
        } else if word_present(self@[index]) {
            Some(PagingError::EntryInUse)
        } else {
            None
        }
    }

    /// The virtual address at which the table behind the entry at `index`
    /// is found when this table itself is found at `table_address` through
    /// the recursive entry of the active root table; nothing where the
    /// entry leads to no table.
    pub fn next_level_addr(&self, table_address: u64, index: u64) -> (address: Option<u64>)
        requires
            index < 512,
        ensures
            address is Some == leads_on(self@[index as int]),
            address matches Some(a) ==> a == (table_address << 9) | (index << 12),
    {
        let word: u64 = self.index(index as usize).word();
        if word & PRESENT == PRESENT && word & HUGEPAGE != HUGEPAGE {
            Some((table_address << 9) | (index << 12))
        } else {
            None
        }
    }

    /// The table that the entry at `index` leads to.
    pub fn next_level(&self, index: u64) -> (table: Option<&PageTable<H::Target>>)
        requires
            index < 512,
        ensures
            table is Some == self.next_level_spec(index as int) is Some,
            table matches Some(t) ==> *t == self.next_level_spec(index as int).unwrap(),
    {
        proof {
            use_type_invariant(self);
        }
        let word: u64 = self.index(index as usize).word();
        if word & PRESENT == PRESENT && word & HUGEPAGE != HUGEPAGE {
            match &self.children[index as usize] {
                Some(b) => Some(&**b),
                None => None,
            }
        } else {
            None
        }
    }

    /// The table that the entry at `index` leads to, to be changed in
    /// place.
    pub fn next_level_mut(&mut self, index: u64) -> (table: Option<&mut PageTable<H::Target>>)
        requires
            index < 512,
        ensures
            table is Some == old(self).next_level_spec(index as int) is Some,
            old(self)@.len() == 512,
            table is None ==> kept(*old(self), *final(self)),
            table matches Some(t) ==> descends(*old(self), *final(self), index as int, *t, *final(t)),
    {
        proof {
            use_type_invariant(&*self);
        }
        let word: u64 = self.index(index as usize).word();
        if word & PRESENT == PRESENT && word & HUGEPAGE != HUGEPAGE {
            match &mut self.children[index as usize] {
                Some(b) => Some(&mut **b),
                None => None,
            }
        } else {
            None
        }
    }

    /// Puts a new table behind the entry at `index`, in the frame that a
    /// frame source gave for it. The entry gets `frame` with `PRESENT` and
    /// `WRITABLE`; the new table maps nothing.
    ///
    /// Without a frame nothing changes and the result is `OutOfMemory`; a
    /// frame that does not fit into an entry is refused with
    /// `FrameOutOfRange`.
    pub fn install(&mut self, index: u64, frame: Option<PhysicalFrame>) -> (table: Result<
        &mut PageTable<H::Target>,
        PagingError,
    >)
        requires
            index < 512,
        ensures
            match table {
                Ok(t) => {
                    &&& frame is Some && frame.unwrap()@ < 0x100_0000_0000
                    &&& t.is_zero()
                    &&& final(self)@ =~= old(self)@.update(
                        index as int,
                        (frame.unwrap()@ * 4096) as u64 | PRESENT | WRITABLE,
                    )
                    &&& leads_on(final(self)@[index as int])
                    &&& word_frame(final(self)@[index as int]) == frame.unwrap()@
                    &&& final(self).children() =~= old(self).children().update(index as int, Some(*final(t)))
                },
                Err(e) => {
                    &&& *final(self) == *old(self)
                    &&& e == (if frame is None {
                        PagingError::OutOfMemory
                    } else {
                        PagingError::FrameOutOfRange
                    })
                    &&& frame matches Some(f) ==> f@ >= 0x100_0000_0000
                },
            },
    {
        proof {
            use_type_invariant(&*self);
        }
        let frame = match frame {
            None => {
                return Err(PagingError::OutOfMemory);
            },
            Some(frame) => frame,
        };
        let flags = EntryFlags::from_bits_truncate(PRESENT | WRITABLE);
        assert((PRESENT | WRITABLE) & super::entry::FLAGS_MASK == PRESENT | WRITABLE) by (bit_vector);
        assert((PRESENT | WRITABLE) & PRESENT == PRESENT) by (bit_vector);
        assert((PRESENT | WRITABLE) & HUGEPAGE != HUGEPAGE) by (bit_vector);
        let mut entry = self.entries[index as usize];
        match entry.set(frame, flags) {
            Err(e) => {
                return Err(e);
            },
            Ok(()) => {},
        }
        assert(entry@ == (frame@ * 4096) as u64 | (PRESENT | WRITABLE));
        let ghost start: u64 = (frame@ * 4096) as u64;
        assert(start | (PRESENT | WRITABLE) == start | PRESENT | WRITABLE) by (bit_vector);
        self.entries[index as usize] = entry;
        let fresh: PageTable<H::Target> = PageTable::new();
        self.children[index as usize] = Some(Box::new(fresh));
        match &mut self.children[index as usize] {
            Some(b) => Ok(&mut **b),
            None => Err(PagingError::OutOfMemory),
        }
    }

    /// The table that the entry at `index` leads to; where the entry is
    /// free, a new table in a frame drawn from `allocator`.
    ///
    /// An entry that maps a huge page is refused with `HugePage`, and one
    /// that is present without leading to a table of this tree with
    /// `EntryInUse`; the frame source is asked only where the entry is
    /// free, and then once. Its answer decides as `install` says: a frame
    /// that fits into an entry gets the new table, any other answer is
    /// refused and nothing changes.
    pub fn next_level_create<A: FrameAlloc>(&mut self, index: u64, allocator: &mut A) -> (table: Result<
        &mut PageTable<H::Target>,
        PagingError,
    >)
        requires
            index < 512,
        ensures
            old(self).next_level_spec(index as int) is Some ==> table is Ok && *final(allocator) == *old(
                allocator,
            ),
            old(self).blocked(index as int) matches Some(e) ==> table == Err::<
                &mut PageTable<H::Target>,
                PagingError,
            >(e) && *final(allocator) == *old(allocator),
            match table {
                Ok(t) => descends(*old(self), *final(self), index as int, *t, *final(t)),
                Err(e) => {
                    &&& *final(self) == *old(self)
                    &&& old(self).next_level_spec(index as int) is None
                    &&& old(self).blocked(index as int) is None ==> e == PagingError::OutOfMemory || e
                        == PagingError::FrameOutOfRange
                },
            },
            old(self).next_level_spec(index as int) is None && old(self).blocked(index as int) is None ==> {
                &&& drawn(*old(allocator), *final(allocator), 1)
                &&& table is Ok == usable_frame(old(allocator).answer(0))
                &&& table matches Err(e) ==> e == frame_refusal(old(allocator).answer(0))
                &&& table is Ok ==> final(self)@[index as int] == (old(allocator).answer(0).unwrap()@ * 4096) as u64
                    | PRESENT | WRITABLE
            },
    {
        let word: u64 = self.index(index as usize).word();
        if self.next_level(index).is_some() {
            return match self.next_level_mut(index) {
                Some(t) => Ok(t),
                None => Err(PagingError::EntryInUse),
            };
        }
        if word & HUGEPAGE == HUGEPAGE {
            return Err(PagingError::HugePage);
        }
        if word & PRESENT == PRESENT {
            return Err(PagingError::EntryInUse);
        }
        let frame = allocator.allocate_frame();
        self.install(index, frame)
    }
}

} // verus!
