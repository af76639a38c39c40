//! An address space that is not in force yet.
use vstd::prelude::*;
use super::entry::{EntryFlags, PRESENT, WRITABLE};
use super::mapper::{
    first_unusable, frames_result, leaf_word, lemma_only_slot, lemma_unmapped, map_draws, map_outcome, map_refusal, mapping,
    missing_tables, only_slot, resolve, same_everywhere, unmap_outcome, ActivePageTable,
};
use super::tables::{frame_refusal, usable_frame, zero_words, PageTable, TableLevel3, TableLevel4};
use super::temporary::TemporaryPage;
use super::PagingError;
use super::super::frames::tiny_alloc::{
    full_after, first_empty, lemma_first_slots, lemma_refilled_full, nth_full, refilled, takes_second, TinyAlloc,
};
use super::super::frames::{drawn, FrameAlloc, FrameError, PhysicalFrame};

verus! {

/// Index of the entry of a root table that points back at the table itself.
pub const RECURSIVE_INDEX: usize = 511;

/// The word of an entry that holds frame `frame` with `PRESENT` and
/// `WRITABLE`.
pub open spec fn table_word(frame: int) -> u64 {
    (frame * 4096) as u64 | (PRESENT | WRITABLE)
}

/// Index of the first of the `count` frames drawn next from a pool with
/// these slots that cannot hold a new table, or `count` where each of them
/// can; `count` is at most three.
pub open spec fn first_unusable_slot(slots: Seq<Option<PhysicalFrame>>, count: int) -> int {
    if count >= 1 && !usable_frame(nth_full(slots, 0, 0)) {
        0
    } else if count >= 2 && !usable_frame(nth_full(slots, 0, 1)) {
        1
    } else if count >= 3 && !usable_frame(nth_full(slots, 0, 2)) {
        2
    } else {
        count
    }
}

/// The refusal with which no new address space comes about in frame
/// `frame`, where one is to be written through page `page` of the address
/// space `root` with a pool of these slots.
///
/// The page must translate to nothing and must be mappable to the frame.
/// Each table that is missing on the way to the page takes the next frame
/// of the pool, and the pool must have a frame that fits for each. In the
/// end the pool must have an empty slot for the frame.
pub open spec fn new_refusal(
    root: PageTable<TableLevel4>,
    page: int,
    frame: int,
    slots: Seq<Option<PhysicalFrame>>,
) -> Option<PagingError> {
    match resolve(root, page) {
        Err(e) => Some(e),
        Ok(Some(_)) => Some(PagingError::TemporaryPageInUse),
        Ok(None) => if map_refusal(root, page, frame) is Some {
            map_refusal(root, page, frame)
        } else {
            let count = missing_tables(root, page);
            let stop = first_unusable_slot(slots, count);
            if stop < count {
                Some(frame_refusal(nth_full(slots, 0, stop)))
            } else if frame >= 0x100_0000_0000 {
                Some(PagingError::FrameOutOfRange)
            } else if full_after(slots, count) {
                Some(PagingError::Frames(FrameError::PoolFull))
            } else {
                None
            }
        },
    }
}

/// What holds where the temporary page could not be mapped to the frame
/// of a new address space: the refusal is that of `new_refusal`.
pub proof fn lemma_new_refused(
    before: PageTable<TableLevel4>,
    mapped: PageTable<TableLevel4>,
    page: int,
    frame: int,
    pool: TinyAlloc,
    drained: TinyAlloc,
    r: Result<(), PagingError>,
)
    requires
        r is Err,
        match resolve(before, page) {
            Err(e) => r == Err::<(), PagingError>(e) && mapped == before,
            Ok(Some(_)) => r == Err::<(), PagingError>(PagingError::TemporaryPageInUse) && mapped == before,
            Ok(None) => {
                &&& map_outcome(before, mapped, page, frame, WRITABLE, r)
                &&& map_refusal(before, page, frame) is None ==> map_draws(before, page, frame, pool, drained, r)
            },
        },
    ensures
        new_refusal(before, page, frame, pool@) == Some(r->Err_0),
        same_everywhere(before, mapped),
        only_slot(before, mapped, super::p4_index_of(page)),
{
}

/// What holds once the temporary page was mapped to the frame of a new
/// address space and unmapped again: the pool decides as `new_refusal`
/// says, and the address space in force translates as before.
pub proof fn lemma_new_done(
    before: PageTable<TableLevel4>,
    mapped: PageTable<TableLevel4>,
    after: PageTable<TableLevel4>,
    page: int,
    frame: int,
    pool: TinyAlloc,
    drained: TinyAlloc,
    r: Result<(), PagingError>,
)
    requires
        super::canonical_page(page),
        0 <= frame,
        resolve(before, page) == Ok::<Option<int>, PagingError>(None),
        map_outcome(before, mapped, page, frame, WRITABLE, Ok(())),
        map_refusal(before, page, frame) is None,
        map_draws(before, page, frame, pool, drained, Ok(())),
        unmap_outcome(mapped, after, page, r),
        r == frames_result(drained.takes(0, PhysicalFrame::of(frame))),
    ensures
        frame < 0x100_0000_0000,
        r is Ok == (new_refusal(before, page, frame, pool@) is None),
        r matches Err(e) ==> new_refusal(before, page, frame, pool@) == Some(e),
        same_everywhere(before, after),
        only_slot(before, after, super::p4_index_of(page)),
        leaf_word(after, page) == Some(0u64),
{
    let some = PhysicalFrame::of(frame);
    let count = missing_tables(before, page);
    assert(drained.takes(0, some) == pool.takes(count as u128, some));
    assert(pool.answer(0) == nth_full(pool@, 0, 0));
    assert(pool.answer(1) == nth_full(pool@, 0, 1));
    assert(pool.answer(2) == nth_full(pool@, 0, 2));
    assert(first_unusable(pool, count) == first_unusable_slot(pool@, count));
    assert(first_unusable(pool, count) >= count);
    assert(drawn(pool, drained, count));
    lemma_unmapped(before, page);
    lemma_unmapped(after, page);
    assert(resolve(mapped, page) == Ok::<Option<int>, PagingError>(Some(frame)));
    assert(leaf_word(mapped, page) is Some);
    lemma_only_slot(before, mapped, after, super::p4_index_of(page));
    assert forall|q: int| super::canonical_page(q) implies #[trigger] resolve(after, q) == resolve(before, q)
        && mapping(after, q) == mapping(before, q) by {
        if q != page {
            assert(resolve(after, q) == resolve(mapped, q) && mapping(after, q) == mapping(mapped, q));
            assert(resolve(mapped, q) == resolve(before, q) && mapping(mapped, q) == mapping(before, q));
        }
    }
}

/// An address space that is not in force: its root table, and the frame
/// that the root table belongs in.
pub struct InactivePageTable {
    /// The frame of the root table.
    pub p4_frame: PhysicalFrame,
    table: PageTable<TableLevel4>,
}

impl InactivePageTable {
    /// The root table.
    pub closed spec fn root(&self) -> PageTable<TableLevel4> {
        self.table
    }

    /// The frame of the root table: the field `p4_frame`.
    pub closed spec fn frame(&self) -> PhysicalFrame {
        self.p4_frame
    }

    /// A new address space with its root table in `frame`. The root table
    /// maps nothing; its last entry points back at `frame`.
    ///
    /// The frame is made reachable through `temp_page` while the table is
    /// written, as editing a frame that is not mapped demands, and is
    /// unmapped again: `active_table` translates every page as before.
    /// What the mapping and the unmapping of the temporary page refuse is
    /// refused here too, see [`new_refusal`].
    #[verifier::rlimit(30)]
    pub fn new(frame: PhysicalFrame, active_table: &mut ActivePageTable, temp_page: &mut TemporaryPage) -> (r:
        Result<Self, PagingError>)
        ensures
            final(active_table).frame() == old(active_table).frame(),
            final(temp_page).page() == old(temp_page).page(),
            same_everywhere(old(active_table).root(), final(active_table).root()),
            only_slot(
                old(active_table).root(),
                final(active_table).root(),
                super::p4_index_of(old(temp_page).page()@),
            ),
            r is Ok == (new_refusal(
                old(active_table).root(),
                old(temp_page).page()@,
                frame@,
                old(temp_page).pool(),
            ) is None),
            r matches Err(e) ==> new_refusal(
                old(active_table).root(),
                old(temp_page).page()@,
                frame@,
                old(temp_page).pool(),
            ) == Some(e),
            r matches Ok(table) ==> {
                &&& table.frame() == frame
                &&& table.root()@ =~= zero_words().update(RECURSIVE_INDEX as int, table_word(frame@))
                &&& table.root().children() =~= Seq::new(512, |i: int| None::<PageTable<TableLevel3>>)
                &&& leaf_word(final(active_table).root(), old(temp_page).page()@) == Some(0u64)
                &&& forall|other: PhysicalFrame| #[trigger]
                    final(temp_page).source().takes(0, other) == takes_second(
                        old(temp_page).pool(),
                        missing_tables(old(active_table).root(), old(temp_page).page()@),
                    )
                &&& forall|n: u128| #[trigger]
                    final(temp_page).source().answer(n) == old(temp_page).source().answer_after(
                        missing_tables(old(active_table).root(), old(temp_page).page()@) as u128,
                        frame,
                        n,
                    )
            },
    {
        let ghost before = active_table.root();
        let ghost page = temp_page.page()@;
        let ghost pool = temp_page.source();
        proof {
            temp_page.lemma_source();
        }
        let mapping_done = temp_page.map(frame, active_table);
        let ghost mapped = active_table.root();
        let ghost drained = temp_page.source();
        let ghost first: Result<(), PagingError> = match mapping_done {
            Ok(_) => Ok(()),
            Err(e) => Err(e),
        };
        match mapping_done {
            Err(e) => {
                proof {
                    lemma_new_refused(before, mapped, page, frame@, pool, drained, first);
                }
                return Err(e);
            },
            Ok(_) => {},
        }
        let mut table: PageTable<TableLevel4> = PageTable::new();
        let flags = EntryFlags::from_bits_truncate(PRESENT | WRITABLE);
        assert((PRESENT | WRITABLE) & super::entry::FLAGS_MASK == PRESENT | WRITABLE) by (bit_vector);
        let written = table.index_mut(RECURSIVE_INDEX).set(frame, flags);
        proof {
            PhysicalFrame::lemma_of(frame, 0);
        }
        proof {
            temp_page.lemma_source();
        }
        let unmapped = temp_page.unmap(active_table);
        proof {
            lemma_new_done(before, mapped, active_table.root(), page, frame@, pool, drained, unmapped);
            if unmapped is Ok {
                let refill = temp_page.source();
                let slot = first_empty(drained@, 0);
                temp_page.lemma_source();
                drained.lemma_pool(0);
                refill.lemma_pool(0);
                lemma_first_slots(drained@, 0);
                assert(drained.answer(1) == pool.answer((1 + missing_tables(before, page)) as u128));
                assert(resolve(mapped, page) == Ok::<Option<int>, PagingError>(Some(frame@)));
                assert(leaf_word(mapped, page) is Some);
                assert(refill@ =~= refilled(drained@, refill@[slot].unwrap()));
                lemma_refilled_full(drained@, refill@[slot].unwrap());
                assert forall|n: u128| #[trigger]
                    refill.answer(n) == pool.answer_after(missing_tables(before, page) as u128, frame, n) by {
                    assert(refill.answer(n) == drained.answer_after(0, frame, n));
                }
            }
        }
        match written {
            Err(e) => Err(e),
            Ok(()) => match unmapped {
                Err(e) => Err(e),
                Ok(()) => Ok(InactivePageTable { p4_frame: frame, table }),
            },
        }
    }

    /// The frame of the root table.
    pub fn p4_frame(&self) -> (frame: PhysicalFrame)
        ensures
            frame == self.frame(),
    {
        self.p4_frame
    }

    /// The root table.
    pub fn table(&self) -> (table: &PageTable<TableLevel4>)
        ensures
            *table == self.root(),
    {
        &self.table
    }

    /// The root table, to be changed in place.
    pub(crate) fn table_mut(&mut self) -> (table: &mut PageTable<TableLevel4>)
        ensures
            *table == old(self).root(),
            final(self).root() == *final(table),
            final(self).frame() == old(self).frame(),
    {
        &mut self.table
    }

    /// The address space with root table `table` in frame `p4_frame`.
    pub(crate) fn from_parts(p4_frame: PhysicalFrame, table: PageTable<TableLevel4>) -> (r: Self)
        ensures
            r.frame() == p4_frame,
            r.root() == table,
    {
        InactivePageTable { p4_frame, table }
    }

    /// Takes the address space apart into its frame and its root table.
    pub(crate) fn into_parts(self) -> (r: (PhysicalFrame, PageTable<TableLevel4>))
        ensures
            r.0 == self.frame(),
            r.1 == self.root(),
    {
        (self.p4_frame, self.table)
    }
}

} // verus!
