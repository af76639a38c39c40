//! One page that is set aside for reaching a frame for a short while.
use vstd::prelude::*;
use super::entry::{EntryFlags, WRITABLE};
use super::mapper::{
    frames_result, map_draws, map_outcome, map_refusal, p1_of, resolve, table_words, unmap_outcome,
    ActivePageTable,
};
use super::{Page, PagingError};
use super::super::frames::tiny_alloc::{first_empty, TinyAlloc};
use super::super::frames::{drawn, FrameAlloc, FrameError, PhysicalFrame};
use super::super::VirtualAddress;

verus! {

/// A page that is mapped for as long as a frame has to be reached through
/// it. The tables that the mapping needs come from a pool of its own, so
/// that mapping the page never goes back to the general frame source.
pub struct TemporaryPage {
    page: Page,
    allocator: TinyAlloc,
}

impl TemporaryPage {
    /// The page that is set aside.
    pub closed spec fn page(&self) -> Page {
        self.page
    }

    /// The slots of the pool.
    pub closed spec fn pool(&self) -> Seq<Option<PhysicalFrame>> {
        self.allocator@
    }

    /// The pool as a frame source.
    pub closed spec fn source(&self) -> TinyAlloc {
        self.allocator
    }

    /// The slots of the pool are those of the pool as a frame source.
    pub proof fn lemma_source(&self)
        ensures
            self.source()@ == self.pool(),
    {
    }

    /// The page that is set aside.
    pub fn page_number(&self) -> (page: Page)
        ensures
            page == self.page(),
    {
        self.page
    }

    /// Sets `page` aside and fills the pool with three calls of
    /// `allocator`, one slot per call in order.
    pub fn new<A: FrameAlloc>(page: Page, allocator: &mut A) -> (temporary: Self)
        ensures
            temporary.page() == page,
            temporary.pool() == seq![
                old(allocator).answer(0),
                old(allocator).answer(1),
                old(allocator).answer(2),
            ],
            drawn(*old(allocator), *final(allocator), 3),
    {
        TemporaryPage { page, allocator: TinyAlloc::new(allocator) }
    }

    /// Maps the page to `frame`, writable, in `active_table`, and returns
    /// the address of the page.
    ///
    /// A page that already translates to a frame is refused with
    /// `TemporaryPageInUse`. Apart from that the result is that of
    /// mapping the page with the pool as the frame source: each missing
    /// table takes the next frame of the pool.
    pub fn map(&mut self, frame: PhysicalFrame, active_table: &mut ActivePageTable) -> (r: Result<
        VirtualAddress,
        PagingError,
    >)
        ensures
            final(self).page() == old(self).page(),
            final(active_table).frame() == old(active_table).frame(),
            match resolve(old(active_table).root(), old(self).page()@) {
                Err(e) => r == Err::<VirtualAddress, PagingError>(e) && final(active_table).root() == old(
                    active_table,
                ).root() && final(self).source() == old(self).source(),
                Ok(Some(_)) => r == Err::<VirtualAddress, PagingError>(PagingError::TemporaryPageInUse)
                    && final(active_table).root() == old(active_table).root() && final(self).source()
                    == old(self).source(),
                Ok(None) => {
                    &&& map_outcome(
                        old(active_table).root(),
                        final(active_table).root(),
                        old(self).page()@,
                        frame@,
                        WRITABLE,
                        match r {
                            Ok(_) => Ok(()),
                            Err(e) => Err(e),
                        },
                    )
                    &&& r matches Ok(address) ==> address == old(self).page()@ * 4096
                    &&& map_refusal(old(active_table).root(), old(self).page()@, frame@) is None ==> map_draws(
                        old(active_table).root(),
                        old(self).page()@,
                        frame@,
                        old(self).source(),
                        final(self).source(),
                        match r {
                            Ok(_) => Ok(()),
                            Err(e) => Err(e),
                        },
                    )
                    &&& map_refusal(old(active_table).root(), old(self).page()@, frame@) is Some
                        ==> final(self).source() == old(self).source()
                    &&& r is Ok ==> table_words(
                        old(active_table).root(),
                        final(active_table).root(),
                        old(self).page()@,
                        old(self).source(),
                    )
                },
            },
    {
        match active_table.translate_page(self.page) {
            Err(e) => {
                return Err(e);
            },
            Ok(Some(_)) => {
                return Err(PagingError::TemporaryPageInUse);
            },
            Ok(None) => {},
        }
        let flags = EntryFlags::from_bits_truncate(WRITABLE);
        assert(WRITABLE & super::entry::FLAGS_MASK == WRITABLE) by (bit_vector);
        active_table.map_to(self.page, frame, flags, &mut self.allocator)?;
        Ok(self.page.start_address())
    }

    /// Unmaps the page in `active_table`; the frame goes to the pool.
    ///
    /// What unmapping the page refuses is refused here, and the pool stays
    /// as it is. Otherwise the frame that the page was mapped to goes into
    /// the first empty slot of the pool; a pool without an empty slot
    /// refuses it with `Frames`, the page being unmapped all the same.
    pub fn unmap(&mut self, active_table: &mut ActivePageTable) -> (r: Result<(), PagingError>)
        ensures
            final(self).page() == old(self).page(),
            final(active_table).frame() == old(active_table).frame(),
            unmap_outcome(old(active_table).root(), final(active_table).root(), old(self).page()@, r),
            resolve(old(active_table).root(), old(self).page()@) is Ok && resolve(
                old(active_table).root(),
                old(self).page()@,
            ).unwrap() is Some && p1_of(old(active_table).root(), old(self).page()@) is Some ==> r
                == frames_result(
                old(self).source().takes(
                    0,
                    PhysicalFrame::of(resolve(old(active_table).root(), old(self).page()@).unwrap().unwrap()),
                ),
            ),
            resolve(old(active_table).root(), old(self).page()@) is Ok && resolve(
                old(active_table).root(),
                old(self).page()@,
            ).unwrap() is Some && p1_of(old(active_table).root(), old(self).page()@) is Some ==> forall|n: u128| #[trigger]
                final(self).source().answer(n) == old(self).source().answer_after(
                    0,
                    PhysicalFrame::of(resolve(old(active_table).root(), old(self).page()@).unwrap().unwrap()),
                    n,
                ),
            match resolve(old(active_table).root(), old(self).page()@) {
                Ok(Some(n)) => if p1_of(old(active_table).root(), old(self).page()@) is Some {
                    let slot = first_empty(old(self).pool(), 0);
                    if slot < 3 {
                        &&& r is Ok
                        &&& final(self).pool().len() == 3
                        &&& final(self).pool()[slot] matches Some(frame) && frame@ == n
                        &&& forall|i: int|
                            0 <= i < 3 && i != slot ==> final(self).pool()[i] == old(self).pool()[i]
                    } else {
                        r == Err::<(), PagingError>(PagingError::Frames(FrameError::PoolFull))
                            && final(self).pool() == old(self).pool()
                    }
                } else {
                    final(self).pool() == old(self).pool()
                },
                _ => final(self).pool() == old(self).pool(),
            },
    {
        let frame = match active_table.unmap_page(self.page) {
            Err(e) => {
                return Err(e);
            },
            Ok(frame) => frame,
        };
        proof {
            PhysicalFrame::lemma_of(frame, 0);
        }
        match self.allocator.deallocate_frame(frame) {
            Ok(()) => Ok(()),
            Err(e) => Err(PagingError::Frames(e)),
        }
    }
}

} // verus!
