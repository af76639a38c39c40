//! Mapping, unmapping and translating pages in one address space.
use vstd::prelude::*;
use super::entry::{
    word_frame, word_huge, word_present, EntryFlags, PageEntry, FLAGS_MASK, HUGEPAGE, PRESENT,
    WRITABLE,
};
use super::inactive::{table_word, InactivePageTable, RECURSIVE_INDEX};
use super::temporary::TemporaryPage;
use super::tables::{
    descends, frame_refusal, kept, usable_frame, PageTable, TableLevel1, TableLevel2, TableLevel3,
    TableLevel4,
};
use super::{
    canonical_page, lemma_indices_determine_page, p1_index_of, p2_index_of, p3_index_of, p4_index_of,
    Page, PagingError,
};
use super::super::frames::tiny_alloc::TinyAlloc;
use super::super::frames::{drawn, lemma_drawn_add, FrameAlloc, FrameError, PhysicalFrame, PAGE_SIZE};
use super::super::{PhysicalAddress, VirtualAddress};

verus! {

/// The level-3 table on the way to page `page`.
pub open spec fn p3_of(root: PageTable<TableLevel4>, page: int) -> Option<PageTable<TableLevel3>> {
    root.next_level_spec(p4_index_of(page))
}

/// The level-2 table on the way to page `page`.
pub open spec fn p2_of(root: PageTable<TableLevel4>, page: int) -> Option<PageTable<TableLevel2>> {
    match p3_of(root, page) {
        Some(p3) => p3.next_level_spec(p3_index_of(page)),
        None => None,
    }
}

/// The level-1 table that holds the entry of page `page`.
pub open spec fn p1_of(root: PageTable<TableLevel4>, page: int) -> Option<PageTable<TableLevel1>> {
    match p2_of(root, page) {
        Some(p2) => p2.next_level_spec(p2_index_of(page)),
        None => None,
    }
}

/// The word of the level-1 entry of page `page`, where the tables on the
/// way to it exist.
pub open spec fn leaf_word(root: PageTable<TableLevel4>, page: int) -> Option<u64> {
    match p1_of(root, page) {
        Some(p1) => Some(p1@[p1_index_of(page)]),
        None => None,
    }
}

/// The word of the level-1 entry that maps page `page`: the entry of the
/// page, where it exists and is present.
pub open spec fn mapping(root: PageTable<TableLevel4>, page: int) -> Option<u64> {
    match leaf_word(root, page) {
        Some(w) => if word_present(w) {
            Some(w)
        } else {
            None
        },
        None => None,
    }
}

/// What a huge-page entry `word` translates a page to whose index below
/// the entry is `offset`, where the huge page spans `span` frames.
pub open spec fn resolve_huge(word: u64, span: int, offset: int) -> Result<Option<int>, PagingError> {
    if word_frame(word) % span == 0 {
        Ok(Some(word_frame(word) + offset))
    } else {
        Err(PagingError::MisalignedHugePage)
    }
}

/// The number of the frame that page `page` is mapped to.
///
/// The walk goes from the root down. A present huge-page entry in the
/// level-3 or level-2 table ends it: the frame is the entry's frame plus
/// the indices below that level, and the entry's frame must be a multiple
/// of the span of the huge page. Otherwise the level-1 entry decides, if
/// the walk gets there and the entry is present.
#[verifier::opaque]
pub open spec fn resolve(root: PageTable<TableLevel4>, page: int) -> Result<Option<int>, PagingError> {
    match p3_of(root, page) {
        None => Ok(None),
        Some(p3) => {
            let w3 = p3@[p3_index_of(page)];
            if word_present(w3) && word_huge(w3) {
                resolve_huge(w3, 0x4_0000, p2_index_of(page) * 512 + p1_index_of(page))
            } else {
                match p3.next_level_spec(p3_index_of(page)) {
                    None => Ok(None),
                    Some(p2) => {
                        let w2 = p2@[p2_index_of(page)];
                        if word_present(w2) && word_huge(w2) {
                            resolve_huge(w2, 512, p1_index_of(page))
                        } else {
                            match p2.next_level_spec(p2_index_of(page)) {
                                None => Ok(None),
                                Some(p1) => {
                                    let w1 = p1@[p1_index_of(page)];
                                    if word_present(w1) {
                                        Ok(Some(word_frame(w1)))
                                    } else {
                                        Ok(None)
                                    }
                                },
                            }
                        }
                    },
                }
            }
        },
    }
}

/// The physical address that `address` is mapped to: the byte at the same
/// offset in the frame of its page.
pub open spec fn translate_spec(root: PageTable<TableLevel4>, address: u64) -> Result<Option<u64>, PagingError> {
    if !canonical_page(address as int / 4096) {
        Err(PagingError::NonCanonicalAddress)
    } else {
        match resolve(root, address as int / 4096) {
            Ok(Some(n)) => Ok(Some((n * 4096 + address as int % 4096) as u64)),
            Ok(None) => Ok(None),
            Err(e) => Err(e),
        }
    }
}

/// A page that is mapped to a frame has its first address translated to the
/// first address of that frame, and a page that is mapped to nothing has
/// its first address translated to nothing.
pub proof fn lemma_translate_page_start(root: PageTable<TableLevel4>, page: int)
    requires
        canonical_page(page),
    ensures
        resolve(root, page) matches Ok(Some(n)) ==> translate_spec(root, (page * 4096) as u64) == Ok::<
            Option<u64>,
            PagingError,
        >(Some((n * 4096) as u64)),
        resolve(root, page) == Ok::<Option<int>, PagingError>(None) ==> translate_spec(
            root,
            (page * 4096) as u64,
        ) == Ok::<Option<u64>, PagingError>(None),
{
}

/// Every page but `page` translates in `after` as it does in `before`, and
/// is mapped by the same level-1 entry.
pub open spec fn same_elsewhere(
    before: PageTable<TableLevel4>,
    after: PageTable<TableLevel4>,
    page: int,
) -> bool {
    forall|q: int|
        canonical_page(q) && q != page ==> #[trigger] resolve(after, q) == resolve(before, q) && mapping(
            after,
            q,
        ) == mapping(before, q)
}

/// Every page translates in `after` as it does in `before`, and is mapped
/// by the same level-1 entry.
pub open spec fn same_everywhere(before: PageTable<TableLevel4>, after: PageTable<TableLevel4>) -> bool {
    forall|q: int|
        canonical_page(q) ==> #[trigger] resolve(after, q) == resolve(before, q) && mapping(after, q)
            == mapping(before, q)
}

/// Of a level-1 table only the entry at `index` may differ in `after`.
pub open spec fn leaf_edited(before: PageTable<TableLevel1>, after: PageTable<TableLevel1>, index: int) -> bool {
    before@.len() == 512 && after@ =~= before@.update(index, after@[index])
}

/// The refusal that the tables alone decide when `page` is to be mapped to
/// frame `frame`, before any frame is drawn for a new table: a huge page or
/// a foreign entry where a table is needed, or, where all three tables
/// exist, a level-1 entry in use or a frame that fits no entry.
pub open spec fn map_refusal(root: PageTable<TableLevel4>, page: int, frame: int) -> Option<PagingError> {
    if root.blocked(p4_index_of(page)) is Some {
        root.blocked(p4_index_of(page))
    } else {
        match p3_of(root, page) {
            None => None,
            Some(p3) => if p3.blocked(p3_index_of(page)) is Some {
                p3.blocked(p3_index_of(page))
            } else {
                match p2_of(root, page) {
                    None => None,
                    Some(p2) => if p2.blocked(p2_index_of(page)) is Some {
                        p2.blocked(p2_index_of(page))
                    } else {
                        match p1_of(root, page) {
                            None => None,
                            Some(p1) => if p1@[p1_index_of(page)] != 0 {
                                Some(PagingError::AlreadyMapped)
                            } else if frame >= 0x100_0000_0000 {
                                Some(PagingError::FrameOutOfRange)
                            } else {
                                None
                            },
                        }
                    },
                }
            },
        }
    }
}

/// Number of tables that are missing on the way to the level-1 entry of
/// page `page`.
pub open spec fn missing_tables(root: PageTable<TableLevel4>, page: int) -> int {
    if p3_of(root, page) is None {
        3
    } else if p2_of(root, page) is None {
        2
    } else if p1_of(root, page) is None {
        1
    } else {
        0
    }
}

/// Index of the first of the next `count` answers of `source` that cannot
/// hold a new table, or `count` where each of them can; `count` is at most
/// three.
pub open spec fn first_unusable<A: FrameAlloc>(source: A, count: int) -> int {
    if count >= 1 && !usable_frame(source.answer(0)) {
        0
    } else if count >= 2 && !usable_frame(source.answer(1)) {
        1
    } else if count >= 3 && !usable_frame(source.answer(2)) {
        2
    } else {
        count
    }
}

/// What mapping `page` to frame `frame` draws from a frame source, and how
/// the answers decide the result, where the tables alone refuse nothing.
///
/// One frame is drawn for each missing table, from the top down. The first
/// answer that cannot hold a table ends the mapping with `OutOfMemory` or
/// `FrameOutOfRange`, and no more is drawn. Where every missing table gets
/// its frame, the page is mapped, unless `frame` itself fits no entry.
pub open spec fn map_draws<A: FrameAlloc>(
    root: PageTable<TableLevel4>,
    page: int,
    frame: int,
    before: A,
    after: A,
    r: Result<(), PagingError>,
) -> bool {
    let count = missing_tables(root, page);
    let stop = first_unusable(before, count);
    if stop < count {
        r == Err::<(), PagingError>(frame_refusal(before.answer(stop as u128))) && drawn(before, after, stop + 1)
    } else {
        &&& drawn(before, after, count)
        &&& r is Ok == (frame < 0x100_0000_0000)
        &&& r matches Err(e) ==> e == PagingError::FrameOutOfRange
    }
}

/// Whether the entries on the way to page `page` are, in `after`, what
/// mapping the page makes of them: an entry that led to a table in
/// `before` is as it was, and an entry whose table was missing holds the
/// frame that `source` handed out for the table, with `PRESENT` and
/// `WRITABLE`. The frames are handed out from the top down.
pub open spec fn table_words<A: FrameAlloc>(
    before: PageTable<TableLevel4>,
    after: PageTable<TableLevel4>,
    page: int,
    source: A,
) -> bool {
    let missing = missing_tables(before, page);
    &&& after@[p4_index_of(page)] == if missing == 3 {
        table_word(source.answer(0).unwrap()@)
    } else {
        before@[p4_index_of(page)]
    }
    &&& p3_of(after, page) matches Some(p3) && p3@[p3_index_of(page)] == if missing >= 2 {
        table_word(source.answer((missing - 2) as u128).unwrap()@)
    } else {
        p3_of(before, page).unwrap()@[p3_index_of(page)]
    }
    &&& p2_of(after, page) matches Some(p2) && p2@[p2_index_of(page)] == if missing >= 1 {
        table_word(source.answer((missing - 1) as u128).unwrap()@)
    } else {
        p2_of(before, page).unwrap()@[p2_index_of(page)]
    }
}

/// What an address space says to mapping, page by page: how many tables
/// are missing on the way to a page, and what its tables alone refuse.
pub struct Paths {
    /// Number of tables missing on the way to a page.
    pub missing: spec_fn(int) -> int,
    /// The refusal that the tables alone decide for a page and a frame.
    pub refusal: spec_fn(int, int) -> Option<PagingError>,
}

/// What the address space `root` says to mapping.
pub open spec fn paths_of(root: PageTable<TableLevel4>) -> Paths {
    Paths { missing: |q: int| missing_tables(root, q), refusal: |q: int, g: int| map_refusal(root, q, g) }
}

/// Number of tables that the ways to the pages `p` and `q` have in common
/// below the root table.
pub open spec fn shared(p: int, q: int) -> int {
    if p4_index_of(p) != p4_index_of(q) {
        0
    } else if p3_index_of(p) != p3_index_of(q) {
        1
    } else if p2_index_of(p) != p2_index_of(q) {
        2
    } else {
        3
    }
}

/// Whether the pages `p` and `q` have the same level-1 entry.
pub open spec fn same_entry(p: int, q: int) -> bool {
    shared(p, q) == 3 && p1_index_of(p) == p1_index_of(q)
}

/// Number of tables missing on the way to page `q` once page `p` is
/// mapped, where `missing` were missing before: the tables on the way to
/// `p` exist now.
pub open spec fn missing_after(missing: int, p: int, q: int) -> int {
    if missing <= 3 - shared(p, q) {
        missing
    } else {
        3 - shared(p, q)
    }
}

/// What an address space says to mapping once page `p` is mapped in it.
///
/// The tables on the way to `p` exist, and the level-1 entry of `p` is in
/// use. What was refused before is refused as before; a frame that fits no
/// entry is refused where no table is missing any more.
pub open spec fn mapped_paths(paths: Paths, p: int) -> Paths {
    Paths {
        missing: |q: int| missing_after((paths.missing)(q), p, q),
        refusal: |q: int, g: int|
            if same_entry(p, q) {
                Some(PagingError::AlreadyMapped)
            } else if (paths.refusal)(q, g) is Some {
                (paths.refusal)(q, g)
            } else if missing_after((paths.missing)(q), p, q) == 0 && g >= 0x100_0000_0000 {
                Some(PagingError::FrameOutOfRange)
            } else {
                None
            },
    }
}

/// Mapping a page changes what the address space says to mapping as
/// `mapped_paths` says.
pub proof fn lemma_mapped_paths(
    r0: PageTable<TableLevel4>,
    r1: PageTable<TableLevel4>,
    a3: PageTable<TableLevel3>,
    b3: PageTable<TableLevel3>,
    a2: PageTable<TableLevel2>,
    b2: PageTable<TableLevel2>,
    a1: PageTable<TableLevel1>,
    b1: PageTable<TableLevel1>,
    page: int,
    q: int,
    g: int,
)
    requires
        descends(r0, r1, p4_index_of(page), a3, b3),
        descends(a3, b3, p3_index_of(page), a2, b2),
        descends(a2, b2, p2_index_of(page), a1, b1),
        leaf_edited(a1, b1, p1_index_of(page)),
        a1@[p1_index_of(page)] == 0,
        b1@[p1_index_of(page)] != 0,
    ensures
        missing_tables(r1, q) == missing_after(missing_tables(r0, q), page, q),
        map_refusal(r1, q, g) == (mapped_paths(paths_of(r0), page).refusal)(q, g),
{
    assert(!word_present(0u64) && !word_huge(0u64) && 0u64 & HUGEPAGE != HUGEPAGE) by (bit_vector);
    let i4 = p4_index_of(page);
    let i3 = p3_index_of(page);
    let i2 = p2_index_of(page);
    let i1 = p1_index_of(page);
    let q4 = p4_index_of(q);
    let q3 = p3_index_of(q);
    let q2 = p2_index_of(q);
    let q1 = p1_index_of(q);
    assert(0 <= q4 < 512 && 0 <= q3 < 512 && 0 <= q2 < 512 && 0 <= q1 < 512);
    if q4 != i4 {
        assert(r1@[q4] == r0@[q4]);
        assert(r1.children()[q4] == r0.children()[q4]);
        assert(r1.next_level_spec(q4) == r0.next_level_spec(q4));
    } else {
        assert(r1.next_level_spec(i4) == Some(b3));
        assert(r0.next_level_spec(i4) is Some ==> r0.next_level_spec(i4) == Some(a3));
        assert(r0.next_level_spec(i4) is None ==> a3.is_zero());
        if q3 != i3 {
            assert(b3@[q3] == a3@[q3]);
            assert(b3.children()[q3] == a3.children()[q3]);
            assert(b3.next_level_spec(q3) == a3.next_level_spec(q3));
        } else {
            assert(b3.next_level_spec(i3) == Some(b2));
            assert(a3.next_level_spec(i3) is Some ==> a3.next_level_spec(i3) == Some(a2));
            assert(a3.next_level_spec(i3) is None ==> a2.is_zero());
            if q2 != i2 {
                assert(b2@[q2] == a2@[q2]);
                assert(b2.children()[q2] == a2.children()[q2]);
                assert(b2.next_level_spec(q2) == a2.next_level_spec(q2));
            } else {
                assert(b2.next_level_spec(i2) == Some(b1));
                assert(a2.next_level_spec(i2) is Some ==> a2.next_level_spec(i2) == Some(a1));
                assert(a2.next_level_spec(i2) is None ==> a1.is_zero());
                if q1 != i1 {
                    assert(b1@[q1] == a1@[q1]);
                }
            }
        }
    }
}

/// Index of the first of `count` answers of `source`, counted from the
/// answer `offset` on, that cannot hold a new table, or `count` where each
/// of them can; `count` is at most three.
pub open spec fn first_unusable_at<A: FrameAlloc>(source: A, offset: int, count: int) -> int {
    if count >= 1 && !usable_frame(source.answer(offset as u128)) {
        0
    } else if count >= 2 && !usable_frame(source.answer((offset + 1) as u128)) {
        1
    } else if count >= 3 && !usable_frame(source.answer((offset + 2) as u128)) {
        2
    } else {
        count
    }
}

/// What mapping a page to a frame returns in an address space that says
/// `paths` to mapping, where the frames for new tables are the answers of
/// `source` from the answer `offset` on.
pub open spec fn map_result<A: FrameAlloc>(paths: Paths, page: int, frame: int, source: A, offset: int) -> Result<
    (),
    PagingError,
> {
    let count = (paths.missing)(page);
    let stop = first_unusable_at(source, offset, count);
    if (paths.refusal)(page, frame) is Some {
        Err((paths.refusal)(page, frame).unwrap())
    } else if stop < count {
        Err(frame_refusal(source.answer((offset + stop) as u128)))
    } else if frame >= 0x100_0000_0000 {
        Err(PagingError::FrameOutOfRange)
    } else {
        Ok(())
    }
}

/// Number of answers that the mapping uses up.
pub open spec fn map_used<A: FrameAlloc>(paths: Paths, page: int, frame: int, source: A, offset: int) -> int {
    let count = (paths.missing)(page);
    let stop = first_unusable_at(source, offset, count);
    if (paths.refusal)(page, frame) is Some {
        0
    } else if stop < count {
        stop + 1
    } else {
        count
    }
}

/// What mapping the page with the number of frame `n` to that frame
/// returns: a frame in the hole between the two halves of the virtual
/// address space is refused, any other is mapped as `map_result` says.
pub open spec fn identity_result<A: FrameAlloc>(paths: Paths, n: int, source: A, offset: int) -> Result<
    (),
    PagingError,
> {
    if !canonical_page(n) {
        Err(PagingError::NonCanonicalAddress)
    } else {
        map_result(paths, n, n, source, offset)
    }
}

/// Number of answers that mapping frame `n` to itself uses up.
pub open spec fn identity_used<A: FrameAlloc>(paths: Paths, n: int, source: A, offset: int) -> int {
    if !canonical_page(n) {
        0
    } else {
        map_used(paths, n, n, source, offset)
    }
}

/// What a mapping returned and drew, said over the source as it was
/// `offset` answers earlier.
pub proof fn lemma_map_at<A: FrameAlloc>(
    root: PageTable<TableLevel4>,
    page: int,
    frame: int,
    first: A,
    before: A,
    after: A,
    offset: int,
    r: Result<(), PagingError>,
)
    requires
        0 <= offset,
        offset + 3 <= u128::MAX,
        drawn(first, before, offset),
        map_refusal(root, page, frame) matches Some(e) ==> r == Err::<(), PagingError>(e) && after == before,
        map_refusal(root, page, frame) is None ==> map_draws(root, page, frame, before, after, r),
    ensures
        r == map_result(paths_of(root), page, frame, first, offset),
        drawn(first, after, offset + map_used(paths_of(root), page, frame, first, offset)),
        0 <= map_used(paths_of(root), page, frame, first, offset) <= 3,
{
    assert(before.answer(0) == first.answer(offset as u128));
    assert(before.answer(1) == first.answer((offset + 1) as u128));
    assert(before.answer(2) == first.answer((offset + 2) as u128));
    let paths = paths_of(root);
    assert((paths.missing)(page) == missing_tables(root, page));
    assert((paths.refusal)(page, frame) == map_refusal(root, page, frame));
    let count = missing_tables(root, page);
    assert(0 <= count <= 3);
    assert(first_unusable(before, count) == first_unusable_at(first, offset, count));
    let stop = first_unusable(before, count);
    assert(before.answer(stop as u128) == first.answer((offset + stop) as u128));
    let used = map_used(paths_of(root), page, frame, first, offset);
    if map_refusal(root, page, frame) is None {
        lemma_drawn_add(first, before, after, offset, used);
    }
    match r {
        Ok(unit) => {
            assert(unit == ());
        },
        Err(_) => {},
    }
}

/// Of the entries of the root table, and of what they lead to, only those
/// at `index` may differ in `after`.
pub open spec fn only_slot(before: PageTable<TableLevel4>, after: PageTable<TableLevel4>, index: int) -> bool {
    forall|j: int|
        #![trigger after.children()[j]]
        #![trigger after@[j]]
        0 <= j < 512 && j != index ==> after@[j] == before@[j] && after.children()[j] == before.children()[j]
}

/// Two edits that each leave all but one slot of the root table leave all
/// but that slot.
pub proof fn lemma_only_slot(
    a: PageTable<TableLevel4>,
    b: PageTable<TableLevel4>,
    c: PageTable<TableLevel4>,
    index: int,
)
    requires
        only_slot(a, b, index),
        only_slot(b, c, index) || c == b,
    ensures
        only_slot(a, c, index),
{
    if c != b {
        assert forall|j: int|
            #![trigger c.children()[j]]
            #![trigger c@[j]]
            0 <= j < 512 && j != index implies c@[j] == a@[j] && c.children()[j] == a.children()[j] by {
            assert(b.children()[j] == a.children()[j]);
            assert(c.children()[j] == b.children()[j]);
        }
    }
}

/// What mapping `page` to frame `frame` with `flags` does to an address
/// space, and what it returns.
///
/// Where the tables alone decide (see [`map_refusal`]) the result is that
/// refusal. Where all three tables on the way exist and nothing is refused,
/// the page is mapped. Where a table is missing, the frame source decides:
/// the page is mapped, or the result is `OutOfMemory` or `FrameOutOfRange`.
/// A mapped page has `flags` and `PRESENT` in its level-1 entry and
/// translates to `frame`; what the address space says to further mapping
/// changes as `mapped_paths` says. Each other page translates as before,
/// and after a refusal `page` does too.
pub open spec fn map_outcome(
    before: PageTable<TableLevel4>,
    after: PageTable<TableLevel4>,
    page: int,
    frame: int,
    flags: u64,
    r: Result<(), PagingError>,
) -> bool {
    &&& map_refusal(before, page, frame) matches Some(e) ==> r == Err::<(), PagingError>(e)
    &&& map_refusal(before, page, frame) is None && p1_of(before, page) is Some ==> r is Ok
    &&& r is Ok ==> {
        &&& frame < 0x100_0000_0000
        &&& leaf_word(after, page) == Some((frame * 4096) as u64 | (flags | PRESENT))
        &&& mapping(after, page) == Some((frame * 4096) as u64 | (flags | PRESENT))
        &&& resolve(after, page) == Ok::<Option<int>, PagingError>(Some(frame))
        &&& translate_spec(after, (page * 4096) as u64) == Ok::<Option<u64>, PagingError>(
            Some((frame * 4096) as u64),
        )
        &&& same_elsewhere(before, after, page)
        &&& paths_of(after) == mapped_paths(paths_of(before), page)
    }
    &&& r matches Err(e) ==> {
        &&& same_everywhere(before, after)
        &&& map_refusal(before, page, frame) is None ==> e == PagingError::OutOfMemory || e
            == PagingError::FrameOutOfRange
    }
    &&& only_slot(before, after, p4_index_of(page))
}

/// What unmapping `page` does to an address space, and what it returns.
///
/// A page whose translation fails is refused with that failure, a page that
/// translates to nothing with `NotMapped`, and one that a huge page maps
/// with `HugePage`; nothing changes then. Otherwise the level-1 entry of
/// the page becomes unused, so that the page translates to nothing, and
/// each other page translates as before; the result is then `Ok`, or
/// `Frames` where the frame source did not take the frame back.
pub open spec fn unmap_outcome(
    before: PageTable<TableLevel4>,
    after: PageTable<TableLevel4>,
    page: int,
    r: Result<(), PagingError>,
) -> bool {
    match resolve(before, page) {
        Err(e) => r == Err::<(), PagingError>(e) && after == before,
        Ok(None) => r == Err::<(), PagingError>(PagingError::NotMapped) && after == before,
        Ok(Some(_)) => if p1_of(before, page) is None {
            r == Err::<(), PagingError>(PagingError::HugePage) && after == before
        } else {
            &&& leaf_word(after, page) == Some(0u64)
            &&& resolve(after, page) == Ok::<Option<int>, PagingError>(None)
            &&& translate_spec(after, (page * 4096) as u64) == Ok::<Option<u64>, PagingError>(None)
            &&& same_elsewhere(before, after, page)
            &&& after@ == before@
            &&& only_slot(before, after, p4_index_of(page))
            &&& r matches Err(e) ==> e is Frames
        },
    }
}

/// What unmapping returns once the frame source has said `answer` to the
/// frame of the page.
pub open spec fn frames_result(answer: Result<(), FrameError>) -> Result<(), PagingError> {
    match answer {
        Ok(()) => Ok(()),
        Err(e) => Err(PagingError::Frames(e)),
    }
}

/// Whether unmapping `page` asks the frame source to take a frame back.
pub open spec fn unmap_reaches_frames(before: PageTable<TableLevel4>, page: int) -> bool {
    resolve(before, page) matches Ok(Some(_)) && p1_of(before, page) is Some
}

/// An edit along the way to `page` leaves the translation of every other
/// page as it was.
///
/// The edit went `depth` levels down: it handed out (and maybe created) the
/// tables of levels 3 to `5 - depth`, and at depth 4 it changed the level-1
/// entry of `page`. With a depth below 4 the translation of `page` itself
/// stays too.
pub proof fn lemma_edit(
    r0: PageTable<TableLevel4>,
    r1: PageTable<TableLevel4>,
    a3: PageTable<TableLevel3>,
    b3: PageTable<TableLevel3>,
    a2: PageTable<TableLevel2>,
    b2: PageTable<TableLevel2>,
    a1: PageTable<TableLevel1>,
    b1: PageTable<TableLevel1>,
    depth: int,
    page: int,
    q: int,
)
    requires
        canonical_page(page),
        canonical_page(q),
        1 <= depth <= 4,
        descends(r0, r1, p4_index_of(page), a3, b3),
        depth >= 2 ==> descends(a3, b3, p3_index_of(page), a2, b2),
        depth == 1 ==> kept(a3, b3),
        depth >= 3 ==> descends(a2, b2, p2_index_of(page), a1, b1),
        depth == 2 ==> kept(a2, b2),
        depth == 4 ==> leaf_edited(a1, b1, p1_index_of(page)),
        depth == 3 ==> kept(a1, b1),
        depth == 4 ==> q != page,
    ensures
        resolve(r1, q) == resolve(r0, q),
        mapping(r1, q) == mapping(r0, q),
{
    reveal(resolve);
    assert(!word_present(0u64) && !word_huge(0u64)) by (bit_vector);
    if q != page {
        if p4_index_of(q) == p4_index_of(page) && p3_index_of(q) == p3_index_of(page) && p2_index_of(q)
            == p2_index_of(page) && p1_index_of(q) == p1_index_of(page) {
            lemma_indices_determine_page(q, page);
        }
    }
    let i4 = p4_index_of(page);
    let i3 = p3_index_of(page);
    let i2 = p2_index_of(page);
    let i1 = p1_index_of(page);
    if p4_index_of(q) != i4 {
        assert(r1.next_level_spec(p4_index_of(q)) == r0.next_level_spec(p4_index_of(q)));
    } else {
        assert(r1.next_level_spec(i4) == Some(b3));
        // what the walk met at level 3 before the edit
        assert(r0.next_level_spec(i4) is Some ==> r0.next_level_spec(i4) == Some(a3));
        assert(r0.next_level_spec(i4) is None ==> a3.is_zero());
        if depth == 1 {
            assert(forall|j: int| 0 <= j < 512 ==> b3.next_level_spec(j) == a3.next_level_spec(j));
        } else if p3_index_of(q) != i3 {
            assert(b3.next_level_spec(p3_index_of(q)) == a3.next_level_spec(p3_index_of(q)));
        } else {
            assert(b3.next_level_spec(i3) == Some(b2));
            assert(a3.next_level_spec(i3) is Some ==> a3.next_level_spec(i3) == Some(a2));
            assert(a3.next_level_spec(i3) is None ==> a2.is_zero());
            if depth == 2 {
                assert(forall|j: int| 0 <= j < 512 ==> b2.next_level_spec(j) == a2.next_level_spec(j));
            } else if p2_index_of(q) != i2 {
                assert(b2.next_level_spec(p2_index_of(q)) == a2.next_level_spec(p2_index_of(q)));
            } else {
                assert(b2.next_level_spec(i2) == Some(b1));
                assert(a2.next_level_spec(i2) is Some ==> a2.next_level_spec(i2) == Some(a1));
                assert(a2.next_level_spec(i2) is None ==> a1.is_zero());
                if depth == 4 {
                    assert(b1@[p1_index_of(q)] == a1@[p1_index_of(q)]);
                }
            }
        }
    }
}

/// Changing an entry of the root table behind which the tree holds no
/// table leaves every translation as it was.
pub proof fn lemma_slot_edit(r0: PageTable<TableLevel4>, r1: PageTable<TableLevel4>, index: int, q: int)
    requires
        0 <= index < 512,
        r0@.len() == 512,
        r0.children().len() == 512,
        r1@ =~= r0@.update(index, r1@[index]),
        r1.children() =~= r0.children(),
        r0.children()[index] is None,
        canonical_page(q),
    ensures
        resolve(r1, q) == resolve(r0, q),
        mapping(r1, q) == mapping(r0, q),
        p1_of(r1, q) == p1_of(r0, q),
{
    reveal(resolve);
    if p4_index_of(q) != index {
        assert(r1.next_level_spec(p4_index_of(q)) == r0.next_level_spec(p4_index_of(q)));
    }
}

/// The refusal by which `with` does nothing at all: the tree holds a table
/// behind the recursive entry of the root table, the temporary page lies
/// behind that entry, the frame `target` of the other root table fits no
/// entry, or the temporary page is in use.
pub open spec fn with_refusal(root: PageTable<TableLevel4>, temporary: int, target: int) -> Option<PagingError> {
    if root.children()[RECURSIVE_INDEX as int] is Some || p4_index_of(temporary) == RECURSIVE_INDEX {
        Some(PagingError::EntryInUse)
    } else if target >= 0x100_0000_0000 {
        Some(PagingError::FrameOutOfRange)
    } else {
        match resolve(root, temporary) {
            Err(e) => Some(e),
            Ok(Some(_)) => Some(PagingError::TemporaryPageInUse),
            Ok(None) => None,
        }
    }
}

/// A page that translates to nothing is mapped by no level-1 entry, and so
/// is a page whose level-1 entry is unused.
pub proof fn lemma_unmapped(root: PageTable<TableLevel4>, page: int)
    ensures
        resolve(root, page) == Ok::<Option<int>, PagingError>(None) ==> mapping(root, page) is None,
        leaf_word(root, page) == Some(0u64) ==> mapping(root, page) is None,
{
    reveal(resolve);
    assert(!word_present(0u64)) by (bit_vector);
}

/// A page that a level-1 entry maps cannot be mapped again: the refusal is
/// `AlreadyMapped`.
pub proof fn lemma_mapped_is_refused(root: PageTable<TableLevel4>, page: int, frame: int)
    requires
        mapping(root, page) is Some,
    ensures
        map_refusal(root, page, frame) == Some(PagingError::AlreadyMapped),
{
    assert(!word_present(0u64)) by (bit_vector);
}

/// What `with` returns.
///
/// What `with_refusal` says ends it at once. Then the temporary page is
/// mapped to the frame `backup` of the root table in force, with the pool
/// `pool` of the page as the frame source; a refusal of that ends it. Then
/// the work `f` runs on the address space with the root table `table`,
/// with the frame source `source`; its refusal is returned in the end.
/// Where the work is done, the result is what the pool says to taking the
/// frame `backup` back.
pub open spec fn with_outcome<A: FrameAlloc, F: MapperAction<A>>(
    root: PageTable<TableLevel4>,
    page: int,
    backup: int,
    target: int,
    pool: TinyAlloc,
    table: PageTable<TableLevel4>,
    source: A,
    f: F,
) -> Result<(), PagingError> {
    if with_refusal(root, page, target) is Some {
        Err(with_refusal(root, page, target).unwrap())
    } else if map_result(paths_of(root), page, backup, pool, 0) is Err {
        map_result(paths_of(root), page, backup, pool, 0)
    } else if f.result(table, source) is Err {
        f.result(table, source)
    } else {
        frames_result(
            pool.takes(map_used(paths_of(root), page, backup, pool, 0) as u128, PhysicalFrame::of(backup)),
        )
    }
}

/// Whether `with` gets as far as running the work.
pub open spec fn with_runs(root: PageTable<TableLevel4>, page: int, backup: int, target: int, pool: TinyAlloc) -> bool {
    with_refusal(root, page, target) is None && map_result(paths_of(root), page, backup, pool, 0) is Ok
}

/// The address space whose root table can be reached for editing.
pub struct Mapper {
    p4: PageTable<TableLevel4>,
}

impl Mapper {
    /// The root table.
    pub closed spec fn root(&self) -> PageTable<TableLevel4> {
        self.p4
    }

    /// An address space in which nothing is mapped.
    pub fn new() -> (mapper: Self)
        ensures
            mapper.root().is_zero(),
    {
        Mapper { p4: PageTable::new() }
    }

    /// The root table.
    pub fn p4(&self) -> (table: &PageTable<TableLevel4>)
        ensures
            *table == self.root(),
    {
        &self.p4
    }

    /// The root table, to be changed in place.
    pub fn p4_mut(&mut self) -> (table: &mut PageTable<TableLevel4>)
        ensures
            *table == old(self).root(),
            final(self).root() == *final(table),
    {
        &mut self.p4
    }

    /// The frame that `page` is mapped to, if it is mapped.
    ///
    /// A huge page whose frame is not aligned to its span is refused with
    /// `MisalignedHugePage`.
    pub fn translate_page(&self, page: Page) -> (frame: Result<Option<PhysicalFrame>, PagingError>)
        ensures
            match frame {
                Ok(Some(f)) => resolve(self.root(), page@) == Ok::<Option<int>, PagingError>(Some(f@)),
                Ok(None) => resolve(self.root(), page@) == Ok::<Option<int>, PagingError>(None),
                Err(e) => resolve(self.root(), page@) == Err::<Option<int>, PagingError>(e),
            },
    {
        reveal(resolve);
        let p3 = match self.p4.next_level(page.p4_index()) {
            None => {
                return Ok(None);
            },
            Some(p3) => p3,
        };
        let entry3 = p3.index(page.p3_index() as usize);
        if let Some(start) = entry3.pointed_frame() {
            if Self::is_huge(entry3) {
                if start.number() % (512 * 512) != 0 {
                    return Err(PagingError::MisalignedHugePage);
                }
                return Ok(
                    Some(
                        PhysicalFrame::from_number(
                            start.number() + page.p2_index() * 512 + page.p1_index(),
                        ),
                    ),
                );
            }
        }
        let p2 = match p3.next_level(page.p3_index()) {
            None => {
                return Ok(None);
            },
            Some(p2) => p2,
        };
        let entry2 = p2.index(page.p2_index() as usize);
        if let Some(start) = entry2.pointed_frame() {
            if Self::is_huge(entry2) {
                if start.number() % 512 != 0 {
                    return Err(PagingError::MisalignedHugePage);
                }
                return Ok(Some(PhysicalFrame::from_number(start.number() + page.p1_index())));
            }
        }
        let p1 = match p2.next_level(page.p2_index()) {
            None => {
                return Ok(None);
            },
            Some(p1) => p1,
        };
        Ok(p1.index(page.p1_index() as usize).pointed_frame())
    }

    /// Maps `page` to `frame` with `flags` and `PRESENT`.
    ///
    /// The tables on the way to the level-1 entry of `page` are created
    /// where they are missing, each in a frame drawn from `allocator`. A
    /// level-1 entry that is in use is never overwritten.
    ///
    /// The entry of each new table holds the frame of the table with
    /// `PRESENT` and `WRITABLE` (see [`table_words`]).
    ///
    /// Where the tables alone decide (see [`map_refusal`]) the result is
    /// that refusal. Where all three tables exist and nothing is refused,
    /// the page is mapped and `allocator` is not asked. Where a table is
    /// missing, the answers of `allocator` decide, one for each missing
    /// table (see [`map_draws`]): the page is mapped, or the result is
    /// `OutOfMemory` or `FrameOutOfRange`. In every case each other page
    /// translates as before, and after a refusal `page` does too.
    #[verifier::rlimit(30)]
    pub fn map_to<A: FrameAlloc>(
        &mut self,
        page: Page,
        frame: PhysicalFrame,
        flags: EntryFlags,
        allocator: &mut A,
    ) -> (r: Result<(), PagingError>)
        ensures
            map_outcome(old(self).root(), final(self).root(), page@, frame@, flags@, r),
            map_refusal(old(self).root(), page@, frame@) is Some || p1_of(old(self).root(), page@) is Some
                ==> *final(allocator) == *old(allocator),
            map_refusal(old(self).root(), page@, frame@) is None ==> map_draws(
                old(self).root(),
                page@,
                frame@,
                *old(allocator),
                *final(allocator),
                r,
            ),
            r is Ok ==> table_words(old(self).root(), final(self).root(), page@, *old(allocator)),
    {
        let i4: u64 = page.p4_index();
        let i3: u64 = page.p3_index();
        let i2: u64 = page.p2_index();
        let i1: u64 = page.p1_index();
        let ghost r0 = self.p4;
        let ghost s0 = *allocator;
        reveal(resolve);
        assert(!word_present(0u64) && !word_huge(0u64) && 0u64 & HUGEPAGE != HUGEPAGE) by (bit_vector);
        let p3 = match self.p4.next_level_create(i4, allocator) {
            Err(e) => {
                return Err(e);
            },
            Ok(p3) => p3,
        };
        let ghost a3 = *p3;
        let ghost s1 = *allocator;
        let ghost d1: int = if r0.next_level_spec(i4 as int) is None { 1 } else { 0 };
        assert(drawn(s0, s1, d1));
        let p2 = match p3.next_level_create(i3, allocator) {
            Err(e) => {
                proof {
                    if a3.blocked(i3 as int) is None {
                        lemma_drawn_add(s0, s1, *allocator, d1, 1);
                    }
                    let r1 = self.p4;
                    assert forall|q: int| canonical_page(q) implies #[trigger] resolve(r1, q) == resolve(r0, q) && mapping(r1, q) == mapping(
                        r0,
                        q,
                    ) by {
                        lemma_edit(r0, r1, a3, a3, arbitrary(), arbitrary(), arbitrary(), arbitrary(), 1, page@, q);
                    }
                }
                return Err(e);
            },
            Ok(p2) => p2,
        };
        let ghost a2 = *p2;
        let ghost s2 = *allocator;
        let ghost d2: int = d1 + if a3.next_level_spec(i3 as int) is None { 1int } else { 0int };
        proof {
            if a3.next_level_spec(i3 as int) is None {
                lemma_drawn_add(s0, s1, s2, d1, 1);
            }
        }
        assert(drawn(s0, s2, d2));
        let p1 = match p2.next_level_create(i2, allocator) {
            Err(e) => {
                proof {
                    if a2.blocked(i2 as int) is None {
                        lemma_drawn_add(s0, s2, *allocator, d2, 1);
                    }
                    let r1 = self.p4;
                    let b3 = r1.children()[i4 as int].unwrap();
                    assert forall|q: int| canonical_page(q) implies #[trigger] resolve(r1, q) == resolve(r0, q) && mapping(r1, q) == mapping(
                        r0,
                        q,
                    ) by {
                        lemma_edit(r0, r1, a3, b3, a2, a2, arbitrary(), arbitrary(), 2, page@, q);
                    }
                }
                return Err(e);
            },
            Ok(p1) => p1,
        };
        let ghost a1 = *p1;
        proof {
            if a2.next_level_spec(i2 as int) is None {
                lemma_drawn_add(s0, s2, *allocator, d2, 1);
            }
        }
        let entry = p1.index_mut(i1 as usize);
        let refusal = if !entry.is_unused() {
            Some(PagingError::AlreadyMapped)
        } else {
            let wanted = flags.union(EntryFlags::from_bits_truncate(PRESENT));
            assert(PRESENT & FLAGS_MASK == PRESENT) by (bit_vector);
            let f: u64 = flags.bits();
            assert((f | PRESENT) & PRESENT == PRESENT && (f | PRESENT) & HUGEPAGE == f & HUGEPAGE) by (bit_vector);
            match entry.set(frame, wanted) {
                Err(e) => Some(e),
                Ok(()) => None,
            }
        };
        proof {
            let r1 = self.p4;
            let b3 = r1.children()[i4 as int].unwrap();
            let b2 = b3.children()[i3 as int].unwrap();
            let b1 = b2.children()[i2 as int].unwrap();
            assert(b1@ =~= a1@.update(i1 as int, b1@[i1 as int]));
            if refusal is Some {
                assert(b1@ =~= a1@);
                assert forall|q: int| canonical_page(q) implies #[trigger] resolve(r1, q) == resolve(r0, q) && mapping(r1, q) == mapping(
                        r0,
                        q,
                    ) by {
                    lemma_edit(r0, r1, a3, b3, a2, b2, a1, b1, 3, page@, q);
                }
            } else {
                assert forall|q: int| canonical_page(q) && q != page@ implies #[trigger] resolve(r1, q) == resolve(r0, q) && mapping(r1, q) == mapping(
                    r0,
                    q,
                ) by {
                    lemma_edit(r0, r1, a3, b3, a2, b2, a1, b1, 4, page@, q);
                }
                let after = mapped_paths(paths_of(r0), page@);
                assert forall|q: int| #[trigger] (paths_of(r1).missing)(q) == (after.missing)(q) by {
                    lemma_mapped_paths(r0, r1, a3, b3, a2, b2, a1, b1, page@, q, 0);
                }
                assert forall|q: int, g: int| #[trigger] (paths_of(r1).refusal)(q, g) == (after.refusal)(q, g) by {
                    lemma_mapped_paths(r0, r1, a3, b3, a2, b2, a1, b1, page@, q, g);
                }
                assert(paths_of(r1).missing =~= after.missing);
                assert(paths_of(r1).refusal =~= after.refusal);
                assert forall|start: u64| #[trigger] (start | PRESENT | WRITABLE) == start | (PRESENT | WRITABLE) by {
                    assert(start | PRESENT | WRITABLE == start | (PRESENT | WRITABLE)) by (bit_vector);
                }
                assert(s1.answer(0) == s0.answer(d1 as u128));
                assert(s2.answer(0) == s0.answer(d2 as u128));
                assert(table_words(r0, r1, page@, s0));
            }
        }
        match refusal {
            Some(e) => Err(e),
            None => Ok(()),
        }
    }

    /// Maps the page whose address is that of `frame` to `frame`.
    ///
    /// A frame in the hole between the two halves of the virtual address
    /// space is refused with `NonCanonicalAddress`; apart from that the
    /// result is that of [`Mapper::map_to`] for the page with the number of
    /// `frame`, and so is what is drawn from `allocator`.
    pub fn identity_map<A: FrameAlloc>(&mut self, frame: PhysicalFrame, flags: EntryFlags, allocator: &mut A) -> (r:
        Result<(), PagingError>)
        ensures
            !canonical_page(frame@) ==> r == Err::<(), PagingError>(PagingError::NonCanonicalAddress)
                && final(self).root() == old(self).root() && *final(allocator) == *old(allocator),
            canonical_page(frame@) ==> map_outcome(
                old(self).root(),
                final(self).root(),
                frame@,
                frame@,
                flags@,
                r,
            ),
            map_refusal(old(self).root(), frame@, frame@) is Some || p1_of(old(self).root(), frame@) is Some
                ==> *final(allocator) == *old(allocator),
            canonical_page(frame@) && map_refusal(old(self).root(), frame@, frame@) is None ==> map_draws(
                old(self).root(),
                frame@,
                frame@,
                *old(allocator),
                *final(allocator),
                r,
            ),
            r is Ok ==> table_words(old(self).root(), final(self).root(), frame@, *old(allocator)),
    {
        let page = match Page::containing_address(frame.start_address()) {
            Err(e) => {
                return Err(e);
            },
            Ok(page) => page,
        };
        self.map_to(page, frame, flags, allocator)
    }

    /// Whether the three tables on the way to the level-1 entry of `page`
    /// exist.
    fn has_leaf(&self, page: Page) -> (has: bool)
        ensures
            has == p1_of(self.root(), page@) is Some,
    {
        match self.p4.next_level(page.p4_index()) {
            None => false,
            Some(p3) => match p3.next_level(page.p3_index()) {
                None => false,
                Some(p2) => p2.next_level(page.p2_index()).is_some(),
            },
        }
    }

    /// Unmaps `page` and returns the frame that it was mapped to.
    ///
    /// A page whose translation fails is refused with that failure, a page
    /// that translates to nothing with `NotMapped`, and one that a huge
    /// page maps with `HugePage`; nothing changes then. Otherwise the
    /// level-1 entry of the page becomes unused. Tables that are left
    /// without entries stay where they are.
    pub fn unmap_page(&mut self, page: Page) -> (r: Result<PhysicalFrame, PagingError>)
        ensures
            unmap_outcome(
                old(self).root(),
                final(self).root(),
                page@,
                match r {
                    Ok(_) => Ok(()),
                    Err(e) => Err(e),
                },
            ),
            r is Ok == unmap_reaches_frames(old(self).root(), page@),
            r matches Ok(frame) ==> resolve(old(self).root(), page@) == Ok::<Option<int>, PagingError>(
                Some(frame@),
            ),
    {
        reveal(resolve);
        match self.translate_page(page) {
            Err(e) => {
                return Err(e);
            },
            Ok(None) => {
                return Err(PagingError::NotMapped);
            },
            Ok(Some(_)) => {},
        }
        if !self.has_leaf(page) {
            return Err(PagingError::HugePage);
        }
        let i4: u64 = page.p4_index();
        let i3: u64 = page.p3_index();
        let i2: u64 = page.p2_index();
        let i1: u64 = page.p1_index();
        let ghost r0 = self.p4;
        assert(!word_present(0u64) && !word_huge(0u64)) by (bit_vector);
        let p3 = match self.p4.next_level_mut(i4) {
            None => {
                return Err(PagingError::HugePage);
            },
            Some(p3) => p3,
        };
        let ghost a3 = *p3;
        let p2 = match p3.next_level_mut(i3) {
            None => {
                return Err(PagingError::HugePage);
            },
            Some(p2) => p2,
        };
        let ghost a2 = *p2;
        let p1 = match p2.next_level_mut(i2) {
            None => {
                return Err(PagingError::HugePage);
            },
            Some(p1) => p1,
        };
        let ghost a1 = *p1;
        let entry = p1.index_mut(i1 as usize);
        let frame = match entry.pointed_frame() {
            None => {
                return Err(PagingError::NotMapped);
            },
            Some(frame) => frame,
        };
        entry.set_unused();
        proof {
            let r1 = self.p4;
            let b3 = r1.children()[i4 as int].unwrap();
            let b2 = b3.children()[i3 as int].unwrap();
            let b1 = b2.children()[i2 as int].unwrap();
            assert(b1@ =~= a1@.update(i1 as int, 0u64));
            assert forall|q: int| canonical_page(q) && q != page@ implies #[trigger] resolve(r1, q) == resolve(
                r0,
                q,
            ) && mapping(r1, q) == mapping(r0, q) by {
                lemma_edit(r0, r1, a3, b3, a2, b2, a1, b1, 4, page@, q);
            }
        }
        Ok(frame)
    }

    /// Unmaps `page` and gives its frame back to `allocator`.
    ///
    /// What [`Mapper::unmap_page`] refuses is refused here, and
    /// `allocator` is not asked. Otherwise `allocator` is handed the frame
    /// that the page was mapped to, and the result is what it says to the
    /// frame: a frame that it does not take back comes as `Frames`, with
    /// the page unmapped all the same.
    pub fn unmap<A: FrameAlloc>(&mut self, page: Page, allocator: &mut A) -> (r: Result<(), PagingError>)
        ensures
            unmap_outcome(old(self).root(), final(self).root(), page@, r),
            !unmap_reaches_frames(old(self).root(), page@) ==> *final(allocator) == *old(allocator),
            unmap_reaches_frames(old(self).root(), page@) ==> r == frames_result(
                old(allocator).takes(0, PhysicalFrame::of(resolve(old(self).root(), page@).unwrap().unwrap())),
            ),
            unmap_reaches_frames(old(self).root(), page@) ==> forall|n: u128| #[trigger]
                final(allocator).answer(n) == old(allocator).answer_after(
                    0,
                    PhysicalFrame::of(resolve(old(self).root(), page@).unwrap().unwrap()),
                    n,
                ),
    {
        let frame = match self.unmap_page(page) {
            Err(e) => {
                return Err(e);
            },
            Ok(frame) => frame,
        };
        proof {
            PhysicalFrame::lemma_of(frame, 0);
        }
        match allocator.deallocate_frame(frame) {
            Ok(()) => Ok(()),
            Err(e) => Err(PagingError::Frames(e)),
        }
    }

    /// Whether `entry` has the flag `HUGEPAGE`.
    fn is_huge(entry: &PageEntry) -> (huge: bool)
        ensures
            huge == word_huge(entry@),
    {
        let w: u64 = entry.word();
        assert(((w & FLAGS_MASK) & (HUGEPAGE & FLAGS_MASK) == (HUGEPAGE & FLAGS_MASK)) == (w & HUGEPAGE
            == HUGEPAGE)) by (bit_vector);
        entry.flags().contains(EntryFlags::from_bits_truncate(HUGEPAGE))
    }

    /// The physical address that `virtual_address` is mapped to, if its page
    /// is mapped: the byte at the same offset in the frame of the page.
    pub fn translate(&self, virtual_address: VirtualAddress) -> (address: Result<
        Option<PhysicalAddress>,
        PagingError,
    >)
        ensures
            address == translate_spec(self.root(), virtual_address),
    {
        let offset: u64 = virtual_address % PAGE_SIZE;
        let page = Page::containing_address(virtual_address)?;
        match self.translate_page(page)? {
            Some(frame) => Ok(Some(frame.number() * PAGE_SIZE + offset)),
            None => Ok(None),
        }
    }
}

/// Work on an address space that is reached through a [`Mapper`], with a
/// frame source of kind `A` at hand. The work draws frames from the source
/// and gives none back.
pub trait MapperAction<A: FrameAlloc> {
    /// What the work returns on the address space `before` with the frame
    /// source `source`.
    spec fn result(&self, before: PageTable<TableLevel4>, source: A) -> Result<(), PagingError>;

    /// Number of answers of the frame source that the work uses up.
    spec fn used(&self, before: PageTable<TableLevel4>, source: A) -> u128;

    /// What the work does: how the root table after it relates to the root
    /// table before it, for each result.
    spec fn done(
        &self,
        before: PageTable<TableLevel4>,
        after: PageTable<TableLevel4>,
        result: Result<(), PagingError>,
    ) -> bool;

    /// Does the work.
    fn run(&self, mapper: &mut Mapper, allocator: &mut A) -> (result: Result<(), PagingError>)
        ensures
            result == self.result(old(mapper).root(), *old(allocator)),
            drawn(*old(allocator), *final(allocator), self.used(old(mapper).root(), *old(allocator)) as int),
            self.done(old(mapper).root(), final(mapper).root(), result),
    ;
}

/// The address space that is in force: its root table, and the frame that
/// the root table lies in.
pub struct ActivePageTable {
    mapper: Mapper,
    p4_frame: PhysicalFrame,
}

impl ActivePageTable {
    /// The root table.
    pub closed spec fn root(&self) -> PageTable<TableLevel4> {
        self.mapper.root()
    }

    /// The frame of the root table.
    pub closed spec fn frame(&self) -> PhysicalFrame {
        self.p4_frame
    }

    /// The address space in force whose root table lies in `p4_frame`, with
    /// nothing mapped in it.
    pub fn new(p4_frame: PhysicalFrame) -> (table: Self)
        ensures
            table.root().is_zero(),
            table.frame() == p4_frame,
    {
        ActivePageTable { mapper: Mapper::new(), p4_frame }
    }

    /// The frame of the root table.
    pub fn p4_frame(&self) -> (frame: PhysicalFrame)
        ensures
            frame == self.frame(),
    {
        self.p4_frame
    }

    /// The root table.
    pub fn p4(&self) -> (table: &PageTable<TableLevel4>)
        ensures
            *table == self.root(),
    {
        self.mapper.p4()
    }

    /// See [`Mapper::map_to`].
    pub fn map_to<A: FrameAlloc>(
        &mut self,
        page: Page,
        frame: PhysicalFrame,
        flags: EntryFlags,
        allocator: &mut A,
    ) -> (r: Result<(), PagingError>)
        ensures
            final(self).frame() == old(self).frame(),
            map_outcome(old(self).root(), final(self).root(), page@, frame@, flags@, r),
            map_refusal(old(self).root(), page@, frame@) is Some || p1_of(old(self).root(), page@) is Some
                ==> *final(allocator) == *old(allocator),
            map_refusal(old(self).root(), page@, frame@) is None ==> map_draws(
                old(self).root(),
                page@,
                frame@,
                *old(allocator),
                *final(allocator),
                r,
            ),
            r is Ok ==> table_words(old(self).root(), final(self).root(), page@, *old(allocator)),
    {
        self.mapper.map_to(page, frame, flags, allocator)
    }

    /// See [`Mapper::identity_map`].
    pub fn identity_map<A: FrameAlloc>(&mut self, frame: PhysicalFrame, flags: EntryFlags, allocator: &mut A) -> (r:
        Result<(), PagingError>)
        ensures
            final(self).frame() == old(self).frame(),
            !canonical_page(frame@) ==> r == Err::<(), PagingError>(PagingError::NonCanonicalAddress)
                && final(self).root() == old(self).root() && *final(allocator) == *old(allocator),
            canonical_page(frame@) ==> map_outcome(
                old(self).root(),
                final(self).root(),
                frame@,
                frame@,
                flags@,
                r,
            ),
            map_refusal(old(self).root(), frame@, frame@) is Some || p1_of(old(self).root(), frame@) is Some
                ==> *final(allocator) == *old(allocator),
            canonical_page(frame@) && map_refusal(old(self).root(), frame@, frame@) is None ==> map_draws(
                old(self).root(),
                frame@,
                frame@,
                *old(allocator),
                *final(allocator),
                r,
            ),
            r is Ok ==> table_words(old(self).root(), final(self).root(), frame@, *old(allocator)),
    {
        self.mapper.identity_map(frame, flags, allocator)
    }

    /// See [`Mapper::unmap`].
    pub fn unmap<A: FrameAlloc>(&mut self, page: Page, allocator: &mut A) -> (r: Result<(), PagingError>)
        ensures
            final(self).frame() == old(self).frame(),
            unmap_outcome(old(self).root(), final(self).root(), page@, r),
            !unmap_reaches_frames(old(self).root(), page@) ==> *final(allocator) == *old(allocator),
            unmap_reaches_frames(old(self).root(), page@) ==> r == frames_result(
                old(allocator).takes(0, PhysicalFrame::of(resolve(old(self).root(), page@).unwrap().unwrap())),
            ),
            unmap_reaches_frames(old(self).root(), page@) ==> forall|n: u128| #[trigger]
                final(allocator).answer(n) == old(allocator).answer_after(
                    0,
                    PhysicalFrame::of(resolve(old(self).root(), page@).unwrap().unwrap()),
                    n,
                ),
    {
        self.mapper.unmap(page, allocator)
    }

    /// See [`Mapper::unmap_page`].
    pub fn unmap_page(&mut self, page: Page) -> (r: Result<PhysicalFrame, PagingError>)
        ensures
            final(self).frame() == old(self).frame(),
            unmap_outcome(
                old(self).root(),
                final(self).root(),
                page@,
                match r {
                    Ok(_) => Ok(()),
                    Err(e) => Err(e),
                },
            ),
            r is Ok == unmap_reaches_frames(old(self).root(), page@),
            r matches Ok(frame) ==> resolve(old(self).root(), page@) == Ok::<Option<int>, PagingError>(
                Some(frame@),
            ),
    {
        self.mapper.unmap_page(page)
    }

    /// See [`Mapper::translate_page`].
    pub fn translate_page(&self, page: Page) -> (frame: Result<Option<PhysicalFrame>, PagingError>)
        ensures
            match frame {
                Ok(Some(f)) => resolve(self.root(), page@) == Ok::<Option<int>, PagingError>(Some(f@)),
                Ok(None) => resolve(self.root(), page@) == Ok::<Option<int>, PagingError>(None),
                Err(e) => resolve(self.root(), page@) == Err::<Option<int>, PagingError>(e),
            },
    {
        self.mapper.translate_page(page)
    }

    /// See [`Mapper::translate`].
    pub fn translate(&self, virtual_address: VirtualAddress) -> (address: Result<
        Option<PhysicalAddress>,
        PagingError,
    >)
        ensures
            address == translate_spec(self.root(), virtual_address),
    {
        self.mapper.translate(virtual_address)
    }

    /// Runs `f` on the address space `table`, which is not in force.
    ///
    /// The root table of the address space in force is made reachable
    /// through `temporary_page`, and its recursive entry is pointed at
    /// `table`, so that the mapper reaches the tables of `table`. Then `f`
    /// runs, with `allocator` at hand. After that the recursive entry
    /// points back at the root table in force, and the temporary page is
    /// unmapped. A refusal of `f` is returned once this is done.
    ///
    /// The result is that of [`with_outcome`]. The address space in force
    /// translates every page as before. Where the tree holds a table
    /// behind the recursive entry, or the temporary page lies behind that
    /// entry or is in use, nothing is done at all; `f` runs where
    /// [`with_runs`] holds, and nowhere else. The pool of the temporary
    /// page has then handed out a frame for each table that was missing on
    /// the way to the page, and was offered the frame of the root table in
    /// force.
    #[verifier::rlimit(30)]
    pub fn with<A: FrameAlloc, F: MapperAction<A>>(
        &mut self,
        table: &mut InactivePageTable,
        temporary_page: &mut TemporaryPage,
        allocator: &mut A,
        f: &F,
    ) -> (r: Result<(), PagingError>)
        ensures
            final(self).frame() == old(self).frame(),
            final(table).frame() == old(table).frame(),
            final(temporary_page).page() == old(temporary_page).page(),
            r == with_outcome(
                old(self).root(),
                old(temporary_page).page()@,
                old(self).frame()@,
                old(table).frame()@,
                old(temporary_page).source(),
                old(table).root(),
                *old(allocator),
                *f,
            ),
            with_refusal(old(self).root(), old(temporary_page).page()@, old(table).frame()@) is Some
                ==> final(self).root() == old(self).root(),
            same_everywhere(old(self).root(), final(self).root()),
            only_slot(old(self).root(), final(self).root(), p4_index_of(old(temporary_page).page()@))
                || final(self).root()@[RECURSIVE_INDEX as int] == table_word(old(self).frame()@),
            if with_runs(
                old(self).root(),
                old(temporary_page).page()@,
                old(self).frame()@,
                old(table).frame()@,
                old(temporary_page).source(),
            ) {
                &&& f.done(old(table).root(), final(table).root(), f.result(old(table).root(), *old(allocator)))
                &&& drawn(*old(allocator), *final(allocator), f.used(old(table).root(), *old(allocator)) as int)
                &&& final(self).root()@[RECURSIVE_INDEX as int] == table_word(old(self).frame()@)
                &&& forall|n: u128| #[trigger]
                    final(temporary_page).source().answer(n) == old(temporary_page).source().answer_after(
                        map_used(
                            paths_of(old(self).root()),
                            old(temporary_page).page()@,
                            old(self).frame()@,
                            old(temporary_page).source(),
                            0,
                        ) as u128,
                        old(self).frame(),
                        n,
                    )
            } else {
                final(table).root() == old(table).root() && *final(allocator) == *old(allocator)
            },
    {
        if self.mapper.p4.holds_table(RECURSIVE_INDEX) {
            return Err(PagingError::EntryInUse);
        }
        let slot: u64 = temporary_page.page_number().p4_index();
        if slot == 511 {
            return Err(PagingError::EntryInUse);
        }
        if table.p4_frame().number() >= 0x100_0000_0000 {
            return Err(PagingError::FrameOutOfRange);
        }
        let backup = self.p4_frame;
        let ghost page = temporary_page.page()@;
        let ghost t0 = table.root();
        let ghost r0 = self.mapper.p4;
        let ghost pool = temporary_page.source();
        let reached = temporary_page.map(backup, self);
        let ghost r1 = self.mapper.p4;
        let ghost drained = temporary_page.source();
        let ghost first: Result<(), PagingError> = match reached {
            Ok(_) => Ok(()),
            Err(e) => Err(e),
        };
        proof {
            PhysicalFrame::lemma_view(backup, backup);
            if resolve(r0, page) == Ok::<Option<int>, PagingError>(None) {
                lemma_map_at(r0, page, backup@, pool, pool, drained, 0, first);
            }
        }
        match reached {
            Err(e) => {
                return Err(e);
            },
            Ok(_) => {},
        }
        let flags = EntryFlags::from_bits_truncate(PRESENT | WRITABLE);
        assert((PRESENT | WRITABLE) & FLAGS_MASK == PRESENT | WRITABLE) by (bit_vector);
        let target = table.p4_frame();
        match self.mapper.p4.index_mut(RECURSIVE_INDEX).set(target, flags) {
            Err(e) => {
                return Err(e);
            },
            Ok(()) => {},
        }
        let ghost r2 = self.mapper.p4;
        core::mem::swap(&mut self.mapper.p4, table.table_mut());
        let result = f.run(&mut self.mapper, allocator);
        core::mem::swap(&mut self.mapper.p4, table.table_mut());
        assert(self.mapper.p4 == r2);
        match self.mapper.p4.index_mut(RECURSIVE_INDEX).set(backup, flags) {
            Err(e) => {
                return Err(e);
            },
            Ok(()) => {},
        }
        let ghost r3 = self.mapper.p4;
        proof {
            assert(r1.children()[RECURSIVE_INDEX as int] is None);
            assert(r3@ =~= r1@.update(RECURSIVE_INDEX as int, r3@[RECURSIVE_INDEX as int]));
            assert(r3.children() =~= r1.children());
            lemma_slot_edit(r1, r3, RECURSIVE_INDEX as int, page);
            assert forall|q: int| canonical_page(q) implies #[trigger] resolve(r3, q) == resolve(r1, q) && mapping(r3, q) == mapping(
                        r1,
                        q,
                    ) by {
                lemma_slot_edit(r1, r3, RECURSIVE_INDEX as int, q);
            }
            PhysicalFrame::lemma_of(backup, 0);
        }
        let unmapped = temporary_page.unmap(self);
        proof {
            let r4 = self.mapper.p4;
            lemma_unmapped(r0, page);
            lemma_unmapped(r4, page);
            assert forall|q: int| canonical_page(q) implies #[trigger] resolve(r4, q) == resolve(r0, q) && mapping(r4, q) == mapping(
                        r0,
                        q,
                    ) by {
                if q != page {
                    assert(resolve(r4, q) == resolve(r3, q) && mapping(r4, q) == mapping(r3, q));
                    assert(resolve(r3, q) == resolve(r1, q) && mapping(r3, q) == mapping(r1, q));
                    assert(resolve(r1, q) == resolve(r0, q) && mapping(r1, q) == mapping(r0, q));
                }
            }
            assert(drained.takes(0, PhysicalFrame::of(backup@)) == pool.takes(
                map_used(paths_of(r0), page, backup@, pool, 0) as u128,
                PhysicalFrame::of(backup@),
            ));
            assert forall|n: u128| #[trigger]
                temporary_page.source().answer(n) == pool.answer_after(
                    map_used(paths_of(r0), page, backup@, pool, 0) as u128,
                    backup,
                    n,
                ) by {
                assert(temporary_page.source().answer(n) == drained.answer_after(0, backup, n));
            }
        }
        match result {
            Err(e) => Err(e),
            Ok(_) => unmapped,
        }
    }

    /// Puts `new_table` in force and returns the address space that was in
    /// force until now.
    pub fn switch(&mut self, new_table: InactivePageTable) -> (old_table: InactivePageTable)
        ensures
            final(self).root() == new_table.root(),
            final(self).frame() == new_table.frame(),
            old_table.root() == old(self).root(),
            old_table.frame() == old(self).frame(),
    {
        let (frame, table) = new_table.into_parts();
        let mut table = table;
        core::mem::swap(&mut self.mapper.p4, &mut table);
        let old_frame = self.p4_frame;
        self.p4_frame = frame;
        InactivePageTable::from_parts(old_frame, table)
    }
}

} // verus!
