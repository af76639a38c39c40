//! Physical frames, paging and the remapping of the kernel image.
use vstd::prelude::*;
use core::ops::RangeInclusive;
use crate::allocator::{HeapError, LinkedAllocatorNode, LinkedListAllocator};
use self::frames::tiny_alloc::{takes_second, TinyAlloc};
use self::frames::{
    drawn, lemma_drawn_add, FrameAlloc, FrameError, FrameIter, PhysicalFrame, MAX_FRAME_NUMBER, PAGE_SIZE,
};
use self::paging::entry::{EntryFlags, FLAGS_MASK, NOEXECUTE, PRESENT, WRITABLE};
use self::paging::inactive::{new_refusal, table_word, InactivePageTable, RECURSIVE_INDEX};
use self::paging::mapper::{
    frames_result, identity_result, identity_used, leaf_word, lemma_map_at, lemma_mapped_is_refused, map_draws,
    map_outcome, map_refusal, map_result, map_used, mapped_paths, mapping, missing_tables, only_slot, p1_of,
    paths_of, resolve, same_everywhere, unmap_outcome, unmap_reaches_frames, with_refusal, ActivePageTable, Mapper,
    MapperAction, Paths,
};
use self::paging::tables::{frame_refusal, usable_frame, zero_words, PageTable, TableLevel3, TableLevel4};
use self::paging::temporary::TemporaryPage;
use self::paging::{canonical_page, Page, PagingError};

pub mod frames;
pub mod paging;

verus! {

/// A physical address.
pub type PhysicalAddress = u64;

/// A virtual address.
pub type VirtualAddress = u64;

/// Number of entries in one page table.
pub const TABLE_SIZE: usize = 512;

/// Address of the page that is set aside for reaching frames while a new
/// address space is built.
pub const TEMPORARY_PAGE_ADDRESS: u64 = 0x1_337a_110c;

/// Address of the page that holds the kernel heap.
pub const HEAP_ADDRESS: u64 = 0xffff_ff00_0000_0000;

/// What the loader says of a section of the kernel image.
#[derive(Debug, Clone, Copy, PartialEq, Eq, Structural)]
pub struct ElfSectionFlags {
    /// The section may be written at run time.
    pub writable: bool,
    /// The section takes up memory at run time.
    pub allocated: bool,
    /// The section holds code.
    pub executable: bool,
}

/// One section of the kernel image: the bytes from `start` up to, not
/// including, `end`.
#[derive(Debug, Clone, Copy, PartialEq, Eq, Structural)]
pub struct ElfSection {
    /// Address of the first byte.
    pub start: u64,
    /// Address one past the last byte.
    pub end: u64,
    /// What the loader says of the section.
    pub flags: ElfSectionFlags,
}

/// The flags with which the frames of `section` are mapped: `PRESENT`
/// always, `WRITABLE` if the section is writable, `NOEXECUTE` unless it
/// holds code.
pub open spec fn section_flags(section: ElfSection) -> u64 {
    PRESENT | (if section.flags.writable {
        WRITABLE
    } else {
        0
    }) | (if section.flags.executable {
        0
    } else {
        NOEXECUTE
    })
}

/// Number of the frame that holds the first byte of `section`.
pub open spec fn first_frame(section: ElfSection) -> int {
    section.start as int / 4096
}

/// One more than the number of the frame that holds the last byte of
/// `section`; for a section without bytes, the number of its first frame.
pub open spec fn frame_limit(section: ElfSection) -> int {
    if section.end > section.start {
        (section.end - 1) / 4096 + 1
    } else {
        section.start as int / 4096
    }
}

/// Whether `section` takes up memory and frame `n` holds a byte of it.
pub open spec fn spans(section: ElfSection, n: int) -> bool {
    section.flags.allocated && first_frame(section) <= n < frame_limit(section)
}

/// Whether one of the first `count` sections spans frame `n`.
pub open spec fn covered(sections: Seq<ElfSection>, count: int, n: int) -> bool {
    exists|i: int| 0 <= i < count && i < sections.len() && spans(#[trigger] sections[i], n)
}

/// Whether page `n` is mapped to frame `n` with exactly `flags`.
pub open spec fn identity_mapped(root: PageTable<TableLevel4>, n: int, flags: u64) -> bool {
    &&& canonical_page(n)
    &&& resolve(root, n) == Ok::<Option<int>, PagingError>(Some(n))
    &&& mapping(root, n) == Some((n * 4096) as u64 | flags)
}

/// Whether every frame that one of the first `count` sections spans is
/// mapped to itself with the flags of that section.
pub open spec fn sections_mapped(root: PageTable<TableLevel4>, sections: Seq<ElfSection>, count: int) -> bool {
    forall|i: int, n: int|
        0 <= i < count && i < sections.len() && spans(sections[i], n) ==> #[trigger] identity_mapped(
            root,
            n,
            section_flags(sections[i]),
        )
}

/// Whether every page that none of the first `count` sections spans
/// translates in `after` as it does in `before`.
pub open spec fn rest_kept(
    before: PageTable<TableLevel4>,
    after: PageTable<TableLevel4>,
    sections: Seq<ElfSection>,
    count: int,
) -> bool {
    forall|q: int|
        canonical_page(q) && !covered(sections, count, q) ==> #[trigger] resolve(after, q) == resolve(
            before,
            q,
        ) && mapping(after, q) == mapping(before, q)
}

/// Pages that none of all the sections spans are spanned by none of the
/// first `count` sections.
pub proof fn lemma_rest_kept_grows(
    before: PageTable<TableLevel4>,
    after: PageTable<TableLevel4>,
    sections: Seq<ElfSection>,
    count: int,
)
    requires
        0 <= count <= sections.len(),
        rest_kept(before, after, sections, count),
    ensures
        rest_kept(before, after, sections, sections.len() as int),
{
    assert forall|q: int| canonical_page(q) && !covered(sections, sections.len() as int, q) implies #[trigger] resolve(
        after,
        q,
    ) == resolve(before, q) && mapping(after, q) == mapping(before, q) by {
        if covered(sections, count, q) {
            let i = choose|i: int| 0 <= i < count && i < sections.len() && spans(#[trigger] sections[i], q);
            assert(spans(sections[i], q));
        }
    }
}

/// Whether the upper half of the address space `root` is unused but for
/// the recursive entry: the entries 256 to 510 of the root table are
/// unused and lead to no table.
pub open spec fn upper_free(root: PageTable<TableLevel4>) -> bool {
    forall|i: int| 256 <= i < 511 ==> #[trigger] root@[i] == 0 && root.children()[i] is None
}

/// A change in one slot of the lower half of the root table leaves the
/// upper half unused.
pub proof fn lemma_upper_free(before: PageTable<TableLevel4>, after: PageTable<TableLevel4>, page: int)
    requires
        upper_free(before),
        only_slot(before, after, self::paging::p4_index_of(page)),
        0 <= page < 0x8_0000_0000,
    ensures
        upper_free(after),
{
    assert(self::paging::p4_index_of(page) < 256);
    assert forall|i: int| 256 <= i < 511 implies #[trigger] after@[i] == 0 && after.children()[i] is None by {
        assert(after@[i] == before@[i]);
        assert(after.children()[i] == before.children()[i]);
    }
}

/// A root table that holds nothing but its recursive entry has an unused
/// upper half.
pub proof fn lemma_fresh_upper(root: PageTable<TableLevel4>, frame: int)
    requires
        root@ =~= zero_words().update(RECURSIVE_INDEX as int, table_word(frame)),
        root.children() =~= Seq::new(512, |i: int| None::<PageTable<TableLevel3>>),
    ensures
        upper_free(root),
{
}

/// Whether the first section that takes up memory begins off a page
/// boundary.
pub open spec fn refused_at_once(sections: Seq<ElfSection>) -> bool {
    exists|k: int|
        0 <= k < sections.len() && (#[trigger] sections[k]).flags.allocated && sections[k].start % 4096 != 0
            && forall|i: int| 0 <= i < k ==> !(#[trigger] sections[i]).flags.allocated
}

/// How mapping sections ends: the result, and the number of answers of the
/// frame source that are used up by then.
pub struct Walk {
    /// What is returned.
    pub result: Result<(), PagingError>,
    /// Number of answers used up.
    pub used: int,
}

/// How mapping the sections ends when it goes on at section `k`, in an
/// address space that says `paths` to mapping, with the answers of `source`
/// from the answer `offset` on.
///
/// Outside a section (`inside` is false) the section is looked at: one
/// that takes up no memory is passed over, one that begins off a page
/// boundary is refused with `UnalignedSection`, any other is entered at
/// its first frame. Inside the section frame `n` is next: it is mapped to
/// itself, and the first frame that cannot be mapped ends the work with
/// its refusal. Behind the last section the work ends well.
pub open spec fn walk<A: FrameAlloc>(
    sections: Seq<ElfSection>,
    k: int,
    n: int,
    inside: bool,
    paths: Paths,
    source: A,
    offset: int,
) -> Walk
    decreases sections.len() - k, walk_rest(sections, k, n, inside),
{
    if k < 0 || k >= sections.len() {
        Walk { result: Ok(()), used: offset }
    } else if !inside {
        if !sections[k].flags.allocated {
            walk(sections, k + 1, 0, false, paths, source, offset)
        } else if sections[k].start % 4096 != 0 {
            Walk { result: Err(PagingError::UnalignedSection), used: offset }
        } else {
            walk(sections, k, first_frame(sections[k]), true, paths, source, offset)
        }
    } else if n >= frame_limit(sections[k]) {
        walk(sections, k + 1, 0, false, paths, source, offset)
    } else if identity_result(paths, n, source, offset) is Err {
        Walk {
            result: identity_result(paths, n, source, offset),
            used: offset + identity_used(paths, n, source, offset),
        }
    } else {
        walk(
            sections,
            k,
            n + 1,
            true,
            mapped_paths(paths, n),
            source,
            offset + identity_used(paths, n, source, offset),
        )
    }
}

/// How many steps mapping section `k` still takes at most.
pub open spec fn walk_rest(sections: Seq<ElfSection>, k: int, n: int, inside: bool) -> int {
    if k < 0 || k >= sections.len() {
        0
    } else if inside {
        if n >= frame_limit(sections[k]) {
            0
        } else {
            frame_limit(sections[k]) - n
        }
    } else if first_frame(sections[k]) >= frame_limit(sections[k]) {
        1
    } else {
        frame_limit(sections[k]) - first_frame(sections[k]) + 1
    }
}

/// The most answers that can be used up before frame `n` of section `k` is
/// reached.
pub open spec fn walk_bound(sections: Seq<ElfSection>, k: int, n: int, inside: bool) -> int {
    if inside && 0 <= k < sections.len() {
        3 * (k * 0x20_0000_0000_0000 + (n - first_frame(sections[k])))
    } else {
        3 * (k * 0x20_0000_0000_0000)
    }
}

/// Where the first section from section `k` on that takes up memory
/// begins off a page boundary, mapping the sections from section `k` on
/// ends with `UnalignedSection`, and no answer of the frame source is
/// used up.
pub proof fn lemma_walk_unaligned<A: FrameAlloc>(
    sections: Seq<ElfSection>,
    k: int,
    unaligned: int,
    paths: Paths,
    source: A,
    offset: int,
)
    requires
        0 <= k <= unaligned < sections.len(),
        sections[unaligned].flags.allocated,
        sections[unaligned].start % 4096 != 0,
        forall|i: int| k <= i < unaligned ==> !(#[trigger] sections[i]).flags.allocated,
    ensures
        walk(sections, k, 0, false, paths, source, offset) == (Walk {
            result: Err(PagingError::UnalignedSection),
            used: offset,
        }),
    decreases unaligned - k,
{
    if k < unaligned {
        assert(!sections[k].flags.allocated);
        lemma_walk_unaligned(sections, k + 1, unaligned, paths, source, offset);
    }
}

/// Whether a section from section `k` on takes up memory and begins off a
/// page boundary.
pub open spec fn unaligned_from(sections: Seq<ElfSection>, k: int) -> bool {
    exists|i: int|
        k <= i < sections.len() && (#[trigger] sections[i]).flags.allocated && sections[i].start % 4096 != 0
}

/// Mapping sections never ends well where a section that is still to come
/// takes up memory and begins off a page boundary: the work ends with
/// `UnalignedSection` there, unless a frame before it is refused.
pub proof fn lemma_walk_meets_unaligned<A: FrameAlloc>(
    sections: Seq<ElfSection>,
    k: int,
    n: int,
    inside: bool,
    paths: Paths,
    source: A,
    offset: int,
)
    requires
        0 <= k,
        unaligned_from(sections, if inside {
            k + 1
        } else {
            k
        }),
    ensures
        walk(sections, k, n, inside, paths, source, offset).result is Err,
    decreases sections.len() - k, walk_rest(sections, k, n, inside),
{
    let i = choose|i: int|
        (if inside {
            k + 1
        } else {
            k
        }) <= i < sections.len() && (#[trigger] sections[i]).flags.allocated && sections[i].start % 4096 != 0;
    if !inside {
        if !sections[k].flags.allocated {
            assert(i != k);
            assert(unaligned_from(sections, k + 1));
            lemma_walk_meets_unaligned(sections, k + 1, 0, false, paths, source, offset);
        } else if sections[k].start % 4096 != 0 {
        } else {
            assert(i != k);
            assert(unaligned_from(sections, k + 1));
            lemma_walk_meets_unaligned(sections, k, first_frame(sections[k]), true, paths, source, offset);
        }
    } else if n >= frame_limit(sections[k]) {
        assert(sections[i].flags.allocated);
        assert(unaligned_from(sections, k + 1));
        lemma_walk_meets_unaligned(sections, k + 1, 0, false, paths, source, offset);
    } else if identity_result(paths, n, source, offset) is Ok {
        lemma_walk_meets_unaligned(
            sections,
            k,
            n + 1,
            true,
            mapped_paths(paths, n),
            source,
            offset + identity_used(paths, n, source, offset),
        );
    }
}

/// Where the first section that takes up memory begins off a page
/// boundary, and a new address space has come about, remapping ends with
/// `UnalignedSection`, unless the frame of the old root table fits no
/// entry.
pub proof fn lemma_remap_unaligned<A: FrameAlloc>(
    root: PageTable<TableLevel4>,
    frame: int,
    sections: Seq<ElfSection>,
    source: A,
)
    requires
        refused_at_once(sections),
        frame < 0x100_0000_0000,
    ensures
        remap_outcome(root, frame, sections, source) == Err::<(), PagingError>(PagingError::UnalignedSection),
{
    let unaligned = choose|k: int|
        0 <= k < sections.len() && (#[trigger] sections[k]).flags.allocated && sections[k].start % 4096 != 0
            && forall|i: int| 0 <= i < k ==> !(#[trigger] sections[i]).flags.allocated;
    lemma_walk_unaligned(sections, 0, unaligned, fresh_paths(), source, 4);
}

/// The most answers that mapping these sections can use up.
pub open spec fn walk_limit(sections: Seq<ElfSection>) -> int {
    3 * ((sections.len() as int + 1) * 0x20_0000_0000_0000)
}

/// Whether `paths` says of every page that at most three tables are
/// missing on the way to it.
pub open spec fn paths_bounded(paths: Paths) -> bool {
    forall|q: int| 0 <= #[trigger] (paths.missing)(q) <= 3
}

/// Mapping sections with a source of which `shift` answers are used up
/// ends as mapping them with the answers of the first source from the
/// answer `shift` on, and uses up as many answers.
pub proof fn lemma_walk_shift<A: FrameAlloc>(
    sections: Seq<ElfSection>,
    k: int,
    n: int,
    inside: bool,
    paths: Paths,
    first: A,
    later: A,
    shift: int,
    offset: int,
)
    requires
        drawn(first, later, shift),
        0 <= shift <= 0x1_0000_0000,
        sections.len() <= 0x1_0000_0000_0000_0000,
        0 <= k <= sections.len(),
        0 <= offset <= walk_bound(sections, k, n, inside),
        paths_bounded(paths),
        inside && k < sections.len() ==> first_frame(sections[k]) <= n && (n <= frame_limit(sections[k]) || n
            == first_frame(sections[k])),
    ensures
        walk(sections, k, n, inside, paths, later, offset).result == walk(
            sections,
            k,
            n,
            inside,
            paths,
            first,
            offset + shift,
        ).result,
        walk(sections, k, n, inside, paths, first, offset + shift).used == walk(
            sections,
            k,
            n,
            inside,
            paths,
            later,
            offset,
        ).used + shift,
        offset <= walk(sections, k, n, inside, paths, later, offset).used <= walk_limit(sections),
    decreases sections.len() - k, walk_rest(sections, k, n, inside),
{
    if k >= sections.len() {
    } else if !inside {
        if !sections[k].flags.allocated {
            lemma_walk_shift(sections, k + 1, 0, false, paths, first, later, shift, offset);
        } else if sections[k].start % 4096 != 0 {
        } else {
            lemma_walk_shift(sections, k, first_frame(sections[k]), true, paths, first, later, shift, offset);
        }
    } else if n >= frame_limit(sections[k]) {
        lemma_walk_shift(sections, k + 1, 0, false, paths, first, later, shift, offset);
    } else {
        let count = (paths.missing)(n);
        assert(0 <= count <= 3);
        assert(later.answer(offset as u128) == first.answer((offset + shift) as u128));
        assert(later.answer((offset + 1) as u128) == first.answer((offset + shift + 1) as u128));
        assert(later.answer((offset + 2) as u128) == first.answer((offset + shift + 2) as u128));
        assert(identity_result(paths, n, later, offset) == identity_result(paths, n, first, offset + shift));
        assert(identity_used(paths, n, later, offset) == identity_used(paths, n, first, offset + shift));
        assert(0 <= identity_used(paths, n, later, offset) <= 3);
        if identity_result(paths, n, later, offset) is Ok {
            assert(paths_bounded(mapped_paths(paths, n))) by {
                assert forall|q: int| 0 <= #[trigger] (mapped_paths(paths, n).missing)(q) <= 3 by {
                    assert(0 <= (paths.missing)(q) <= 3);
                }
            }
            lemma_walk_shift(
                sections,
                k,
                n + 1,
                true,
                mapped_paths(paths, n),
                first,
                later,
                shift,
                offset + identity_used(paths, n, later, offset),
            );
        }
    }
}

/// The work of mapping the kernel image: every frame that a section spans
/// is mapped to itself.
pub struct KernelSections<'a> {
    /// The sections of the kernel image.
    pub sections: &'a [ElfSection],
}

impl<'a, A: FrameAlloc> MapperAction<A> for KernelSections<'a> {
    /// After success every frame that a section spans is mapped to itself
    /// with the flags of the section. Whatever the result, the pages that
    /// no section spans translate as before. `UnalignedSection` comes only
    /// where a section that takes up memory begins off a page boundary, and
    /// where no section takes up memory the work succeeds. Where the first
    /// section that takes up memory begins off a page boundary, nothing is
    /// changed, and where any section that takes up memory does so, the
    /// work does not succeed. After success an upper half that was unused
    /// is unused still: only frames of the lower half can be mapped to
    /// themselves.
    open spec fn done(
        &self,
        before: PageTable<TableLevel4>,
        after: PageTable<TableLevel4>,
        result: Result<(), PagingError>,
    ) -> bool {
        &&& rest_kept(before, after, self.sections@, self.sections@.len() as int)
        &&& result is Ok ==> sections_mapped(after, self.sections@, self.sections@.len() as int)
        &&& result matches Err(PagingError::UnalignedSection) ==> exists|i: int|
            0 <= i < self.sections@.len() && (#[trigger] self.sections@[i]).flags.allocated
                && self.sections@[i].start % 4096 != 0
        &&& result is Err ==> exists|i: int|
            0 <= i < self.sections@.len() && (#[trigger] self.sections@[i]).flags.allocated
        &&& refused_at_once(self.sections@) ==> after == before
        &&& unaligned_from(self.sections@, 0) ==> result is Err
        &&& result is Ok && upper_free(before) ==> upper_free(after)
    }

    /// The result is that of [`walk`] from the first section on.
    open spec fn result(&self, before: PageTable<TableLevel4>, source: A) -> Result<(), PagingError> {
        walk(self.sections@, 0, 0, false, paths_of(before), source, 0).result
    }

    /// The answers used up are those of [`walk`] from the first section on.
    open spec fn used(&self, before: PageTable<TableLevel4>, source: A) -> u128 {
        walk(self.sections@, 0, 0, false, paths_of(before), source, 0).used as u128
    }

    /// Maps the sections in order, the frames of each in rising order. A
    /// section that takes up no memory is passed over; one that begins off
    /// a page boundary is refused with `UnalignedSection`. The first frame
    /// that cannot be mapped ends the work with the refusal of the mapping.
    fn run(&self, mapper: &mut Mapper, allocator: &mut A) -> (result: Result<(), PagingError>)
    {
        let ghost before = mapper.root();
        let ghost sections = self.sections@;
        let ghost source = *allocator;
        let ghost target = walk(sections, 0, 0, false, paths_of(before), source, 0);
        let ghost mut offset: int = 0;
        proof {
            if unaligned_from(sections, 0) {
                lemma_walk_meets_unaligned(sections, 0, 0, false, paths_of(before), source, 0);
            }
        }
        let mut k: usize = 0;
        while k < self.sections.len()
            invariant
                sections == self.sections@,
                before == old(mapper).root(),
                source == *old(allocator),
                k <= sections.len(),
                rest_kept(before, mapper.root(), sections, k as int),
                sections_mapped(mapper.root(), sections, k as int),
                0 <= offset <= walk_bound(sections, k as int, 0, false),
                drawn(source, *allocator, offset),
                walk(sections, k as int, 0, false, paths_of(mapper.root()), source, offset) == target,
                target == walk(sections, 0, 0, false, paths_of(before), source, 0),
                (forall|i: int| 0 <= i < k ==> !(#[trigger] sections[i]).flags.allocated) ==> mapper.root()
                    == before,
                forall|i: int| 0 <= i < k && (#[trigger] sections[i]).flags.allocated ==> sections[i].start % 4096 == 0,
                upper_free(before) ==> upper_free(mapper.root()),
                unaligned_from(sections, 0) ==> target.result is Err,
            decreases sections.len() - k,
        {
            let section = self.sections[k];
            if section.flags.allocated {
                if section.start % PAGE_SIZE != 0 {
                    proof {
                        lemma_rest_kept_grows(before, mapper.root(), sections, k as int);
                        Self::lemma_refused_at_once(sections, k as int);
                    }
                    return Err(PagingError::UnalignedSection);
                }
                let mapped = self.map_section(
                    k,
                    mapper,
                    allocator,
                    Ghost(before),
                    Ghost(source),
                    Ghost(offset),
                    Ghost(target),
                );
                proof {
                    offset = mapped.1@;
                    Self::lemma_refused_at_once(sections, k as int);
                }
                match mapped.0 {
                    Err(e) => {
                        return Err(e);
                    },
                    Ok(()) => {},
                }
            }
            k += 1;
        }
        proof {
            Self::lemma_refused_at_once(sections, k as int);
        }
        Ok(())
    }
}

impl<'a> KernelSections<'a> {
    /// The flags of `section` as a set.
    fn flags_of(section: &ElfSection) -> (flags: EntryFlags)
        ensures
            flags@ == section_flags(*section),
            flags@ | PRESENT == flags@,
    {
        let mut flags = EntryFlags::from_bits_truncate(PRESENT);
        if section.flags.writable {
            flags.insert(EntryFlags::from_bits_truncate(WRITABLE));
        }
        if !section.flags.executable {
            flags.insert(EntryFlags::from_bits_truncate(NOEXECUTE));
        }
        assert(PRESENT & FLAGS_MASK == PRESENT && WRITABLE & FLAGS_MASK == WRITABLE && NOEXECUTE & FLAGS_MASK
            == NOEXECUTE && (PRESENT | 0u64) | 0u64 == PRESENT && (PRESENT | WRITABLE) | 0u64 == PRESENT
            | WRITABLE && (PRESENT | 0u64) | NOEXECUTE == PRESENT | NOEXECUTE) by (bit_vector);
        let bits: u64 = flags.bits();
        assert(bits | PRESENT == bits) by (bit_vector)
            requires
                bits == PRESENT || bits == PRESENT | WRITABLE || bits == PRESENT | NOEXECUTE || bits == (PRESENT
                    | WRITABLE) | NOEXECUTE,
        ;
        flags
    }

    /// Maps the frames that section `k` spans, given that the sections
    /// before it are mapped.
    #[verifier::rlimit(30)]
    fn map_section<A: FrameAlloc>(
        &self,
        k: usize,
        mapper: &mut Mapper,
        allocator: &mut A,
        Ghost(before): Ghost<PageTable<TableLevel4>>,
        Ghost(source): Ghost<A>,
        Ghost(start): Ghost<int>,
        Ghost(target): Ghost<Walk>,
    ) -> (r: (Result<(), PagingError>, Ghost<int>))
        requires
            k < self.sections@.len(),
            self.sections@[k as int].flags.allocated,
            self.sections@[k as int].start % 4096 == 0,
            rest_kept(before, old(mapper).root(), self.sections@, k as int),
            sections_mapped(old(mapper).root(), self.sections@, k as int),
            0 <= start <= walk_bound(self.sections@, k as int, 0, false),
            drawn(source, *old(allocator), start),
            walk(self.sections@, k as int, 0, false, paths_of(old(mapper).root()), source, start) == target,
        ensures
            r.0 is Ok ==> rest_kept(before, final(mapper).root(), self.sections@, k + 1) && sections_mapped(
                final(mapper).root(),
                self.sections@,
                k + 1,
            ),
            r.0 matches Err(e) ==> rest_kept(
                before,
                final(mapper).root(),
                self.sections@,
                self.sections@.len() as int,
            ) && e != PagingError::UnalignedSection,
            r.0 is Ok && upper_free(old(mapper).root()) ==> upper_free(final(mapper).root()),
            drawn(source, *final(allocator), r.1@),
            r.0 is Ok ==> 0 <= r.1@ <= walk_bound(self.sections@, k + 1, 0, false) && walk(
                self.sections@,
                k + 1,
                0,
                false,
                paths_of(final(mapper).root()),
                source,
                r.1@,
            ) == target,
            r.0 is Err ==> target == (Walk { result: r.0, used: r.1@ }) && 0 <= r.1@ <= walk_bound(
                self.sections@,
                k + 1,
                0,
                false,
            ),
    {
        let ghost sections = self.sections@;
        let section = self.sections[k];
        let flags = Self::flags_of(&section);
        let first = PhysicalFrame::by_addr(section.start);
        let limit: u64 = if section.end > section.start {
            (section.end - 1) / PAGE_SIZE + 1
        } else {
            section.start / PAGE_SIZE
        };
        let stop: u64 = if limit > MAX_FRAME_NUMBER {
            MAX_FRAME_NUMBER
        } else {
            limit
        };
        let mut frames = FrameIter::new(first, PhysicalFrame::from_number(stop));
        let ghost mut offset: int = start;
        loop
            invariant
                0 <= offset <= walk_bound(sections, k as int, frames@.0, true),
                upper_free(old(mapper).root()) ==> upper_free(mapper.root()),
                drawn(source, *allocator, offset),
                walk(sections, k as int, frames@.0, true, paths_of(mapper.root()), source, offset) == target,
                sections == self.sections@,
                k < sections.len(),
                section == sections[k as int],
                flags@ == section_flags(section),
                flags@ | PRESENT == flags@,
                limit == frame_limit(section),
                stop <= limit,
                limit > MAX_FRAME_NUMBER ==> stop == MAX_FRAME_NUMBER,
                limit <= MAX_FRAME_NUMBER ==> stop == limit,
                frames@.1 == stop,
                first_frame(section) <= frames@.0,
                frames@.0 <= stop || frames@.0 == first_frame(section),
                section.flags.allocated,
                sections_mapped(mapper.root(), sections, k as int),
                forall|n: int|
                    first_frame(section) <= n < frames@.0 && n < limit ==> #[trigger] identity_mapped(
                        mapper.root(),
                        n,
                        flags@,
                    ),
                forall|q: int|
                    canonical_page(q) && !covered(sections, k as int, q) && !(first_frame(section) <= q
                        < frames@.0 && q < limit) ==> #[trigger] resolve(mapper.root(), q) == resolve(
                        before,
                        q,
                    ) && mapping(mapper.root(), q) == mapping(before, q),
            ensures
                frames@.0 >= stop,
            decreases stop - frames@.0,
        {
            let frame = match frames.next() {
                None => {
                    break ;
                },
                Some(frame) => frame,
            };
            let ghost current = mapper.root();
            let ghost drawn_before = *allocator;
            let mapped = mapper.identity_map(frame, flags, allocator);
            proof {
                Self::lemma_step(before, current, mapper.root(), sections, k as int, frame@, flags@, mapped);
                Self::lemma_walk_step(current, mapper.root(), frame@, flags@, source, drawn_before, *allocator, offset, mapped);
                if mapped is Ok && upper_free(current) {
                    lemma_upper_free(current, mapper.root(), frame@);
                }
                offset = offset + identity_used(paths_of(current), frame@, source, offset);
            }
            match mapped {
                Err(e) => {
                    return (Err(e), Ghost(offset));
                },
                Ok(()) => {},
            }
        }
        if limit > MAX_FRAME_NUMBER {
            let frame = PhysicalFrame::from_number(MAX_FRAME_NUMBER);
            let ghost current = mapper.root();
            let ghost drawn_before = *allocator;
            let mapped = mapper.identity_map(frame, flags, allocator);
            proof {
                Self::lemma_step(before, current, mapper.root(), sections, k as int, frame@, flags@, mapped);
                Self::lemma_walk_step(current, mapper.root(), frame@, flags@, source, drawn_before, *allocator, offset, mapped);
                if mapped is Ok && upper_free(current) {
                    lemma_upper_free(current, mapper.root(), frame@);
                }
                offset = offset + identity_used(paths_of(current), frame@, source, offset);
            }
            match mapped {
                Err(e) => {
                    return (Err(e), Ghost(offset));
                },
                Ok(()) => {},
            }
        }
        proof {
            let root = mapper.root();
            assert forall|i: int, n: int| 0 <= i < k + 1 && i < sections.len() && spans(sections[i], n) implies #[trigger] identity_mapped(
                root,
                n,
                section_flags(sections[i]),
            ) by {
                if i < k {
                    assert(identity_mapped(root, n, section_flags(sections[i])));
                } else {
                    assert(identity_mapped(root, n, flags@));
                }
            }
            assert forall|q: int| canonical_page(q) && !covered(sections, k + 1, q) implies #[trigger] resolve(
                root,
                q,
            ) == resolve(before, q) && mapping(root, q) == mapping(before, q) by {
                if covered(sections, k as int, q) {
                    let i = choose|i: int| 0 <= i < k && i < sections.len() && spans(#[trigger] sections[i], q);
                    assert(spans(sections[i], q));
                }
                if first_frame(section) <= q < limit {
                    assert(spans(sections[k as int], q));
                }
            }
        }
        (Ok(()), Ghost(offset))
    }

    /// Where the sections before section `k` that take up memory begin on
    /// page boundaries, a refusal at once comes from section `k` or from
    /// none: from section `k` where it is the first to take up memory and
    /// begins off a page boundary.
    proof fn lemma_refused_at_once(sections: Seq<ElfSection>, k: int)
        requires
            0 <= k <= sections.len(),
            forall|i: int| 0 <= i < k && (#[trigger] sections[i]).flags.allocated ==> sections[i].start % 4096 == 0,
        ensures
            refused_at_once(sections) ==> k < sections.len() && (forall|i: int|
                0 <= i < k ==> !(#[trigger] sections[i]).flags.allocated) && (sections[k].flags.allocated
                ==> sections[k].start % 4096 != 0),
    {
        if refused_at_once(sections) {
            let w = choose|w: int|
                0 <= w < sections.len() && (#[trigger] sections[w]).flags.allocated && sections[w].start % 4096
                    != 0 && forall|i: int| 0 <= i < w ==> !(#[trigger] sections[i]).flags.allocated;
            assert(w >= k);
            if k < w {
                assert(!sections[k].flags.allocated);
            }
        }
    }

    /// What mapping frame `n` to itself returned and drew, said over the
    /// source as it was `offset` answers earlier.
    proof fn lemma_walk_step<A: FrameAlloc>(
        current: PageTable<TableLevel4>,
        after: PageTable<TableLevel4>,
        n: int,
        flags: u64,
        source: A,
        drawn_before: A,
        drawn_after: A,
        offset: int,
        r: Result<(), PagingError>,
    )
        requires
            0 <= offset,
            offset + 3 <= u128::MAX,
            drawn(source, drawn_before, offset),
            !canonical_page(n) ==> r == Err::<(), PagingError>(PagingError::NonCanonicalAddress) && drawn_after
                == drawn_before,
            canonical_page(n) ==> map_outcome(current, after, n, n, flags, r),
            map_refusal(current, n, n) is Some ==> drawn_after == drawn_before,
            canonical_page(n) && map_refusal(current, n, n) is None ==> map_draws(
                current,
                n,
                n,
                drawn_before,
                drawn_after,
                r,
            ),
        ensures
            r == identity_result(paths_of(current), n, source, offset),
            drawn(source, drawn_after, offset + identity_used(paths_of(current), n, source, offset)),
            0 <= identity_used(paths_of(current), n, source, offset) <= 3,
            r is Ok ==> paths_of(after) == mapped_paths(paths_of(current), n),
    {
        if canonical_page(n) {
            lemma_map_at(current, n, n, source, drawn_before, drawn_after, offset, r);
        }
    }

    /// What mapping one more frame of section `k` does to what holds of
    /// the frames mapped so far.
    proof fn lemma_step(
        before: PageTable<TableLevel4>,
        current: PageTable<TableLevel4>,
        after: PageTable<TableLevel4>,
        sections: Seq<ElfSection>,
        k: int,
        n: int,
        flags: u64,
        r: Result<(), PagingError>,
    )
        requires
            0 <= k < sections.len(),
            sections[k].flags.allocated,
            flags == section_flags(sections[k]),
            flags | PRESENT == flags,
            first_frame(sections[k]) <= n < frame_limit(sections[k]),
            sections_mapped(current, sections, k),
            forall|m: int|
                first_frame(sections[k]) <= m < n ==> #[trigger] identity_mapped(current, m, flags),
            forall|q: int|
                canonical_page(q) && !covered(sections, k, q) && !(first_frame(sections[k]) <= q < n)
                    ==> #[trigger] resolve(current, q) == resolve(before, q) && mapping(current, q)
                    == mapping(before, q),
            !canonical_page(n) ==> r == Err::<(), PagingError>(PagingError::NonCanonicalAddress) && after
                == current,
            canonical_page(n) ==> map_outcome(current, after, n, n, flags, r),
        ensures
            r matches Err(e) ==> rest_kept(before, after, sections, sections.len() as int) && e
                != PagingError::UnalignedSection,
            r is Ok ==> {
                &&& sections_mapped(after, sections, k)
                &&& forall|m: int|
                    first_frame(sections[k]) <= m < n + 1 ==> #[trigger] identity_mapped(after, m, flags)
                &&& forall|q: int|
                    canonical_page(q) && !covered(sections, k, q) && !(first_frame(sections[k]) <= q < n + 1)
                        ==> #[trigger] resolve(after, q) == resolve(before, q) && mapping(after, q)
                        == mapping(before, q)
            },
    {
        match r {
            Err(e) => {
                assert forall|q: int|
                    canonical_page(q) && !covered(sections, sections.len() as int, q) implies #[trigger] resolve(
                    after,
                    q,
                ) == resolve(before, q) && mapping(after, q) == mapping(before, q) by {
                    assert(resolve(after, q) == resolve(current, q) && mapping(after, q) == mapping(current, q));
                    if covered(sections, k, q) {
                        let i = choose|i: int| 0 <= i < k && i < sections.len() && spans(#[trigger] sections[i], q);
                        assert(spans(sections[i], q));
                    }
                    if first_frame(sections[k]) <= q < n {
                        assert(spans(sections[k], q));
                    }
                }
            },
            Ok(_) => {
                assert forall|i: int, m: int|
                    0 <= i < k && i < sections.len() && spans(sections[i], m) implies #[trigger] identity_mapped(
                    after,
                    m,
                    section_flags(sections[i]),
                ) by {
                    assert(identity_mapped(current, m, section_flags(sections[i])));
                    if m == n {
                        lemma_mapped_is_refused(current, n, n);
                    }
                    assert(resolve(after, m) == resolve(current, m));
                }
                assert forall|m: int| first_frame(sections[k]) <= m < n + 1 implies #[trigger] identity_mapped(
                    after,
                    m,
                    flags,
                ) by {
                    if m < n {
                        assert(identity_mapped(current, m, flags));
                        assert(resolve(after, m) == resolve(current, m));
                    }
                }
                assert forall|q: int|
                    canonical_page(q) && !covered(sections, k, q) && !(first_frame(sections[k]) <= q < n + 1) implies #[trigger] resolve(
                    after,
                    q,
                ) == resolve(before, q) && mapping(after, q) == mapping(before, q) by {
                    assert(resolve(after, q) == resolve(current, q) && mapping(after, q) == mapping(current, q));
                }
            },
        }
    }
}

/// Why the memory of the kernel could not be set up.
#[derive(Debug, Clone, Copy, PartialEq, Eq, Structural)]
pub enum InitError {
    /// The page tables refused.
    Paging(PagingError),
    /// The heap refused.
    Heap(HeapError),
}

/// The address space and the heap of a kernel whose memory is set up.
pub struct KernelMemory {
    /// The address space in force.
    pub tables: ActivePageTable,
    /// The kernel heap.
    pub heap: LinkedListAllocator,
}

/// Whether `root` is the address space of the kernel image: every frame
/// that a section spans is mapped to itself with the flags of the section,
/// and every other page is mapped to nothing. The page `guard` is mapped to
/// nothing in any case; of the page `other` nothing is said.
pub open spec fn kernel_space(
    root: PageTable<TableLevel4>,
    sections: Seq<ElfSection>,
    guard: Option<int>,
    other: Option<int>,
) -> bool {
    &&& forall|i: int, n: int|
        0 <= i < sections.len() && spans(sections[i], n) && Some(n) != guard && Some(n) != other
            ==> #[trigger] identity_mapped(root, n, section_flags(sections[i]))
    &&& forall|q: int|
        canonical_page(q) && (!covered(sections, sections.len() as int, q) || Some(q) == guard) && Some(q)
            != other ==> #[trigger] resolve(root, q) == Ok::<Option<int>, PagingError>(None)
}

/// A root table that holds nothing but its recursive entry maps every page
/// to nothing.
pub proof fn lemma_fresh_space(root: PageTable<TableLevel4>, frame: int, q: int)
    requires
        root@ =~= zero_words().update(RECURSIVE_INDEX as int, table_word(frame)),
        root.children() =~= Seq::new(512, |i: int| None::<PageTable<TableLevel3>>),
    ensures
        resolve(root, q) == Ok::<Option<int>, PagingError>(None),
        mapping(root, q) is None,
{
    reveal(resolve);
    let i = self::paging::p4_index_of(q);
    assert(0 <= i < 512);
    assert(root.children()[i] is None);
}

/// Mapping the sections into a fresh address space gives the address space
/// of the kernel image.
pub proof fn lemma_built(
    fresh: PageTable<TableLevel4>,
    built: PageTable<TableLevel4>,
    sections: Seq<ElfSection>,
    frame: int,
)
    requires
        fresh@ =~= zero_words().update(RECURSIVE_INDEX as int, table_word(frame)),
        fresh.children() =~= Seq::new(512, |i: int| None::<PageTable<TableLevel3>>),
        rest_kept(fresh, built, sections, sections.len() as int),
        sections_mapped(built, sections, sections.len() as int),
    ensures
        kernel_space(built, sections, None, None),
{
    assert forall|q: int|
        canonical_page(q) && !covered(sections, sections.len() as int, q) implies #[trigger] resolve(built, q)
        == Ok::<Option<int>, PagingError>(None) by {
        lemma_fresh_space(fresh, frame, q);
    }
}

/// Unmapping the guard page in the address space of the kernel image gives
/// that address space less the guard page, unless the unmapping is
/// refused: then the address space stays as it is.
pub proof fn lemma_guarded(
    built: PageTable<TableLevel4>,
    root: PageTable<TableLevel4>,
    sections: Seq<ElfSection>,
    guard: int,
    r: Result<(), PagingError>,
)
    requires
        canonical_page(guard),
        kernel_space(built, sections, None, None),
        unmap_outcome(built, root, guard, r),
    ensures
        r is Ok ==> kernel_space(root, sections, Some(guard), None) && covered(
            sections,
            sections.len() as int,
            guard,
        ),
        r matches Err(e) ==> {
            ||| kernel_space(root, sections, None, None) && e == PagingError::NotMapped
            ||| kernel_space(root, sections, Some(guard), None) && e is Frames
        },
{
    if covered(sections, sections.len() as int, guard) {
        let i = choose|i: int| 0 <= i < sections.len() && i < sections.len() && spans(#[trigger] sections[i], guard);
        assert(identity_mapped(built, guard, section_flags(sections[i])));
        assert(p1_of(built, guard) is Some);
        assert forall|i: int, n: int|
            0 <= i < sections.len() && spans(sections[i], n) && n != guard implies #[trigger] identity_mapped(
            root,
            n,
            section_flags(sections[i]),
        ) by {
            assert(identity_mapped(built, n, section_flags(sections[i])));
            assert(resolve(root, n) == resolve(built, n));
        }
        assert forall|q: int|
            canonical_page(q) && (!covered(sections, sections.len() as int, q) || q == guard) implies #[trigger] resolve(
            root,
            q,
        ) == Ok::<Option<int>, PagingError>(None) by {
            if q != guard {
                assert(resolve(root, q) == resolve(built, q));
            }
        }
    } else {
        assert(resolve(built, guard) == Ok::<Option<int>, PagingError>(None));
    }
}

/// The inclusive range of addresses from the lowest start to the highest
/// end of `sections`: the range that the kernel image lies in. Without
/// sections there is no such range.
pub fn kernel_range(sections: &[ElfSection]) -> (range: Option<RangeInclusive<u64>>)
    ensures
        range is None == (sections@.len() == 0),
        range matches Some(r) ==> {
            &&& !r@.exhausted
            &&& forall|i: int| 0 <= i < sections@.len() ==> r@.start <= (#[trigger] sections@[i]).start
            &&& exists|i: int| 0 <= i < sections@.len() && (#[trigger] sections@[i]).start == r@.start
            &&& forall|i: int| 0 <= i < sections@.len() ==> (#[trigger] sections@[i]).end <= r@.end
            &&& exists|i: int| 0 <= i < sections@.len() && (#[trigger] sections@[i]).end == r@.end
        },
{
    if sections.len() == 0 {
        return None;
    }
    let mut lowest: u64 = sections[0].start;
    let mut highest: u64 = sections[0].end;
    let mut k: usize = 1;
    while k < sections.len()
        invariant
            1 <= k <= sections@.len(),
            forall|i: int| 0 <= i < k ==> lowest <= (#[trigger] sections@[i]).start,
            exists|i: int| 0 <= i < k && (#[trigger] sections@[i]).start == lowest,
            forall|i: int| 0 <= i < k ==> (#[trigger] sections@[i]).end <= highest,
            exists|i: int| 0 <= i < k && (#[trigger] sections@[i]).end == highest,
        decreases sections@.len() - k,
    {
        if sections[k].start < lowest {
            lowest = sections[k].start;
        }
        if sections[k].end > highest {
            highest = sections[k].end;
        }
        k += 1;
    }
    Some(RangeInclusive::new(lowest, highest))
}

/// Number of the page that is set aside for reaching frames while a new
/// address space is built.
pub open spec fn temporary_page() -> int {
    TEMPORARY_PAGE_ADDRESS as int / 4096
}

/// The refusal with which remapping ends before a new address space is
/// edited, decided by the address space `root` in force and the first four
/// answers of the frame source.
///
/// The first three answers fill the pool of the temporary page, the fourth
/// is the frame of the new root table: without it the refusal is
/// `OutOfMemory`. The new address space must come about in that frame, see
/// [`new_refusal`], and the tree in force must hold no table behind its
/// recursive entry.
pub open spec fn remap_refusal<A: FrameAlloc>(root: PageTable<TableLevel4>, source: A) -> Option<PagingError> {
    let slots = seq![source.answer(0), source.answer(1), source.answer(2)];
    match source.answer(3) {
        None => Some(PagingError::OutOfMemory),
        Some(frame) => if new_refusal(root, temporary_page(), frame@, slots) is Some {
            new_refusal(root, temporary_page(), frame@, slots)
        } else if root.children()[RECURSIVE_INDEX as int] is Some {
            Some(PagingError::EntryInUse)
        } else {
            None
        },
    }
}

/// What a new address space says to mapping before anything is mapped in
/// it: three tables are missing on the way to every page, and the pages
/// behind the recursive entry of the root table are refused with
/// `EntryInUse`.
pub open spec fn fresh_paths() -> Paths {
    Paths {
        missing: |q: int| 3int,
        refusal: |q: int, g: int|
            if self::paging::p4_index_of(q) == RECURSIVE_INDEX as int {
                Some(PagingError::EntryInUse)
            } else {
                None::<PagingError>
            },
    }
}

/// A root table that holds nothing but its recursive entry says to
/// mapping what `fresh_paths` says.
pub proof fn lemma_fresh_paths(root: PageTable<TableLevel4>, frame: int)
    requires
        0 <= frame < 0x100_0000_0000,
        root@ =~= zero_words().update(RECURSIVE_INDEX as int, table_word(frame)),
        root.children() =~= Seq::new(512, |i: int| None::<PageTable<TableLevel3>>),
    ensures
        paths_of(root) == fresh_paths(),
        paths_bounded(fresh_paths()),
{
    let word = table_word(frame);
    assert((PRESENT | WRITABLE) & !FLAGS_MASK == 0 && (PRESENT | WRITABLE) & PRESENT == PRESENT && (PRESENT
        | WRITABLE) & self::paging::entry::HUGEPAGE != self::paging::entry::HUGEPAGE) by (bit_vector);
    self::paging::entry::lemma_entry_fields(frame, PRESENT | WRITABLE);
    assert(self::paging::entry::word_present(word) && !self::paging::entry::word_huge(word));
    assert(!self::paging::entry::word_present(0u64) && !self::paging::entry::word_huge(0u64)) by (bit_vector);
    assert forall|q: int| #[trigger] missing_tables(root, q) == 3 by {
        let i = self::paging::p4_index_of(q);
        assert(0 <= i < 512);
        assert(root.children()[i] is None);
    }
    assert forall|q: int, g: int| #[trigger]
        map_refusal(root, q, g) == (fresh_paths().refusal)(q, g) by {
        let i = self::paging::p4_index_of(q);
        assert(0 <= i < 512);
        assert(root.children()[i] is None);
        if i != RECURSIVE_INDEX {
            assert(root@[i] == 0);
        } else {
            assert(root@[i] == word);
        }
    }
    assert(paths_of(root).missing =~= fresh_paths().missing);
    assert(paths_of(root).refusal =~= fresh_paths().refusal);
}

/// Whether remapping gets as far as putting the new address space in
/// force: a new address space has come about, the frame of the old root
/// table fits an entry, every section is mapped, and the pool of the
/// temporary page has a slot for the frame of the old root table.
pub open spec fn remap_switches<A: FrameAlloc>(
    root: PageTable<TableLevel4>,
    frame: int,
    sections: Seq<ElfSection>,
    source: A,
) -> bool {
    let slots = seq![source.answer(0), source.answer(1), source.answer(2)];
    &&& remap_refusal(root, source) is None
    &&& frame < 0x100_0000_0000
    &&& walk(sections, 0, 0, false, fresh_paths(), source, 4).result is Ok
    &&& takes_second(slots, missing_tables(root, temporary_page())) is Ok
}

/// Whether the page at the address of frame `frame` becomes the guard
/// page: the page exists, and a section spans the frame.
pub open spec fn guarded(sections: Seq<ElfSection>, frame: int) -> bool {
    canonical_page(frame) && covered(sections, sections.len() as int, frame)
}

/// What remapping makes of the answer of the frame source to the frame of
/// the old root table.
///
/// Whether frames are handed out again is for the source to decide, and
/// remapping does not count on it: a source that takes no frames back
/// says `Unsupported`, and the frame is then left unused behind the guard
/// page. Any other refusal is a failure of the source and comes as
/// `Frames`.
pub open spec fn guard_result(answer: Result<(), FrameError>) -> Result<(), PagingError> {
    match answer {
        Err(FrameError::Unsupported) => Ok(()),
        _ => frames_result(answer),
    }
}

/// What remapping returns once a new address space has come about, that
/// is, where [`remap_refusal`] says nothing.
///
/// `root` is the address space in force and `frame` the frame of its root
/// table; the answers of `source` from the fifth on serve the mapping of
/// the sections. In order: the frame of the old root table must fit an
/// entry, so that it can be reached while the new tables are edited; the
/// sections are mapped as [`walk`] says, and the first refusal ends the
/// work; the pool of the temporary page must have a slot for the frame of
/// the old root table; the page at the address of that frame must exist
/// and must be mapped, which it is where a section spans the frame; and
/// the result is what [`guard_result`] makes of the answer of the source
/// to taking that frame back.
pub open spec fn remap_outcome<A: FrameAlloc>(
    root: PageTable<TableLevel4>,
    frame: int,
    sections: Seq<ElfSection>,
    source: A,
) -> Result<(), PagingError> {
    let slots = seq![source.answer(0), source.answer(1), source.answer(2)];
    let image = walk(sections, 0, 0, false, fresh_paths(), source, 4);
    let pool = takes_second(slots, missing_tables(root, temporary_page()));
    if frame >= 0x100_0000_0000 {
        Err(PagingError::FrameOutOfRange)
    } else if image.result is Err {
        image.result
    } else if pool is Err {
        frames_result(pool)
    } else if !canonical_page(frame) {
        Err(PagingError::NonCanonicalAddress)
    } else if !covered(sections, sections.len() as int, frame) {
        Err(PagingError::NotMapped)
    } else {
        guard_result(source.takes(remap_used(sections, source), PhysicalFrame::of(frame)))
    }
}

/// What editing a new address space comes to in remapping: the temporary
/// page, whose tables exist, is mapped without a frame of the pool unless
/// the frame of the old root table fits no entry, and the sections are
/// mapped into the new address space with the answers of the frame source
/// from the fifth on.
pub proof fn lemma_edited<A: FrameAlloc>(
    reached: PageTable<TableLevel4>,
    fresh: PageTable<TableLevel4>,
    frame: int,
    old_frame: int,
    pool: TinyAlloc,
    sections: Seq<ElfSection>,
    first: A,
    later: A,
)
    requires
        0 <= frame < 0x100_0000_0000,
        leaf_word(reached, temporary_page()) == Some(0u64),
        fresh@ =~= zero_words().update(RECURSIVE_INDEX as int, table_word(frame)),
        fresh.children() =~= Seq::new(512, |i: int| None::<PageTable<TableLevel3>>),
        drawn(first, later, 4),
        sections.len() <= usize::MAX,
    ensures
        map_result(paths_of(reached), temporary_page(), old_frame, pool, 0) == if old_frame >= 0x100_0000_0000 {
            Err::<(), PagingError>(PagingError::FrameOutOfRange)
        } else {
            Ok::<(), PagingError>(())
        },
        map_used(paths_of(reached), temporary_page(), old_frame, pool, 0) == 0,
        walk(sections, 0, 0, false, paths_of(fresh), later, 0).result == walk(
            sections,
            0,
            0,
            false,
            fresh_paths(),
            first,
            4,
        ).result,
        walk(sections, 0, 0, false, paths_of(fresh), later, 0).used + 4 == walk(
            sections,
            0,
            0,
            false,
            fresh_paths(),
            first,
            4,
        ).used,
        0 <= walk(sections, 0, 0, false, paths_of(fresh), later, 0).used <= walk_limit(sections),
{
    lemma_fresh_paths(fresh, frame);
    lemma_walk_shift(sections, 0, 0, false, fresh_paths(), first, later, 4, 0);
    assert(missing_tables(reached, temporary_page()) == 0);
    assert(map_refusal(reached, temporary_page(), old_frame) == if old_frame >= 0x100_0000_0000 {
        Some(PagingError::FrameOutOfRange)
    } else {
        None::<PagingError>
    });
}

/// In the address space of the kernel image, unmapping a page reaches the
/// frame source exactly where a section spans the frame with the number
/// of the page; any other page is mapped to nothing.
pub proof fn lemma_guard_reached(built: PageTable<TableLevel4>, sections: Seq<ElfSection>, guard: int)
    requires
        canonical_page(guard),
        kernel_space(built, sections, None, None),
    ensures
        covered(sections, sections.len() as int, guard) ==> unmap_reaches_frames(built, guard) && resolve(
            built,
            guard,
        ) == Ok::<Option<int>, PagingError>(Some(guard)),
        !covered(sections, sections.len() as int, guard) ==> resolve(built, guard) == Ok::<
            Option<int>,
            PagingError,
        >(None),
{
    if covered(sections, sections.len() as int, guard) {
        let i = choose|i: int| 0 <= i < sections.len() && i < sections.len() && spans(#[trigger] sections[i], guard);
        assert(identity_mapped(built, guard, section_flags(sections[i])));
    }
}

/// Number of answers of the frame source that are used up when the
/// sections are mapped into the new address space: four for the pool and
/// the new root table, and those that mapping the sections takes.
pub open spec fn remap_used<A: FrameAlloc>(sections: Seq<ElfSection>, source: A) -> u128 {
    walk(sections, 0, 0, false, fresh_paths(), source, 4).used as u128
}

/// Where a new address space came about through the temporary page, only
/// a table behind the recursive entry of the tree in force keeps it from
/// being edited.
pub proof fn lemma_with_refusal(
    before: PageTable<TableLevel4>,
    after: PageTable<TableLevel4>,
    frame: int,
    slots: Seq<Option<PhysicalFrame>>,
)
    requires
        new_refusal(before, temporary_page(), frame, slots) is None,
        same_everywhere(before, after),
        only_slot(before, after, self::paging::p4_index_of(temporary_page())),
    ensures
        with_refusal(after, temporary_page(), frame) == if before.children()[RECURSIVE_INDEX as int] is Some {
            Some(PagingError::EntryInUse)
        } else {
            None::<PagingError>
        },
{
    assert(canonical_page(temporary_page()));
    assert(self::paging::p4_index_of(temporary_page()) == 0);
    assert(resolve(after, temporary_page()) == resolve(before, temporary_page()));
    assert(after.children()[RECURSIVE_INDEX as int] == before.children()[RECURSIVE_INDEX as int]);
}

/// Builds a new address space for the kernel image and puts it in force.
///
/// A pool of three frames is drawn from `allocator` for the temporary page,
/// then one frame for the new root table. Every frame that a section spans
/// is mapped to itself in the new address space, with the flags of the
/// section. The new address space is put in force, and the page at the
/// address of the old root table is unmapped, so that it guards against
/// running over; its frame is offered to `allocator`, which need not take
/// it (see [`guard_result`]).
///
/// What ends the remapping before the new address space is edited is said
/// by [`remap_refusal`]; from then on the result is that of
/// [`remap_outcome`]. Where a section that takes up memory begins off a
/// page boundary, remapping is refused and the old address space stays in
/// force.
///
/// Whether the new address space is put in force is said by
/// [`remap_switches`]. Where it is not, the old address space stays in
/// force and translates as before, and `allocator` has used up its first
/// four answers, and those for the sections where remapping got as far
/// as mapping them. Where it is, the root table in force
/// lies in the fourth frame that `allocator` handed out, and the address
/// space in force is that of the kernel image: less the guard page where
/// the page at the address of the old root table exists and a section
/// spans it (see [`guarded`]), whatever `allocator` says to the frame.
#[verifier::rlimit(30)]
pub fn remap_kernel<A: FrameAlloc>(
    allocator: &mut A,
    active_table: &mut ActivePageTable,
    sections: &[ElfSection],
) -> (r: Result<(), PagingError>)
    ensures
        remap_refusal(old(active_table).root(), *old(allocator)) matches Some(e) ==> r == Err::<
            (),
            PagingError,
        >(e) && final(active_table).frame() == old(active_table).frame() && same_everywhere(
            old(active_table).root(),
            final(active_table).root(),
        ),
        unaligned_from(sections@, 0) ==> r is Err && final(active_table).frame() == old(active_table).frame()
            && same_everywhere(old(active_table).root(), final(active_table).root()),
        remap_refusal(old(active_table).root(), *old(allocator)) is None ==> r == remap_outcome(
            old(active_table).root(),
            old(active_table).frame()@,
            sections@,
            *old(allocator),
        ),
        r is Ok ==> kernel_space(
            final(active_table).root(),
            sections@,
            Some(old(active_table).frame()@),
            None,
        ) && covered(sections@, sections@.len() as int, old(active_table).frame()@) && Some(
            final(active_table).frame(),
        ) == old(allocator).answer(3),
        r is Ok ==> upper_free(final(active_table).root()),
        r is Ok ==> forall|n: u128| #[trigger]
            final(allocator).answer(n) == old(allocator).answer_after(
                remap_used(sections@, *old(allocator)),
                old(active_table).frame(),
                n,
            ),
        if remap_switches(old(active_table).root(), old(active_table).frame()@, sections@, *old(allocator)) {
            &&& Some(final(active_table).frame()) == old(allocator).answer(3)
            &&& kernel_space(
                final(active_table).root(),
                sections@,
                if guarded(sections@, old(active_table).frame()@) {
                    Some(old(active_table).frame()@)
                } else {
                    None
                },
                None,
            )
            &&& guarded(sections@, old(active_table).frame()@) ==> forall|n: u128| #[trigger]
                final(allocator).answer(n) == old(allocator).answer_after(
                    remap_used(sections@, *old(allocator)),
                    old(active_table).frame(),
                    n,
                )
            &&& !guarded(sections@, old(active_table).frame()@) ==> drawn(
                *old(allocator),
                *final(allocator),
                remap_used(sections@, *old(allocator)) as int,
            )
        } else {
            &&& final(active_table).frame() == old(active_table).frame()
            &&& same_everywhere(old(active_table).root(), final(active_table).root())
            &&& drawn(
                *old(allocator),
                *final(allocator),
                if remap_refusal(old(active_table).root(), *old(allocator)) is Some || old(active_table).frame()@
                    >= 0x100_0000_0000 {
                    4
                } else {
                    remap_used(sections@, *old(allocator)) as int
                },
            )
        },
{
    let page = Page::containing_address(TEMPORARY_PAGE_ADDRESS)?;
    let ghost root_before = old(active_table).root();
    let ghost first = *old(allocator);
    let ghost old_frame = old(active_table).frame()@;
    let mut temp_page = TemporaryPage::new(page, allocator);
    let ghost slots = temp_page.pool();
    let ghost drawn_three = *allocator;
    let frame = match allocator.allocate_frame() {
        None => {
            proof {
                assert(drawn_three.answer(0) == old(allocator).answer(3));
            }
            return Err(PagingError::OutOfMemory);
        },
        Some(frame) => frame,
    };
    let ghost drawn_four = *allocator;
    proof {
        assert(drawn_three.answer(0) == old(allocator).answer(3));
        assert(drawn(drawn_three, drawn_four, 1));
        lemma_drawn_add(first, drawn_three, drawn_four, 3, 1);
    }
    let mut new_table = match InactivePageTable::new(frame, active_table, &mut temp_page) {
        Err(e) => {
            return Err(e);
        },
        Ok(table) => table,
    };
    let ghost fresh = new_table.root();
    let ghost reached = active_table.root();
    let ghost pool = temp_page.source();
    let ghost image = walk(sections@, 0, 0, false, fresh_paths(), first, 4);
    proof {
        lemma_with_refusal(root_before, reached, frame@, slots);
        PhysicalFrame::lemma_view(frame, frame);
        assert(sections@.len() == sections.len());
        lemma_edited(reached, fresh, frame@, old_frame, pool, sections@, first, drawn_four);
    }
    let work = KernelSections { sections };
    let edited = active_table.with(&mut new_table, &mut temp_page, allocator, &work);
    let ghost drawn_all = *allocator;
    proof {
        assert forall|q: int| canonical_page(q) implies #[trigger] resolve(active_table.root(), q) == resolve(
            root_before,
            q,
        ) && mapping(active_table.root(), q) == mapping(root_before, q) by {}
        if root_before.children()[RECURSIVE_INDEX as int] is None {
            assert(edited == if old_frame >= 0x100_0000_0000 {
                Err::<(), PagingError>(PagingError::FrameOutOfRange)
            } else if image.result is Err {
                image.result
            } else {
                frames_result(takes_second(slots, missing_tables(root_before, temporary_page())))
            });
        }
    }
    match edited {
        Err(e) => {
            return Err(e);
        },
        Ok(_) => {},
    }
    let ghost built = new_table.root();
    proof {
        lemma_built(fresh, built, sections@, frame@);
        lemma_drawn_add(first, drawn_four, drawn_all, 4, image.used - 4);
    }
    let old_table = active_table.switch(new_table);
    let guard = old_table.p4_frame();
    let old_page = Page::containing_address(guard.start_address())?;
    let unmapped = active_table.unmap(old_page, allocator);
    proof {
        lemma_guarded(built, active_table.root(), sections@, guard@, unmapped);
        lemma_guard_reached(built, sections@, guard@);
        PhysicalFrame::lemma_of(guard, 0);
        assert(drawn_all.takes(0, guard) == first.takes(image.used as u128, guard));
        assert forall|n: u128| #[trigger]
            drawn_all.answer_after(0, guard, n) == first.answer_after(image.used as u128, guard, n) by {}
        lemma_fresh_upper(fresh, frame@);
        if covered(sections@, sections@.len() as int, guard@) {
            lemma_upper_free(built, active_table.root(), guard@);
        }
    }
    match unmapped {
        Err(PagingError::Frames(FrameError::Unsupported)) => Ok(()),
        Err(e) => Err(e),
        Ok(_) => unmapped,
    }
}

/// What setting up the memory of the kernel comes to.
///
/// `empty` is the address space that is in force at first, with nothing
/// mapped in it; `root` is the frame of its root table. The kernel image is
/// remapped, see [`remap_refusal`] and [`remap_outcome`]; a refusal ends
/// the work. The frame source was then offered the frame `root`, after
/// `remap_used` answers, and its next answer is the frame of the heap:
/// without one the refusal is `OutOfMemory`. The three answers after that
/// are the frames of the tables on the way to the page of the heap: the
/// first of them that cannot hold a table ends the work with its refusal.
/// Then the frame of the heap must fit an entry. In the end the heap
/// refuses where its page does not fit the addresses of the machine.
pub open spec fn init_outcome<A: FrameAlloc>(
    empty: PageTable<TableLevel4>,
    source: A,
    root: PhysicalFrame,
    sections: Seq<ElfSection>,
) -> Result<(), InitError> {
    let used = remap_used(sections, source);
    let heap = source.answer_after(used, root, 0);
    let level3 = source.answer_after(used, root, 1);
    let level2 = source.answer_after(used, root, 2);
    let level1 = source.answer_after(used, root, 3);
    if remap_refusal(empty, source) is Some {
        Err(InitError::Paging(remap_refusal(empty, source).unwrap()))
    } else if remap_outcome(empty, root@, sections, source) is Err {
        Err(InitError::Paging(remap_outcome(empty, root@, sections, source)->Err_0))
    } else if heap is None {
        Err(InitError::Paging(PagingError::OutOfMemory))
    } else if !usable_frame(level3) {
        Err(InitError::Paging(frame_refusal(level3)))
    } else if !usable_frame(level2) {
        Err(InitError::Paging(frame_refusal(level2)))
    } else if !usable_frame(level1) {
        Err(InitError::Paging(frame_refusal(level1)))
    } else if heap.unwrap()@ >= 0x100_0000_0000 {
        Err(InitError::Paging(PagingError::FrameOutOfRange))
    } else if HEAP_ADDRESS + 4096 > usize::MAX {
        Err(InitError::Heap(HeapError::InvalidRegion))
    } else {
        Ok(())
    }
}

/// Two address spaces in which nothing is mapped refuse remapping alike.
pub proof fn lemma_empty_refusal<A: FrameAlloc>(
    empty: PageTable<TableLevel4>,
    other: PageTable<TableLevel4>,
    source: A,
)
    requires
        empty.is_zero(),
        other.is_zero(),
    ensures
        remap_refusal(other, source) == remap_refusal(empty, source),
        missing_tables(other, temporary_page()) == missing_tables(empty, temporary_page()),
{
    reveal(resolve);
    assert(!self::paging::entry::word_present(0u64) && !self::paging::entry::word_huge(0u64)) by (bit_vector);
    let page = temporary_page();
    let i = self::paging::p4_index_of(page);
    assert(0 <= i < 512);
    assert(empty@[i] == 0 && other@[i] == 0);
    assert(empty.next_level_spec(i) is None && other.next_level_spec(i) is None);
    assert(empty.children()[RECURSIVE_INDEX as int] is None);
    assert(other.children()[RECURSIVE_INDEX as int] is None);
    assert(resolve(empty, page) == resolve(other, page));
    assert forall|g: int| map_refusal(empty, page, g) == map_refusal(other, page, g) by {}
}

/// Two address spaces in which nothing is mapped are remapped alike.
pub proof fn lemma_empty_spaces<A: FrameAlloc>(
    empty: PageTable<TableLevel4>,
    other: PageTable<TableLevel4>,
    source: A,
    root: PhysicalFrame,
    sections: Seq<ElfSection>,
)
    requires
        empty.is_zero(),
        other.is_zero(),
    ensures
        init_outcome(other, source, root, sections) == init_outcome(empty, source, root, sections),
{
    lemma_empty_refusal(empty, other, source);
}

/// What mapping the page of the heap returns in an address space whose
/// upper half is unused: three tables are missing on the way to the page,
/// and nothing is refused before their frames are drawn.
pub proof fn lemma_heap_page<A: FrameAlloc>(
    root: PageTable<TableLevel4>,
    frame: int,
    before: A,
    after: A,
    r: Result<(), PagingError>,
)
    requires
        upper_free(root),
        map_refusal(root, HEAP_ADDRESS as int / 4096, frame) is None ==> map_draws(
            root,
            HEAP_ADDRESS as int / 4096,
            frame,
            before,
            after,
            r,
        ),
    ensures
        r == if !usable_frame(before.answer(0)) {
            Err::<(), PagingError>(frame_refusal(before.answer(0)))
        } else if !usable_frame(before.answer(1)) {
            Err(frame_refusal(before.answer(1)))
        } else if !usable_frame(before.answer(2)) {
            Err(frame_refusal(before.answer(2)))
        } else if frame >= 0x100_0000_0000 {
            Err(PagingError::FrameOutOfRange)
        } else {
            Ok(())
        },
{
    let page = HEAP_ADDRESS as int / 4096;
    assert(self::paging::p4_index_of(page) == 510);
    assert(root@[510] == 0 && root.children()[510] is None);
    assert(!self::paging::entry::word_present(0u64) && !self::paging::entry::word_huge(0u64) && 0u64
        & self::paging::entry::HUGEPAGE != self::paging::entry::HUGEPAGE) by (bit_vector);
    assert(missing_tables(root, page) == 3);
    assert(map_refusal(root, page, frame) is None);
    match r {
        Ok(unit) => {
            assert(unit == ());
        },
        Err(_) => {},
    }
}

/// Sets up the memory of the kernel: remaps the kernel image (see
/// [`remap_kernel`]), maps one fresh frame, writable, at `HEAP_ADDRESS`,
/// and gives that page to a new heap.
///
/// `root` is the frame of the root table that is in force at boot;
/// `allocator` is the frame source. Whether the work succeeds, and the
/// refusal where it does not, is said by [`init_outcome`], over any
/// address space `empty` in which nothing is mapped. After success the
/// address space in force is that of the kernel image, less the guard
/// page, plus the page of the heap, and the heap is one free node over
/// that page.
#[verifier::rlimit(30)]
pub fn init<A: FrameAlloc>(allocator: &mut A, root: PhysicalFrame, sections: &[ElfSection]) -> (r: Result<
    KernelMemory,
    InitError,
>)
    ensures
        forall|empty: PageTable<TableLevel4>| #[trigger]
            empty.is_zero() ==> {
                &&& r is Ok == (init_outcome(empty, *old(allocator), root, sections@) is Ok)
                &&& r matches Err(e) ==> init_outcome(empty, *old(allocator), root, sections@) == Err::<
                    (),
                    InitError,
                >(e)
                &&& remap_refusal(empty, *old(allocator)) matches Some(e) ==> r == Err::<
                    KernelMemory,
                    InitError,
                >(InitError::Paging(e))
            },
        unaligned_from(sections@, 0) ==> r is Err,
        r matches Ok(memory) ==> {
            &&& kernel_space(memory.tables.root(), sections@, Some(root@), Some(HEAP_ADDRESS as int / 4096))
            &&& resolve(memory.tables.root(), HEAP_ADDRESS as int / 4096) matches Ok(Some(_))
            &&& mapping(memory.tables.root(), HEAP_ADDRESS as int / 4096) matches Some(w) && w & FLAGS_MASK
                == WRITABLE | PRESENT
            &&& memory.heap@ == seq![
                LinkedAllocatorNode {
                    size: (4096 - crate::allocator::HEADER_SIZE) as usize,
                    free: true,
                    next: None,
                    address: HEAP_ADDRESS as usize,
                },
            ]
            &&& memory.tables.frame() == old(allocator).answer(3).unwrap()
            &&& forall|n: u128|
                n + 4 <= u128::MAX ==> #[trigger] final(allocator).answer(n) == old(allocator).answer_after(
                    remap_used(sections@, *old(allocator)),
                    root,
                    (n + 4) as u128,
                )
        },
{
    let mut tables = ActivePageTable::new(root);
    let ghost empty = tables.root();
    let ghost source = *old(allocator);
    let ghost outcome = init_outcome(empty, source, root, sections@);
    proof {
        assert forall|other: PageTable<TableLevel4>| #[trigger] other.is_zero() implies init_outcome(
            other,
            source,
            root,
            sections@,
        ) == outcome && remap_refusal(other, source) == remap_refusal(empty, source) by {
            lemma_empty_spaces(empty, other, source, root, sections@);
            lemma_empty_refusal(empty, other, source);
        }
    }
    match remap_kernel(allocator, &mut tables, sections) {
        Err(e) => {
            return Err(InitError::Paging(e));
        },
        Ok(_) => {},
    }
    let ghost remapped = tables.root();
    let ghost given = *allocator;
    let page = match Page::containing_address(HEAP_ADDRESS) {
        Err(e) => {
            return Err(InitError::Paging(e));
        },
        Ok(page) => page,
    };
    let frame = match allocator.allocate_frame() {
        None => {
            return Err(InitError::Paging(PagingError::OutOfMemory));
        },
        Some(frame) => frame,
    };
    let ghost drawn_heap = *allocator;
    let flags = EntryFlags::from_bits_truncate(WRITABLE);
    assert(WRITABLE & FLAGS_MASK == WRITABLE) by (bit_vector);
    let mapped = tables.map_to(page, frame, flags, allocator);
    proof {
        assert(drawn_heap.answer(0) == given.answer(1));
        assert(drawn_heap.answer(1) == given.answer(2));
        assert(drawn_heap.answer(2) == given.answer(3));
        lemma_heap_page(remapped, frame@, drawn_heap, *allocator, mapped);
    }
    match mapped {
        Err(e) => {
            return Err(InitError::Paging(e));
        },
        Ok(_) => {},
    }
    proof {
        let after = tables.root();
        assert((WRITABLE | PRESENT) & !FLAGS_MASK == 0) by (bit_vector);
        PhysicalFrame::lemma_view(frame, frame);
        self::paging::entry::lemma_entry_fields(frame@, WRITABLE | PRESENT);
        assert forall|i: int, n: int|
            0 <= i < sections@.len() && spans(sections@[i], n) && n != root@ && n != HEAP_ADDRESS as int
                / 4096 implies #[trigger] identity_mapped(after, n, section_flags(sections@[i])) by {
            assert(identity_mapped(remapped, n, section_flags(sections@[i])));
            assert(resolve(after, n) == resolve(remapped, n));
        }
        assert forall|q: int|
            canonical_page(q) && (!covered(sections@, sections@.len() as int, q) || q == root@) && q
                != HEAP_ADDRESS as int / 4096 implies #[trigger] resolve(after, q) == Ok::<
            Option<int>,
            PagingError,
        >(None) by {
            assert(resolve(after, q) == resolve(remapped, q));
        }
    }
    let start: u64 = page.start_address();
    if start > usize::MAX as u64 - PAGE_SIZE {
        return Err(InitError::Heap(HeapError::InvalidRegion));
    }
    let node = LinkedAllocatorNode::new(PAGE_SIZE as usize);
    let mut heap = LinkedListAllocator::new();
    match heap.init(start as usize, node) {
        Err(e) => {
            return Err(InitError::Heap(e));
        },
        Ok(_) => {},
    }
    Ok(KernelMemory { tables, heap })
}

} // verus!
