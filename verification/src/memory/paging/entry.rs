//! One 64-bit word of a page table: a frame address and flag bits.
use vstd::prelude::*;
use super::{canonical_page, PagingError};
use super::super::frames::PhysicalFrame;

verus! {

/// The bits of an entry that hold the frame address: bits 12 to 51.
pub const ADDRESS_MASK: u64 = 0x000f_ffff_ffff_f000;

/// The bits of an entry that are flags.
pub const FLAGS_MASK: u64 = 0x8000_0000_0000_01ff;

/// The mapping is in force.
pub const PRESENT: u64 = 1 << 0;

/// The memory may be written.
pub const WRITABLE: u64 = 1 << 1;

/// The memory may be reached from user mode.
pub const USERACCESSIBLE: u64 = 1 << 2;

/// Writes go straight to memory.
pub const WRITETHROUGH: u64 = 1 << 3;

/// The memory is not cached.
pub const NO_CACHE: u64 = 1 << 4;

/// Set by the processor when the memory is read.
pub const ACCESSED: u64 = 1 << 5;

/// Set by the processor when the memory is written.
pub const DIRTY: u64 = 1 << 6;

/// The entry maps a huge page instead of leading to a table.
pub const HUGEPAGE: u64 = 1 << 7;

/// The mapping survives a switch of address space.
pub const GLOBAL: u64 = 1 << 8;

/// The memory holds no code.
pub const NOEXECUTE: u64 = 1 << 63;

/// Whether the word of an entry has the flag `PRESENT`.
pub open spec fn word_present(word: u64) -> bool {
    word & PRESENT == PRESENT
}

/// Whether the word of an entry has the flag `HUGEPAGE`.
pub open spec fn word_huge(word: u64) -> bool {
    word & HUGEPAGE == HUGEPAGE
}

/// Number of the frame whose address the word of an entry holds.
pub open spec fn word_frame(word: u64) -> int {
    (word & ADDRESS_MASK) as int / 4096
}

/// A set of flags of a page-table entry.
#[derive(Clone, Copy, Debug, PartialEq, Eq, Structural)]
pub struct EntryFlags {
    bits: u64,
}

impl View for EntryFlags {
    type V = u64;

    /// The flags as bits of an entry.
    closed spec fn view(&self) -> u64 {
        self.bits
    }
}

impl EntryFlags {
    #[verifier::type_invariant]
    spec fn known(self) -> bool {
        self.bits & !FLAGS_MASK == 0
    }

    /// The set with the flags of `bits` that are known; other bits are
    /// dropped.
    pub fn from_bits_truncate(bits: u64) -> (flags: Self)
        ensures
            flags@ == bits & FLAGS_MASK,
    {
        assert((bits & FLAGS_MASK) & !FLAGS_MASK == 0) by (bit_vector);
        EntryFlags { bits: bits & FLAGS_MASK }
    }

    /// The set without flags.
    pub fn empty() -> (flags: Self)
        ensures
            flags@ == 0,
    {
        assert(0u64 & !FLAGS_MASK == 0) by (bit_vector);
        EntryFlags { bits: 0 }
    }

    /// The flags as bits of an entry.
    pub fn bits(&self) -> (bits: u64)
        ensures
            bits == self@,
            bits & !FLAGS_MASK == 0,
    {
        proof {
            use_type_invariant(self);
        }
        self.bits
    }

    /// Whether every flag of `other` is in this set.
    pub fn contains(&self, other: EntryFlags) -> (all: bool)
        ensures
            all == (self@ & other@ == other@),
    {
        self.bits & other.bits == other.bits
    }

    /// Adds the flags of `other` to this set.
    pub fn insert(&mut self, other: EntryFlags)
        ensures
            final(self)@ == old(self)@ | other@,
    {
        proof {
            use_type_invariant(&*self);
            use_type_invariant(&other);
        }
        let a: u64 = self.bits;
        let b: u64 = other.bits;
        assert((a | b) & !FLAGS_MASK == 0) by (bit_vector)
            requires
                a & !FLAGS_MASK == 0,
                b & !FLAGS_MASK == 0,
        ;
        self.bits = a | b;
    }

    /// The set with the flags of both sets.
    pub fn union(self, other: EntryFlags) -> (both: EntryFlags)
        ensures
            both@ == self@ | other@,
    {
        let mut both = self;
        both.insert(other);
        both
    }
}

/// The word of an entry that holds the frame at `start` with `flags`: the
/// address and the flags can be read back from it.
pub proof fn lemma_word(start: u64, flags: u64)
    requires
        start & !ADDRESS_MASK == 0,
        flags & !FLAGS_MASK == 0,
    ensures
        (start | flags) & ADDRESS_MASK == start,
        (start | flags) & FLAGS_MASK == flags,
        word_present(start | flags) == (flags & PRESENT == PRESENT),
        word_huge(start | flags) == (flags & HUGEPAGE == HUGEPAGE),
{
    assert((start | flags) & ADDRESS_MASK == start && (start | flags) & FLAGS_MASK == flags && ((start
        | flags) & PRESENT == PRESENT) == (flags & PRESENT == PRESENT) && ((start | flags) & HUGEPAGE
        == HUGEPAGE) == (flags & HUGEPAGE == HUGEPAGE)) by (bit_vector)
        requires
            start & !ADDRESS_MASK == 0,
            flags & !FLAGS_MASK == 0,
    ;
}

/// The word of an entry that holds frame `frame` with `flags`: the frame and
/// the flags can be read back from it.
pub proof fn lemma_entry_fields(frame: int, flags: u64)
    requires
        0 <= frame < 0x100_0000_0000,
        flags & !FLAGS_MASK == 0,
    ensures
        word_frame((frame * 4096) as u64 | flags) == frame,
        ((frame * 4096) as u64 | flags) & FLAGS_MASK == flags,
        word_present((frame * 4096) as u64 | flags) == (flags & PRESENT == PRESENT),
        word_huge((frame * 4096) as u64 | flags) == (flags & HUGEPAGE == HUGEPAGE),
{
    let f = frame as u64;
    let start = (frame * 4096) as u64;
    assert(start == f * 4096);
    assert(start & !ADDRESS_MASK == 0) by (bit_vector)
        requires
            f < 0x100_0000_0000,
            start == f * 4096,
    ;
    lemma_word(start, flags);
}

/// One entry of a page table.
#[derive(Debug, Clone, Copy, PartialEq, Eq, Structural)]
pub struct PageEntry(pub(crate) u64);

impl View for PageEntry {
    type V = u64;

    /// The 64-bit word of the entry.
    closed spec fn view(&self) -> u64 {
        self.0
    }
}

impl PageEntry {
    /// An entry that maps nothing.
    pub fn unused() -> (entry: Self)
        ensures
            entry@ == 0,
    {
        PageEntry(0)
    }

    /// The 64-bit word of the entry.
    pub fn word(&self) -> (word: u64)
        ensures
            word == self@,
    {
        self.0
    }

    /// Whether the entry maps nothing: its word is zero.
    pub fn is_unused(&self) -> (unused: bool)
        ensures
            unused == (self@ == 0),
    {
        self.0 == 0
    }

    /// Makes the entry map nothing.
    pub fn set_unused(&mut self)
        ensures
            final(self)@ == 0,
    {
        self.0 = 0;
    }

    /// The flags of the entry.
    pub fn flags(&self) -> (flags: EntryFlags)
        ensures
            flags@ == self@ & FLAGS_MASK,
    {
        EntryFlags::from_bits_truncate(self.0)
    }

    /// Makes the entry hold `frame` with `flags`. A frame whose address has
    /// bits outside the address bits of an entry is refused.
    pub fn set(&mut self, frame: PhysicalFrame, flags: EntryFlags) -> (r: Result<(), PagingError>)
        ensures
            r is Ok == (frame@ < 0x100_0000_0000),
            r is Ok ==> final(self)@ == ((frame@ * 4096) as u64 | flags@) && word_frame(final(self)@) == frame@
                && final(self)@ & FLAGS_MASK == flags@ && word_present(final(self)@) == (flags@ & PRESENT
                == PRESENT) && word_huge(final(self)@) == (flags@ & HUGEPAGE == HUGEPAGE),
            r matches Err(e) ==> e == PagingError::FrameOutOfRange && final(self)@ == old(self)@,
    {
        let start: u64 = frame.start_address();
        assert((start & !ADDRESS_MASK == 0) == (start / 4096 < 0x100_0000_0000)) by (bit_vector)
            requires
                start % 4096 == 0,
        ;
        if start & !ADDRESS_MASK != 0 {
            return Err(PagingError::FrameOutOfRange);
        }
        let bits: u64 = flags.bits();
        proof {
            lemma_word(start, bits);
        }
        self.0 = start | bits;
        Ok(())
    }

    /// The entry whose word is the number of the page that holds
    /// `address`, unless the address lies in the hole between the two
    /// halves of the address space.
    pub fn containing_address(address: u64) -> (entry: Result<Self, PagingError>)
        ensures
            entry is Ok == canonical_page(address as int / 4096),
            entry matches Ok(e) ==> e@ == address / 4096,
            entry matches Err(e) ==> e == PagingError::NonCanonicalAddress,
    {
        if address < 0x0000_8000_0000_0000 || address >= 0xffff_8000_0000_0000 {
            Ok(PageEntry(address / 4096))
        } else {
            Err(PagingError::NonCanonicalAddress)
        }
    }

    /// The frame that the entry holds, if the entry is present.
    pub fn pointed_frame(&self) -> (frame: Option<PhysicalFrame>)
        ensures
            frame is Some == word_present(self@),
            frame matches Some(f) ==> f@ == word_frame(self@) && f@ < 0x100_0000_0000,
    {
        let w: u64 = self.0;
        assert((w & ADDRESS_MASK) / 4096 < 0x100_0000_0000) by (bit_vector);
        assert(((w & FLAGS_MASK) & (PRESENT & FLAGS_MASK) == (PRESENT & FLAGS_MASK)) == (w & PRESENT
            == PRESENT)) by (bit_vector);
        if self.flags().contains(EntryFlags::from_bits_truncate(PRESENT)) {
            Some(PhysicalFrame::by_addr(self.0 & ADDRESS_MASK))
        } else {
            None
        }
    }
}

} // verus!
