//! Pages, page-table entries, the table tree and the mapper.
use vstd::prelude::*;
use super::frames::{FrameError, PAGE_SIZE};
use super::VirtualAddress;

pub mod entry;
pub mod inactive;
pub mod mapper;
pub mod tables;
pub mod temporary;

verus! {

/// Why an operation on the page tables was refused. Each of these is fatal
/// to a kernel: the caller is expected to halt.
#[derive(Debug, Clone, Copy, PartialEq, Eq, Structural)]
pub enum PagingError {
    /// The address lies in the hole between the two halves of the virtual
    /// address space.
    NonCanonicalAddress,
    /// The frame's address does not fit into a page-table entry.
    FrameOutOfRange,
    /// A huge page stands where a table is needed.
    HugePage,
    /// The entry where a table is needed is in use for something else.
    EntryInUse,
    /// The page is already mapped.
    AlreadyMapped,
    /// The page is not mapped.
    NotMapped,
    /// The frame source is exhausted.
    OutOfMemory,
    /// The frame of a huge page is not aligned to the size of the page.
    MisalignedHugePage,
    /// The temporary page is already mapped.
    TemporaryPageInUse,
    /// A section of the kernel image does not begin on a page boundary.
    UnalignedSection,
    /// The frame source did not take a frame back.
    Frames(FrameError),
}

/// Whether page `number` belongs to one of the two halves of the virtual
/// address space: the addresses below `0x0000_8000_0000_0000` and those
/// from `0xffff_8000_0000_0000` on.
pub open spec fn canonical_page(number: int) -> bool {
    0 <= number < 0x8_0000_0000 || 0xf_fff8_0000_0000 <= number <= 0xf_ffff_ffff_ffff
}

/// Index into the level-4 table for page `number`: bits 47 to 39 of its
/// address.
pub open spec fn p4_index_of(number: int) -> int {
    (number / 0x800_0000) % 512
}

/// Index into the level-3 table: bits 38 to 30.
pub open spec fn p3_index_of(number: int) -> int {
    (number / 0x4_0000) % 512
}

/// Index into the level-2 table: bits 29 to 21.
pub open spec fn p2_index_of(number: int) -> int {
    (number / 0x200) % 512
}

/// Index into the level-1 table: bits 20 to 12.
pub open spec fn p1_index_of(number: int) -> int {
    number % 512
}

/// Two pages with the same four indices are the same page.
pub proof fn lemma_indices_determine_page(a: int, b: int)
    requires
        canonical_page(a),
        canonical_page(b),
        p4_index_of(a) == p4_index_of(b),
        p3_index_of(a) == p3_index_of(b),
        p2_index_of(a) == p2_index_of(b),
        p1_index_of(a) == p1_index_of(b),
    ensures
        a == b,
{
    let x = a as u64;
    let y = b as u64;
    assert(x == y) by (bit_vector)
        requires
            x < 0x8_0000_0000u64 || (0xf_fff8_0000_0000u64 <= x && x <= 0xf_ffff_ffff_ffffu64),
            y < 0x8_0000_0000u64 || (0xf_fff8_0000_0000u64 <= y && y <= 0xf_ffff_ffff_ffffu64),
            (x / 0x800_0000u64) % 512u64 == (y / 0x800_0000u64) % 512u64,
            (x / 0x4_0000u64) % 512u64 == (y / 0x4_0000u64) % 512u64,
            (x / 0x200u64) % 512u64 == (y / 0x200u64) % 512u64,
            x % 512u64 == y % 512u64,
    ;
}

/// A 4096-byte unit of virtual address space, identified by
/// `address / 4096`.
#[derive(Debug, Clone, Copy, PartialEq, Eq, Structural)]
pub struct Page {
    pub(crate) number: u64,
}

impl View for Page {
    type V = int;

    /// The page number.
    closed spec fn view(&self) -> int {
        self.number as int
    }
}

impl Page {
    #[verifier::type_invariant]
    spec fn canonical(self) -> bool {
        canonical_page(self.number as int)
    }

    /// Address of the first byte of the page.
    pub fn start_address(&self) -> (address: VirtualAddress)
        ensures
            address == self@ * 4096,
            canonical_page(self@),
    {
        proof {
            use_type_invariant(self);
        }
        self.number * PAGE_SIZE
    }

    /// The page that holds `address`, unless the address lies in the hole
    /// between the two halves of the address space.
    pub fn containing_address(address: VirtualAddress) -> (page: Result<Page, PagingError>)
        ensures
            page is Ok == canonical_page(address as int / 4096),
            page matches Ok(p) ==> p@ == address as int / 4096,
            page matches Err(e) ==> e == PagingError::NonCanonicalAddress,
    {
        if address < 0x0000_8000_0000_0000 || address >= 0xffff_8000_0000_0000 {
            Ok(Page { number: address / PAGE_SIZE })
        } else {
            Err(PagingError::NonCanonicalAddress)
        }
    }

    /// Index of the page's entry in the level-4 table.
    pub fn p4_index(&self) -> (index: u64)
        ensures
            index == p4_index_of(self@),
            index < 512,
            canonical_page(self@),
    {
        proof {
            use_type_invariant(self);
        }
        let n: u64 = self.number;
        assert((n >> 27) & 0o777 == (n / 0x800_0000) % 512) by (bit_vector);
        (self.number >> 27) & 0o777
    }

    /// Index of the page's entry in the level-3 table.
    pub fn p3_index(&self) -> (index: u64)
        ensures
            index == p3_index_of(self@),
            index < 512,
    {
        let n: u64 = self.number;
        assert((n >> 18) & 0o777 == (n / 0x4_0000) % 512) by (bit_vector);
        (self.number >> 18) & 0o777
    }

    /// Index of the page's entry in the level-2 table.
    pub fn p2_index(&self) -> (index: u64)
        ensures
            index == p2_index_of(self@),
            index < 512,
    {
        let n: u64 = self.number;
        assert((n >> 9) & 0o777 == (n / 0x200) % 512) by (bit_vector);
        (self.number >> 9) & 0o777
    }

    /// Index of the page's entry in the level-1 table.
    pub fn p1_index(&self) -> (index: u64)
        ensures
            index == p1_index_of(self@),
            index < 512,
    {
        let n: u64 = self.number;
        assert((n >> 0) & 0o777 == n % 512) by (bit_vector);
        (self.number >> 0) & 0o777
    }
}

} // verus!
