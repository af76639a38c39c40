use libkernel::memory::frames::tiny_alloc::TinyAlloc;
use libkernel::memory::frames::{FrameAlloc, FrameError, PhysicalFrame};
use libkernel::memory::paging::entry::{
    EntryFlags, PageEntry, ADDRESS_MASK, FLAGS_MASK, HUGEPAGE, NOEXECUTE, PRESENT, WRITABLE,
};
use libkernel::memory::paging::inactive::{InactivePageTable, RECURSIVE_INDEX};
use libkernel::memory::paging::mapper::{ActivePageTable, Mapper, MapperAction};
use libkernel::memory::paging::tables::{PageTable, TableLevel1, TableLevel4};
use libkernel::memory::paging::temporary::TemporaryPage;
use libkernel::memory::paging::{Page, PagingError};

fn frame(number: u64) -> PhysicalFrame {
    PhysicalFrame::from_number(number)
}

fn page(address: u64) -> Page {
    Page::containing_address(address).unwrap()
}

fn flags(bits: u64) -> EntryFlags {
    EntryFlags::from_bits_truncate(bits)
}

/// A source that counts upwards and keeps what is given back.
struct Counter {
    next: u64,
    left: usize,
    returned: Vec<PhysicalFrame>,
}

impl Counter {
    fn from(next: u64) -> Self {
        Counter { next, left: 1000, returned: Vec::new() }
    }

    fn empty() -> Self {
        Counter { next: 0, left: 0, returned: Vec::new() }
    }
}

impl FrameAlloc for Counter {
    fn answer(&self, n: u128) -> Option<PhysicalFrame> {
        if n < self.left as u128 {
            Some(PhysicalFrame::from_number(self.next + n as u64))
        } else {
            None
        }
    }

    fn takes(&self, _used: u128, _frame: PhysicalFrame) -> Result<(), FrameError> {
        Ok(())
    }

    fn answer_after(&self, used: u128, _frame: PhysicalFrame, n: u128) -> Option<PhysicalFrame> {
        self.answer(used + n)
    }

    fn allocate_frame(&mut self) -> Option<PhysicalFrame> {
        if self.left == 0 {
            return None;
        }
        self.left -= 1;
        self.next += 1;
        Some(PhysicalFrame::from_number(self.next - 1))
    }

    fn deallocate_frame(&mut self, frame: PhysicalFrame) -> Result<(), FrameError> {
        self.returned.push(frame);
        Ok(())
    }
}

/// Maps one page to one frame in the address space it is run on.
struct MapOne {
    page: Page,
    frame: PhysicalFrame,
}

impl MapperAction<Counter> for MapOne {
    fn result(&self, _: PageTable<TableLevel4>, _: Counter) -> Result<(), PagingError> {
        Ok(())
    }

    fn used(&self, _: PageTable<TableLevel4>, _: Counter) -> u128 {
        3
    }

    fn done(&self, _: PageTable<TableLevel4>, _: PageTable<TableLevel4>, _: Result<(), PagingError>) -> bool {
        true
    }

    fn run(&self, mapper: &mut Mapper, allocator: &mut Counter) -> Result<(), PagingError> {
        mapper.map_to(self.page, self.frame, flags(WRITABLE), allocator)
    }
}

#[test]
fn flags_keep_known_bits_only() {
    assert_eq!(flags(u64::MAX).bits(), FLAGS_MASK);
    assert_eq!(flags(0x1000 | PRESENT).bits(), PRESENT);
    assert_eq!(EntryFlags::empty().bits(), 0);
    assert_eq!(FLAGS_MASK, 0x8000_0000_0000_01ff);
    assert_eq!(NOEXECUTE, 1 << 63);
    assert_eq!(HUGEPAGE, 0x80);
}

#[test]
fn flags_contain_insert_union() {
    let mut set = flags(PRESENT);
    assert!(set.contains(flags(PRESENT)));
    assert!(!set.contains(flags(WRITABLE)));
    assert!(!set.contains(flags(PRESENT | WRITABLE)));
    set.insert(flags(WRITABLE));
    assert_eq!(set.bits(), 3);
    assert!(set.contains(flags(PRESENT | WRITABLE)));
    assert_eq!(flags(PRESENT).union(flags(NOEXECUTE)).bits(), 0x8000_0000_0000_0001);
    assert!(set.contains(EntryFlags::empty()));
}

#[test]
fn entry_holds_frame_and_flags() {
    let mut entry = PageEntry::unused();
    assert!(entry.is_unused());
    assert_eq!(entry.pointed_frame(), None);
    assert_eq!(entry.set(frame(0x1234), flags(PRESENT | WRITABLE)), Ok(()));
    assert_eq!(entry.word(), 0x123_4003);
    assert!(!entry.is_unused());
    assert_eq!(entry.flags().bits(), 3);
    assert_eq!(entry.pointed_frame(), Some(frame(0x1234)));
    entry.set_unused();
    assert!(entry.is_unused());
    assert_eq!(entry.word(), 0);
}

#[test]
fn entry_without_present_points_nowhere() {
    let mut entry = PageEntry::unused();
    entry.set(frame(7), flags(WRITABLE)).unwrap();
    assert_eq!(entry.word(), 0x7002);
    assert_eq!(entry.pointed_frame(), None);
    assert!(!entry.is_unused());
}

#[test]
fn entry_refuses_a_frame_beyond_its_address_bits() {
    let mut entry = PageEntry::unused();
    assert_eq!(ADDRESS_MASK, 0x000f_ffff_ffff_f000);
    assert_eq!(entry.set(frame(0xff_ffff_ffff), flags(PRESENT)), Ok(()));
    assert_eq!(entry.pointed_frame(), Some(frame(0xff_ffff_ffff)));
    let before = entry;
    assert_eq!(entry.set(frame(0x100_0000_0000), flags(PRESENT)), Err(PagingError::FrameOutOfRange));
    assert_eq!(entry, before);
}

#[test]
fn page_of_an_address() {
    assert_eq!(page(0x1234).start_address(), 0x1000);
    assert_eq!(page(0x0000_7fff_ffff_ffff).start_address(), 0x0000_7fff_ffff_f000);
    assert_eq!(page(0xffff_8000_0000_0000).start_address(), 0xffff_8000_0000_0000);
    assert_eq!(Page::containing_address(0x0000_8000_0000_0000), Err(PagingError::NonCanonicalAddress));
    assert_eq!(Page::containing_address(0xffff_7fff_ffff_ffff), Err(PagingError::NonCanonicalAddress));
}

#[test]
fn page_indices_are_the_bit_ranges() {
    let p = page(0x1_337a_110c);
    assert_eq!((p.p4_index(), p.p3_index(), p.p2_index(), p.p1_index()), (0, 4, 0x19b, 0x1a1));
    let p = page(0xffff_ff00_0000_0000);
    assert_eq!((p.p4_index(), p.p3_index(), p.p2_index(), p.p1_index()), (510, 0, 0, 0));
    let p = page(0xffff_ffff_ffff_f000);
    assert_eq!((p.p4_index(), p.p3_index(), p.p2_index(), p.p1_index()), (511, 511, 511, 511));
    // bits 47-39, 38-30, 29-21, 20-12
    let p = page((3 << 39) | (5 << 30) | (7 << 21) | (9 << 12));
    assert_eq!((p.p4_index(), p.p3_index(), p.p2_index(), p.p1_index()), (3, 5, 7, 9));
}

#[test]
fn new_table_maps_nothing() {
    let table: PageTable<TableLevel1> = PageTable::new();
    assert_eq!(table.len(), 512);
    for index in 0..512 {
        assert!(table.index(index).is_unused());
        assert!(!table.holds_table(index));
    }
}

#[test]
fn zero_clears_entries_and_tables() {
    let mut source = Counter::from(100);
    let mut table: PageTable<TableLevel4> = PageTable::new();
    table.next_level_create(3, &mut source).unwrap();
    table.index_mut(9).set(frame(5), flags(WRITABLE)).unwrap();
    assert!(table.holds_table(3));
    let zeroed = table.zero();
    assert!(zeroed.index(3).is_unused());
    assert!(zeroed.index(9).is_unused());
    assert!(!zeroed.holds_table(3));
}

#[test]
fn next_level_create_draws_one_frame() {
    let mut source = Counter::from(100);
    let mut table: PageTable<TableLevel4> = PageTable::new();
    assert!(table.next_level(3).is_none());
    assert_eq!(table.next_level_addr(0xffff_ffff_ffff_f000, 3), None);
    {
        let child = table.next_level_create(3, &mut source).unwrap();
        assert!(child.index(0).is_unused());
        child.index_mut(1).set(frame(42), flags(PRESENT)).unwrap();
    }
    assert_eq!(source.next, 101);
    assert_eq!(table.index(3).word(), (100 << 12) | PRESENT | WRITABLE);
    assert_eq!(table.next_level(3).unwrap().index(1).pointed_frame(), Some(frame(42)));
    // A second call finds the table and draws nothing.
    let again = table.next_level_create(3, &mut source).unwrap();
    assert_eq!(again.index(1).pointed_frame(), Some(frame(42)));
    assert_eq!(source.next, 101);
    // The table behind entry 3 is found at the recursive address.
    assert_eq!(
        table.next_level_addr(0xffff_ffff_ffff_f000, 3),
        Some((0xffff_ffff_ffff_f000u64 << 9) | (3 << 12))
    );
}

#[test]
fn next_level_create_refusals() {
    let mut source = Counter::from(100);
    let mut table: PageTable<TableLevel4> = PageTable::new();
    table.index_mut(1).set(frame(5), flags(HUGEPAGE | PRESENT)).unwrap();
    table.index_mut(2).set(frame(5), flags(HUGEPAGE)).unwrap();
    table.index_mut(3).set(frame(5), flags(PRESENT)).unwrap();
    assert!(matches!(table.next_level_create(1, &mut source), Err(PagingError::HugePage)));
    assert!(matches!(table.next_level_create(2, &mut source), Err(PagingError::HugePage)));
    assert!(matches!(table.next_level_create(3, &mut source), Err(PagingError::EntryInUse)));
    assert_eq!(source.next, 100);
    let mut empty = Counter::empty();
    assert!(matches!(table.next_level_create(4, &mut empty), Err(PagingError::OutOfMemory)));
    assert!(table.index(4).is_unused());
    let mut far = Counter::from(0x100_0000_0000);
    assert!(matches!(table.next_level_create(4, &mut far), Err(PagingError::FrameOutOfRange)));
    assert!(table.index(4).is_unused());
    assert!(!table.holds_table(4));
}

#[test]
fn install_takes_the_frame_it_is_given() {
    let mut table: PageTable<TableLevel4> = PageTable::new();
    assert!(matches!(table.install(7, None), Err(PagingError::OutOfMemory)));
    assert!(table.install(7, Some(frame(0x55))).is_ok());
    assert_eq!(table.index(7).word(), 0x5_5003);
    assert!(table.next_level(7).is_some());
}

#[test]
fn map_then_translate_gives_the_frame() {
    let mut source = Counter::from(100);
    let mut mapper = Mapper::new();
    let p = page(0x4000_5000);
    assert_eq!(mapper.translate(p.start_address()), Ok(None));
    assert_eq!(mapper.map_to(p, frame(0x77), flags(WRITABLE), &mut source), Ok(()));
    assert_eq!(mapper.translate(p.start_address()), Ok(Some(frame(0x77).start_address())));
    assert_eq!(mapper.translate(0x4000_5abc), Ok(Some(0x7_7abc)));
    assert_eq!(mapper.translate_page(p), Ok(Some(frame(0x77))));
    // Three tables were missing.
    assert_eq!(source.next, 103);
    // The neighbours stay unmapped.
    assert_eq!(mapper.translate(0x4000_4000), Ok(None));
    assert_eq!(mapper.translate(0x4000_6000), Ok(None));
    assert_eq!(mapper.translate(0x0000_8000_0000_0000), Err(PagingError::NonCanonicalAddress));
}

#[test]
fn map_sets_present_beside_the_flags() {
    let mut source = Counter::from(100);
    let mut mapper = Mapper::new();
    let p = page(0x4000_5000);
    mapper.map_to(p, frame(0x77), flags(WRITABLE | NOEXECUTE), &mut source).unwrap();
    let p1 = mapper
        .p4()
        .next_level(p.p4_index())
        .and_then(|t| t.next_level(p.p3_index()))
        .and_then(|t| t.next_level(p.p2_index()))
        .unwrap();
    assert_eq!(p1.index(p.p1_index() as usize).word(), 0x8000_0000_0007_7003);
}

#[test]
fn map_in_an_existing_table_draws_nothing() {
    let mut source = Counter::from(100);
    let mut mapper = Mapper::new();
    mapper.map_to(page(0x4000_5000), frame(0x77), flags(WRITABLE), &mut source).unwrap();
    let mut empty = Counter::empty();
    assert_eq!(mapper.map_to(page(0x4000_6000), frame(0x78), flags(0), &mut empty), Ok(()));
    assert_eq!(mapper.translate(0x4000_6000), Ok(Some(0x7_8000)));
    assert_eq!(mapper.translate(0x4000_5000), Ok(Some(0x7_7000)));
}

#[test]
fn map_never_overwrites() {
    let mut source = Counter::from(100);
    let mut mapper = Mapper::new();
    let p = page(0x4000_5000);
    mapper.map_to(p, frame(0x77), flags(WRITABLE), &mut source).unwrap();
    assert_eq!(mapper.map_to(p, frame(0x99), flags(WRITABLE), &mut source), Err(PagingError::AlreadyMapped));
    assert_eq!(mapper.translate(0x4000_5000), Ok(Some(0x7_7000)));
    assert_eq!(source.next, 103);
}

#[test]
fn map_without_frames_for_tables() {
    let mut mapper = Mapper::new();
    let mut empty = Counter::empty();
    let p = page(0x4000_5000);
    assert_eq!(mapper.map_to(p, frame(0x77), flags(WRITABLE), &mut empty), Err(PagingError::OutOfMemory));
    assert_eq!(mapper.translate(0x4000_5000), Ok(None));
    // Two frames give two of the three tables.
    let mut two = Counter { next: 100, left: 2, returned: Vec::new() };
    assert_eq!(mapper.map_to(p, frame(0x77), flags(WRITABLE), &mut two), Err(PagingError::OutOfMemory));
    assert_eq!(mapper.translate(0x4000_5000), Ok(None));
    // The third table is all that is missing now.
    let mut one = Counter { next: 200, left: 1, returned: Vec::new() };
    assert_eq!(mapper.map_to(p, frame(0x77), flags(WRITABLE), &mut one), Ok(()));
    assert_eq!(mapper.translate(0x4000_5000), Ok(Some(0x7_7000)));
}

#[test]
fn map_refuses_a_frame_beyond_the_address_bits() {
    let mut source = Counter::from(100);
    let mut mapper = Mapper::new();
    let p = page(0x4000_5000);
    assert_eq!(
        mapper.map_to(p, frame(0x100_0000_0000), flags(WRITABLE), &mut source),
        Err(PagingError::FrameOutOfRange)
    );
    assert_eq!(mapper.translate(0x4000_5000), Ok(None));
}

#[test]
fn unmap_then_translate_gives_nothing() {
    let mut source = Counter::from(100);
    let mut mapper = Mapper::new();
    let p = page(0x4000_5000);
    let q = page(0x4000_6000);
    mapper.map_to(p, frame(0x77), flags(WRITABLE), &mut source).unwrap();
    mapper.map_to(q, frame(0x78), flags(WRITABLE), &mut source).unwrap();
    assert_eq!(mapper.unmap(p, &mut source), Ok(()));
    assert_eq!(mapper.translate(p.start_address()), Ok(None));
    assert_eq!(mapper.translate(q.start_address()), Ok(Some(0x7_8000)));
    assert_eq!(source.returned, vec![frame(0x77)]);
    // The tables stay: mapping again draws nothing.
    let mut empty = Counter::empty();
    assert_eq!(mapper.map_to(p, frame(0x79), flags(0), &mut empty), Ok(()));
}

#[test]
fn unmap_of_an_unmapped_page() {
    let mut source = Counter::from(100);
    let mut mapper = Mapper::new();
    assert_eq!(mapper.unmap(page(0x4000_5000), &mut source), Err(PagingError::NotMapped));
    mapper.map_to(page(0x4000_5000), frame(0x77), flags(0), &mut source).unwrap();
    assert_eq!(mapper.unmap(page(0x4000_6000), &mut source), Err(PagingError::NotMapped));
    assert!(source.returned.is_empty());
}

#[test]
fn unmap_reports_a_source_that_refuses() {
    let mut tables = Counter::from(100);
    let mut mapper = Mapper::new();
    let p = page(0x4000_5000);
    mapper.map_to(p, frame(0x77), flags(0), &mut tables).unwrap();
    let mut full = TinyAlloc::from_frames([Some(frame(1)), Some(frame(2)), Some(frame(3))]);
    assert_eq!(mapper.unmap(p, &mut full), Err(PagingError::Frames(FrameError::PoolFull)));
    assert_eq!(mapper.translate(p.start_address()), Ok(None));
}

#[test]
fn huge_pages_translate_by_their_offset() {
    let mut source = Counter::from(100);
    let mut mapper = Mapper::new();
    {
        let p3 = mapper.p4_mut().next_level_create(1, &mut source).unwrap();
        // A huge page of 512 * 512 frames behind entry 2.
        p3.index_mut(2).set(frame(0x8_0000), flags(PRESENT | HUGEPAGE)).unwrap();
        let p2 = p3.next_level_create(3, &mut source).unwrap();
        // A huge page of 512 frames behind entry 4.
        p2.index_mut(4).set(frame(0x400), flags(PRESENT | HUGEPAGE)).unwrap();
    }
    let big = page((1 << 39) | (2 << 30) | (5 << 21) | (6 << 12));
    assert_eq!(mapper.translate_page(big), Ok(Some(frame(0x8_0000 + 5 * 512 + 6))));
    let small = page((1 << 39) | (3 << 30) | (4 << 21) | (6 << 12));
    assert_eq!(mapper.translate_page(small), Ok(Some(frame(0x400 + 6))));
    assert_eq!(mapper.translate(small.start_address() + 0x10), Ok(Some(0x40_6010)));
    // Neither can be subdivided or unmapped.
    assert_eq!(mapper.map_to(big, frame(1), flags(0), &mut source), Err(PagingError::HugePage));
    assert_eq!(mapper.map_to(small, frame(1), flags(0), &mut source), Err(PagingError::HugePage));
    assert_eq!(mapper.unmap(big, &mut source), Err(PagingError::HugePage));
    assert_eq!(mapper.unmap(small, &mut source), Err(PagingError::HugePage));
    assert_eq!(mapper.translate_page(small), Ok(Some(frame(0x400 + 6))));
}

#[test]
fn misaligned_huge_pages_are_refused() {
    let mut source = Counter::from(100);
    let mut mapper = Mapper::new();
    {
        let p3 = mapper.p4_mut().next_level_create(1, &mut source).unwrap();
        p3.index_mut(2).set(frame(0x8_0200), flags(PRESENT | HUGEPAGE)).unwrap();
        let p2 = p3.next_level_create(3, &mut source).unwrap();
        p2.index_mut(4).set(frame(0x401), flags(PRESENT | HUGEPAGE)).unwrap();
    }
    let big = page((1 << 39) | (2 << 30));
    assert_eq!(mapper.translate_page(big), Err(PagingError::MisalignedHugePage));
    let small = page((1 << 39) | (3 << 30) | (4 << 21));
    assert_eq!(mapper.translate_page(small), Err(PagingError::MisalignedHugePage));
    assert_eq!(mapper.unmap(small, &mut source), Err(PagingError::MisalignedHugePage));
}

#[test]
fn map_refuses_a_foreign_entry() {
    let mut source = Counter::from(100);
    let mut mapper = Mapper::new();
    mapper.p4_mut().index_mut(511).set(frame(9), flags(PRESENT | WRITABLE)).unwrap();
    let p = page(0xffff_ffff_ffff_f000);
    assert_eq!(mapper.map_to(p, frame(1), flags(0), &mut source), Err(PagingError::EntryInUse));
    assert_eq!(mapper.translate_page(p), Ok(None));
}

#[test]
fn identity_map_uses_the_number_of_the_frame() {
    let mut source = Counter::from(100);
    let mut mapper = Mapper::new();
    assert_eq!(mapper.identity_map(frame(0xb8), flags(WRITABLE), &mut source), Ok(()));
    assert_eq!(mapper.translate(0xb_8000), Ok(Some(0xb_8000)));
    assert_eq!(mapper.translate(0xb_8fff), Ok(Some(0xb_8fff)));
    assert_eq!(
        mapper.identity_map(frame(0x8_0000_0000), flags(WRITABLE), &mut source),
        Err(PagingError::NonCanonicalAddress)
    );
    assert_eq!(
        mapper.identity_map(frame(0xf_fff8_0000_0000), flags(WRITABLE), &mut source),
        Err(PagingError::FrameOutOfRange)
    );
}

#[test]
fn active_table_forwards_to_its_mapper() {
    let mut source = Counter::from(100);
    let mut active = ActivePageTable::new(frame(1));
    assert_eq!(active.p4_frame(), frame(1));
    let p = page(0x4000_5000);
    assert_eq!(active.map_to(p, frame(0x77), flags(WRITABLE), &mut source), Ok(()));
    assert_eq!(active.translate(0x4000_5010), Ok(Some(0x7_7010)));
    assert_eq!(active.translate_page(p), Ok(Some(frame(0x77))));
    assert_eq!(active.identity_map(frame(0x10), flags(0), &mut source), Ok(()));
    assert_eq!(active.translate(0x1_0000), Ok(Some(0x1_0000)));
    assert_eq!(active.unmap(p, &mut source), Ok(()));
    assert_eq!(active.translate(0x4000_5010), Ok(None));
    assert!(active.p4().next_level(p.p4_index()).is_some());
}

#[test]
fn temporary_page_maps_and_unmaps() {
    let mut source = Counter::from(100);
    let mut active = ActivePageTable::new(frame(1));
    let mut temporary = TemporaryPage::new(page(0x1_337a_110c), &mut source);
    assert_eq!(source.next, 103);
    assert_eq!(temporary.page_number(), page(0x1_337a_1000));
    assert_eq!(temporary.map(frame(0x55), &mut active), Ok(0x1_337a_1000));
    assert_eq!(active.translate(0x1_337a_110c), Ok(Some(0x5_510c)));
    assert_eq!(temporary.map(frame(0x56), &mut active), Err(PagingError::TemporaryPageInUse));
    assert_eq!(temporary.unmap(&mut active), Ok(()));
    assert_eq!(active.translate(0x1_337a_110c), Ok(None));
    assert_eq!(temporary.unmap(&mut active), Err(PagingError::NotMapped));
    // The general source was not asked again.
    assert_eq!(source.next, 103);
}

#[test]
fn temporary_page_pool_fills_up() {
    let mut source = Counter::from(100);
    let mut active = ActivePageTable::new(frame(1));
    let mut temporary = TemporaryPage::new(page(0x1_337a_110c), &mut source);
    // The first mapping empties the pool for the three tables; each
    // unmapping puts one frame into it.
    for number in 0..3 {
        assert_eq!(temporary.map(frame(0x55 + number), &mut active), Ok(0x1_337a_1000));
        assert_eq!(temporary.unmap(&mut active), Ok(()));
    }
    assert_eq!(temporary.map(frame(0x60), &mut active), Ok(0x1_337a_1000));
    assert_eq!(temporary.unmap(&mut active), Err(PagingError::Frames(FrameError::PoolFull)));
    assert_eq!(active.translate(0x1_337a_110c), Ok(None));
}

#[test]
fn inactive_table_points_back_at_itself() {
    let mut source = Counter::from(100);
    let mut active = ActivePageTable::new(frame(1));
    let mut temporary = TemporaryPage::new(page(0x1_337a_110c), &mut source);
    let table = InactivePageTable::new(frame(0x200), &mut active, &mut temporary).unwrap();
    assert_eq!(table.p4_frame, frame(0x200));
    assert_eq!(table.p4_frame(), frame(0x200));
    assert_eq!(RECURSIVE_INDEX, 511);
    for index in 0..511 {
        assert!(table.table().index(index).is_unused());
    }
    assert_eq!(table.table().index(511).word(), 0x20_0000 | PRESENT | WRITABLE);
    assert_eq!(table.table().index(511).pointed_frame(), Some(frame(0x200)));
    // The temporary page is unmapped again.
    assert_eq!(active.translate(0x1_337a_110c), Ok(None));
}

#[test]
fn inactive_table_needs_the_temporary_page() {
    let mut source = Counter::from(100);
    let mut active = ActivePageTable::new(frame(1));
    let mut temporary = TemporaryPage::new(page(0x1_337a_110c), &mut source);
    temporary.map(frame(0x55), &mut active).unwrap();
    assert!(matches!(
        InactivePageTable::new(frame(0x200), &mut active, &mut temporary),
        Err(PagingError::TemporaryPageInUse)
    ));
    assert_eq!(active.translate(0x1_337a_1000), Ok(Some(0x5_5000)));
}

#[test]
fn with_edits_the_other_address_space() {
    let mut source = Counter::from(100);
    let mut active = ActivePageTable::new(frame(1));
    let mut temporary = TemporaryPage::new(page(0x1_337a_110c), &mut source);
    active.map_to(page(0x7000), frame(0x7), flags(0), &mut source).unwrap();
    let mut table = InactivePageTable::new(frame(0x200), &mut active, &mut temporary).unwrap();
    let action = MapOne { page: page(0x4000_5000), frame: frame(0x77) };
    assert_eq!(active.with(&mut table, &mut temporary, &mut source, &action), Ok(()));
    // The address space in force translates as before.
    assert_eq!(active.translate(0x4000_5000), Ok(None));
    assert_eq!(active.translate(0x7000), Ok(Some(0x7000)));
    assert_eq!(active.translate(0x1_337a_110c), Ok(None));
    assert_eq!(active.p4_frame(), frame(1));
    // Its recursive entry points at its own root table.
    assert_eq!(active.p4().index(511).word(), 0x1000 | PRESENT | WRITABLE);
    // The other one has the mapping.
    assert!(table.table().next_level(page(0x4000_5000).p4_index()).is_some());
    assert_eq!(table.table().index(511).pointed_frame(), Some(frame(0x200)));

    let old = active.switch(table);
    assert_eq!(old.p4_frame, frame(1));
    assert_eq!(active.p4_frame(), frame(0x200));
    assert_eq!(active.translate(0x4000_5000), Ok(Some(0x7_7000)));
    assert_eq!(active.translate(0x7000), Ok(None));
    assert!(old.table().next_level(page(0x7000).p4_index()).is_some());
}

#[test]
fn with_returns_the_refusal_of_the_action() {
    let mut source = Counter::from(100);
    let mut active = ActivePageTable::new(frame(1));
    let mut temporary = TemporaryPage::new(page(0x1_337a_110c), &mut source);
    let mut table = InactivePageTable::new(frame(0x200), &mut active, &mut temporary).unwrap();
    let action = MapOne { page: page(0x4000_5000), frame: frame(0x100_0000_0000) };
    assert_eq!(
        active.with(&mut table, &mut temporary, &mut source, &action),
        Err(PagingError::FrameOutOfRange)
    );
    assert_eq!(active.translate(0x1_337a_110c), Ok(None));
    assert_eq!(active.p4().index(511).word(), 0x1000 | PRESENT | WRITABLE);
}

#[test]
fn with_does_nothing_while_the_temporary_page_is_in_use() {
    let mut source = Counter::from(100);
    let mut active = ActivePageTable::new(frame(1));
    let mut temporary = TemporaryPage::new(page(0x1_337a_110c), &mut source);
    let mut table = InactivePageTable::new(frame(0x200), &mut active, &mut temporary).unwrap();
    temporary.map(frame(0x55), &mut active).unwrap();
    let action = MapOne { page: page(0x4000_5000), frame: frame(0x77) };
    assert_eq!(
        active.with(&mut table, &mut temporary, &mut source, &action),
        Err(PagingError::TemporaryPageInUse)
    );
    assert!(table.table().next_level(page(0x4000_5000).p4_index()).is_none());
    assert!(active.p4().index(511).is_unused());
}

#[test]
fn with_refuses_a_table_behind_the_recursive_entry() {
    let mut source = Counter::from(100);
    let mut active = ActivePageTable::new(frame(1));
    let mut temporary = TemporaryPage::new(page(0x1_337a_110c), &mut source);
    let mut table = InactivePageTable::new(frame(0x200), &mut active, &mut temporary).unwrap();
    active.map_to(page(0xffff_ffff_ffff_f000), frame(0x9), flags(0), &mut source).unwrap();
    let action = MapOne { page: page(0x4000_5000), frame: frame(0x77) };
    assert_eq!(
        active.with(&mut table, &mut temporary, &mut source, &action),
        Err(PagingError::EntryInUse)
    );
    assert_eq!(active.translate(0xffff_ffff_ffff_f000), Ok(Some(0x9000)));
}

#[test]
fn unmap_page_returns_the_frame() {
    let mut source = Counter::from(100);
    let mut mapper = Mapper::new();
    let p = page(0x4000_5000);
    assert_eq!(mapper.unmap_page(p), Err(PagingError::NotMapped));
    mapper.map_to(p, frame(0x77), flags(WRITABLE), &mut source).unwrap();
    assert_eq!(mapper.unmap_page(p), Ok(frame(0x77)));
    assert_eq!(mapper.translate(p.start_address()), Ok(None));
    assert_eq!(mapper.unmap_page(p), Err(PagingError::NotMapped));
    let mut active = ActivePageTable::new(frame(1));
    active.map_to(p, frame(0x78), flags(0), &mut source).unwrap();
    assert_eq!(active.unmap_page(p), Ok(frame(0x78)));
    assert_eq!(active.translate_page(p), Ok(None));
}

#[test]
fn inactive_table_needs_room_in_the_pool() {
    let mut source = Counter::from(100);
    let mut active = ActivePageTable::new(frame(1));
    // A first temporary page leaves the three tables behind.
    let mut first = TemporaryPage::new(page(0x1_337a_110c), &mut source);
    first.map(frame(0x55), &mut active).unwrap();
    first.unmap(&mut active).unwrap();
    // With a full pool and no table missing, the frame has nowhere to go.
    let mut second = TemporaryPage::new(page(0x1_337a_110c), &mut source);
    assert!(matches!(
        InactivePageTable::new(frame(0x200), &mut active, &mut second),
        Err(PagingError::Frames(FrameError::PoolFull))
    ));
    assert_eq!(active.translate(0x1_337a_110c), Ok(None));
}

#[test]
fn inactive_table_with_a_short_pool() {
    let mut source = Counter { next: 100, left: 2, returned: Vec::new() };
    let mut active = ActivePageTable::new(frame(1));
    let mut temporary = TemporaryPage::new(page(0x1_337a_110c), &mut source);
    // Three tables are missing, the pool has two frames.
    assert!(matches!(
        InactivePageTable::new(frame(0x200), &mut active, &mut temporary),
        Err(PagingError::OutOfMemory)
    ));
    let mut far = Counter::from(0x100_0000_0000);
    let mut temporary = TemporaryPage::new(page(0x8000_0000), &mut far);
    assert!(matches!(
        InactivePageTable::new(frame(0x200), &mut active, &mut temporary),
        Err(PagingError::FrameOutOfRange)
    ));
}

#[test]
fn entry_containing_address_holds_the_page_number() {
    assert_eq!(PageEntry::containing_address(0x1_337a_110c).unwrap().word(), 0x13_37a1);
    assert_eq!(PageEntry::containing_address(0).unwrap().word(), 0);
    assert_eq!(
        PageEntry::containing_address(0xffff_ff00_0000_0000).unwrap().word(),
        0xf_ffff_f000_0000
    );
}

#[test]
fn entry_containing_address_refuses_the_hole() {
    assert_eq!(
        PageEntry::containing_address(0x0000_8000_0000_0000).map(|e| e.word()),
        Err(PagingError::NonCanonicalAddress)
    );
    assert_eq!(
        PageEntry::containing_address(0xffff_7fff_ffff_ffff).map(|e| e.word()),
        Err(PagingError::NonCanonicalAddress)
    );
    assert!(PageEntry::containing_address(0x0000_7fff_ffff_ffff).is_ok());
}

#[test]
fn map_puts_each_new_table_in_the_next_frame() {
    let mut source = Counter::from(100);
    let mut mapper = Mapper::new();
    let p = page(0x4000_5000);
    mapper.map_to(p, frame(0x77), flags(0), &mut source).unwrap();
    // The tables come from the top down: frames 100, 101 and 102.
    let p4 = mapper.p4();
    assert_eq!(p4.index(p.p4_index() as usize).word(), (100 << 12) | PRESENT | WRITABLE);
    let p3 = p4.next_level(p.p4_index()).unwrap();
    assert_eq!(p3.index(p.p3_index() as usize).word(), (101 << 12) | PRESENT | WRITABLE);
    let p2 = p3.next_level(p.p3_index()).unwrap();
    assert_eq!(p2.index(p.p2_index() as usize).word(), (102 << 12) | PRESENT | WRITABLE);

    // A page under the same level-2 table needs one table more.
    let q = page(0x4020_5000);
    mapper.map_to(q, frame(0x78), flags(0), &mut source).unwrap();
    let p2 = mapper.p4().next_level(q.p4_index()).and_then(|t| t.next_level(q.p3_index())).unwrap();
    assert_eq!(p2.index(q.p2_index() as usize).word(), (103 << 12) | PRESENT | WRITABLE);
    assert_eq!(p2.index(p.p2_index() as usize).word(), (102 << 12) | PRESENT | WRITABLE);
    assert_eq!(mapper.p4().index(q.p4_index() as usize).word(), (100 << 12) | PRESENT | WRITABLE);
}
