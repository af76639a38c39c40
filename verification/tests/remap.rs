use libkernel::allocator::HeapError;
use libkernel::memory::frames::bump_alloc::BumpAllocator;
use libkernel::memory::frames::{FrameAlloc, FrameError, MemoryArea, MemoryAreaType, PhysicalFrame};
use libkernel::memory::paging::entry::{EntryFlags, NOEXECUTE, PRESENT, WRITABLE};
use libkernel::memory::paging::mapper::{ActivePageTable, Mapper, MapperAction};
use libkernel::memory::paging::{Page, PagingError};
use libkernel::memory::{
    init, kernel_range, remap_kernel, ElfSection, ElfSectionFlags, InitError, KernelSections,
    HEAP_ADDRESS, TEMPORARY_PAGE_ADDRESS,
};

fn frame(number: u64) -> PhysicalFrame {
    PhysicalFrame::from_number(number)
}

fn writable() -> EntryFlags {
    EntryFlags::from_bits_truncate(WRITABLE)
}

fn section(start: u64, end: u64, allocated: bool, writable: bool, executable: bool) -> ElfSection {
    ElfSection { start, end, flags: ElfSectionFlags { writable, allocated, executable } }
}

/// Text from 0x10_0000, ending inside frame 0x102; data in the frames
/// 0x103 and 0x104; a section that takes up no memory.
fn image() -> Vec<ElfSection> {
    vec![
        section(0x10_0000, 0x10_2800, true, false, true),
        section(0x10_3000, 0x10_5000, true, true, false),
        section(0x20_0123, 0x20_4000, false, false, false),
    ]
}

/// The word of the level-1 entry of the page at `address`.
fn leaf(table: &ActivePageTable, address: u64) -> Option<u64> {
    let page = Page::containing_address(address).unwrap();
    let p1 = table
        .p4()
        .next_level(page.p4_index())
        .and_then(|t| t.next_level(page.p3_index()))
        .and_then(|t| t.next_level(page.p2_index()))?;
    Some(p1.index(page.p1_index() as usize).word())
}

/// A source that counts upwards and keeps what is given back.
struct Counter {
    next: u64,
    left: usize,
    returned: Vec<PhysicalFrame>,
}

impl Counter {
    fn from(next: u64) -> Self {
        Counter { next, left: 1000, returned: Vec::new() }
    }
}

impl FrameAlloc for Counter {
    fn answer(&self, n: u128) -> Option<PhysicalFrame> {
        if n < self.left as u128 {
            Some(PhysicalFrame::from_number(self.next + n as u64))
        } else {
            None
        }
    }

    fn takes(&self, _used: u128, _frame: PhysicalFrame) -> Result<(), FrameError> {
        Ok(())
    }

    fn answer_after(&self, used: u128, _frame: PhysicalFrame, n: u128) -> Option<PhysicalFrame> {
        self.answer(used + n)
    }

    fn allocate_frame(&mut self) -> Option<PhysicalFrame> {
        if self.left == 0 {
            return None;
        }
        self.left -= 1;
        self.next += 1;
        Some(PhysicalFrame::from_number(self.next - 1))
    }

    fn deallocate_frame(&mut self, frame: PhysicalFrame) -> Result<(), FrameError> {
        self.returned.push(frame);
        Ok(())
    }
}

#[test]
fn kernel_range_spans_all_sections() {
    let range = kernel_range(&image()).unwrap();
    assert_eq!(range, 0x10_0000..=0x20_4000);
    assert_eq!(kernel_range(&[]), None);
    let one = [section(0x5000, 0x4000, true, false, false)];
    assert_eq!(kernel_range(&one), Some(0x5000..=0x4000));
}

#[test]
fn sections_are_mapped_to_themselves() {
    let sections = image();
    let mut source = Counter::from(0x300);
    let mut mapper = Mapper::new();
    let work = KernelSections { sections: &sections };
    assert_eq!(work.run(&mut mapper, &mut source), Ok(()));
    for address in [0x10_0000u64, 0x10_0fff, 0x10_1000, 0x10_2000, 0x10_2fff, 0x10_3000, 0x10_4abc] {
        assert_eq!(mapper.translate(address), Ok(Some(address)));
    }
    for address in [0xf_f000u64, 0x10_5000, 0x20_0000, 0x20_1000, 0x20_3fff] {
        assert_eq!(mapper.translate(address), Ok(None));
    }
}

#[test]
fn remap_builds_the_kernel_space() {
    let sections = image();
    let mut source = Counter::from(0x300);
    let mut active = ActivePageTable::new(frame(0x104));
    active.map_to(Page::containing_address(0x9000).unwrap(), frame(9), libkernel::memory::paging::entry::EntryFlags::empty(), &mut source).unwrap();
    let drawn = source.next;

    assert_eq!(remap_kernel(&mut source, &mut active, &sections), Ok(()));

    // Three frames for the pool, then the frame of the new root table.
    assert_eq!(active.p4_frame(), frame(drawn + 3));
    // The text: present, read-only, code.
    for address in [0x10_0000u64, 0x10_1000, 0x10_2000] {
        assert_eq!(active.translate(address + 0x10), Ok(Some(address + 0x10)));
        assert_eq!(leaf(&active, address), Some(address | PRESENT));
    }
    // The data: present, writable, no code.
    assert_eq!(active.translate(0x10_3000), Ok(Some(0x10_3000)));
    assert_eq!(leaf(&active, 0x10_3000), Some(0x10_3000 | PRESENT | WRITABLE | NOEXECUTE));
    // The page of the old root table guards: it is unmapped, its frame
    // went back to the source.
    assert_eq!(active.translate(0x10_4000), Ok(None));
    assert_eq!(leaf(&active, 0x10_4000), Some(0));
    assert_eq!(source.returned, vec![frame(0x104)]);
    // Nothing else is mapped: not what the old address space held, not the
    // temporary page, not the section that takes up no memory.
    for address in [0x9000u64, TEMPORARY_PAGE_ADDRESS, 0x20_0123, 0x10_5000, 0xf_f000] {
        assert_eq!(active.translate(address), Ok(None));
    }
    // The new root table points back at itself.
    assert_eq!(active.p4().index(511).pointed_frame(), Some(frame(drawn + 3)));
}

#[test]
fn remap_refuses_an_unaligned_section() {
    let sections =
        vec![section(0x10_0000, 0x10_1000, true, false, true), section(0x10_3010, 0x10_5000, true, true, false)];
    let mut source = Counter::from(0x300);
    let mut active = ActivePageTable::new(frame(0x100));
    assert_eq!(remap_kernel(&mut source, &mut active, &sections), Err(PagingError::UnalignedSection));
    // The old address space stays in force.
    assert_eq!(active.p4_frame(), frame(0x100));
    assert_eq!(active.translate(0x10_0000), Ok(None));
    assert!(source.returned.is_empty());
}

#[test]
fn remap_ignores_the_alignment_of_unallocated_sections() {
    let sections = image();
    let mut source = Counter::from(0x300);
    let mut active = ActivePageTable::new(frame(0x100));
    assert_eq!(remap_kernel(&mut source, &mut active, &sections), Ok(()));
    assert_eq!(active.translate(0x10_0000), Ok(None));
    assert_eq!(active.translate(0x10_1000), Ok(Some(0x10_1000)));
}

#[test]
fn remap_refuses_overlapping_sections() {
    let sections =
        vec![section(0x10_0000, 0x10_2000, true, false, true), section(0x10_1000, 0x10_3000, true, true, false)];
    let mut source = Counter::from(0x300);
    let mut active = ActivePageTable::new(frame(0x100));
    assert_eq!(remap_kernel(&mut source, &mut active, &sections), Err(PagingError::AlreadyMapped));
    assert_eq!(active.p4_frame(), frame(0x100));
}

#[test]
fn remap_needs_the_old_root_table_inside_the_image() {
    let sections = image();
    let mut source = Counter::from(0x300);
    let mut active = ActivePageTable::new(frame(0x1));
    assert_eq!(remap_kernel(&mut source, &mut active, &sections), Err(PagingError::NotMapped));
    // The new address space is in force all the same.
    assert_eq!(active.p4_frame(), frame(0x303));
    assert_eq!(active.translate(0x10_4000), Ok(Some(0x10_4000)));
}

#[test]
fn remap_without_frames() {
    let sections = image();
    let mut active = ActivePageTable::new(frame(0x104));
    let mut source = Counter { next: 0x300, left: 3, returned: Vec::new() };
    assert_eq!(remap_kernel(&mut source, &mut active, &sections), Err(PagingError::OutOfMemory));
    let mut source = Counter { next: 0x300, left: 5, returned: Vec::new() };
    assert_eq!(remap_kernel(&mut source, &mut active, &sections), Err(PagingError::OutOfMemory));
    assert_eq!(active.p4_frame(), frame(0x104));
    assert_eq!(active.translate(0x10_0000), Ok(None));
}

#[test]
fn remap_with_the_bump_allocator_leaves_the_guard_frame_unused() {
    let sections = image();
    let areas = [MemoryArea::new(0x0, 0x80_0000, MemoryAreaType::Available).unwrap()];
    let mut source = BumpAllocator::new(&areas, kernel_range(&sections).unwrap());
    let mut active = ActivePageTable::new(frame(0x104));
    // The allocator takes no frame back, and remapping does not count on it.
    assert_eq!(source.deallocate_frame(frame(0x104)), Err(FrameError::Unsupported));
    assert_eq!(remap_kernel(&mut source, &mut active, &sections), Ok(()));
    assert_eq!(active.p4_frame(), frame(3));
    assert_eq!(active.translate(0x10_0000), Ok(Some(0x10_0000)));
    assert_eq!(active.translate(0x10_4000), Ok(None));
    // Seven frames are used up, and the next is the eighth.
    assert_eq!(source.allocate_frame(), Some(frame(7)));
}

#[test]
fn remap_passes_on_a_pool_that_is_full() {
    struct Full {
        next: u64,
    }
    impl FrameAlloc for Full {
        fn answer(&self, n: u128) -> Option<PhysicalFrame> {
            Some(PhysicalFrame::from_number(self.next + n as u64))
        }

        fn takes(&self, _used: u128, _frame: PhysicalFrame) -> Result<(), FrameError> {
            Err(FrameError::PoolFull)
        }

        fn answer_after(&self, used: u128, _frame: PhysicalFrame, n: u128) -> Option<PhysicalFrame> {
            self.answer(used + n)
        }

        fn allocate_frame(&mut self) -> Option<PhysicalFrame> {
            self.next += 1;
            Some(PhysicalFrame::from_number(self.next - 1))
        }

        fn deallocate_frame(&mut self, _frame: PhysicalFrame) -> Result<(), FrameError> {
            Err(FrameError::PoolFull)
        }
    }
    let sections = image();
    let mut source = Full { next: 0x300 };
    let mut active = ActivePageTable::new(frame(0x104));
    assert_eq!(
        remap_kernel(&mut source, &mut active, &sections),
        Err(PagingError::Frames(FrameError::PoolFull))
    );
    // The kernel is remapped and the guard page unmapped all the same.
    assert_eq!(active.p4_frame(), frame(0x303));
    assert_eq!(active.translate(0x10_0000), Ok(Some(0x10_0000)));
    assert_eq!(active.translate(0x10_4000), Ok(None));
}

#[test]
fn init_maps_the_heap_page() {
    let sections = image();
    let mut source = Counter::from(0x300);
    let memory = init(&mut source, frame(0x104), &sections).unwrap();
    let heap_frame = memory.tables.translate_page(Page::containing_address(HEAP_ADDRESS).unwrap()).unwrap().unwrap();
    assert_eq!(memory.tables.translate(HEAP_ADDRESS + 8), Ok(Some(heap_frame.start_address() + 8)));
    assert_eq!(leaf(&memory.tables, HEAP_ADDRESS), Some(heap_frame.start_address() | PRESENT | WRITABLE));
    assert_eq!(memory.tables.translate(0x10_0000), Ok(Some(0x10_0000)));
    assert_eq!(memory.tables.translate(0x10_4000), Ok(None));

    let head = memory.heap.nodes_mut().unwrap();
    assert_eq!(head.address, HEAP_ADDRESS as usize);
    assert_eq!(head.size, 4096 - 32);
    assert!(head.free);
    assert_eq!(head.next, None);
    assert_eq!(memory.heap.node_count(), 1);
}

#[test]
fn init_heap_serves_allocations() {
    let sections = image();
    let mut source = Counter::from(0x300);
    let mut memory = init(&mut source, frame(0x104), &sections).unwrap();
    let ptr = memory.heap.allocate(64, 16).unwrap();
    assert_eq!(ptr, HEAP_ADDRESS as usize + 4096 - 64);
    assert_eq!(memory.heap.allocate(4096, 1), Err(HeapError::OutOfMemory));
    memory.heap.deallocate(ptr, 64, 16).unwrap();
    assert_eq!(memory.heap.node_count(), 1);
}

#[test]
fn init_passes_refusals_on() {
    let sections = image();
    let mut unaligned = sections.clone();
    unaligned[0].start += 1;
    let mut source = Counter::from(0x300);
    assert!(matches!(
        init(&mut source, frame(0x104), &unaligned),
        Err(InitError::Paging(PagingError::UnalignedSection))
    ));
    let mut short = Counter { next: 0x300, left: 2, returned: Vec::new() };
    assert!(matches!(
        init(&mut short, frame(0x104), &sections),
        Err(InitError::Paging(PagingError::OutOfMemory))
    ));
}

#[test]
fn remap_needs_the_temporary_page() {
    let sections = image();
    let mut source = Counter::from(0x300);
    let mut active = ActivePageTable::new(frame(0x104));
    active
        .map_to(
            Page::containing_address(TEMPORARY_PAGE_ADDRESS).unwrap(),
            frame(9),
            writable(),
            &mut source,
        )
        .unwrap();
    assert_eq!(remap_kernel(&mut source, &mut active, &sections), Err(PagingError::TemporaryPageInUse));
    assert_eq!(active.p4_frame(), frame(0x104));
    assert_eq!(active.translate(TEMPORARY_PAGE_ADDRESS), Ok(Some(0x910c)));
}

#[test]
fn remap_refuses_a_table_behind_the_recursive_entry() {
    let sections = image();
    let mut source = Counter::from(0x300);
    let mut active = ActivePageTable::new(frame(0x104));
    active
        .map_to(Page::containing_address(0xffff_ffff_ffff_f000).unwrap(), frame(9), writable(), &mut source)
        .unwrap();
    assert_eq!(remap_kernel(&mut source, &mut active, &sections), Err(PagingError::EntryInUse));
    assert_eq!(active.p4_frame(), frame(0x104));
    assert_eq!(active.translate(0xffff_ffff_ffff_f000), Ok(Some(0x9000)));
    assert_eq!(active.translate(0x10_0000), Ok(None));
}

#[test]
fn remap_puts_the_root_table_in_the_fourth_frame() {
    let sections = image();
    let mut source = Counter::from(0x300);
    let mut active = ActivePageTable::new(frame(0x104));
    assert_eq!(remap_kernel(&mut source, &mut active, &sections), Ok(()));
    assert_eq!(active.p4_frame(), frame(0x303));
    let mut three = Counter { next: 0x300, left: 3, returned: Vec::new() };
    let mut active = ActivePageTable::new(frame(0x104));
    assert_eq!(remap_kernel(&mut three, &mut active, &sections), Err(PagingError::OutOfMemory));
    assert_eq!(three.left, 0);
}

#[test]
fn init_draws_eleven_frames_for_the_image() {
    let sections = image();
    // Three for the pool, one for the root table, three for the tables of
    // the image, one for the heap and three for the tables on the way to it.
    let mut enough = Counter { next: 0x300, left: 11, returned: Vec::new() };
    assert!(init(&mut enough, frame(0x104), &sections).is_ok());
    assert_eq!(enough.left, 0);
    assert_eq!(enough.returned, vec![frame(0x104)]);

    let mut one_short = Counter { next: 0x300, left: 10, returned: Vec::new() };
    assert!(matches!(
        init(&mut one_short, frame(0x104), &sections),
        Err(InitError::Paging(PagingError::OutOfMemory))
    ));
}

#[test]
fn init_without_a_frame_for_the_heap() {
    let sections = image();
    let mut source = Counter { next: 0x300, left: 7, returned: Vec::new() };
    assert!(matches!(
        init(&mut source, frame(0x104), &sections),
        Err(InitError::Paging(PagingError::OutOfMemory))
    ));
    assert_eq!(source.returned, vec![frame(0x104)]);
}

#[test]
fn init_refuses_a_heap_frame_that_fits_no_entry() {
    let sections = image();
    // The eighth answer is the frame of the heap.
    let mut source = Counter { next: 0x100_0000_0000 - 7, left: 1000, returned: Vec::new() };
    assert!(matches!(
        init(&mut source, frame(0x104), &sections),
        Err(InitError::Paging(PagingError::FrameOutOfRange))
    ));
}

#[test]
fn remap_refuses_an_unaligned_section_before_any_frame_is_mapped() {
    let sections = vec![
        section(0x20_0123, 0x20_4000, false, false, false),
        section(0x10_0800, 0x10_2800, true, false, true),
        section(0x10_3000, 0x10_5000, true, true, false),
    ];
    let mut source = Counter::from(0x300);
    let mut active = ActivePageTable::new(frame(0x104));
    assert_eq!(remap_kernel(&mut source, &mut active, &sections), Err(PagingError::UnalignedSection));
    // The pool and the new root table were drawn, and nothing more.
    assert_eq!(source.next, 0x304);
    assert_eq!(active.p4_frame(), frame(0x104));
}

#[test]
fn init_with_the_bump_allocator_sets_up_the_memory() {
    let sections = image();
    let areas = [MemoryArea::new(0x0, 0x80_0000, MemoryAreaType::Available).unwrap()];
    let mut source = BumpAllocator::new(&areas, kernel_range(&sections).unwrap());
    let memory = init(&mut source, frame(0x104), &sections).unwrap();
    // Seven frames for the remapping, then the frame of the heap.
    assert_eq!(memory.tables.p4_frame(), frame(3));
    assert_eq!(memory.tables.translate(HEAP_ADDRESS), Ok(Some(7 * 4096)));
    assert_eq!(memory.tables.translate(0x10_0000), Ok(Some(0x10_0000)));
    assert_eq!(memory.tables.translate(0x10_4000), Ok(None));
    assert_eq!(memory.heap.node_count(), 1);
    assert_eq!(source.allocate_frame(), Some(frame(11)));
}
