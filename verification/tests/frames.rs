use libkernel::memory::frames::bump_alloc::BumpAllocator;
use libkernel::memory::frames::tiny_alloc::TinyAlloc;
use libkernel::memory::frames::{
    FrameAlloc, FrameError, FrameIter, MemoryArea, MemoryAreaType, PhysicalFrame, MAX_FRAME_NUMBER,
    PAGE_SIZE,
};

fn frame(number: u64) -> PhysicalFrame {
    PhysicalFrame::from_number(number)
}

fn available(start: u64, length: u64) -> MemoryArea {
    MemoryArea::new(start, length, MemoryAreaType::Available).unwrap()
}

fn reserved(start: u64, length: u64) -> MemoryArea {
    MemoryArea::new(start, length, MemoryAreaType::Reserved).unwrap()
}

fn drain(allocator: &mut BumpAllocator<'_>) -> Vec<u64> {
    let mut numbers = Vec::new();
    while let Some(frame) = allocator.allocate_frame() {
        numbers.push(frame.number());
    }
    numbers
}

/// A source that counts upwards and keeps what is given back.
struct Counter {
    next: u64,
    left: usize,
    returned: Vec<PhysicalFrame>,
}

impl FrameAlloc for Counter {
    fn answer(&self, n: u128) -> Option<PhysicalFrame> {
        if n < self.left as u128 {
            Some(PhysicalFrame::from_number(self.next + n as u64))
        } else {
            None
        }
    }

    fn takes(&self, _used: u128, _frame: PhysicalFrame) -> Result<(), FrameError> {
        Ok(())
    }

    fn answer_after(&self, used: u128, _frame: PhysicalFrame, n: u128) -> Option<PhysicalFrame> {
        self.answer(used + n)
    }

    fn allocate_frame(&mut self) -> Option<PhysicalFrame> {
        if self.left == 0 {
            return None;
        }
        self.left -= 1;
        self.next += 1;
        Some(PhysicalFrame::from_number(self.next - 1))
    }

    fn deallocate_frame(&mut self, frame: PhysicalFrame) -> Result<(), FrameError> {
        self.returned.push(frame);
        Ok(())
    }
}

#[test]
fn frame_of_an_address() {
    assert_eq!(PAGE_SIZE, 4096);
    assert_eq!(PhysicalFrame::by_addr(0).number(), 0);
    assert_eq!(PhysicalFrame::by_addr(0xfff).number(), 0);
    assert_eq!(PhysicalFrame::by_addr(0x1000).number(), 1);
    assert_eq!(PhysicalFrame::by_addr(0x1fff).number(), 1);
    assert_eq!(PhysicalFrame::by_addr(u64::MAX).number(), MAX_FRAME_NUMBER);
    assert_eq!(PhysicalFrame::by_addr(0x5123), frame(5));
}

#[test]
fn frame_bounds() {
    assert_eq!(frame(5).start_address(), 0x5000);
    assert_eq!(frame(5).end_address(), 0x5fff);
    assert_eq!(frame(0).start_address(), 0);
    assert_eq!(frame(MAX_FRAME_NUMBER).end_address(), u64::MAX);
}

#[test]
fn frames_are_ordered_by_number() {
    assert!(frame(3) < frame(4));
    assert!(frame(4) == frame(4));
}

#[test]
fn frame_within_a_range() {
    let f = frame(1);
    // The range covers the frame.
    assert!(f.within(0x1000..=0x1fff));
    assert!(f.within(0x0..=0xffff));
    // The range lies inside the frame.
    assert!(f.within(0x1800..=0x1900));
    // The range begins inside the frame and ends behind it.
    assert!(f.within(0x1800..=0x2800));
    assert!(f.within(0x1fff..=0x2800));
    assert!(f.within(0x1000..=0x2800));
    // The range begins before the frame and ends inside it.
    assert!(f.within(0x800..=0x1800));
    assert!(f.within(0x800..=0x1000));
    assert!(f.within(0x800..=0x1fff));
    // The range lies behind the frame.
    assert!(!f.within(0x2000..=0x3000));
    // The range lies before the frame.
    assert!(!f.within(0x0..=0xfff));
}

#[test]
fn bump_allocator_spares_the_frame_in_which_the_kernel_ends() {
    let areas = [available(0x0, 0x1_0000)];
    // The kernel ends in the middle of frame 1.
    let mut allocator = BumpAllocator::new(&areas, 0x0..=0x17ff);
    assert_eq!(allocator.allocate_frame(), Some(frame(2)));
    assert_eq!(drain(&mut allocator), vec![3, 4, 5, 6, 7, 8, 9, 10, 11, 12, 13, 14, 15]);
}

#[test]
fn bump_allocator_spares_the_frame_in_which_the_kernel_begins() {
    let areas = [available(0x0, 0x8000)];
    // The kernel begins in the middle of frame 2 and ends at the first
    // byte of frame 5.
    let kernel = 0x2800..=0x5000;
    let mut allocator = BumpAllocator::new(&areas, kernel.clone());
    let numbers = drain(&mut allocator);
    assert_eq!(numbers, vec![0, 1, 6, 7]);
    for number in numbers {
        let f = frame(number);
        assert!(f.end_address() < *kernel.start() || f.start_address() > *kernel.end());
    }
}

#[test]
fn frame_iter_stops_before_the_end() {
    let mut frames = FrameIter::new(frame(1), frame(4));
    assert_eq!(frames.next(), Some(frame(1)));
    assert_eq!(frames.next(), Some(frame(2)));
    assert_eq!(frames.next(), Some(frame(3)));
    assert_eq!(frames.next(), None);
    assert_eq!(frames.next(), None);
}

#[test]
fn frame_iter_of_an_empty_run() {
    assert_eq!(FrameIter::new(frame(3), frame(3)).next(), None);
    assert_eq!(FrameIter::new(frame(5), frame(2)).next(), None);
}

#[test]
fn memory_area_bounds() {
    let area = available(0x1000, 0x3000);
    assert_eq!(area.start_address(), 0x1000);
    assert_eq!(area.end_address(), 0x4000);
    assert_eq!(area.size(), 0x3000);
    assert_eq!(area.typ(), MemoryAreaType::Available);
    assert_eq!(MemoryArea::new(u64::MAX, 1, MemoryAreaType::Available), None);
    assert!(MemoryArea::new(u64::MAX, 0, MemoryAreaType::Reserved).is_some());
}

#[test]
fn bump_allocator_skips_kernel_and_reserved_memory() {
    let areas = [available(0x0, 0x4c00), reserved(0x4c00, 0x400), available(0x10_0000, 0x8000)];
    let mut allocator = BumpAllocator::new(&areas, 0x10_0000..=0x10_2fff);
    // The frame that holds the end of the first area is left out; the
    // frames 0x100 to 0x102 belong to the kernel.
    assert_eq!(drain(&mut allocator), vec![0, 1, 2, 3, 0x103, 0x104, 0x105, 0x106, 0x107]);
    assert_eq!(allocator.allocate_frame(), None);
}

#[test]
fn bump_allocator_hands_out_rising_frames_outside_the_kernel() {
    let areas = [available(0x0, 0x20_0000)];
    let kernel = 0x5000..=0x9fff;
    let mut allocator = BumpAllocator::new(&areas, kernel.clone());
    let numbers = drain(&mut allocator);
    assert_eq!(numbers.len(), 0x200 - 5);
    for pair in numbers.windows(2) {
        assert!(pair[0] < pair[1]);
    }
    for number in numbers {
        assert!(!frame(number).within(kernel.clone()));
        assert!(frame(number).end_address() < 0x5000 || frame(number).start_address() > 0x9fff);
        assert!(!(5..=9).contains(&number));
    }
}

#[test]
fn bump_allocator_takes_the_lowest_area_first() {
    let areas = [available(0x5000, 0x3000), available(0x1000, 0x2000)];
    let mut allocator = BumpAllocator::new(&areas, 0x100_0000..=0x100_0fff);
    assert_eq!(drain(&mut allocator), vec![1, 2, 5, 6, 7]);
}

#[test]
fn bump_allocator_begins_at_the_first_whole_frame() {
    let areas = [available(0x1800, 0x2800)];
    let mut allocator = BumpAllocator::new(&areas, 0x100_0000..=0x100_0fff);
    assert_eq!(drain(&mut allocator), vec![2, 3]);
}

#[test]
fn bump_allocator_without_available_memory() {
    let areas = [reserved(0x0, 0x10_0000)];
    let mut allocator = BumpAllocator::new(&areas, 0x0..=0xfff);
    assert_eq!(allocator.allocate_frame(), None);
    let none: [MemoryArea; 0] = [];
    let mut allocator = BumpAllocator::new(&none, 0x0..=0xfff);
    assert_eq!(allocator.allocate_frame(), None);
}

#[test]
fn bump_allocator_ends_at_the_last_frame() {
    let areas = [available(u64::MAX - 0x2fff, 0x2fff)];
    let mut allocator = BumpAllocator::new(&areas, 0x0..=0xfff);
    assert_eq!(drain(&mut allocator), vec![MAX_FRAME_NUMBER - 2, MAX_FRAME_NUMBER - 1]);
    assert_eq!(allocator.allocate_frame(), None);
}

#[test]
fn bump_allocator_takes_no_frame_back() {
    let areas = [available(0x0, 0x4000)];
    let mut allocator = BumpAllocator::new(&areas, 0x100_0000..=0x100_0fff);
    let first = allocator.allocate_frame().unwrap();
    assert_eq!(allocator.deallocate_frame(first), Err(FrameError::Unsupported));
    assert_eq!(allocator.allocate_frame(), Some(frame(1)));
}

#[test]
fn tiny_alloc_draws_three_frames() {
    let mut source = Counter { next: 7, left: 10, returned: Vec::new() };
    let mut pool = TinyAlloc::new(&mut source);
    assert_eq!(source.next, 10);
    assert_eq!(pool.allocate_frame(), Some(frame(7)));
    assert_eq!(pool.allocate_frame(), Some(frame(8)));
    assert_eq!(pool.allocate_frame(), Some(frame(9)));
    assert_eq!(pool.allocate_frame(), None);
}

#[test]
fn tiny_alloc_from_a_short_source() {
    let mut source = Counter { next: 7, left: 2, returned: Vec::new() };
    let mut pool = TinyAlloc::new(&mut source);
    assert_eq!(pool.allocate_frame(), Some(frame(7)));
    assert_eq!(pool.allocate_frame(), Some(frame(8)));
    assert_eq!(pool.allocate_frame(), None);
}

#[test]
fn tiny_alloc_refills_the_first_empty_slot() {
    let mut pool = TinyAlloc::from_frames([None, Some(frame(2)), None]);
    assert_eq!(pool.deallocate_frame(frame(9)), Ok(()));
    // Slot 0 holds frame 9 now and is drawn first.
    assert_eq!(pool.allocate_frame(), Some(frame(9)));
    assert_eq!(pool.allocate_frame(), Some(frame(2)));
    assert_eq!(pool.allocate_frame(), None);
}

#[test]
fn tiny_alloc_holds_no_more_than_three() {
    let mut pool = TinyAlloc::from_frames([Some(frame(1)), Some(frame(2)), None]);
    assert_eq!(pool.deallocate_frame(frame(3)), Ok(()));
    assert_eq!(pool.deallocate_frame(frame(4)), Err(FrameError::PoolFull));
    assert_eq!(pool.allocate_frame(), Some(frame(1)));
    assert_eq!(pool.allocate_frame(), Some(frame(2)));
    assert_eq!(pool.allocate_frame(), Some(frame(3)));
    assert_eq!(pool.allocate_frame(), None);
}
