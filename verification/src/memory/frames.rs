//! Physical frames and the sources that hand them out.
use vstd::prelude::*;
use core::ops::RangeInclusive;
use super::PhysicalAddress;

pub mod bump_alloc;
pub mod tiny_alloc;

verus! {

/// Size of a frame and of a page, in bytes.
pub const PAGE_SIZE: u64 = 4096;

/// The largest frame number whose last byte still has a 64-bit address.
pub const MAX_FRAME_NUMBER: u64 = 0xf_ffff_ffff_ffff;

/// `RangeInclusive::start` of std: hands out the lower bound that the range
/// was built with.
pub assume_specification<Idx>[ RangeInclusive::<Idx>::start ](range: &RangeInclusive<Idx>) -> (bound: &Idx)
    ensures
        *bound == range@.start,
;

/// `RangeInclusive::end` of std: hands out the upper bound that the range
/// was built with.
pub assume_specification<Idx>[ RangeInclusive::<Idx>::end ](range: &RangeInclusive<Idx>) -> (bound: &Idx)
    ensures
        *bound == range@.end,
;

/// A 4096-byte unit of physical memory, identified by `address / 4096`.
#[derive(PartialEq, Eq, Structural, PartialOrd, Ord, Debug, Clone, Copy)]
pub struct PhysicalFrame {
    pub(crate) number: u64,
}

impl View for PhysicalFrame {
    type V = int;

    /// The frame number.
    closed spec fn view(&self) -> int {
        self.number as int
    }
}

/// Whether a frame with this number lies within the inclusive address
/// range `start..=end`, wholly or in part: the frame does not end before
/// the range starts and does not start behind its end. For a range that
/// has bytes this is to say that the frame and the range have a byte in
/// common, see [`lemma_frame_shares_a_byte`].
pub open spec fn frame_within(number: int, start: int, end: int) -> bool {
    number * 4096 <= end && start <= number * 4096 + 4095
}

/// Whether `byte` is an address both of the frame with this number and of
/// the range `start..=end`.
pub open spec fn in_both(number: int, start: int, end: int, byte: int) -> bool {
    number * 4096 <= byte <= number * 4096 + 4095 && start <= byte <= end
}

/// A frame lies within a range that has bytes exactly where some byte
/// belongs to both.
pub proof fn lemma_frame_shares_a_byte(number: int, start: int, end: int)
    requires
        start <= end,
    ensures
        frame_within(number, start, end) == exists|byte: int| in_both(number, start, end, byte),
{
    if frame_within(number, start, end) {
        let byte = if start >= number * 4096 {
            start
        } else {
            number * 4096
        };
        assert(in_both(number, start, end, byte));
    }
}

/// A frame that lies in the range with its first and its last byte lies
/// within it, and so does a frame that the range lies in.
pub proof fn lemma_frame_inside_is_within(number: int, start: int, end: int)
    requires
        start <= end,
    ensures
        start <= number * 4096 && number * 4096 + 4095 <= end ==> frame_within(number, start, end),
        number * 4096 <= start && end <= number * 4096 + 4095 ==> frame_within(number, start, end),
{
}

/// A frame that has no byte in common with the range does not lie within
/// it. A frame that holds the first or the last byte of the range lies
/// within it, wherever in the frame that byte is.
pub proof fn lemma_frame_at_the_edge(number: int, start: int, end: int)
    requires
        start <= end,
    ensures
        end < number * 4096 || number * 4096 + 4095 < start ==> !frame_within(number, start, end),
        number * 4096 <= start <= number * 4096 + 4095 ==> frame_within(number, start, end),
        number * 4096 <= end <= number * 4096 + 4095 ==> frame_within(number, start, end),
{
}

impl PhysicalFrame {
    /// The frame with the given number, for use in contracts.
    pub closed spec fn of(number: int) -> PhysicalFrame {
        PhysicalFrame { number: number as u64 }
    }

    /// `of` gives the frame with that number, and every frame is the one
    /// that `of` gives for its number.
    pub proof fn lemma_of(frame: PhysicalFrame, number: int)
        ensures
            0 <= number <= u64::MAX ==> Self::of(number)@ == number,
            Self::of(frame@) == frame,
    {
    }

    #[verifier::type_invariant]
    spec fn in_range(self) -> bool {
        self.number <= MAX_FRAME_NUMBER
    }

    /// Two frames with the same number are the same frame, and every frame
    /// number is at most `MAX_FRAME_NUMBER`.
    pub broadcast proof fn lemma_view(a: PhysicalFrame, b: PhysicalFrame)
        ensures
            #![trigger a@, b@]
            a@ == b@ ==> a == b,
            0 <= a@,
    {
    }

    /// The frame with the given number.
    pub fn from_number(number: u64) -> (frame: Self)
        requires
            number <= MAX_FRAME_NUMBER,
        ensures
            frame@ == number,
    {
        PhysicalFrame { number }
    }

    /// The number of this frame.
    pub fn number(&self) -> (number: u64)
        ensures
            number == self@,
            number <= MAX_FRAME_NUMBER,
    {
        proof {
            use_type_invariant(self);
        }
        self.number
    }

    /// The frame that holds the byte at `addr`.
    pub fn by_addr(addr: PhysicalAddress) -> (frame: Self)
        ensures
            frame@ == addr as int / 4096,
    {
        PhysicalFrame { number: addr / PAGE_SIZE }
    }

    /// Address of the first byte of the frame.
    pub fn start_address(&self) -> (address: PhysicalAddress)
        ensures
            address == self@ * 4096,
    {
        proof {
            use_type_invariant(self);
        }
        self.number * PAGE_SIZE
    }

    /// Address of the last byte of the frame.
    pub fn end_address(&self) -> (address: PhysicalAddress)
        ensures
            address == self@ * 4096 + 4095,
    {
        proof {
            use_type_invariant(self);
        }
        self.number * PAGE_SIZE + (PAGE_SIZE - 1)
    }

    /// Whether the frame lies within `range`, wholly or in part, see
    /// [`frame_within`].
    pub fn within(&self, range: RangeInclusive<u64>) -> (inside: bool)
        ensures
            inside == frame_within(self@, range@.start as int, range@.end as int),
    {
        let start: u64 = *range.start();
        let end: u64 = *range.end();
        self.start_address() <= end && start <= self.end_address()
    }
}

/// Why a frame could not be given back to its source.
#[derive(Debug, Clone, Copy, PartialEq, Eq, Structural)]
pub enum FrameError {
    /// The source never takes frames back.
    Unsupported,
    /// The pool already holds as many frames as it has slots.
    PoolFull,
}

/// A source of physical frames.
///
/// What a source hands out and what it takes back is its own affair, but a
/// source knows its answers in advance: as long as no frame is given back,
/// the answers to come are fixed, and each call uses up the first of them.
/// It also knows what it will say to a frame that is given back after any
/// number of calls, and what it hands out from then on. A source need not
/// take frames back: one that never does says `Unsupported` to each, and
/// its callers must not count on a frame being handed out again.
pub trait FrameAlloc: Sized {
    /// The answer that the call of `allocate_frame` after `n` more calls
    /// gives, as long as no frame is given back in between.
    spec fn answer(&self, n: u128) -> Option<PhysicalFrame>;

    /// What `deallocate_frame` says to `frame` once `used` answers are used
    /// up.
    spec fn takes(&self, used: u128, frame: PhysicalFrame) -> Result<(), FrameError>;

    /// The answer that the call of `allocate_frame` after `n` more calls
    /// gives once `used` answers are used up and `frame` was given back
    /// after that, whether the source took it or not.
    spec fn answer_after(&self, used: u128, frame: PhysicalFrame, n: u128) -> Option<PhysicalFrame>;

    /// Hands out a frame, or nothing once the source is exhausted.
    fn allocate_frame(&mut self) -> (frame: Option<PhysicalFrame>)
        ensures
            frame == old(self).answer(0),
            forall|n: u128| n < u128::MAX ==> #[trigger] final(self).answer(n) == old(self).answer((n + 1) as u128),
            forall|n: u128, f: PhysicalFrame|
                n < u128::MAX ==> #[trigger] final(self).takes(n, f) == old(self).takes((n + 1) as u128, f),
            forall|n: u128, f: PhysicalFrame, m: u128|
                n < u128::MAX ==> #[trigger] final(self).answer_after(n, f, m) == old(self).answer_after(
                    (n + 1) as u128,
                    f,
                    m,
                ),
    ;

    /// Takes `frame` back for reuse, or says why it cannot. Either way the
    /// answers from then on are those that `answer_after` gives.
    fn deallocate_frame(&mut self, frame: PhysicalFrame) -> (r: Result<(), FrameError>)
        ensures
            r == old(self).takes(0, frame),
            forall|n: u128| #[trigger] final(self).answer(n) == old(self).answer_after(0, frame, n),
    ;
}

/// Using up `i` answers and then `j` more uses up `i + j`.
pub proof fn lemma_drawn_add<A: FrameAlloc>(a: A, b: A, c: A, i: int, j: int)
    requires
        0 <= i,
        0 <= j,
        drawn(a, b, i),
        drawn(b, c, j),
    ensures
        drawn(a, c, i + j),
{
    assert forall|n: u128| n + (i + j) <= u128::MAX implies #[trigger] c.answer(n) == a.answer(
        (n + (i + j)) as u128,
    ) by {
        assert(c.answer(n) == b.answer((n + j) as u128));
        assert(b.answer((n + j) as u128) == a.answer(((n + j) as u128 + i) as u128));
    }
    assert forall|n: u128, f: PhysicalFrame| n + (i + j) <= u128::MAX implies #[trigger] c.takes(n, f)
        == a.takes((n + (i + j)) as u128, f) by {
        assert(c.takes(n, f) == b.takes((n + j) as u128, f));
        assert(b.takes((n + j) as u128, f) == a.takes(((n + j) as u128 + i) as u128, f));
    }
    assert forall|n: u128, f: PhysicalFrame, m: u128| n + (i + j) <= u128::MAX implies #[trigger] c.answer_after(
        n,
        f,
        m,
    ) == a.answer_after((n + (i + j)) as u128, f, m) by {
        assert(c.answer_after(n, f, m) == b.answer_after((n + j) as u128, f, m));
        assert(b.answer_after((n + j) as u128, f, m) == a.answer_after(((n + j) as u128 + i) as u128, f, m));
    }
}

/// Whether `after` is the source `before` once `count` answers are used up:
/// its answers are the later answers of `before`, and it says to a frame
/// that is given back what `before` would say then.
pub open spec fn drawn<A: FrameAlloc>(before: A, after: A, count: int) -> bool {
    &&& forall|n: u128|
        n + count <= u128::MAX ==> #[trigger] after.answer(n) == before.answer((n + count) as u128)
    &&& forall|n: u128, f: PhysicalFrame|
        n + count <= u128::MAX ==> #[trigger] after.takes(n, f) == before.takes((n + count) as u128, f)
    &&& forall|n: u128, f: PhysicalFrame, m: u128|
        n + count <= u128::MAX ==> #[trigger] after.answer_after(n, f, m) == before.answer_after(
            (n + count) as u128,
            f,
            m,
        )
}

/// What the firmware says a stretch of physical memory is.
#[derive(Debug, Clone, Copy, PartialEq, Eq, Structural)]
pub enum MemoryAreaType {
    /// Free for the kernel to use.
    Available,
    /// Must not be used.
    Reserved,
    /// Usable, holds ACPI tables.
    AcpiAvailable,
    /// Reserved, to be kept over hibernation.
    ReservedHibernate,
    /// Defective RAM.
    Defective,
    /// Any other kind.
    Custom,
}

/// A memory area as plain numbers.
pub struct MemoryAreaView {
    /// Address of the first byte.
    pub start: int,
    /// Address one past the last byte.
    pub end: int,
    /// Kind of memory.
    pub typ: MemoryAreaType,
}

/// One entry of the firmware memory map: `length` bytes from `start` on.
#[derive(Debug, Clone, Copy, PartialEq, Eq, Structural)]
pub struct MemoryArea {
    start: u64,
    length: u64,
    typ: MemoryAreaType,
}

impl View for MemoryArea {
    type V = MemoryAreaView;

    closed spec fn view(&self) -> MemoryAreaView {
        MemoryAreaView { start: self.start as int, end: self.start + self.length, typ: self.typ }
    }
}

impl MemoryArea {
    #[verifier::type_invariant]
    spec fn in_range(self) -> bool {
        self.start + self.length <= u64::MAX
    }

    /// The area of `length` bytes from `start` on, unless it would reach
    /// past the last 64-bit address.
    pub fn new(start: u64, length: u64, typ: MemoryAreaType) -> (area: Option<Self>)
        ensures
            area is Some == (start + length <= u64::MAX),
            area matches Some(a) ==> a@ == (MemoryAreaView { start: start as int, end: start + length, typ }),
    {
        if length > u64::MAX - start {
            None
        } else {
            Some(MemoryArea { start, length, typ })
        }
    }

    /// Address of the first byte.
    pub fn start_address(&self) -> (address: u64)
        ensures
            address == self@.start,
    {
        self.start
    }

    /// Address one past the last byte.
    pub fn end_address(&self) -> (address: u64)
        ensures
            address == self@.end,
    {
        proof {
            use_type_invariant(self);
        }
        self.start + self.length
    }

    /// Number of bytes.
    pub fn size(&self) -> (length: u64)
        ensures
            length == self@.end - self@.start,
    {
        self.length
    }

    /// Kind of memory.
    pub fn typ(&self) -> (typ: MemoryAreaType)
        ensures
            typ == self@.typ,
    {
        self.typ
    }
}

/// The frames from `start` up to, not including, `end`, in rising order.
pub struct FrameIter {
    start: PhysicalFrame,
    end: PhysicalFrame,
}

impl View for FrameIter {
    type V = (int, int);

    /// The number of the next frame and the number at which the run ends.
    closed spec fn view(&self) -> (int, int) {
        (self.start@, self.end@)
    }
}

impl FrameIter {
    /// The run of frames from `start` up to, not including, `end`.
    pub fn new(start: PhysicalFrame, end: PhysicalFrame) -> (iter: Self)
        ensures
            iter@ == (start@, end@),
    {
        FrameIter { start, end }
    }

    /// The next frame of the run, or nothing once the run has reached its
    /// end.
    pub fn next(&mut self) -> (frame: Option<PhysicalFrame>)
        ensures
            old(self)@.0 >= old(self)@.1 ==> frame is None && final(self)@ == old(self)@,
            old(self)@.0 < old(self)@.1 ==> frame is Some && frame.unwrap()@ == old(self)@.0 && final(self)@
                == (old(self)@.0 + 1, old(self)@.1),
    {
        if self.start.number() >= self.end.number() {
            return None;
        }
        let frame = self.start;
        self.start = PhysicalFrame::from_number(frame.number() + 1);
        Some(frame)
    }
}

} // verus!
