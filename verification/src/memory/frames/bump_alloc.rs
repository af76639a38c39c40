//! The boot-time frame allocator.
//!
//! It walks the available areas of the firmware memory map upwards, one
//! frame at a time, and never hands out a frame of the kernel image. Frames
//! are not taken back.
use vstd::prelude::*;
use core::ops::RangeInclusive;
use super::{
    frame_within, FrameAlloc, FrameError, MemoryArea, MemoryAreaType, MemoryAreaView, PhysicalFrame,
    MAX_FRAME_NUMBER, PAGE_SIZE,
};

verus! {

/// The state of a bump allocator as plain values.
pub struct BumpState {
    /// Number of the next candidate frame.
    pub next: int,
    /// The area that candidates are taken from; none once the map is
    /// exhausted.
    pub current: Option<MemoryAreaView>,
    /// The memory map.
    pub areas: Seq<MemoryAreaView>,
    /// First address of the kernel image.
    pub kernel_start: int,
    /// Last address of the kernel image.
    pub kernel_end: int,
}

/// Whether `area` can become the current area when the candidate is `next`:
/// it is available and the frame that holds its end lies above the
/// candidate.
pub open spec fn selectable(area: MemoryAreaView, next: int) -> bool {
    next < area.end / 4096 && area.typ == MemoryAreaType::Available
}

/// Index of the area that is selected among the first `n` areas: the
/// selectable area with the lowest start, the first of them where several
/// start there; -1 if none is selectable.
pub open spec fn select_among(areas: Seq<MemoryAreaView>, next: int, n: int) -> int
    decreases n,
{
    if n <= 0 || n > areas.len() {
        -1
    } else {
        let best = select_among(areas, next, n - 1);
        if selectable(areas[n - 1], next) && (best < 0 || areas[n - 1].start < areas[best].start) {
            n - 1
        } else {
            best
        }
    }
}

/// The area that is selected for the candidate `next`, if any.
pub open spec fn select_area(areas: Seq<MemoryAreaView>, next: int) -> Option<MemoryAreaView> {
    let i = select_among(areas, next, areas.len() as int);
    if i < 0 {
        None
    } else {
        Some(areas[i])
    }
}

/// Number of the first frame that does not begin before `address`.
pub open spec fn first_frame_from(address: int) -> int {
    (address + 4095) / 4096
}

/// Whether frame `n` lies in one of the available areas of the map, first
/// byte to last.
pub open spec fn in_available_area(areas: Seq<MemoryAreaView>, n: int) -> bool {
    exists|i: int|
        0 <= i < areas.len() && (#[trigger] areas[i]).typ == MemoryAreaType::Available && areas[i].start <= n
            * 4096 && n * 4096 + 4095 < areas[i].end
}

impl BumpState {
    /// Whether the current area, if there is one, is an available area of
    /// the map.
    pub open spec fn consistent(self) -> bool {
        self.current matches Some(area) ==> exists|i: int|
            0 <= i < self.areas.len() && #[trigger] self.areas[i] == area && area.typ
                == MemoryAreaType::Available
    }

    /// The state once the candidate `self.next` has been passed over or
    /// handed out: the candidate moves up by one. Past the last frame there
    /// is no candidate, and the map counts as exhausted.
    pub open spec fn advanced(self) -> BumpState {
        if self.next < MAX_FRAME_NUMBER {
            BumpState { next: self.next + 1, ..self }
        } else {
            BumpState { current: None, ..self }
        }
    }

    /// A bound below every frame that may still be handed out.
    pub open spec fn floor(self) -> int {
        if self.current is None {
            MAX_FRAME_NUMBER + 1
        } else {
            self.next
        }
    }

    /// How many rounds of the search remain at most.
    pub open spec fn fuel(self) -> int {
        2 * (MAX_FRAME_NUMBER - self.next) + if self.current is Some {
            1int
        } else {
            0int
        }
    }

    /// One round of the search with current area `area`: the state in which
    /// the search goes on, or the candidate itself where it is handed out.
    ///
    /// A candidate that holds a byte of the kernel image is passed over. One
    /// whose last
    /// byte does not lie before the end of the area is passed over too, and
    /// the area is selected anew. One that begins before the area makes the
    /// candidate jump to the first frame that does not. Any other candidate
    /// is handed out.
    pub open spec fn round(self, area: MemoryAreaView) -> (bool, BumpState) {
        if frame_within(self.next, self.kernel_start, self.kernel_end) {
            (false, self.advanced())
        } else if self.next * 4096 + 4095 >= area.end {
            let moved = self.advanced();
            (false, BumpState { current: if moved.current is Some {
                select_area(self.areas, moved.next)
            } else {
                None
            }, ..moved })
        } else if self.next * 4096 < area.start {
            if first_frame_from(area.start) <= MAX_FRAME_NUMBER {
                (false, BumpState { next: first_frame_from(area.start), ..self })
            } else {
                (false, BumpState { current: None, ..self })
            }
        } else {
            (true, self.advanced())
        }
    }

    /// The frame that `allocate_frame` hands out in this state, and the
    /// state it leaves behind.
    pub open spec fn search(self) -> (Option<int>, BumpState)
        decreases self.fuel(),
    {
        match self.current {
            None => (None, self),
            Some(area) => {
                let (found, after) = self.round(area);
                if found {
                    (Some(self.next), after)
                } else if 0 <= self.next <= MAX_FRAME_NUMBER && after.fuel() < self.fuel() {
                    after.search()
                } else {
                    (None, after)
                }
            },
        }
    }

    /// Every round that does not hand out a frame uses up fuel.
    pub proof fn lemma_round(self, area: MemoryAreaView)
        requires
            0 <= self.next <= MAX_FRAME_NUMBER,
            self.current == Some(area),
        ensures
            self.consistent() ==> self.round(area).1.consistent(),
            !self.round(area).0 ==> self.round(area).1.fuel() < self.fuel(),
            self.round(area).1.next >= self.next,
            self.round(area).1.next <= MAX_FRAME_NUMBER,
            self.round(area).1.areas == self.areas,
            self.round(area).1.kernel_start == self.kernel_start,
            self.round(area).1.kernel_end == self.kernel_end,
            self.round(area).0 ==> !frame_within(self.next, self.kernel_start, self.kernel_end)
                && area.start <= self.next * 4096 && self.next * 4096 + 4095 < area.end,
            self.round(area).1.floor() > self.next || !self.round(area).0,
            self.round(area).1.floor() >= self.floor(),
    {
        if self.consistent() {
            let moved = self.advanced();
            lemma_select_among(self.areas, moved.next, self.areas.len() as int);
        }
    }

    /// A frame that is handed out is not below the candidate, has no byte
    /// in common with the kernel image, lies in an available area of the
    /// map, and lies below every frame handed out later.
    pub proof fn lemma_search(self)
        requires
            0 <= self.next <= MAX_FRAME_NUMBER,
        ensures
            self.consistent() ==> self.search().1.consistent(),
            self.consistent() && self.search().0 is Some ==> in_available_area(
                self.areas,
                self.search().0.unwrap(),
            ),
            self.search().1.areas == self.areas,
            self.search().1.kernel_start == self.kernel_start,
            self.search().1.kernel_end == self.kernel_end,
            self.next <= self.search().1.next <= MAX_FRAME_NUMBER,
            self.search().0 is None ==> self.search().1.current is None,
            self.search().0 matches Some(n) ==> {
                &&& self.floor() <= n < self.search().1.floor()
                &&& n <= MAX_FRAME_NUMBER
                &&& !frame_within(n, self.kernel_start, self.kernel_end)
                &&& n * 4096 + 4095 < self.kernel_start || n * 4096 > self.kernel_end
            },
        decreases self.fuel(),
    {
        if let Some(area) = self.current {
            self.lemma_round(area);
            let (found, after) = self.round(area);
            if !found {
                after.lemma_search();
            }
        }
    }
}

/// Of two frames handed out one after the other, the later one has the
/// higher number, and neither has a byte in common with the kernel image:
/// each ends before the image starts or starts behind its end. Both lie in
/// available areas of the map. Once nothing is handed out, nothing is handed
/// out ever after.
pub proof fn lemma_frames_rise(state: BumpState)
    requires
        0 <= state.next <= MAX_FRAME_NUMBER,
        state.consistent(),
    ensures
        ({
            let (first, middle) = state.search();
            let (second, last) = middle.search();
            &&& first matches Some(m) ==> (m * 4096 + 4095 < state.kernel_start || m * 4096 > state.kernel_end)
                && in_available_area(state.areas, m)
            &&& second matches Some(n) ==> (n * 4096 + 4095 < state.kernel_start || n * 4096 > state.kernel_end)
                && in_available_area(state.areas, n)
            &&& first is Some && second is Some ==> first.unwrap() < second.unwrap()
            &&& first is None ==> second is None
        }),
{
    state.lemma_search();
    state.search().1.lemma_search();
}

/// The area that `select_area` picks is selectable and starts lowest; it is
/// the first to start there.
pub proof fn lemma_select_among(areas: Seq<MemoryAreaView>, next: int, n: int)
    requires
        0 <= n <= areas.len(),
    ensures
        -1 <= select_among(areas, next, n) < n,
        select_among(areas, next, n) >= 0 ==> selectable(areas[select_among(areas, next, n)], next),
        forall|j: int|
            0 <= j < n && selectable(#[trigger] areas[j], next) ==> {
                let i = select_among(areas, next, n);
                i >= 0 && (areas[i].start < areas[j].start || (areas[i].start == areas[j].start && i <= j))
            },
    decreases n,
{
    if n > 0 {
        lemma_select_among(areas, next, n - 1);
    }
}

/// The number of the frame that is handed out after `n` others, coming
/// from `state`.
pub open spec fn answer_of(state: BumpState, n: u128) -> Option<int>
    decreases n,
{
    if n == 0 {
        state.search().0
    } else {
        answer_of(state.search().1, (n - 1) as u128)
    }
}

/// The state that `state` comes to once `count` frames are handed out.
pub open spec fn state_after(state: BumpState, count: u128) -> BumpState
    decreases count,
{
    if count == 0 {
        state
    } else {
        state_after(state.search().1, (count - 1) as u128)
    }
}

/// The allocator that hands out the frames of the available memory areas in
/// rising order, leaving out the kernel image.
pub struct BumpAllocator<'a> {
    next_frame: PhysicalFrame,
    current_area: Option<MemoryArea>,
    areas: &'a [MemoryArea],
    kernel_start: u64,
    kernel_end: u64,
}

/// The areas as plain values.
pub open spec fn area_views(areas: Seq<MemoryArea>) -> Seq<MemoryAreaView> {
    areas.map_values(|a: MemoryArea| a@)
}

impl<'a> View for BumpAllocator<'a> {
    type V = BumpState;

    closed spec fn view(&self) -> BumpState {
        BumpState {
            next: self.next_frame@,
            current: match self.current_area {
                Some(a) => Some(a@),
                None => None,
            },
            areas: area_views(self.areas@),
            kernel_start: self.kernel_start as int,
            kernel_end: self.kernel_end as int,
        }
    }
}

impl<'a> BumpAllocator<'a> {
    #[verifier::type_invariant]
    spec fn area_from_map(self) -> bool {
        self@.consistent()
    }

    /// An allocator over `areas` that spares every frame that holds a byte
    /// of `kernel`.
    /// The first candidate is frame 0.
    pub fn new(areas: &'a [MemoryArea], kernel: RangeInclusive<u64>) -> (allocator: Self)
        ensures
            allocator@ == (BumpState {
                next: 0,
                current: select_area(area_views(areas@), 0),
                areas: area_views(areas@),
                kernel_start: kernel@.start as int,
                kernel_end: kernel@.end as int,
            }),
    {
        let mut allocator = BumpAllocator {
            next_frame: PhysicalFrame::by_addr(0),
            current_area: None,
            areas,
            kernel_start: *kernel.start(),
            kernel_end: *kernel.end(),
        };
        allocator.next_area();
        allocator
    }

    /// Selects the current area anew: the available area with the lowest
    /// start among those whose end lies in a frame above the candidate.
    fn next_area(&mut self)
        ensures
            final(self)@ == (BumpState { current: select_area(old(self)@.areas, old(self)@.next), ..old(self)@ }),
    {
        let mut best: Option<MemoryArea> = None;
        let mut i: usize = 0;
        let ghost views = area_views(self.areas@);
        while i < self.areas.len()
            invariant
                *self == *old(self),
                views == area_views(self.areas@),
                i <= self.areas@.len(),
                select_among(views, self.next_frame@, i as int) < 0 <==> best is None,
                best matches Some(b) ==> b@ == views[select_among(views, self.next_frame@, i as int)],
            decreases self.areas@.len() - i,
        {
            proof {
                lemma_select_among(views, self.next_frame@, i as int);
            }
            let area = self.areas[i];
            assert(area@ == views[i as int]);
            if self.next_frame.number() < PhysicalFrame::by_addr(area.end_address()).number() && area.typ()
                == MemoryAreaType::Available {
                let better = match best {
                    None => true,
                    Some(b) => area.start_address() < b.start_address(),
                };
                if better {
                    best = Some(area);
                }
            }
            i += 1;
        }
        proof {
            lemma_select_among(views, self.next_frame@, self.areas@.len() as int);
        }
        self.current_area = best;
    }
}

impl<'a> FrameAlloc for BumpAllocator<'a> {
    /// The frames are those that the search finds, one after the other.
    open spec fn answer(&self, n: u128) -> Option<PhysicalFrame> {
        match answer_of(self@, n) {
            Some(number) => Some(PhysicalFrame::of(number)),
            None => None,
        }
    }

    /// No frame is taken back.
    open spec fn takes(&self, used: u128, frame: PhysicalFrame) -> Result<(), FrameError> {
        Err(FrameError::Unsupported)
    }

    /// No frame is taken back, so the frames that are handed out after
    /// that are those that the search goes on to find.
    open spec fn answer_after(&self, used: u128, frame: PhysicalFrame, n: u128) -> Option<PhysicalFrame> {
        match answer_of(state_after(self@, used), n) {
            Some(number) => Some(PhysicalFrame::of(number)),
            None => None,
        }
    }

    /// Hands out the next frame that lies in an available area and has no
    /// byte in common with the kernel image; nothing once the memory map is
    /// exhausted. The frames come in rising order.
    fn allocate_frame(&mut self) -> (frame: Option<PhysicalFrame>)
        ensures
            final(self)@ == old(self)@.search().1,
            match frame {
                Some(f) => old(self)@.search().0 == Some(f@),
                None => old(self)@.search().0 is None,
            },
            frame matches Some(f) ==> {
                &&& old(self)@.floor() <= f@ < final(self)@.floor()
                &&& f@ * 4096 + 4095 < old(self)@.kernel_start || f@ * 4096 > old(self)@.kernel_end
                &&& in_available_area(old(self)@.areas, f@)
            },
            frame is None ==> final(self)@.current is None,
    {
        proof {
            use_type_invariant(&self.next_frame);
            use_type_invariant(&*self);
        }
        loop
            invariant
                0 <= old(self)@.next <= MAX_FRAME_NUMBER,
                old(self)@.consistent(),
                self@.search() == old(self)@.search(),
            decreases self@.fuel(),
        {
            proof {
                use_type_invariant(&self.next_frame);
                use_type_invariant(&*self);
                old(self)@.lemma_search();
            }
            let area = match self.current_area {
                None => {
                    return None;
                },
                Some(area) => area,
            };
            proof {
                self@.lemma_round(area@);
            }
            let current = self.next_frame;
            let kernel = RangeInclusive::new(self.kernel_start, self.kernel_end);
            if current.within(kernel) {
                self.advance();
            } else if current.end_address() >= area.end_address() {
                self.advance();
                if self.current_area.is_some() {
                    self.next_area();
                }
            } else if current.start_address() < area.start_address() {
                let first: u64 = (area.start_address() - 1) / PAGE_SIZE + 1;
                if first <= MAX_FRAME_NUMBER {
                    self.next_frame = PhysicalFrame::from_number(first);
                } else {
                    self.current_area = None;
                }
            } else {
                self.advance();
                return Some(current);
            }
        }
    }

    /// Frames are not taken back.
    fn deallocate_frame(&mut self, frame: PhysicalFrame) -> (r: Result<(), FrameError>)
        ensures
            r == Err::<(), FrameError>(FrameError::Unsupported),
            final(self)@ == old(self)@,
    {
        Err(FrameError::Unsupported)
    }
}

impl<'a> BumpAllocator<'a> {
    /// Moves the candidate up by one frame; past the last frame the map
    /// counts as exhausted.
    fn advance(&mut self)
        ensures
            final(self)@ == old(self)@.advanced(),
    {
        proof {
            use_type_invariant(&*self);
        }
        if self.next_frame.number() < MAX_FRAME_NUMBER {
            self.next_frame = PhysicalFrame::from_number(self.next_frame.number() + 1);
        } else {
            self.current_area = None;
        }
    }
}

} // verus!
