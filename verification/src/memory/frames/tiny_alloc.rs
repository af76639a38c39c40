//! A pool of three frames, drawn in advance.
use vstd::prelude::*;
use super::{drawn, lemma_drawn_add, FrameAlloc, FrameError, PhysicalFrame};

verus! {

/// Number of slots of the pool.
pub const POOL_SIZE: usize = 3;

/// Index of the first slot at or after `from` that holds a frame, or the
/// number of slots if there is none.
pub open spec fn first_full(slots: Seq<Option<PhysicalFrame>>, from: int) -> int
    decreases slots.len() - from,
{
    if from < 0 || from >= slots.len() {
        slots.len() as int
    } else if slots[from] is Some {
        from
    } else {
        first_full(slots, from + 1)
    }
}

/// Index of the first empty slot at or after `from`, or the number of slots
/// if there is none.
pub open spec fn first_empty(slots: Seq<Option<PhysicalFrame>>, from: int) -> int
    decreases slots.len() - from,
{
    if from < 0 || from >= slots.len() {
        slots.len() as int
    } else if slots[from] is None {
        from
    } else {
        first_empty(slots, from + 1)
    }
}

/// The frame in the slot that is drawn after `n` others, counting from slot
/// `from` on: that of the full slot with `n` full slots between `from` and
/// it.
pub open spec fn nth_full(slots: Seq<Option<PhysicalFrame>>, from: int, n: int) -> Option<PhysicalFrame>
    decreases slots.len() - from,
{
    if from < 0 || from >= slots.len() {
        None
    } else if slots[from] is Some {
        if n <= 0 {
            slots[from]
        } else {
            nth_full(slots, from + 1, n - 1)
        }
    } else {
        nth_full(slots, from + 1, n)
    }
}

/// Emptying the first full slot moves every later frame up by one place in
/// the order of drawing; where no slot is full, nothing is drawn.
pub proof fn lemma_nth_full(slots: Seq<Option<PhysicalFrame>>, from: int, n: int)
    requires
        0 <= from <= slots.len(),
        0 <= n,
    ensures
        first_full(slots, from) >= slots.len() ==> nth_full(slots, from, n) is None,
        first_full(slots, from) < slots.len() ==> nth_full(slots, from, 0) == slots[first_full(slots, from)]
            && nth_full(slots.update(first_full(slots, from), None), from, n) == nth_full(slots, from, n + 1),
    decreases slots.len() - from,
{
    if from < slots.len() {
        lemma_first_slots(slots, from);
        if slots[from] is None {
            lemma_nth_full(slots, from + 1, n);
            let k = first_full(slots, from);
            if k < slots.len() {
                assert(slots.update(k, None)[from] is None);
            }
        } else {
            let t = slots.update(from, None);
            lemma_same_after(slots, t, from + 1, n);
        }
    }
}

/// Slots that agree from `from` on are drawn alike from `from` on.
pub proof fn lemma_same_after(
    s: Seq<Option<PhysicalFrame>>,
    t: Seq<Option<PhysicalFrame>>,
    from: int,
    n: int,
)
    requires
        s.len() == t.len(),
        0 <= from <= s.len(),
        forall|i: int| from <= i < s.len() ==> s[i] == t[i],
    ensures
        nth_full(s, from, n) == nth_full(t, from, n),
    decreases s.len() - from,
{
    if from < s.len() {
        lemma_same_after(s, t, from + 1, n);
        lemma_same_after(s, t, from + 1, n - 1);
    }
}

/// The slots once the first full slot is emptied; the same slots where
/// none is full.
pub open spec fn emptied(slots: Seq<Option<PhysicalFrame>>) -> Seq<Option<PhysicalFrame>> {
    if first_full(slots, 0) < slots.len() {
        slots.update(first_full(slots, 0), None)
    } else {
        slots
    }
}

/// The slots once `count` frames are drawn.
pub open spec fn drained(slots: Seq<Option<PhysicalFrame>>, count: int) -> Seq<Option<PhysicalFrame>>
    decreases count,
{
    if count <= 0 {
        slots
    } else {
        drained(emptied(slots), count - 1)
    }
}

/// The slots once `frame` is put into the first empty slot; the same slots
/// where none is empty.
pub open spec fn refilled(slots: Seq<Option<PhysicalFrame>>, frame: PhysicalFrame) -> Seq<Option<PhysicalFrame>> {
    if first_empty(slots, 0) < slots.len() {
        slots.update(first_empty(slots, 0), Some(frame))
    } else {
        slots
    }
}

/// Whether a pool with these slots has no empty slot once `count` frames
/// are drawn from it.
pub open spec fn full_after(slots: Seq<Option<PhysicalFrame>>, count: int) -> bool {
    first_empty(drained(slots, count), 0) >= drained(slots, count).len()
}

/// Slots whose first full slot was emptied are the slots with one frame
/// drawn.
pub proof fn lemma_emptied(s: Seq<Option<PhysicalFrame>>)
    ensures
        forall|n: int| 0 <= n ==> #[trigger] nth_full(emptied(s), 0, n) == nth_full(s, 0, n + 1),
        forall|n: int| 0 <= n ==> #[trigger] drained(emptied(s), n) == drained(s, n + 1),
{
    lemma_first_slots(s, 0);
    assert forall|n: int| 0 <= n implies #[trigger] nth_full(emptied(s), 0, n) == nth_full(s, 0, n + 1) by {
        lemma_nth_full(s, 0, n);
        lemma_nth_full(s, 0, n + 1);
    }
}

/// What a pool says to a frame once `count` frames are drawn from its
/// slots and then one frame is given back: it has no slot left where two
/// frames stayed after the drawing.
pub open spec fn takes_second(slots: Seq<Option<PhysicalFrame>>, count: int) -> Result<(), FrameError> {
    if nth_full(slots, 0, count + 1) is Some {
        Err(FrameError::PoolFull)
    } else {
        Ok(())
    }
}

/// Three slots of which one is empty are full after one frame is put into
/// the empty slot exactly where two frames can be drawn from them.
pub proof fn lemma_refilled_full(s: Seq<Option<PhysicalFrame>>, frame: PhysicalFrame)
    requires
        s.len() == 3,
        first_empty(s, 0) < 3,
    ensures
        full_after(refilled(s, frame), 0) == (nth_full(s, 0, 1) is Some),
{
    reveal_with_fuel(first_empty, 5);
    reveal_with_fuel(nth_full, 5);
    reveal_with_fuel(drained, 2);
    let t = refilled(s, frame);
    assert(drained(t, 0) == t);
    assert(t.len() == 3);
}

/// Slots are drawn no more often than there are slots.
pub proof fn lemma_nth_full_end(slots: Seq<Option<PhysicalFrame>>, from: int, n: int)
    requires
        0 <= from <= slots.len(),
        n >= slots.len() - from,
    ensures
        nth_full(slots, from, n) is None,
    decreases slots.len() - from,
{
    if from < slots.len() {
        lemma_nth_full_end(slots, from + 1, n);
        lemma_nth_full_end(slots, from + 1, n - 1);
    }
}

/// The first full and the first empty slot from `from` on lie between
/// `from` and the number of slots.
pub proof fn lemma_first_slots(slots: Seq<Option<PhysicalFrame>>, from: int)
    requires
        0 <= from <= slots.len(),
    ensures
        from <= first_full(slots, from) <= slots.len(),
        from <= first_empty(slots, from) <= slots.len(),
        first_full(slots, from) < slots.len() ==> slots[first_full(slots, from)] is Some,
        first_empty(slots, from) < slots.len() ==> slots[first_empty(slots, from)] is None,
    decreases slots.len() - from,
{
    if from < slots.len() {
        lemma_first_slots(slots, from + 1);
    }
}

/// A pool that holds at most three frames. It is filled once, from another
/// source, so that building page tables never has to go back to that source.
pub struct TinyAlloc {
    frames: [Option<PhysicalFrame>; 3],
}

impl View for TinyAlloc {
    type V = Seq<Option<PhysicalFrame>>;

    /// The three slots.
    closed spec fn view(&self) -> Seq<Option<PhysicalFrame>> {
        self.frames@
    }
}

impl TinyAlloc {
    /// A pool has three slots, and no more than three frames can be drawn
    /// from it.
    pub proof fn lemma_pool(&self, n: u128)
        ensures
            self@.len() == 3,
            n >= 3 ==> self.answer(n) is None,
    {
        broadcast use vstd::array::group_array_axioms;

        if n >= 3 {
            lemma_nth_full_end(self@, 0, n as int);
        }
    }

    /// A pool with the given slots.
    pub fn from_frames(frames: [Option<PhysicalFrame>; 3]) -> (pool: Self)
        ensures
            pool@ == frames@,
    {
        TinyAlloc { frames }
    }

    /// A pool filled by three calls of `allocator`, one slot per call in
    /// order. A call that yields nothing leaves its slot empty.
    pub fn new<A: FrameAlloc>(allocator: &mut A) -> (pool: Self)
        ensures
            pool@ == seq![old(allocator).answer(0), old(allocator).answer(1), old(allocator).answer(2)],
            drawn(*old(allocator), *final(allocator), 3),
    {
        let first = allocator.allocate_frame();
        let ghost one = *allocator;
        let second = allocator.allocate_frame();
        let ghost two = *allocator;
        let third = allocator.allocate_frame();
        proof {
            assert(one.answer(0) == old(allocator).answer(1));
            assert(two.answer(0) == one.answer(1));
            assert(one.answer(1) == old(allocator).answer(2));
            lemma_drawn_add(*old(allocator), one, two, 1, 1);
            lemma_drawn_add(*old(allocator), two, *allocator, 2, 1);
        }
        let pool = Self::from_frames([first, second, third]);
        assert(pool@ =~= seq![first, second, third]);
        pool
    }
}

impl FrameAlloc for TinyAlloc {
    /// The frames are drawn in the order of their slots.
    open spec fn answer(&self, n: u128) -> Option<PhysicalFrame> {
        nth_full(self@, 0, n as int)
    }

    /// A frame is taken back while a slot is empty.
    open spec fn takes(&self, used: u128, frame: PhysicalFrame) -> Result<(), FrameError> {
        if full_after(self@, used as int) {
            Err(FrameError::PoolFull)
        } else {
            Ok(())
        }
    }

    /// A frame that is taken back goes into the first empty slot.
    open spec fn answer_after(&self, used: u128, frame: PhysicalFrame, n: u128) -> Option<PhysicalFrame> {
        nth_full(refilled(drained(self@, used as int), frame), 0, n as int)
    }

    /// Hands out the frame of the first slot that holds one and empties the
    /// slot.
    fn allocate_frame(&mut self) -> (frame: Option<PhysicalFrame>)
        ensures
            old(self)@.len() == 3,
            final(self)@.len() == 3,
            0 <= first_full(old(self)@, 0) <= 3,
            first_full(old(self)@, 0) >= 3 ==> frame is None && final(self)@ == old(self)@,
            first_full(old(self)@, 0) < 3 ==> frame == old(self)@[first_full(old(self)@, 0)] && final(self)@
                == old(self)@.update(first_full(old(self)@, 0), None),
    {
        proof {
            lemma_first_slots(self@, 0);
        }
        let mut i: usize = 0;
        while i < POOL_SIZE
            invariant
                *self == *old(self),
                i <= 3,
                first_full(self@, i as int) == first_full(self@, 0),
            decreases 3 - i,
        {
            if self.frames[i].is_some() {
                let frame = self.frames[i];
                self.frames[i] = None;
                proof {
                    lemma_nth_full(old(self)@, 0, 0);
                    lemma_emptied(old(self)@);
                    assert(self@ == emptied(old(self)@));
                }
                return frame;
            }
            i += 1;
        }
        proof {
            lemma_nth_full(self@, 0, 0);
            lemma_emptied(old(self)@);
            assert(self@ == emptied(old(self)@));
        }
        None
    }

    /// Puts `frame` into the first empty slot.
    fn deallocate_frame(&mut self, frame: PhysicalFrame) -> (r: Result<(), FrameError>)
        ensures
            old(self)@.len() == 3,
            final(self)@.len() == 3,
            0 <= first_empty(old(self)@, 0) <= 3,
            first_empty(old(self)@, 0) >= 3 ==> r == Err::<(), FrameError>(FrameError::PoolFull) && final(self)@
                == old(self)@,
            first_empty(old(self)@, 0) < 3 ==> r is Ok && final(self)@ == old(self)@.update(
                first_empty(old(self)@, 0),
                Some(frame),
            ),
    {
        proof {
            lemma_first_slots(self@, 0);
        }
        let mut i: usize = 0;
        while i < POOL_SIZE
            invariant
                *self == *old(self),
                i <= 3,
                first_empty(self@, i as int) == first_empty(self@, 0),
            decreases 3 - i,
        {
            if self.frames[i].is_none() {
                self.frames[i] = Some(frame);
                return Ok(());
            }
            i += 1;
        }
        Err(FrameError::PoolFull)
    }
}

} // verus!
