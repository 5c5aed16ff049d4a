//! A small ring of per-frame resources, so that the CPU can fill one while the
//! GPU still reads the others.
use vstd::prelude::*;

verus! {

/// Number of frames that can be in flight at the same time.
pub const FRAME_COUNT: usize = 3;

/// The slot that follows `index` in the ring.
pub open spec fn next_slot(index: int) -> int {
    (index + 1) % (FRAME_COUNT as int)
}

/// One value for every frame in flight, with a cursor on the current one.
pub struct PerFrame<T> {
    data: [T; 3],
    index: usize,
}

impl<T> PerFrame<T> {
    /// The values of all slots, in slot order.
    pub closed spec fn slots(&self) -> Seq<T> {
        self.data@
    }

    /// The slot that `current` hands out.
    pub closed spec fn cursor(&self) -> int {
        self.index as int
    }

    /// The cursor names one of the slots.
    pub open spec fn wf(&self) -> bool {
        &&& 0 <= self.cursor() < FRAME_COUNT
        &&& self.slots().len() == FRAME_COUNT
    }

    /// Build every slot with `f(slot)`, starting at slot 0.
    pub fn new<F>(f: F) -> (r: Self)
        where
            F: Fn(usize) -> T,
        requires
            forall|i: usize| i < FRAME_COUNT ==> call_requires(f, (i,)),
        ensures
            r.wf(),
            r.cursor() == 0,
            forall|i: int|
                0 <= i < FRAME_COUNT ==> call_ensures(f, (i as usize,), #[trigger] r.slots()[i]),
    {
        let a = f(0);
        let b = f(1);
        let c = f(2);
        let r = PerFrame { data: [a, b, c], index: 0 };
        assert(r.slots()[0] == a && r.slots()[1] == b && r.slots()[2] == c);
        r
    }

    /// The value of the current frame.
    pub fn current(&self) -> (r: &T)
        requires
            self.wf(),
        ensures
            *r == self.slots()[self.cursor()],
    {
        &self.data[self.index]
    }

    /// Mutable access to the value of the current frame.
    pub fn current_mut(&mut self) -> (r: &mut T)
        requires
            old(self).wf(),
        ensures
            final(self).wf(),
            *r == old(self).slots()[old(self).cursor()],
            final(self).cursor() == old(self).cursor(),
            final(self).slots() == old(self).slots().update(old(self).cursor(), *final(r)),
    {
        &mut self.data[self.index]
    }

    /// Move the cursor to the next slot (wrapping around) and return that slot.
    pub fn advance(&mut self) -> (r: &mut T)
        requires
            old(self).wf(),
        ensures
            final(self).wf(),
            final(self).cursor() == next_slot(old(self).cursor()),
            *r == old(self).slots()[next_slot(old(self).cursor())],
            final(self).slots() == old(self).slots().update(
                next_slot(old(self).cursor()),
                *final(r),
            ),
    {
        self.index = (self.index + 1) % FRAME_COUNT;
        self.current_mut()
    }
}

/// Advancing the ring once per frame visits every slot once and comes back to the
/// slot it started from after `FRAME_COUNT` frames.
pub proof fn lemma_ring_cycles(index: int)
    requires
        0 <= index < FRAME_COUNT,
    ensures
        next_slot(next_slot(next_slot(index))) == index,
        next_slot(index) != index,
        next_slot(next_slot(index)) != index,
        next_slot(index) != next_slot(next_slot(index)),
        0 <= next_slot(index) < FRAME_COUNT,
{
}


/// What is written through `current_mut` is what `current` reads back until the
/// cursor moves, and the other slots keep their values.
pub proof fn lemma_write_then_read<T>(slots: Seq<T>, cursor: int, value: T, other: int)
    requires
        0 <= cursor < FRAME_COUNT,
        0 <= other < FRAME_COUNT,
        other != cursor,
        slots.len() == FRAME_COUNT,
    ensures
        slots.update(cursor, value)[cursor] == value,
        slots.update(cursor, value)[other] == slots[other],
{
}

} // verus!
