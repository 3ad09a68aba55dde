//! Navigation history: a bounded, append-only-with-eviction log of visited
//! token indices, with a cursor that replays earlier entries during manual
//! backward/forward stepping.

use vstd::prelude::*;

verus! {

/// What recording an index does to the retained window: the index is
/// appended as the new head, and when the window would exceed its capacity
/// the oldest entries are dropped from the front.
pub open spec fn spec_record(h: Seq<usize>, cap: int, x: usize) -> Seq<usize> {
    if h.len() + 1 > cap {
        h.push(x).skip(h.len() + 1 - cap)
    } else {
        h.push(x)
    }
}

/// An index clamped into `[0, len - 1]`.
pub open spec fn spec_clamp(x: usize, len: usize) -> usize {
    if x < len {
        x
    } else {
        (len - 1) as usize
    }
}

/// A bounded log of visited indices plus a cursor into it.  The cursor sits
/// at the frontier (the most recent entry) except while the user is
/// replaying earlier entries.
pub struct History {
    entries: Vec<usize>,
    position: usize,
    capacity: usize,
}

impl History {
    /// The retained window of recorded indices, oldest first.
    pub closed spec fn entries_view(&self) -> Seq<usize> {
        self.entries@
    }

    /// The cursor: a valid slot of the retained window.
    pub closed spec fn pos(&self) -> int {
        self.position as int
    }

    /// The capacity the history was created with.
    pub closed spec fn cap(&self) -> int {
        self.capacity as int
    }

    /// Well-formedness: the window is never empty, never exceeds the
    /// capacity, and the cursor denotes a valid slot.
    pub open spec fn wf(&self) -> bool {
        &&& 1 <= self.cap()
        &&& 1 <= self.entries_view().len() <= self.cap()
        &&& 0 <= self.pos() < self.entries_view().len()
    }

    /// Every retained index lies below `len`.
    pub open spec fn in_bounds(&self, len: int) -> bool {
        forall|i: int| 0 <= i < self.entries_view().len() ==> self.entries_view()[i] < len
    }

    pub fn new(capacity: usize, initial: usize) -> (h: History)
        requires
            capacity >= 1,
        ensures
            h.wf(),
            h.cap() == capacity,
            h.entries_view() == seq![initial],
            h.pos() == 0,
    {
        let mut entries: Vec<usize> = Vec::new();
        entries.push(initial);
        proof {
            assert(entries@ =~= seq![initial]);
        }
        History { entries, position: 0, capacity }
    }

    /// The entry at the cursor: the active index as recorded.
    pub fn current(&self) -> (r: usize)
        requires
            self.wf(),
        ensures
            r == self.entries_view()[self.pos()],
    {
        self.entries[self.position]
    }

    /// The most recently recorded index (the frontier entry).
    pub fn last_recorded(&self) -> (r: usize)
        requires
            self.wf(),
        ensures
            r == self.entries_view().last(),
    {
        self.entries[self.entries.len() - 1]
    }

    pub fn at_frontier(&self) -> (b: bool)
        requires
            self.wf(),
        ensures
            b == (self.pos() == self.entries_view().len() - 1),
    {
        self.position == self.entries.len() - 1
    }

    pub fn at_oldest(&self) -> (b: bool)
        requires
            self.wf(),
        ensures
            b == (self.pos() == 0),
    {
        self.position == 0
    }

    /// Record a newly selected index: append it as the new head, evict the
    /// oldest entry if the capacity would be exceeded, and move the cursor
    /// to the new head.
    pub fn record(&mut self, x: usize)
        requires
            old(self).wf(),
        ensures
            final(self).wf(),
            final(self).cap() == old(self).cap(),
            final(self).entries_view() == spec_record(old(self).entries_view(), old(self).cap(), x),
            final(self).pos() == final(self).entries_view().len() - 1,
            final(self).entries_view().last() == x,
    {
        self.entries.push(x);
        if self.entries.len() > self.capacity {
            self.entries.remove(0);
            proof {
                assert(self.entries@ =~= spec_record(
                    old(self).entries_view(),
                    old(self).cap(),
                    x,
                ));
            }
        }
        self.position = self.entries.len() - 1;
    }

    /// Replay one entry backward; the window itself does not change.
    pub fn replay_back(&mut self) -> (r: usize)
        requires
            old(self).wf(),
            old(self).pos() > 0,
        ensures
            final(self).wf(),
            final(self).cap() == old(self).cap(),
            final(self).entries_view() == old(self).entries_view(),
            final(self).pos() == old(self).pos() - 1,
            r == final(self).entries_view()[final(self).pos()],
    {
        self.position = self.position - 1;
        self.entries[self.position]
    }

    /// Replay one entry forward; the window itself does not change.
    pub fn replay_forward(&mut self) -> (r: usize)
        requires
            old(self).wf(),
            old(self).pos() < old(self).entries_view().len() - 1,
        ensures
            final(self).wf(),
            final(self).cap() == old(self).cap(),
            final(self).entries_view() == old(self).entries_view(),
            final(self).pos() == old(self).pos() + 1,
            r == final(self).entries_view()[final(self).pos()],
    {
        self.position = self.position + 1;
        self.entries[self.position]
    }

    /// Clamp every retained index into the bounds of a freshly swapped
    /// source; the cursor and the window length are preserved.
    pub fn clamp(&mut self, len: usize)
        requires
            old(self).wf(),
            len >= 1,
        ensures
            final(self).wf(),
            final(self).cap() == old(self).cap(),
            final(self).pos() == old(self).pos(),
            final(self).entries_view().len() == old(self).entries_view().len(),
            forall|i: int|
                0 <= i < final(self).entries_view().len() ==> final(self).entries_view()[i] == spec_clamp(
                    old(self).entries_view()[i],
                    len,
                ),
            final(self).in_bounds(len as int),
    {
        let mut clamped: Vec<usize> = Vec::new();
        let mut i: usize = 0;
        while i < self.entries.len()
            invariant
                0 <= i <= self.entries@.len(),
                clamped@.len() == i,
                len >= 1,
                forall|j: int|
                    0 <= j < i ==> clamped@[j] == spec_clamp(self.entries@[j], len),
            decreases self.entries@.len() - i,
        {
            let e = self.entries[i];
            if e < len {
                clamped.push(e);
            } else {
                clamped.push(len - 1);
            }
            i = i + 1;
        }
        self.entries = clamped;
    }
}

/// What replaying one entry backward does: the cursor moves down a slot and
/// the index recorded there becomes active; the window is untouched.
pub open spec fn spec_replay_back(h: Seq<usize>, pos: int) -> (int, usize) {
    (pos - 1, h[pos - 1])
}

/// What replaying one entry forward does: the cursor moves up a slot and
/// the index recorded there becomes active; the window is untouched.
pub open spec fn spec_replay_forward(h: Seq<usize>, pos: int) -> (int, usize) {
    (pos + 1, h[pos + 1])
}

/// Replay symmetry: whenever the cursor is not at the oldest retained
/// entry, stepping backward and then immediately forward reproduces both
/// the cursor slot and the active index from before the backward step,
/// because replay never alters the window.
pub proof fn lemma_replay_symmetry(h: Seq<usize>, pos: int, idx: usize)
    requires
        0 < pos < h.len(),
        idx == h[pos],
    ensures
        ({
            let (p1, i1) = spec_replay_back(h, pos);
            let (p2, i2) = spec_replay_forward(h, p1);
            p2 == pos && i2 == idx
        }),
{
}

/// FIFO eviction: recording into a full window drops exactly the oldest
/// entry, keeps the rest in order, and appends the new index at the head;
/// the window never grows beyond the capacity.
pub proof fn lemma_eviction_fifo(h: Seq<usize>, cap: int, x: usize)
    requires
        1 <= cap,
        h.len() == cap,
    ensures
        spec_record(h, cap, x) == h.skip(1).push(x),
        spec_record(h, cap, x).len() == cap,
        forall|i: int| 0 <= i < cap - 1 ==> spec_record(h, cap, x)[i] == h[i + 1],
        spec_record(h, cap, x).last() == x,
{
    assert(spec_record(h, cap, x) =~= h.skip(1).push(x));
}

/// The window stays within its capacity: recording into any window that
/// respects the capacity yields a window that still does.
pub proof fn lemma_record_bounded(h: Seq<usize>, cap: int, x: usize)
    requires
        1 <= cap,
        h.len() <= cap,
    ensures
        1 <= spec_record(h, cap, x).len() <= cap,
{
}

} // verus!
