//! The bounded priority transmit queue.
//!
//! Frames are kept sorted by arbitration identifier, lowest (highest
//! priority) first, and stably: among frames of equal identifier the one
//! enqueued first is dequeued first. Capacity is fixed at construction;
//! a full queue refuses new frames with an explicit out-of-memory result
//! and never drops or corrupts what it already holds.

use vstd::prelude::*;
use crate::frame::Frame;
use crate::types::OutOfMemoryError;

verus! {

/// The queued frames are ordered by non-decreasing identifier.
pub open spec fn sorted_by_id(s: Seq<Frame>) -> bool {
    forall|i: int, j: int| 0 <= i < j < s.len() ==> s[i].id <= s[j].id
}

/// Where a newly pushed frame lands: after every frame whose identifier is
/// equal or lower (FIFO among equals), before every strictly larger one.
pub open spec fn push_pos(s: Seq<Frame>, id: u32) -> int
    decreases s.len(),
{
    if s.len() == 0 {
        0
    } else if s.last().id <= id {
        s.len() as int
    } else {
        push_pos(s.drop_last(), id)
    }
}

/// Where a returned frame lands: after strictly higher-priority frames
/// only, so it keeps its place ahead of frames of equal identifier.
pub open spec fn return_pos(s: Seq<Frame>, id: u32) -> int
    decreases s.len(),
{
    if s.len() == 0 {
        0
    } else if s.last().id < id {
        s.len() as int
    } else {
        return_pos(s.drop_last(), id)
    }
}

/// The queue after a stable priority insertion of `f`.
pub open spec fn stable_insert(s: Seq<Frame>, f: Frame) -> Seq<Frame> {
    s.insert(push_pos(s, f.id), f)
}

/// The queue after re-inserting a returned frame `f`.
pub open spec fn return_insert(s: Seq<Frame>, f: Frame) -> Seq<Frame> {
    s.insert(return_pos(s, f.id), f)
}

/// `push_pos` is the unique boundary: everything before it is `<= id`,
/// everything from it on is `> id`.
pub proof fn lemma_push_pos_char(s: Seq<Frame>, id: u32, i: int)
    requires
        0 <= i <= s.len(),
        forall|j: int| i <= j < s.len() ==> s[j].id > id,
        i > 0 ==> s[i - 1].id <= id,
    ensures
        push_pos(s, id) == i,
    decreases s.len(),
{
    if s.len() == 0 {
    } else if s.last().id <= id {
        assert(i == s.len());
    } else {
        assert(i < s.len());
        lemma_push_pos_char(s.drop_last(), id, i);
    }
}

/// `return_pos` is the unique boundary: everything before it is `< id`,
/// everything from it on is `>= id`.
pub proof fn lemma_return_pos_char(s: Seq<Frame>, id: u32, i: int)
    requires
        0 <= i <= s.len(),
        forall|j: int| i <= j < s.len() ==> s[j].id >= id,
        i > 0 ==> s[i - 1].id < id,
    ensures
        return_pos(s, id) == i,
    decreases s.len(),
{
    if s.len() == 0 {
    } else if s.last().id < id {
        assert(i == s.len());
    } else {
        assert(i < s.len());
        lemma_return_pos_char(s.drop_last(), id, i);
    }
}

/// Law (dequeue order): the queue invariant orders frames by non-decreasing
/// arbitration identifier, so, `pop_frame` removing the front each time, the
/// `i`-th frame dequeued never has a larger identifier than the `j`-th for
/// `i <= j`.
pub proof fn lemma_dequeue_order(s: Seq<Frame>, i: int, j: int)
    requires
        sorted_by_id(s),
        0 <= i <= j < s.len(),
    ensures
        s[i].id <= s[j].id,
{
}

/// Law (stable priority insertion): a pushed frame goes after every frame
/// of equal or higher priority already queued — FIFO among equal
/// identifiers — and the queue stays sorted.
pub proof fn lemma_push_stable(s: Seq<Frame>, f: Frame)
    requires
        sorted_by_id(s),
    ensures
        sorted_by_id(stable_insert(s, f)),
        0 <= push_pos(s, f.id) <= s.len(),
        forall|j: int| 0 <= j < push_pos(s, f.id) ==> s[j].id <= f.id,
        forall|j: int| push_pos(s, f.id) <= j < s.len() ==> s[j].id > f.id,
    decreases s.len(),
{
    let p = push_pos(s, f.id);
    if s.len() == 0 {
    } else if s.last().id <= f.id {
        assert(forall|j: int| 0 <= j < s.len() ==> s[j].id <= s.last().id);
    } else {
        assert(sorted_by_id(s.drop_last()));
        lemma_push_stable(s.drop_last(), f);
        assert(forall|j: int| 0 <= j < s.len() - 1 ==> s[j].id == s.drop_last()[j].id);
    }
    let t = stable_insert(s, f);
    assert forall|a: int, b: int| 0 <= a < b < t.len() implies t[a].id <= t[b].id by {
        if a < p && b < p {
        } else if a >= p + 1 && b >= p + 1 {
            assert(t[a] == s[a - 1] && t[b] == s[b - 1]);
        } else if a == p {
            assert(t[b] == s[b - 1] && s[b - 1].id > f.id);
        } else if b == p {
            assert(t[a] == s[a] && s[a].id <= f.id);
        } else {
            assert(t[a] == s[a] && t[b] == s[b - 1]);
        }
    }
}

/// Law (returned frames): a returned frame is re-inserted after strictly
/// higher-priority frames but ahead of frames of equal identifier, and the
/// queue stays sorted.
pub proof fn lemma_return_stable(s: Seq<Frame>, f: Frame)
    requires
        sorted_by_id(s),
    ensures
        sorted_by_id(return_insert(s, f)),
        0 <= return_pos(s, f.id) <= s.len(),
        forall|j: int| 0 <= j < return_pos(s, f.id) ==> s[j].id < f.id,
        forall|j: int| return_pos(s, f.id) <= j < s.len() ==> s[j].id >= f.id,
    decreases s.len(),
{
    let p = return_pos(s, f.id);
    if s.len() == 0 {
    } else if s.last().id < f.id {
        assert(forall|j: int| 0 <= j < s.len() ==> s[j].id <= s.last().id);
    } else {
        assert(sorted_by_id(s.drop_last()));
        lemma_return_stable(s.drop_last(), f);
        assert(forall|j: int| 0 <= j < s.len() - 1 ==> s[j].id == s.drop_last()[j].id);
    }
    let t = return_insert(s, f);
    assert forall|a: int, b: int| 0 <= a < b < t.len() implies t[a].id <= t[b].id by {
        if a >= p + 1 && b >= p + 1 {
            assert(t[a] == s[a - 1] && t[b] == s[b - 1]);
        } else if a == p {
            assert(t[b] == s[b - 1] && s[b - 1].id >= f.id);
        } else if b == p {
            assert(t[a] == s[a] && s[a].id < f.id);
        } else if a < p && b > p {
            assert(t[a] == s[a] && t[b] == s[b - 1]);
        }
    }
}

/// A bounded queue of outgoing frames ordered by arbitration priority.
pub struct FrameQueue {
    frames: Vec<Frame>,
    capacity: usize,
}

impl FrameQueue {
    /// The frames currently queued, front (next to dequeue) first.
    pub closed spec fn view(&self) -> Seq<Frame> {
        self.frames@
    }

    /// The fixed number of frames the queue can hold.
    pub closed spec fn spec_capacity(&self) -> usize {
        self.capacity
    }

    /// The queue invariant: within capacity and sorted by identifier.
    pub open spec fn wf(&self) -> bool {
        self@.len() <= self.spec_capacity() && sorted_by_id(self@)
    }

    /// Creates an empty queue that will never hold more than `capacity`
    /// frames.
    pub fn new(capacity: usize) -> (q: FrameQueue)
        ensures
            q.wf(),
            q@ =~= Seq::<Frame>::empty(),
            q.spec_capacity() == capacity,
    {
        FrameQueue { frames: Vec::new(), capacity }
    }

    /// How many frames are queued.
    pub fn len(&self) -> (n: usize)
        ensures
            n == self@.len(),
    {
        self.frames.len()
    }

    /// Checks that `additional` more frames can be enqueued, so that a
    /// multi-frame send either fully succeeds or enqueues nothing.
    pub fn try_reserve(&mut self, additional: usize) -> (r: Result<(), OutOfMemoryError>)
        ensures
            *final(self) == *old(self),
            r is Ok <==> old(self)@.len() + additional <= old(self).spec_capacity(),
    {
        if additional <= self.capacity && self.frames.len() <= self.capacity - additional {
            Ok(())
        } else {
            Err(OutOfMemoryError)
        }
    }

    /// Enqueues a frame at its stable priority position.
    ///
    /// On a full queue this fails with `OutOfMemoryError` and the queued
    /// frames are exactly what they were.
    pub fn push_frame(&mut self, frame: Frame) -> (r: Result<(), OutOfMemoryError>)
        requires
            old(self).wf(),
        ensures
            final(self).wf(),
            final(self).spec_capacity() == old(self).spec_capacity(),
            r is Ok <==> old(self)@.len() < old(self).spec_capacity(),
            r is Ok ==> final(self)@ == stable_insert(old(self)@, frame),
            r is Err ==> final(self)@ == old(self)@,
    {
        if self.frames.len() >= self.capacity {
            return Err(OutOfMemoryError);
        }
        proof {
            lemma_push_stable(self@, frame);
        }
        let mut i: usize = self.frames.len();
        while i > 0 && self.frames[i - 1].id > frame.id
            invariant
                i <= self.frames@.len(),
                forall|j: int| i <= j < self.frames@.len() ==> self.frames@[j].id > frame.id,
            decreases i,
        {
            i = i - 1;
        }
        proof {
            lemma_push_pos_char(self.frames@, frame.id, i as int);
        }
        self.frames.insert(i, frame);
        Ok(())
    }

    /// Re-inserts a frame that was popped but could not be transmitted,
    /// ahead of frames of equal identifier but behind strictly
    /// higher-priority ones.
    pub fn return_frame(&mut self, frame: Frame) -> (r: Result<(), OutOfMemoryError>)
        requires
            old(self).wf(),
        ensures
            final(self).wf(),
            final(self).spec_capacity() == old(self).spec_capacity(),
            r is Ok <==> old(self)@.len() < old(self).spec_capacity(),
            r is Ok ==> final(self)@ == return_insert(old(self)@, frame),
            r is Err ==> final(self)@ == old(self)@,
    {
        if self.frames.len() >= self.capacity {
            return Err(OutOfMemoryError);
        }
        proof {
            lemma_return_stable(self@, frame);
        }
        let mut i: usize = self.frames.len();
        while i > 0 && self.frames[i - 1].id >= frame.id
            invariant
                i <= self.frames@.len(),
                forall|j: int| i <= j < self.frames@.len() ==> self.frames@[j].id >= frame.id,
            decreases i,
        {
            i = i - 1;
        }
        proof {
            lemma_return_pos_char(self.frames@, frame.id, i as int);
        }
        self.frames.insert(i, frame);
        Ok(())
    }

    /// Removes and returns the frame that wins bus arbitration: the front
    /// of the queue, whose identifier is minimal.
    pub fn pop_frame(&mut self) -> (r: Option<Frame>)
        requires
            old(self).wf(),
        ensures
            final(self).wf(),
            final(self).spec_capacity() == old(self).spec_capacity(),
            old(self)@.len() == 0 ==> r is None && final(self)@ == old(self)@,
            old(self)@.len() > 0 ==> r == Some(old(self)@[0]) && final(self)@ == old(self)@
                .drop_first(),
    {
        if self.frames.len() == 0 {
            None
        } else {
            let f = self.frames.remove(0);
            proof {
                assert(self.frames@ =~= old(self)@.drop_first());
            }
            Some(f)
        }
    }
}

} // verus!
