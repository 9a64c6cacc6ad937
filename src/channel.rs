//! The transport channel between one publisher and one subscriber: a bounded
//! first-in first-out queue of chunk offsets.

use vstd::prelude::*;

verus! {

/// What happened to an offset that was pushed into a channel.
#[derive(PartialEq, Eq, Structural, Clone, Copy, Debug)]
pub enum PushOutcome {
    /// There was room; the offset was appended.
    Enqueued,
    /// The channel was full and overflow is safe: the oldest offset, given
    /// here, was dropped to make room.
    Displaced(usize),
    /// The channel was full and overflow is not safe: nothing changed.
    Rejected,
}

/// The queue after a push, and what the push reports.
pub open spec fn push_outcome(q: Seq<usize>, capacity: nat, offset: usize, safe_overflow: bool) -> (Seq<usize>, PushOutcome) {
    if q.len() < capacity {
        (q.push(offset), PushOutcome::Enqueued)
    } else if safe_overflow && q.len() > 0 {
        (q.drop_first().push(offset), PushOutcome::Displaced(q[0]))
    } else {
        (q, PushOutcome::Rejected)
    }
}

#[derive(Debug)]
pub struct Channel {
    queue: Vec<usize>,
    capacity: usize,
}

impl View for Channel {
    type V = Seq<usize>;

    closed spec fn view(&self) -> Seq<usize> {
        self.queue@
    }
}

impl Channel {
    /// The depth of the channel.
    pub closed spec fn spec_capacity(&self) -> nat {
        self.capacity as nat
    }

    /// The channel's invariant: a positive depth that the queue never exceeds.
    pub open spec fn wf(&self) -> bool {
        0 < self.spec_capacity() && self@.len() <= self.spec_capacity()
    }

    pub fn new(capacity: usize) -> (r: Channel)
        requires
            capacity > 0,
        ensures
            r.wf(),
            r@ == Seq::<usize>::empty(),
            r.spec_capacity() == capacity,
    {
        Channel { queue: Vec::new(), capacity }
    }

    pub fn capacity(&self) -> (r: usize)
        ensures
            r == self.spec_capacity(),
    {
        self.capacity
    }

    pub fn len(&self) -> (r: usize)
        ensures
            r == self@.len(),
    {
        self.queue.len()
    }

    pub fn is_empty(&self) -> (r: bool)
        ensures
            r == (self@.len() == 0),
    {
        self.queue.len() == 0
    }

    pub fn is_full(&self) -> (r: bool)
        ensures
            r == (self@.len() >= self.spec_capacity()),
    {
        self.queue.len() >= self.capacity
    }

    /// Appends `offset`; on a full channel drops the oldest offset under safe
    /// overflow, and refuses the push otherwise.
    pub fn push(&mut self, offset: usize, safe_overflow: bool) -> (r: PushOutcome)
        requires
            old(self).wf(),
        ensures
            final(self).wf(),
            final(self).spec_capacity() == old(self).spec_capacity(),
            (final(self)@, r) == push_outcome(old(self)@, old(self).spec_capacity(), offset, safe_overflow),
    {
        if self.queue.len() < self.capacity {
            self.queue.push(offset);
            PushOutcome::Enqueued
        } else if safe_overflow && self.queue.len() > 0 {
            let oldest = self.queue.remove(0);
            self.queue.push(offset);
            assert(self.queue@ =~= old(self)@.drop_first().push(offset));
            PushOutcome::Displaced(oldest)
        } else {
            PushOutcome::Rejected
        }
    }

    /// Takes the oldest offset, if any.
    pub fn pop(&mut self) -> (r: Option<usize>)
        requires
            old(self).wf(),
        ensures
            final(self).wf(),
            final(self).spec_capacity() == old(self).spec_capacity(),
            old(self)@.len() == 0 ==> r is None && final(self)@ == old(self)@,
            old(self)@.len() > 0 ==> r == Some(old(self)@[0]) && final(self)@ == old(self)@.drop_first(),
    {
        if self.queue.len() == 0 {
            None
        } else {
            let oldest = self.queue.remove(0);
            assert(self.queue@ =~= old(self)@.drop_first());
            Some(oldest)
        }
    }
}

/// Offsets leave a channel in the order in which they entered it: pushing
/// `x` into a channel with room and then popping everything yields the old
/// contents followed by `x`.
pub proof fn lemma_fifo_order(q: Seq<usize>, capacity: nat, x: usize, safe_overflow: bool)
    requires
        q.len() < capacity,
    ensures
        push_outcome(q, capacity, x, safe_overflow).0 == q.push(x),
        push_outcome(q, capacity, x, safe_overflow).0[q.len() as int] == x,
        forall|i: int| 0 <= i < q.len() ==> push_outcome(q, capacity, x, safe_overflow).0[i] == q[i],
{
}

/// A push never loses more than one offset, and never takes the channel
/// beyond its depth.
pub proof fn lemma_push_bounded(q: Seq<usize>, capacity: nat, x: usize, safe_overflow: bool)
    requires
        q.len() <= capacity,
        capacity > 0,
    ensures
        push_outcome(q, capacity, x, safe_overflow).0.len() <= capacity,
        push_outcome(q, capacity, x, safe_overflow).0.len() >= q.len(),
{
}

} // verus!
