//! The expired connections of a subscriber: connections to publishers that
//! are gone but still hold unread samples. They stay readable until the
//! subscriber drains them, or until more of them expire than the buffer
//! holds; then the oldest one is handed back to be released by force.

use vstd::prelude::*;

verus! {

/// The expired connections after the one to publisher `id` expires, and the
/// connection that has to be released by force, if any.
pub open spec fn after_expiry(s: Seq<u64>, capacity: nat, id: u64) -> (Seq<u64>, Option<u64>) {
    if s.contains(id) {
        (s, None)
    } else if s.len() + 1 > capacity {
        (s.push(id).drop_first(), Some(s.push(id)[0]))
    } else {
        (s.push(id), None)
    }
}

/// The publisher ids of expired connections, oldest first, at most
/// `capacity` of them.
#[derive(Debug)]
pub struct ExpiredConnections {
    publishers: Vec<u64>,
    capacity: usize,
}

impl View for ExpiredConnections {
    type V = Seq<u64>;

    closed spec fn view(&self) -> Seq<u64> {
        self.publishers@
    }
}

impl ExpiredConnections {
    pub closed spec fn spec_capacity(&self) -> nat {
        self.capacity as nat
    }

    /// The buffer's invariant: it never holds more than its capacity.
    pub open spec fn wf(&self) -> bool {
        self@.len() <= self.spec_capacity()
    }

    /// An empty buffer for `capacity` expired connections.
    pub fn new(capacity: usize) -> (r: ExpiredConnections)
        ensures
            r.wf(),
            r@ == Seq::<u64>::empty(),
            r.spec_capacity() == capacity,
    {
        ExpiredConnections { publishers: Vec::new(), capacity }
    }

    pub fn len(&self) -> (r: usize)
        ensures
            r == self@.len(),
    {
        self.publishers.len()
    }

    /// Whether the connection to publisher `id` is expired and kept.
    pub fn contains(&self, id: u64) -> (r: bool)
        ensures
            r == self@.contains(id),
    {
        let mut i: usize = 0;
        while i < self.publishers.len()
            invariant
                i <= self@.len(),
                forall|j: int| 0 <= j < i ==> self@[j] != id,
            decreases self@.len() - i,
        {
            if self.publishers[i] == id {
                assert(self@[i as int] == id);
                return true;
            }
            i = i + 1;
        }
        false
    }

    /// Records that the connection to publisher `id` expired with unread
    /// samples. Returns the oldest expired connection when the buffer
    /// overflows; the caller releases it by force.
    pub fn expire(&mut self, id: u64) -> (r: Option<u64>)
        requires
            old(self).wf(),
        ensures
            final(self).wf(),
            final(self).spec_capacity() == old(self).spec_capacity(),
            (final(self)@, r) == after_expiry(old(self)@, old(self).spec_capacity(), id),
    {
        if self.contains(id) {
            return None;
        }
        let ghost before = self@;
        self.publishers.push(id);
        if self.publishers.len() > self.capacity {
            let oldest = self.publishers.remove(0);
            assert(self@ =~= before.push(id).drop_first());
            Some(oldest)
        } else {
            None
        }
    }

    /// Forgets the expired connection to publisher `id` once the subscriber
    /// has drained it. Returns whether it was kept.
    pub fn drained(&mut self, id: u64) -> (r: bool)
        requires
            old(self).wf(),
        ensures
            final(self).wf(),
            final(self).spec_capacity() == old(self).spec_capacity(),
            r == old(self)@.contains(id),
            !r ==> final(self)@ == old(self)@,
            r ==> exists|j: int|
                0 <= j < old(self)@.len() && old(self)@[j] == id && final(self)@ == old(self)@.remove(j),
    {
        let mut i: usize = 0;
        while i < self.publishers.len()
            invariant
                i <= self@.len(),
                self@ == old(self)@,
                self.capacity == old(self).capacity,
                self.wf(),
                forall|j: int| 0 <= j < i ==> self@[j] != id,
            decreases self@.len() - i,
        {
            if self.publishers[i] == id {
                self.publishers.remove(i);
                assert(old(self)@[i as int] == id);
                return true;
            }
            i = i + 1;
        }
        false
    }
}

/// The buffer never holds more expired connections than its capacity, and
/// an overflow hands back exactly the oldest one.
pub proof fn lemma_expiry_bounded(s: Seq<u64>, capacity: nat, id: u64)
    requires
        s.len() <= capacity,
    ensures
        after_expiry(s, capacity, id).0.len() <= capacity,
        after_expiry(s, capacity, id).1 matches Some(o) ==> o == (if s.len() > 0 {
            s[0]
        } else {
            id
        }),
{
}

} // verus!
