//! The event port: notifiers raise small integer event ids, a listener
//! collects them. Ids form a set: raising one twice before the listener
//! looks is seen once.

use vstd::prelude::*;

verus! {

#[derive(PartialEq, Eq, Structural, Clone, Copy, Debug)]
pub enum NotifierError {
    /// The id is above the largest id of the service.
    EventIdOutOfBounds,
}

/// The ids that are raised in a flag table.
pub open spec fn raised_ids(flags: Seq<bool>) -> Set<usize> {
    Set::new(|id: usize| id < flags.len() && flags[id as int])
}

/// A listener with the ids raised since it last looked.
#[derive(Debug)]
pub struct Listener {
    flags: Vec<bool>,
}

impl Listener {
    /// The ids raised and not yet taken.
    pub closed spec fn pending(&self) -> Set<usize> {
        raised_ids(self.flags@)
    }

    /// The largest id the listener takes.
    pub closed spec fn spec_event_id_max_value(&self) -> nat {
        (self.flags@.len() - 1) as nat
    }

    pub closed spec fn wf(&self) -> bool {
        self.flags@.len() > 0
    }

    /// A listener for ids `0..=event_id_max_value`.
    pub fn new(event_id_max_value: usize) -> (r: Listener)
        requires
            event_id_max_value < usize::MAX,
        ensures
            r.wf(),
            r.pending() == Set::<usize>::empty(),
            r.spec_event_id_max_value() == event_id_max_value,
    {
        let mut flags: Vec<bool> = Vec::new();
        let mut i: usize = 0;
        while i <= event_id_max_value
            invariant
                i <= event_id_max_value + 1,
                event_id_max_value < usize::MAX,
                flags@.len() == i,
                forall|j: int| 0 <= j < i ==> !flags@[j],
            decreases event_id_max_value + 1 - i,
        {
            flags.push(false);
            i = i + 1;
        }
        let r = Listener { flags };
        assert(r.pending() =~= Set::<usize>::empty());
        r
    }

    pub fn event_id_max_value(&self) -> (r: usize)
        requires
            self.wf(),
        ensures
            r == self.spec_event_id_max_value(),
    {
        self.flags.len() - 1
    }

    /// Raises `id`.
    pub fn notify(&mut self, id: usize) -> (r: Result<(), NotifierError>)
        requires
            old(self).wf(),
        ensures
            final(self).wf(),
            final(self).spec_event_id_max_value() == old(self).spec_event_id_max_value(),
            r is Ok <==> id <= old(self).spec_event_id_max_value(),
            r is Ok ==> final(self).pending() == old(self).pending().insert(id),
            r is Err ==> final(self).pending() == old(self).pending(),
    {
        if id >= self.flags.len() {
            return Err(NotifierError::EventIdOutOfBounds);
        }
        let ghost before = self.flags@;
        self.flags.set(id, true);
        assert(self.pending() =~= raised_ids(before).insert(id));
        Ok(())
    }

    /// Takes the lowest raised id, if any.
    pub fn try_wait_one(&mut self) -> (r: Option<usize>)
        requires
            old(self).wf(),
        ensures
            final(self).wf(),
            final(self).spec_event_id_max_value() == old(self).spec_event_id_max_value(),
            r is None <==> old(self).pending() == Set::<usize>::empty(),
            r is None ==> final(self).pending() == old(self).pending(),
            r matches Some(id) ==> {
                &&& old(self).pending().contains(id)
                &&& forall|j: usize| j < id ==> !old(self).pending().contains(j)
                &&& final(self).pending() == old(self).pending().remove(id)
            },
    {
        let mut i: usize = 0;
        while i < self.flags.len()
            invariant
                i <= self.flags@.len(),
                self.flags@ == old(self).flags@,
                forall|j: int| 0 <= j < i ==> !self.flags@[j],
            decreases self.flags@.len() - i,
        {
            if self.flags[i] {
                let ghost before = self.flags@;
                self.flags.set(i, false);
                proof {
                    assert(raised_ids(before).contains(i));
                    assert(self.pending() =~= raised_ids(before).remove(i));
                    assert forall|j: usize| j < i implies !raised_ids(before).contains(j) by {
                        assert(!before[j as int]);
                    }
                }
                return Some(i);
            }
            i = i + 1;
        }
        assert(self.pending() =~= Set::<usize>::empty());
        None
    }

    /// Takes all raised ids, in increasing order.
    pub fn try_wait_all(&mut self) -> (r: Vec<usize>)
        requires
            old(self).wf(),
        ensures
            final(self).wf(),
            final(self).spec_event_id_max_value() == old(self).spec_event_id_max_value(),
            final(self).pending() == Set::<usize>::empty(),
            r@.to_set() == old(self).pending(),
            forall|a: int, b: int| 0 <= a < b < r@.len() ==> r@[a] < r@[b],
    {
        let ghost start = self.flags@;
        let mut r: Vec<usize> = Vec::new();
        let mut i: usize = 0;
        while i < self.flags.len()
            invariant
                i <= self.flags@.len(),
                self.flags@.len() == start.len(),
                forall|j: int| 0 <= j < i ==> !self.flags@[j],
                forall|j: int| i <= j < start.len() ==> self.flags@[j] == start[j],
                forall|a: int| 0 <= a < r@.len() ==> r@[a] < i && start[r@[a] as int],
                forall|j: usize| j < i && start[j as int] ==> r@.contains(j),
                forall|a: int, b: int| 0 <= a < b < r@.len() ==> r@[a] < r@[b],
            decreases self.flags@.len() - i,
        {
            let ghost r_old = r@;
            if self.flags[i] {
                r.push(i);
                self.flags.set(i, false);
                proof {
                    assert(r@[r@.len() - 1] == i);
                }
            }
            proof {
                assert forall|j: usize| j < i + 1 && start[j as int] implies r@.contains(j) by {
                    if j < i {
                        let k = choose|k: int| 0 <= k < r_old.len() && r_old[k] == j;
                        assert(r@[k] == j);
                    } else {
                        assert(r@[r@.len() - 1] == i);
                    }
                }
            }
            i = i + 1;
        }
        proof {
            assert(self.pending() =~= Set::<usize>::empty());
            assert(r@.to_set() =~= raised_ids(start)) by {
                assert forall|x: usize| r@.to_set().contains(x) implies raised_ids(start).contains(x) by {
                    let a = choose|a: int| 0 <= a < r@.len() && r@[a] == x;
                }
                assert forall|x: usize| raised_ids(start).contains(x) implies r@.to_set().contains(x) by {
                    assert(r@.contains(x));
                }
            }
        }
        r
    }
}

/// A notifier of a service whose largest event id is `event_id_max_value`.
#[derive(PartialEq, Eq, Structural, Clone, Copy, Debug)]
pub struct Notifier {
    pub event_id_max_value: usize,
}

impl Notifier {
    /// Raises `id` at `listener`. Ids above the service's largest one are
    /// refused, as are ids the listener cannot take.
    pub fn notify(&self, listener: &mut Listener, id: usize) -> (r: Result<(), NotifierError>)
        requires
            old(listener).wf(),
        ensures
            final(listener).wf(),
            r is Ok <==> id <= self.event_id_max_value && id <= old(listener).spec_event_id_max_value(),
            r is Ok ==> final(listener).pending() == old(listener).pending().insert(id),
            r is Err ==> final(listener).pending() == old(listener).pending(),
            final(listener).spec_event_id_max_value() == old(listener).spec_event_id_max_value(),
    {
        if id > self.event_id_max_value {
            return Err(NotifierError::EventIdOutOfBounds);
        }
        listener.notify(id)
    }
}

/// Raising an id twice before the listener looks is the same as raising it
/// once.
pub proof fn lemma_notifications_coalesce(pending: Set<usize>, id: usize)
    ensures
        pending.insert(id).insert(id) == pending.insert(id),
{
    assert(pending.insert(id).insert(id) =~= pending.insert(id));
}

} // verus!
