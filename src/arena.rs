//! The chunk arena of a publisher's data segment: a fixed number of slots,
//! each free, loaned to the publisher, or in flight with a holder count.

use vstd::prelude::*;

verus! {

/// The state of one chunk slot.
#[derive(PartialEq, Eq, Structural, Clone, Copy, Debug)]
pub enum SlotState {
    Free,
    Loaned,
    InFlight(u64),
}

/// The only states a slot may be seen in: an in-flight slot has a holder.
pub open spec fn is_observable_state(s: SlotState) -> bool {
    match s {
        SlotState::InFlight(n) => n >= 1,
        _ => true,
    }
}

/// The holder count of a slot.
pub open spec fn holders_of(s: SlotState) -> nat {
    match s {
        SlotState::InFlight(n) => n as nat,
        _ => 0,
    }
}

/// A slot with one more holder. The count saturates: a slot at the
/// counter's limit stays there. Any other state is unchanged.
pub open spec fn borrowed(s: SlotState) -> SlotState {
    match s {
        SlotState::InFlight(n) => if n < u64::MAX {
            SlotState::InFlight((n + 1) as u64)
        } else {
            s
        },
        _ => s,
    }
}

/// A slot with one holder fewer: the last holder frees it. A saturated
/// count is never decremented, so such a slot is never freed early. Any
/// state but in flight is unchanged.
pub open spec fn released(s: SlotState) -> SlotState {
    match s {
        SlotState::InFlight(n) => if n == u64::MAX {
            s
        } else if n <= 1 {
            SlotState::Free
        } else {
            SlotState::InFlight((n - 1) as u64)
        },
        _ => s,
    }
}

/// The table with one more holder on slot `i`, where it is in range.
pub open spec fn borrow_at(s: Seq<SlotState>, i: int) -> Seq<SlotState> {
    if 0 <= i < s.len() {
        s.update(i, borrowed(s[i]))
    } else {
        s
    }
}

/// The table with one holder fewer on slot `i`, where it is in range.
pub open spec fn release_at(s: Seq<SlotState>, i: int) -> Seq<SlotState> {
    if 0 <= i < s.len() {
        s.update(i, released(s[i]))
    } else {
        s
    }
}

/// `s` after `k` releases.
pub open spec fn released_times(s: SlotState, k: nat) -> SlotState
    decreases k,
{
    if k == 0 {
        s
    } else {
        released(released_times(s, (k - 1) as nat))
    }
}

/// The state a loaned slot gets when it is published to `count` holders.
pub open spec fn published(count: u64) -> SlotState {
    if count == 0 {
        SlotState::Free
    } else {
        SlotState::InFlight(count)
    }
}

/// Whether every slot is in an observable state.
pub open spec fn all_observable(s: Seq<SlotState>) -> bool {
    forall|i: int| 0 <= i < s.len() ==> is_observable_state(#[trigger] s[i])
}

/// The number of in-flight slots.
pub open spec fn in_flight_count(s: Seq<SlotState>) -> nat
    decreases s.len(),
{
    if s.len() == 0 {
        0
    } else {
        in_flight_count(s.drop_last()) + if s.last() is InFlight {
            1nat
        } else {
            0nat
        }
    }
}

/// The number of loaned slots.
pub open spec fn loaned_count(s: Seq<SlotState>) -> nat
    decreases s.len(),
{
    if s.len() == 0 {
        0
    } else {
        loaned_count(s.drop_last()) + if s.last() is Loaned {
            1nat
        } else {
            0nat
        }
    }
}

/// Whether some slot is free.
pub open spec fn has_free(s: Seq<SlotState>) -> bool {
    exists|i: int| 0 <= i < s.len() && s[i] == SlotState::Free
}

/// The arena: a fixed-size table of slot states.
#[derive(Debug)]
pub struct SampleArena {
    slots: Vec<SlotState>,
}

impl View for SampleArena {
    type V = Seq<SlotState>;

    closed spec fn view(&self) -> Seq<SlotState> {
        self.slots@
    }
}

impl SampleArena {
    /// The arena's invariant: every slot is in an observable state.
    pub open spec fn wf(&self) -> bool {
        all_observable(self@)
    }

    /// An arena of `number_of_chunks` free slots.
    pub fn new(number_of_chunks: usize) -> (r: SampleArena)
        ensures
            r.wf(),
            r@ == Seq::new(number_of_chunks as nat, |i: int| SlotState::Free),
    {
        let mut slots: Vec<SlotState> = Vec::new();
        let mut i: usize = 0;
        while i < number_of_chunks
            invariant
                i <= number_of_chunks,
                slots@ == Seq::new(i as nat, |j: int| SlotState::Free),
            decreases number_of_chunks - i,
        {
            slots.push(SlotState::Free);
            i = i + 1;
            assert(slots@ =~= Seq::new(i as nat, |j: int| SlotState::Free));
        }
        SampleArena { slots }
    }

    pub fn number_of_chunks(&self) -> (r: usize)
        ensures
            r == self@.len(),
    {
        self.slots.len()
    }

    pub fn state(&self, offset: usize) -> (r: SlotState)
        requires
            offset < self@.len(),
        ensures
            r == self@[offset as int],
    {
        self.slots[offset]
    }

    /// Takes the lowest free slot and marks it loaned.
    pub fn acquire(&mut self) -> (r: Option<usize>)
        requires
            old(self).wf(),
        ensures
            final(self).wf(),
            r is None <==> !has_free(old(self)@),
            r is None ==> final(self)@ == old(self)@,
            r matches Some(i) ==> {
                &&& i < old(self)@.len()
                &&& old(self)@[i as int] == SlotState::Free
                &&& forall|j: int| 0 <= j < i ==> old(self)@[j] != SlotState::Free
                &&& final(self)@ == old(self)@.update(i as int, SlotState::Loaned)
            },
    {
        let mut i: usize = 0;
        while i < self.slots.len()
            invariant
                i <= self@.len(),
                self@ == old(self)@,
                self.wf(),
                forall|j: int| 0 <= j < i ==> self@[j] != SlotState::Free,
            decreases self@.len() - i,
        {
            if self.slots[i] == SlotState::Free {
                self.slots.set(i, SlotState::Loaned);
                return Some(i);
            }
            i = i + 1;
        }
        None
    }

    /// Gives a loaned slot back without publishing it.
    pub fn return_loan(&mut self, offset: usize) -> (r: bool)
        requires
            old(self).wf(),
        ensures
            final(self).wf(),
            r == (offset < old(self)@.len() && old(self)@[offset as int] == SlotState::Loaned),
            r ==> final(self)@ == old(self)@.update(offset as int, SlotState::Free),
            !r ==> final(self)@ == old(self)@,
    {
        if offset < self.slots.len() && self.slots[offset] == SlotState::Loaned {
            self.slots.set(offset, SlotState::Free);
            true
        } else {
            false
        }
    }

    /// Moves a loaned slot to in flight with `count` holders, or to free when
    /// there is none.
    pub fn publish(&mut self, offset: usize, count: u64) -> (r: bool)
        requires
            old(self).wf(),
        ensures
            final(self).wf(),
            r == (offset < old(self)@.len() && old(self)@[offset as int] == SlotState::Loaned),
            r ==> final(self)@ == old(self)@.update(offset as int, published(count)),
            !r ==> final(self)@ == old(self)@,
    {
        if offset < self.slots.len() && self.slots[offset] == SlotState::Loaned {
            if count == 0 {
                self.slots.set(offset, SlotState::Free);
            } else {
                self.slots.set(offset, SlotState::InFlight(count));
            }
            true
        } else {
            false
        }
    }

    /// Adds a holder to an in-flight slot. Returns whether the slot was in
    /// flight.
    pub fn borrow(&mut self, offset: usize) -> (r: bool)
        requires
            old(self).wf(),
        ensures
            final(self).wf(),
            r == (offset < old(self)@.len() && old(self)@[offset as int] is InFlight),
            final(self)@ == borrow_at(old(self)@, offset as int),
    {
        if offset < self.slots.len() {
            match self.slots[offset] {
                SlotState::InFlight(n) => {
                    if n < u64::MAX {
                        self.slots.set(offset, SlotState::InFlight(n + 1));
                    }
                    assert(self@ =~= borrow_at(old(self)@, offset as int));
                    return true;
                },
                _ => {},
            }
            assert(self@ =~= borrow_at(old(self)@, offset as int));
        }
        false
    }

    /// Removes a holder from an in-flight slot; the last one frees it.
    /// Returns `Ok(true)` when the slot became free, and an error, with the
    /// arena unchanged, when the slot was not in flight.
    pub fn release(&mut self, offset: usize) -> (r: Result<bool, ArenaError>)
        requires
            old(self).wf(),
        ensures
            final(self).wf(),
            final(self)@ == release_at(old(self)@, offset as int),
            r is Ok == (offset < old(self)@.len() && old(self)@[offset as int] is InFlight),
            r matches Ok(freed) ==> freed == (final(self)@[offset as int] == SlotState::Free),
            r matches Err(e) ==> e == (if offset < old(self)@.len() {
                ArenaError::NotInFlight
            } else {
                ArenaError::OutOfBounds
            }),
    {
        if offset >= self.slots.len() {
            return Err(ArenaError::OutOfBounds);
        }
        match self.slots[offset] {
            SlotState::InFlight(n) => {
                if n == u64::MAX {
                    assert(self@ =~= release_at(old(self)@, offset as int));
                    Ok(false)
                } else if n <= 1 {
                    self.slots.set(offset, SlotState::Free);
                    Ok(true)
                } else {
                    self.slots.set(offset, SlotState::InFlight(n - 1));
                    Ok(false)
                }
            },
            _ => {
                assert(self@ =~= release_at(old(self)@, offset as int));
                Err(ArenaError::NotInFlight)
            },
        }
    }

    /// The number of slots that are in flight.
    pub fn in_flight(&self) -> (r: usize)
        ensures
            r == in_flight_count(self@),
    {
        let mut count: usize = 0;
        let mut i: usize = 0;
        while i < self.slots.len()
            invariant
                i <= self@.len(),
                count == in_flight_count(self@.subrange(0, i as int)),
                count <= i,
            decreases self@.len() - i,
        {
            assert(self@.subrange(0, i + 1).drop_last() =~= self@.subrange(0, i as int));
            if matches!(self.slots[i], SlotState::InFlight(_)) {
                count = count + 1;
            }
            i = i + 1;
        }
        assert(self@.subrange(0, self@.len() as int) =~= self@);
        count
    }

    /// The number of slots that are loaned.
    pub fn loaned(&self) -> (r: usize)
        ensures
            r == loaned_count(self@),
    {
        let mut count: usize = 0;
        let mut i: usize = 0;
        while i < self.slots.len()
            invariant
                i <= self@.len(),
                count == loaned_count(self@.subrange(0, i as int)),
                count <= i,
            decreases self@.len() - i,
        {
            assert(self@.subrange(0, i + 1).drop_last() =~= self@.subrange(0, i as int));
            if self.slots[i] == SlotState::Loaned {
                count = count + 1;
            }
            i = i + 1;
        }
        assert(self@.subrange(0, self@.len() as int) =~= self@);
        count
    }
}

/// A slot operation on a slot that is not in the required state.
#[derive(PartialEq, Eq, Structural, Clone, Copy, Debug)]
pub enum ArenaError {
    OutOfBounds,
    NotInFlight,
}

/// Loaning a free slot and dropping the loan without sending leaves the
/// arena exactly as it was, so loan-and-drop can be repeated without limit
/// and without leaking a slot.
pub proof fn lemma_loan_then_drop_restores(s: Seq<SlotState>, i: int)
    requires
        0 <= i < s.len(),
        s[i] == SlotState::Free,
    ensures
        s.update(i, SlotState::Loaned).update(i, SlotState::Free) == s,
{
    assert(s.update(i, SlotState::Loaned).update(i, SlotState::Free) =~= s);
}

/// A slot published to `n` holders is free again after exactly `n` releases,
/// and still in flight after fewer.
pub proof fn lemma_release_by_every_holder_frees(n: u64, k: nat)
    requires
        k <= n,
        n < u64::MAX,
    ensures
        k < n ==> released_times(published(n), k) == SlotState::InFlight((n - k) as u64),
        released_times(published(n), n as nat) == SlotState::Free,
    decreases k,
{
    if n == 0 {
        assert(released_times(published(n), 0) == published(0));
    } else {
        lemma_release_steps(n, k);
        lemma_release_steps(n, n as nat);
    }
}

proof fn lemma_release_steps(n: u64, k: nat)
    requires
        1 <= n < u64::MAX,
        k <= n,
    ensures
        k < n ==> released_times(SlotState::InFlight(n), k) == SlotState::InFlight((n - k) as u64),
        k == n ==> released_times(SlotState::InFlight(n), k) == SlotState::Free,
    decreases k,
{
    if k > 0 {
        lemma_release_steps(n, (k - 1) as nat);
    }
}

/// Every transition of a slot keeps it in an observable state.
pub proof fn lemma_transitions_keep_states_observable(s: SlotState, count: u64)
    requires
        is_observable_state(s),
    ensures
        is_observable_state(borrowed(s)),
        is_observable_state(released(s)),
        is_observable_state(published(count)),
{
}

/// A slot that its last holder released is free, so the next acquire finds a
/// free slot.
pub proof fn lemma_released_slot_is_reusable(s: Seq<SlotState>, i: int)
    requires
        0 <= i < s.len(),
        s[i] == SlotState::InFlight(1),
    ensures
        has_free(s.update(i, released(s[i]))),
{
    assert(s.update(i, released(s[i]))[i] == SlotState::Free);
}

} // verus!
