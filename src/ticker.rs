//! A publisher that sends a counter once per tick for a given number of
//! ticks. The caller waits between ticks; each tick is one call here.

use crate::arena::{has_free, loaned_count};
use crate::sample_mut::SampleSendError;
use crate::publisher::{send_blocks, stamped, Publisher, PublisherLoanError, PublisherSendError};
use vstd::prelude::*;

verus! {

/// The counter sent so far and the ticks still to go.
#[derive(PartialEq, Eq, Structural, Clone, Copy, Debug)]
pub struct TickState {
    pub counter: u64,
    pub remaining_ticks: u32,
}

/// Whether the run goes on after a tick.
#[derive(PartialEq, Eq, Structural, Clone, Copy, Debug)]
pub enum TickOutcome {
    Continue,
    Finished,
}

#[derive(PartialEq, Eq, Structural, Clone, Copy, Debug)]
pub enum TickError {
    /// The counter has reached its largest value.
    CounterExhausted,
    Loan(PublisherLoanError),
    Send(PublisherSendError),
}

impl TickState {
    pub fn new(ticks: u32) -> (r: TickState)
        ensures
            r == (TickState { counter: 0, remaining_ticks: ticks }),
    {
        TickState { counter: 0, remaining_ticks: ticks }
    }
}

/// One tick: loans a sample, writes the next counter value into it and sends
/// it. The run finishes once the remaining ticks, counted down without going
/// below zero, reach zero. A failed loan or send leaves the state and the
/// publisher as they were; under the blocking strategy the caller waits and
/// tries the tick again.
pub fn publish_tick(state: &mut TickState, publisher: &mut Publisher<u64, u64>) -> (r: Result<TickOutcome, TickError>)
    requires
        old(publisher).wf(),
    ensures
        final(publisher).wf(),
        r is Ok ==> final(state).counter == old(state).counter + 1,
        r is Err ==> *final(state) == *old(state) && final(publisher)@ == old(publisher)@,
        r is Ok ==> final(state).remaining_ticks == (if old(state).remaining_ticks == 0 {
            0
        } else {
            old(state).remaining_ticks - 1
        }),
        r is Ok ==> (r == Ok::<TickOutcome, TickError>(TickOutcome::Finished) <==> final(state).remaining_ticks == 0),
        r is Ok ==> final(publisher)@.sent.len() == old(publisher)@.sent.len() + 1
            && final(publisher)@.sent.drop_last() == old(publisher)@.sent
            && final(publisher)@.chunks[final(publisher)@.sent.last() as int] == Some(
            stamped(old(publisher)@, 0u64, final(state).counter)),
        old(state).counter == u64::MAX ==> r == Err::<TickOutcome, TickError>(TickError::CounterExhausted),
        old(state).counter < u64::MAX && loaned_count(old(publisher)@.slots) >= old(publisher)@.config.max_loaned_samples ==> r
            == Err::<TickOutcome, TickError>(TickError::Loan(PublisherLoanError::ExceedsMaxLoanedSamples)),
        old(state).counter < u64::MAX && loaned_count(old(publisher)@.slots) < old(publisher)@.config.max_loaned_samples && !has_free(
            old(publisher)@.slots,
        ) ==> r == Err::<TickOutcome, TickError>(TickError::Loan(PublisherLoanError::OutOfMemory)),
        old(state).counter < u64::MAX && loaned_count(old(publisher)@.slots) < old(publisher)@.config.max_loaned_samples && has_free(
            old(publisher)@.slots,
        ) && old(publisher)@.next_sequence == u64::MAX ==> r == Err::<TickOutcome, TickError>(
            TickError::Send(PublisherSendError::SequenceExhausted),
        ),
        old(state).counter < u64::MAX && loaned_count(old(publisher)@.slots) < old(publisher)@.config.max_loaned_samples && has_free(
            old(publisher)@.slots,
        ) && old(publisher)@.next_sequence < u64::MAX && send_blocks(old(publisher)@) ==> r == Err::<TickOutcome, TickError>(
            TickError::Send(PublisherSendError::WouldBlock),
        ),
        old(state).counter < u64::MAX && loaned_count(old(publisher)@.slots) < old(publisher)@.config.max_loaned_samples && has_free(
            old(publisher)@.slots,
        ) && old(publisher)@.next_sequence < u64::MAX && !send_blocks(old(publisher)@) ==> r is Ok,
{
    if state.counter == u64::MAX {
        return Err(TickError::CounterExhausted);
    }
    let value = state.counter + 1;
    let mut sample = match publisher.loan(0, 0) {
        Ok(s) => s,
        Err(e) => return Err(TickError::Loan(e)),
    };
    *sample.payload_mut() = value;
    let offset = sample.offset();
    let ghost before = publisher@;
    match sample.send(publisher) {
        Ok(_) => {},
        Err(SampleSendError::InvalidLoan) => return Err(TickError::Send(PublisherSendError::InvalidLoan)),
        Err(SampleSendError::SequenceExhausted(back)) => {
            back.discard(publisher);
            proof {
                crate::publisher_laws::lemma_loan_then_return_restores(old(publisher)@, offset as int);
            }
            return Err(TickError::Send(PublisherSendError::SequenceExhausted));
        },
        Err(SampleSendError::WouldBlock(back)) => {
            back.discard(publisher);
            proof {
                crate::publisher_laws::lemma_loan_then_return_restores(old(publisher)@, offset as int);
            }
            return Err(TickError::Send(PublisherSendError::WouldBlock));
        },
    }
    state.counter = value;
    proof {
        crate::publisher_laws::lemma_sent_records_chunk(before, offset, 0, state.counter);
    }
    state.remaining_ticks = if state.remaining_ticks == 0 {
        0
    } else {
        state.remaining_ticks - 1
    };
    if state.remaining_ticks == 0 {
        Ok(TickOutcome::Finished)
    } else {
        Ok(TickOutcome::Continue)
    }
}

} // verus!
