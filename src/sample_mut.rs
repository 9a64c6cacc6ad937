//! A chunk on loan to a publisher: written in place, then sent or given back.

use crate::arena::{has_free, loaned_count, SlotState};
use crate::publisher::{
    send_blocks, send_result, Chunk, Header, Publisher, PublisherLoanError, PublisherSendError,
    PublisherView,
};
use vstd::prelude::*;

verus! {

/// The header of a sample on loan: the publisher it belongs to. Its
/// sequence number is stamped only when it is sent.
#[derive(PartialEq, Eq, Structural, Clone, Copy, Debug)]
pub struct LoanHeader {
    pub publisher_id: u64,
}

impl LoanHeader {
    pub fn publisher_id(&self) -> (r: u64)
        ensures
            r == self.publisher_id,
    {
        self.publisher_id
    }
}

/// Why a sample was not sent.
#[derive(Debug)]
pub enum SampleSendError<P, U> {
    /// The sample's chunk is not on loan from this publisher.
    InvalidLoan,
    /// Every sequence number of the publisher has been stamped. Nothing was
    /// delivered; here is the sample back, still on loan.
    SequenceExhausted(SampleMut<P, U>),
    /// Under the blocking strategy a subscriber's channel is full. Nothing
    /// was delivered; here is the sample back, still on loan, to send again
    /// once there is room or the full subscriber is gone.
    WouldBlock(SampleMut<P, U>),
}

/// The contents of a loaned sample, as the contracts see them.
pub struct SampleMutView<P, U> {
    pub offset: usize,
    pub header: LoanHeader,
    pub user_header: U,
    pub payload: P,
}

/// A sample on loan: exclusive access to one chunk of the publisher's data
/// segment until it is sent or given back.
#[derive(Debug)]
pub struct SampleMut<P, U> {
    offset: usize,
    header: LoanHeader,
    user_header: U,
    payload: P,
}

impl<P, U> View for SampleMut<P, U> {
    type V = SampleMutView<P, U>;

    closed spec fn view(&self) -> SampleMutView<P, U> {
        SampleMutView {
            offset: self.offset,
            header: self.header,
            user_header: self.user_header,
            payload: self.payload,
        }
    }
}

impl<P: Copy, U: Copy> SampleMut<P, U> {
    /// The offset of the loaned chunk in the data segment.
    pub fn offset(&self) -> (r: usize)
        ensures
            r == self@.offset,
    {
        self.offset
    }

    pub fn header(&self) -> (r: &LoanHeader)
        ensures
            *r == self@.header,
    {
        &self.header
    }

    pub fn user_header(&self) -> (r: &U)
        ensures
            *r == self@.user_header,
    {
        &self.user_header
    }

    pub fn user_header_mut(&mut self) -> (r: &mut U)
        ensures
            *r == old(self)@.user_header,
            final(self)@ == (SampleMutView { user_header: *final(r), ..old(self)@ }),
    {
        &mut self.user_header
    }

    pub fn payload(&self) -> (r: &P)
        ensures
            *r == self@.payload,
    {
        &self.payload
    }

    pub fn payload_mut(&mut self) -> (r: &mut P)
        ensures
            *r == old(self)@.payload,
            final(self)@ == (SampleMutView { payload: *final(r), ..old(self)@ }),
    {
        &mut self.payload
    }

    /// Sends the sample to every subscriber connected to `publisher`, which
    /// must be the publisher that loaned it. Returns the number of
    /// subscribers that received it. Under the blocking strategy with a full
    /// channel the publisher is left as it was and the sample comes back.
    pub fn send(self, publisher: &mut Publisher<P, U>) -> (r: Result<usize, SampleSendError<P, U>>)
        requires
            old(publisher).wf(),
        ensures
            final(publisher).wf(),
            !(self@.offset < old(publisher)@.slots.len() && old(publisher)@.slots[self@.offset as int]
                == SlotState::Loaned) ==> (r matches Err(SampleSendError::InvalidLoan)) && final(publisher)@
                == old(publisher)@,
            self@.offset < old(publisher)@.slots.len() && old(publisher)@.slots[self@.offset as int]
                == SlotState::Loaned && old(publisher)@.next_sequence == u64::MAX ==> (r matches Err(
                SampleSendError::SequenceExhausted(back),
            ) && back@ == self@) && final(publisher)@ == old(publisher)@,
            self@.offset < old(publisher)@.slots.len() && old(publisher)@.slots[self@.offset as int]
                == SlotState::Loaned && old(publisher)@.next_sequence < u64::MAX && send_blocks(old(publisher)@) ==> (r matches Err(
                SampleSendError::WouldBlock(back),
            ) && back@ == self@) && final(publisher)@ == old(publisher)@,
            self@.offset < old(publisher)@.slots.len() && old(publisher)@.slots[self@.offset as int]
                == SlotState::Loaned && old(publisher)@.next_sequence < u64::MAX && !send_blocks(old(publisher)@) ==> (r matches Ok(n)
                && final(publisher)@.slots[self@.offset as int] == crate::arena::published(
                (n + if old(publisher)@.config.history_size > 0 {
                    1nat
                } else {
                    0nat
                }) as u64,
            )),
            self@.offset < old(publisher)@.slots.len() && old(publisher)@.slots[self@.offset as int]
                == SlotState::Loaned && old(publisher)@.next_sequence < u64::MAX && !send_blocks(old(publisher)@) ==> (r matches Ok(n) && (
            final(publisher)@, n as nat) == send_result(
                old(publisher)@,
                self@.offset,
                Chunk {
                    header: Header {
                        publisher_id: old(publisher)@.id,
                        sequence: old(publisher)@.next_sequence,
                    },
                    user_header: self@.user_header,
                    payload: self@.payload,
                },
            )),
    {
        match publisher.send_sample(self.offset, self.user_header, self.payload) {
            Ok(n) => Ok(n),
            Err(PublisherSendError::InvalidLoan) => Err(SampleSendError::InvalidLoan),
            Err(PublisherSendError::WouldBlock) => Err(SampleSendError::WouldBlock(self)),
            Err(PublisherSendError::SequenceExhausted) => Err(SampleSendError::SequenceExhausted(self)),
        }
    }

    /// Gives the loaned chunk back to `publisher` without sending it.
    pub fn discard(self, publisher: &mut Publisher<P, U>) -> (r: bool)
        requires
            old(publisher).wf(),
        ensures
            final(publisher).wf(),
            r == (self@.offset < old(publisher)@.slots.len() && old(publisher)@.slots[self@.offset as int]
                == SlotState::Loaned),
            r ==> final(publisher)@ == (PublisherView {
                slots: old(publisher)@.slots.update(self@.offset as int, SlotState::Free),
                ..old(publisher)@
            }),
            !r ==> final(publisher)@ == old(publisher)@,
    {
        publisher.return_loaned_sample(self.offset)
    }
}

impl<P: Copy, U: Copy> Publisher<P, U> {
    /// Loans the lowest free chunk, initialised with `payload` and
    /// `user_header`. The header carries this publisher's id.
    pub fn loan(&mut self, payload: P, user_header: U) -> (r: Result<SampleMut<P, U>, PublisherLoanError>)
        requires
            old(self).wf(),
        ensures
            final(self).wf(),
            loaned_count(old(self)@.slots) >= old(self)@.config.max_loaned_samples ==> r
                == Err::<SampleMut<P, U>, PublisherLoanError>(PublisherLoanError::ExceedsMaxLoanedSamples),
            loaned_count(old(self)@.slots) < old(self)@.config.max_loaned_samples && !has_free(
                old(self)@.slots,
            ) ==> r == Err::<SampleMut<P, U>, PublisherLoanError>(PublisherLoanError::OutOfMemory),
            r is Err ==> final(self)@ == old(self)@,
            r is Ok <==> loaned_count(old(self)@.slots) < old(self)@.config.max_loaned_samples
                && crate::arena::has_free(old(self)@.slots),
            r is Ok ==> loaned_count(old(self)@.slots) < old(self)@.config.max_loaned_samples && has_free(
                old(self)@.slots,
            ),
            r matches Ok(s) ==> {
                let i = s@.offset;
                &&& i < old(self)@.slots.len()
                &&& old(self)@.slots[i as int] == SlotState::Free
                &&& forall|j: int| 0 <= j < i ==> old(self)@.slots[j] != SlotState::Free
                &&& final(self)@ == (PublisherView {
                    slots: old(self)@.slots.update(i as int, SlotState::Loaned),
                    ..old(self)@
                })
                &&& s@.header == (LoanHeader { publisher_id: old(self)@.id })
                &&& s@.payload == payload
                &&& s@.user_header == user_header
            },
    {
        let id = self.id();
        match self.loan_chunk() {
            Ok(offset) => Ok(
                SampleMut {
                    offset,
                    header: LoanHeader { publisher_id: id },
                    user_header,
                    payload,
                },
            ),
            Err(e) => Err(e),
        }
    }
}

} // verus!
