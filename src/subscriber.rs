//! The subscriber port: connects to a publisher, receives the chunks queued
//! for it in order, and releases them when done.

use crate::accounting::holder_bound;
use crate::publisher::{
    borrow_each, is_connected, is_first_connection_of, take_oldest, Chunk, ConnectionError,
    ConnectionView, Header, Publisher, PublisherView, ReceiveError, ReleaseError,
};
use vstd::prelude::*;

verus! {

/// A received sample: a read-only view of one chunk, valid until released.
#[derive(Debug)]
pub struct Sample<P, U> {
    offset: usize,
    chunk: Chunk<P, U>,
}

impl<P: Copy, U: Copy> Sample<P, U> {
    pub closed spec fn spec_offset(&self) -> usize {
        self.offset
    }

    pub closed spec fn spec_chunk(&self) -> Chunk<P, U> {
        self.chunk
    }

    /// The offset of the chunk in the publisher's data segment.
    pub fn offset(&self) -> (r: usize)
        ensures
            r == self.spec_offset(),
    {
        self.offset
    }

    pub fn header(&self) -> (r: &Header)
        ensures
            *r == self.spec_chunk().header,
    {
        &self.chunk.header
    }

    pub fn user_header(&self) -> (r: &U)
        ensures
            *r == self.spec_chunk().user_header,
    {
        &self.chunk.user_header
    }

    pub fn payload(&self) -> (r: &P)
        ensures
            *r == self.spec_chunk().payload,
    {
        &self.chunk.payload
    }
}

/// A subscriber, identified by its id, with the depth of its channel and the
/// number of samples it may hold at once.
#[derive(PartialEq, Eq, Structural, Clone, Copy, Debug)]
pub struct Subscriber {
    pub id: u64,
    pub buffer_size: usize,
    pub max_borrowed_samples: usize,
}

impl Subscriber {
    pub fn new(id: u64, buffer_size: usize, max_borrowed_samples: usize) -> (r: Subscriber)
        ensures
            r == (Subscriber { id, buffer_size, max_borrowed_samples }),
    {
        Subscriber { id, buffer_size, max_borrowed_samples }
    }

    /// Connects to `publisher`; the publisher's history is queued first.
    pub fn connect<P: Copy, U: Copy>(&self, publisher: &mut Publisher<P, U>) -> (r: Result<(), ConnectionError>)
        requires
            old(publisher).wf(),
        ensures
            final(publisher).wf(),
            is_connected(old(publisher)@.connections, self.id) ==> r == Err::<(), ConnectionError>(
                ConnectionError::AlreadyConnected),
            !is_connected(old(publisher)@.connections, self.id) && old(publisher)@.connections.len()
                >= old(publisher)@.config.max_subscribers ==> r == Err::<(), ConnectionError>(
                ConnectionError::ExceedsMaxSubscribers),
            !is_connected(old(publisher)@.connections, self.id) && old(publisher)@.connections.len()
                < old(publisher)@.config.max_subscribers && (self.buffer_size == 0 || self.buffer_size
                < old(publisher)@.config.history_size) ==> r == Err::<(), ConnectionError>(
                ConnectionError::BufferTooSmall),
            !is_connected(old(publisher)@.connections, self.id) && old(publisher)@.connections.len()
                < old(publisher)@.config.max_subscribers && self.buffer_size > 0 && self.buffer_size
                >= old(publisher)@.config.history_size && holder_bound(old(publisher)@) + self.buffer_size
                + self.max_borrowed_samples + 4 > u64::MAX ==> r == Err::<(), ConnectionError>(
                ConnectionError::ExceedsHolderLimit),
            !is_connected(old(publisher)@.connections, self.id) && old(publisher)@.connections.len()
                < old(publisher)@.config.max_subscribers && self.buffer_size > 0 && self.buffer_size
                >= old(publisher)@.config.history_size && holder_bound(old(publisher)@) + self.buffer_size
                + self.max_borrowed_samples + 4 <= u64::MAX ==> r is Ok,
            r is Err ==> final(publisher)@ == old(publisher)@,
            r is Ok ==> final(publisher)@ == (PublisherView {
                slots: borrow_each(old(publisher)@.slots, old(publisher)@.history),
                connections: old(publisher)@.connections.push(
                    ConnectionView {
                        subscriber_id: self.id,
                        queue: old(publisher)@.history,
                        capacity: self.buffer_size as nat,
                        held: Seq::empty(),
                        max_borrowed: self.max_borrowed_samples as nat,
                    },
                ),
                ..old(publisher)@
            }),
    {
        publisher.connect_subscriber(self.id, self.buffer_size, self.max_borrowed_samples)
    }

    /// Whether `publisher` still has samples queued for this subscriber;
    /// a connection that does when its publisher goes away expires instead
    /// of closing.
    pub fn has_unread_samples<P: Copy, U: Copy>(&self, publisher: &Publisher<P, U>) -> (r: bool)
        requires
            publisher.wf(),
        ensures
            r == exists|k: int| #[trigger] is_first_connection_of(publisher@.connections, self.id, k)
                && publisher@.connections[k].queue.len() > 0,
    {
        publisher.has_queued(self.id)
    }

    /// Takes the oldest sample queued for this subscriber.
    pub fn receive<P: Copy, U: Copy>(&self, publisher: &mut Publisher<P, U>) -> (r: Result<Option<Sample<P, U>>, ReceiveError>)
        requires
            old(publisher).wf(),
        ensures
            final(publisher).wf(),
            !is_connected(old(publisher)@.connections, self.id) ==> r is Err && r->Err_0 == ReceiveError::NotConnected,
            (r is Err || r matches Ok(None)) ==> final(publisher)@ == old(publisher)@,
            forall|k: int| #[trigger]
                is_first_connection_of(old(publisher)@.connections, self.id, k) ==> {
                    let c = old(publisher)@.connections[k];
                    &&& c.held.len() >= c.max_borrowed ==> r is Err && r->Err_0
                        == ReceiveError::ExceedsMaxBorrowedSamples
                    &&& c.held.len() < c.max_borrowed && c.queue.len() == 0 ==> (r matches Ok(None))
                    &&& c.held.len() < c.max_borrowed && c.queue.len() > 0 ==> {
                        &&& r matches Ok(Some(s))
                        &&& s.spec_offset() == c.queue[0]
                        &&& old(publisher)@.chunks[c.queue[0] as int] == Some(s.spec_chunk())
                        &&& final(publisher)@ == take_oldest(old(publisher)@, k)
                    }
                },
    {
        match publisher.receive_chunk(self.id) {
            Ok(Some((offset, chunk))) => Ok(Some(Sample { offset, chunk })),
            Ok(None) => Ok(None),
            Err(e) => Err(e),
        }
    }

    /// Leaves `publisher`: every chunk still queued for this subscriber or
    /// borrowed by it loses this subscriber as a holder.
    pub fn disconnect<P: Copy, U: Copy>(&self, publisher: &mut Publisher<P, U>) -> (r: bool)
        requires
            old(publisher).wf(),
        ensures
            final(publisher).wf(),
            r == is_connected(old(publisher)@.connections, self.id),
            !r ==> final(publisher)@ == old(publisher)@,
            forall|k: int| #[trigger]
                is_first_connection_of(old(publisher)@.connections, self.id, k) ==> final(publisher)@.connections
                    == old(publisher)@.connections.remove(k),
    {
        publisher.disconnect_subscriber(self.id)
    }

    /// Gives a received sample back; the last holder of its chunk frees it.
    pub fn release<P: Copy, U: Copy>(&self, sample: Sample<P, U>, publisher: &mut Publisher<P, U>) -> (r: Result<(), ReleaseError>)
        requires
            old(publisher).wf(),
        ensures
            final(publisher).wf(),
            !is_connected(old(publisher)@.connections, self.id) ==> r == Err::<(), ReleaseError>(
                ReleaseError::NotConnected),
            r is Err ==> final(publisher)@ == old(publisher)@,
            forall|k: int| #[trigger]
                is_first_connection_of(old(publisher)@.connections, self.id, k) ==> (
                old(publisher)@.connections[k].held.contains(sample.spec_offset()) <==> r is Ok),
            r is Ok ==> final(publisher)@.slots == crate::arena::release_at(
                old(publisher)@.slots,
                sample.spec_offset() as int,
            ),
    {
        publisher.release_chunk(self.id, sample.offset)
    }
}

} // verus!
