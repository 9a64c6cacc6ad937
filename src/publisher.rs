//! The publisher port: loans chunks from its arena, stamps and fans out sent
//! samples to every connected subscriber's channel, and keeps a history of
//! the latest samples for subscribers that connect later.

use crate::arena::{
    all_observable, borrow_at, holders_of, loaned_count, published, release_at, SampleArena,
    SlotState,
};
use crate::accounting::{
    accounted, conn_occ, holder_bound, holders, lemma_all_occ_push, lemma_all_occ_remove,
};
use crate::channel::{push_outcome, Channel, PushOutcome};
use crate::publisher_laws::{
    lemma_borrow_each_adds, lemma_borrow_each_keeps_observable, lemma_borrow_keeps_observable,
    lemma_fan_out_keeps_wf, lemma_holders_le_bound, lemma_last_n_len, lemma_last_n_push,
    lemma_loan_change_accounted, lemma_loans_returned_accounted, lemma_receive_accounted,
    lemma_release_accounted, lemma_release_each_keeps_observable, lemma_release_each_subtracts,
    lemma_release_keeps_observable, lemma_send_accounted, lemma_send_keeps_order,
    lemma_take_oldest_keeps_order,
};
use vstd::prelude::*;

verus! {

/// The system header that the publisher stamps into every sample it sends.
#[derive(PartialEq, Eq, Structural, Clone, Copy, Debug)]
pub struct Header {
    pub publisher_id: u64,
    pub sequence: u64,
}

impl Header {
    pub fn publisher_id(&self) -> (r: u64)
        ensures
            r == self.publisher_id,
    {
        self.publisher_id
    }

    pub fn sequence(&self) -> (r: u64)
        ensures
            r == self.sequence,
    {
        self.sequence
    }
}

/// The contents of one chunk: system header, user header and payload.
#[derive(Clone, Copy, Debug)]
pub struct Chunk<P, U> {
    pub header: Header,
    pub user_header: U,
    pub payload: P,
}

/// What a publisher does when a subscriber's channel is full and overflow is
/// not safe.
#[derive(PartialEq, Eq, Structural, Clone, Copy, Debug)]
pub enum UnableToDeliverStrategy {
    Block,
    DiscardSample,
}

/// The tunables of a publisher.
#[derive(PartialEq, Eq, Structural, Clone, Copy, Debug)]
pub struct PublisherConfig {
    pub number_of_chunks: usize,
    pub max_loaned_samples: usize,
    pub history_size: usize,
    pub enable_safe_overflow: bool,
    pub unable_to_deliver_strategy: UnableToDeliverStrategy,
    pub max_subscribers: usize,
}

#[derive(PartialEq, Eq, Structural, Clone, Copy, Debug)]
pub enum PublisherLoanError {
    /// Every chunk of the data segment is loaned or in flight.
    OutOfMemory,
    /// The publisher already holds its maximum of unsent loans.
    ExceedsMaxLoanedSamples,
}

#[derive(PartialEq, Eq, Structural, Clone, Copy, Debug)]
pub enum PublisherSendError {
    /// The offset does not name a chunk that this publisher has on loan.
    InvalidLoan,
    /// Every sequence number has been stamped; nothing was delivered and the
    /// chunk is still on loan.
    SequenceExhausted,
    /// Under the blocking strategy a subscriber's channel is full; nothing
    /// was delivered and the chunk is still on loan, to be sent again once
    /// there is room.
    WouldBlock,
}

#[derive(PartialEq, Eq, Structural, Clone, Copy, Debug)]
pub enum ConnectionError {
    ExceedsMaxSubscribers,
    /// With this connection a chunk could have more holders than its
    /// counter can count.
    ExceedsHolderLimit,
    AlreadyConnected,
    /// The channel would be too small to take the history, or would have no
    /// room at all.
    BufferTooSmall,
}

#[derive(PartialEq, Eq, Structural, Clone, Copy, Debug)]
pub enum ReceiveError {
    NotConnected,
    ExceedsMaxBorrowedSamples,
}

#[derive(PartialEq, Eq, Structural, Clone, Copy, Debug)]
pub enum ReleaseError {
    NotConnected,
    /// The subscriber does not hold this chunk.
    NotBorrowed,
}

/// The state of one connection, as the contracts see it.
pub struct ConnectionView {
    pub subscriber_id: u64,
    pub queue: Seq<usize>,
    pub capacity: nat,
    pub held: Seq<usize>,
    pub max_borrowed: nat,
}

/// The state of a publisher, as the contracts see it.
pub struct PublisherView<P, U> {
    pub id: u64,
    pub config: PublisherConfig,
    pub slots: Seq<SlotState>,
    pub chunks: Seq<Option<Chunk<P, U>>>,
    pub connections: Seq<ConnectionView>,
    pub history: Seq<usize>,
    /// Every offset that was sent, oldest first.
    pub sent: Seq<usize>,
    pub next_sequence: u64,
    /// Samples that some subscriber lost to a full channel.
    pub dropped: u64,
    pub alive: bool,
}

/// One more, saturating at the counter's limit.
pub open spec fn bump(x: u64) -> u64 {
    if x < u64::MAX {
        (x + 1) as u64
    } else {
        x
    }
}

/// The last `n` elements of `s`, or all of them when there are fewer.
pub open spec fn last_n(s: Seq<usize>, n: nat) -> Seq<usize> {
    if s.len() <= n {
        s
    } else {
        s.subrange(s.len() - n, s.len() as int)
    }
}

/// Whether `o` names a chunk of the segment that holds a sample.
pub open spec fn holds_sample<P, U>(m: PublisherView<P, U>, o: usize) -> bool {
    o < m.slots.len() && m.chunks[o as int] is Some
}

pub open spec fn all_hold_samples<P, U>(m: PublisherView<P, U>, s: Seq<usize>) -> bool {
    forall|j: int| 0 <= j < s.len() ==> holds_sample(m, #[trigger] s[j])
}

/// Whether some connection's channel is full.
pub open spec fn some_channel_full(conns: Seq<ConnectionView>) -> bool {
    exists|k: int| 0 <= k < conns.len() && (#[trigger] conns[k]).queue.len() >= conns[k].capacity
}

/// Whether a send would have to wait for room.
pub open spec fn send_blocks<P, U>(m: PublisherView<P, U>) -> bool {
    &&& !m.config.enable_safe_overflow
    &&& m.config.unable_to_deliver_strategy == UnableToDeliverStrategy::Block
    &&& some_channel_full(m.connections)
}

/// Delivery of `offset` to connection `k`, and whether it arrived.
pub open spec fn deliver_one<P, U>(m: PublisherView<P, U>, k: int, offset: usize) -> (PublisherView<P, U>, bool) {
    let c = m.connections[k];
    let (q, outcome) = push_outcome(c.queue, c.capacity, offset, m.config.enable_safe_overflow);
    let conns = m.connections.update(k, ConnectionView { queue: q, ..c });
    match outcome {
        PushOutcome::Enqueued => (
            PublisherView { slots: borrow_at(m.slots, offset as int), connections: conns, ..m },
            true,
        ),
        PushOutcome::Displaced(oldest) => (
            PublisherView {
                slots: release_at(borrow_at(m.slots, offset as int), oldest as int),
                connections: conns,
                dropped: bump(m.dropped),
                ..m
            },
            true,
        ),
        PushOutcome::Rejected => (PublisherView { dropped: bump(m.dropped), ..m }, false),
    }
}

/// Delivery of `offset` to the first `n` connections, in order, and how many
/// of them it reached.
pub open spec fn fan_out<P, U>(m: PublisherView<P, U>, offset: usize, n: nat) -> (PublisherView<P, U>, nat)
    decreases n,
{
    if n == 0 {
        (m, 0)
    } else {
        let (m1, count) = fan_out(m, offset, (n - 1) as nat);
        let (m2, arrived) = deliver_one(m1, n - 1, offset);
        (m2, if arrived { count + 1 } else { count })
    }
}

/// Keeps `offset` in the history, dropping the oldest entry beyond its size.
pub open spec fn retain<P, U>(m: PublisherView<P, U>, offset: usize) -> PublisherView<P, U> {
    if m.config.history_size == 0 {
        m
    } else {
        let h = m.history.push(offset);
        let s = borrow_at(m.slots, offset as int);
        if h.len() > m.config.history_size {
            PublisherView { history: h.drop_first(), slots: release_at(s, h[0] as int), ..m }
        } else {
            PublisherView { history: h, slots: s, ..m }
        }
    }
}

/// The publisher after sending the loaned chunk `offset` with `chunk`, and
/// the number of subscribers that received it. The publisher holds the chunk
/// itself while it fans it out, and lets go at the end: a chunk that nobody
/// took is free again.
pub open spec fn send_result<P, U>(m: PublisherView<P, U>, offset: usize, chunk: Chunk<P, U>) -> (PublisherView<P, U>, nat) {
    let m0 = PublisherView {
        chunks: m.chunks.update(offset as int, Some(chunk)),
        slots: m.slots.update(offset as int, SlotState::InFlight(1)),
        next_sequence: (m.next_sequence + 1) as u64,
        ..m
    };
    let (m1, count) = fan_out(m0, offset, m.connections.len());
    let m2 = retain(m1, offset);
    (PublisherView { slots: release_at(m2.slots, offset as int), sent: m.sent.push(offset), ..m2 }, count)
}

/// The first connection of a subscriber.
pub open spec fn is_first_connection_of(conns: Seq<ConnectionView>, subscriber_id: u64, k: int) -> bool {
    &&& 0 <= k < conns.len()
    &&& conns[k].subscriber_id == subscriber_id
    &&& forall|j: int| 0 <= j < k ==> (#[trigger] conns[j]).subscriber_id != subscriber_id
}

pub open spec fn is_connected(conns: Seq<ConnectionView>, subscriber_id: u64) -> bool {
    exists|k: int| 0 <= k < conns.len() && (#[trigger] conns[k]).subscriber_id == subscriber_id
}

/// The first index at which `s` holds `x`.
pub open spec fn is_first_index_of(s: Seq<usize>, x: usize, j: int) -> bool {
    &&& 0 <= j < s.len()
    &&& s[j] == x
    &&& forall|i: int| 0 <= i < j ==> s[i] != x
}

#[derive(Debug)]
struct Connection {
    subscriber_id: u64,
    channel: Channel,
    held: Vec<usize>,
    max_borrowed: usize,
}

impl Connection {
    spec fn view(&self) -> ConnectionView {
        ConnectionView {
            subscriber_id: self.subscriber_id,
            queue: self.channel@,
            capacity: self.channel.spec_capacity(),
            held: self.held@,
            max_borrowed: self.max_borrowed as nat,
        }
    }
}

/// A publisher with its data segment and its connections.
pub struct Publisher<P, U> {
    id: u64,
    config: PublisherConfig,
    arena: SampleArena,
    chunks: Vec<Option<Chunk<P, U>>>,
    connections: Vec<Connection>,
    history: Vec<usize>,
    sent: Ghost<Seq<usize>>,
    next_sequence: u64,
    dropped: u64,
    alive: bool,
    /// The most holders that any chunk can have.
    holder_limit: u64,
}

impl<P, U> View for Publisher<P, U> {
    type V = PublisherView<P, U>;

    closed spec fn view(&self) -> PublisherView<P, U> {
        PublisherView {
            id: self.id,
            config: self.config,
            slots: self.arena@,
            chunks: self.chunks@,
            connections: Seq::new(self.connections@.len(), |k: int| self.connections@[k].view()),
            history: self.history@,
            sent: self.sent@,
            next_sequence: self.next_sequence,
            dropped: self.dropped,
            alive: self.alive,
        }
    }
}

/// The publisher's invariant, over its model.
pub open spec fn publisher_wf<P, U>(m: PublisherView<P, U>) -> bool {
    &&& all_observable(m.slots)
    &&& m.slots.len() == m.chunks.len()
    &&& m.slots.len() == m.config.number_of_chunks
    &&& forall|k: int| 0 <= k < m.connections.len() ==> {
        &&& 0 < (#[trigger] m.connections[k]).capacity
        &&& m.connections[k].queue.len() <= m.connections[k].capacity
        &&& all_hold_samples(m, m.connections[k].queue)
        &&& all_hold_samples(m, m.connections[k].held)
    }
    &&& all_hold_samples(m, m.history)
    &&& m.history == last_n(m.sent, m.config.history_size as nat)
}

impl<P: Copy, U: Copy> Publisher<P, U> {
    /// The publisher's invariant: the model's, the chunk-ownership
    /// accounting, and the stored holder limit.
    pub open spec fn wf(&self) -> bool {
        &&& publisher_wf(self@)
        &&& accounted(self@)
        &&& sequences_ordered(self@)
        &&& self.spec_holder_limit() == holder_bound(self@)
    }

    pub closed spec fn spec_holder_limit(&self) -> nat {
        self.holder_limit as nat
    }

    proof fn lemma_view_facts(&self)
        ensures
            self@.connections.len() == self.connections@.len(),
            forall|k: int| 0 <= k < self.connections@.len() ==> #[trigger] self@.connections[k] == self.connections@[k].view(),
    {
    }

    /// A publisher with a data segment of `config.number_of_chunks` free
    /// chunks, no connection and no history.
    pub fn new(id: u64, config: PublisherConfig) -> (r: Publisher<P, U>)
        requires
            config.history_size as nat + 4 <= u64::MAX,
        ensures
            r.wf(),
            r@.id == id,
            r@.config == config,
            r@.slots == Seq::new(config.number_of_chunks as nat, |i: int| SlotState::Free),
            r@.connections.len() == 0,
            r@.history.len() == 0,
            r@.sent.len() == 0,
            r@.next_sequence == 0,
            r@.dropped == 0,
            r@.alive,
    {
        let arena = SampleArena::new(config.number_of_chunks);
        let mut chunks: Vec<Option<Chunk<P, U>>> = Vec::new();
        let mut i: usize = 0;
        while i < config.number_of_chunks
            invariant
                i <= config.number_of_chunks,
                chunks@.len() == i,
            decreases config.number_of_chunks - i,
        {
            chunks.push(None);
            i = i + 1;
        }
        let r = Publisher {
            id,
            config,
            arena,
            chunks,
            connections: Vec::new(),
            history: Vec::new(),
            sent: Ghost(Seq::empty()),
            next_sequence: 0,
            dropped: 0,
            alive: true,
            holder_limit: config.history_size as u64,
        };
        assert(r.history@ =~= last_n(Seq::empty(), config.history_size as nat));
        proof {
            let m = r@;
            assert(m.connections =~= Seq::<ConnectionView>::empty());
            assert forall|i: int| 0 <= i < m.slots.len() implies holders_of(#[trigger] m.slots[i]) == holders(m, i)
                + if i == -1 {
                0nat
            } else {
                0nat
            } by {
                crate::accounting::lemma_occ_empty(i);
            }
        }
        r
    }

    pub fn id(&self) -> (r: u64)
        ensures
            r == self@.id,
    {
        self.id
    }

    /// The sequence number that the next send stamps.
    pub fn next_sequence(&self) -> (r: u64)
        ensures
            r == self@.next_sequence,
    {
        self.next_sequence
    }

    pub fn config(&self) -> (r: PublisherConfig)
        ensures
            r == self@.config,
    {
        self.config
    }

    /// The number of samples that some subscriber lost to a full channel.
    pub fn dropped_samples(&self) -> (r: u64)
        ensures
            r == self@.dropped,
    {
        self.dropped
    }

    /// The number of chunks that are in flight.
    pub fn in_flight(&self) -> (r: usize)
        ensures
            r == crate::arena::in_flight_count(self@.slots),
    {
        self.arena.in_flight()
    }

    pub fn slot_state(&self, offset: usize) -> (r: SlotState)
        requires
            offset < self@.slots.len(),
        ensures
            r == self@.slots[offset as int],
    {
        self.arena.state(offset)
    }

    pub fn number_of_connections(&self) -> (r: usize)
        ensures
            r == self@.connections.len(),
    {
        self.connections.len()
    }

    /// The offsets held in the history, oldest first.
    pub fn history(&self) -> (r: &Vec<usize>)
        ensures
            r@ == self@.history,
    {
        &self.history
    }

    pub fn is_alive(&self) -> (r: bool)
        ensures
            r == self@.alive,
    {
        self.alive
    }
}

/// The table with one more holder on each slot that `h` names.
pub open spec fn borrow_each(s: Seq<SlotState>, h: Seq<usize>) -> Seq<SlotState>
    decreases h.len(),
{
    if h.len() == 0 {
        s
    } else {
        borrow_at(borrow_each(s, h.drop_last()), h.last() as int)
    }
}

/// The table with every loaned slot free again.
pub open spec fn loans_returned(s: Seq<SlotState>) -> Seq<SlotState> {
    Seq::new(s.len(), |i: int| if s[i] == SlotState::Loaned { SlotState::Free } else { s[i] })
}

/// The publisher after connection `k` takes its oldest queued chunk.
pub open spec fn take_oldest<P, U>(m: PublisherView<P, U>, k: int) -> PublisherView<P, U> {
    let c = m.connections[k];
    PublisherView {
        connections: m.connections.update(
            k,
            ConnectionView { queue: c.queue.drop_first(), held: c.held.push(c.queue[0]), ..c },
        ),
        ..m
    }
}

impl<P: Copy, U: Copy> Publisher<P, U> {
    /// Takes the lowest free chunk on loan and returns its offset.
    pub fn loan_chunk(&mut self) -> (r: Result<usize, PublisherLoanError>)
        requires
            old(self).wf(),
        ensures
            final(self).wf(),
            loaned_count(old(self)@.slots) >= old(self)@.config.max_loaned_samples ==> r
                == Err::<usize, PublisherLoanError>(PublisherLoanError::ExceedsMaxLoanedSamples),
            loaned_count(old(self)@.slots) < old(self)@.config.max_loaned_samples
                && !crate::arena::has_free(old(self)@.slots) ==> r == Err::<usize, PublisherLoanError>(
                PublisherLoanError::OutOfMemory),
            r is Err ==> final(self)@ == old(self)@,
            r is Ok <==> loaned_count(old(self)@.slots) < old(self)@.config.max_loaned_samples
                && crate::arena::has_free(old(self)@.slots),
            r is Ok ==> loaned_count(old(self)@.slots) < old(self)@.config.max_loaned_samples
                && crate::arena::has_free(old(self)@.slots),
            r matches Ok(i) ==> {
                &&& i < old(self)@.slots.len()
                &&& old(self)@.slots[i as int] == SlotState::Free
                &&& forall|j: int| 0 <= j < i ==> old(self)@.slots[j] != SlotState::Free
                &&& final(self)@ == (PublisherView {
                    slots: old(self)@.slots.update(i as int, SlotState::Loaned),
                    ..old(self)@
                })
            },
    {
        if self.arena.loaned() >= self.config.max_loaned_samples {
            return Err(PublisherLoanError::ExceedsMaxLoanedSamples);
        }
        match self.arena.acquire() {
            Some(i) => Ok(i),
            None => Err(PublisherLoanError::OutOfMemory),
        }
    }

    /// Gives a loaned chunk back without sending it.
    pub fn return_loaned_sample(&mut self, offset: usize) -> (r: bool)
        requires
            old(self).wf(),
        ensures
            final(self).wf(),
            r == (offset < old(self)@.slots.len() && old(self)@.slots[offset as int] == SlotState::Loaned),
            r ==> final(self)@ == (PublisherView {
                slots: old(self)@.slots.update(offset as int, SlotState::Free),
                ..old(self)@
            }),
            !r ==> final(self)@ == old(self)@,
    {
        self.arena.return_loan(offset)
    }

    fn any_channel_full(&self) -> (r: bool)
        ensures
            r == some_channel_full(self@.connections),
    {
        proof {
            self.lemma_view_facts();
        }
        let mut k: usize = 0;
        while k < self.connections.len()
            invariant
                k <= self@.connections.len(),
                self@.connections.len() == self.connections@.len(),
                forall|j: int| 0 <= j < self.connections@.len() ==> #[trigger] self@.connections[j] == self.connections@[j].view(),
                forall|j: int| 0 <= j < k ==> (#[trigger] self@.connections[j]).queue.len() < self@.connections[j].capacity,
            decreases self@.connections.len() - k,
        {
            if self.connections[k].channel.is_full() {
                assert(self@.connections[k as int].queue.len() >= self@.connections[k as int].capacity);
                return true;
            }
            k = k + 1;
        }
        false
    }

    fn deliver(&mut self, k: usize, offset: usize) -> (r: bool)
        requires
            publisher_wf(old(self)@),
            k < old(self)@.connections.len(),
            holds_sample(old(self)@, offset),
            old(self)@.slots[offset as int] is InFlight,
        ensures
            (final(self)@, r) == deliver_one(old(self)@, k as int, offset),
            final(self).holder_limit == old(self).holder_limit,
    {
        proof {
            self.lemma_view_facts();
        }
        let ghost m = self@;
        let safe = self.config.enable_safe_overflow;
        assert(m.connections[k as int] == self.connections@[k as int].view());
        assert(0 < m.connections[k as int].capacity);
        assert(self.connections@[k as int].channel.wf());
        let outcome = self.connections[k].channel.push(offset, safe);
        let ghost c = m.connections[k as int];
        let ghost q = push_outcome(c.queue, c.capacity, offset, safe).0;
        proof {
            assert(self@.connections =~= m.connections.update(k as int, ConnectionView { queue: q, ..c }));
        }
        match outcome {
            PushOutcome::Enqueued => {
                self.arena.borrow(offset);
                true
            },
            PushOutcome::Displaced(oldest) => {
                self.arena.borrow(offset);
                let _ = self.arena.release(oldest);
                if self.dropped < u64::MAX {
                    self.dropped = self.dropped + 1;
                }
                true
            },
            PushOutcome::Rejected => {
                if self.dropped < u64::MAX {
                    self.dropped = self.dropped + 1;
                }
                assert(self@.connections =~= m.connections);
                false
            },
        }
    }

    /// Sends the loaned chunk `offset` with the given contents: stamps the
    /// system header with the publisher's id and next sequence number, offers
    /// the chunk to every connection in order, and keeps it in the history.
    /// Returns the number of subscribers that received it.
    pub fn send_sample(&mut self, offset: usize, user_header: U, payload: P) -> (r: Result<usize, PublisherSendError>)
        requires
            old(self).wf(),
        ensures
            final(self).wf(),
            !(offset < old(self)@.slots.len() && old(self)@.slots[offset as int] == SlotState::Loaned) ==> r
                == Err::<usize, PublisherSendError>(PublisherSendError::InvalidLoan) && final(self)@ == old(self)@,
            offset < old(self)@.slots.len() && old(self)@.slots[offset as int] == SlotState::Loaned
                && old(self)@.next_sequence == u64::MAX ==> r == Err::<usize, PublisherSendError>(
                PublisherSendError::SequenceExhausted) && final(self)@ == old(self)@,
            offset < old(self)@.slots.len() && old(self)@.slots[offset as int] == SlotState::Loaned
                && old(self)@.next_sequence < u64::MAX && send_blocks(old(self)@) ==> r == Err::<usize, PublisherSendError>(PublisherSendError::WouldBlock)
                && final(self)@ == old(self)@,
            offset < old(self)@.slots.len() && old(self)@.slots[offset as int] == SlotState::Loaned
                && old(self)@.next_sequence < u64::MAX && !send_blocks(old(self)@) ==> (r matches Ok(n) && final(self)@.slots[offset as int]
                == published((n + if old(self)@.config.history_size > 0 {
                1nat
            } else {
                0nat
            }) as u64)),
            offset < old(self)@.slots.len() && old(self)@.slots[offset as int] == SlotState::Loaned
                && old(self)@.next_sequence < u64::MAX && !send_blocks(old(self)@) ==> (r matches Ok(n) && (final(self)@, n as nat) == send_result(
                old(self)@,
                offset,
                Chunk {
                    header: Header { publisher_id: old(self)@.id, sequence: old(self)@.next_sequence },
                    user_header,
                    payload,
                },
            )),
    {
        if offset >= self.arena.number_of_chunks() || self.arena.state(offset) != SlotState::Loaned {
            return Err(PublisherSendError::InvalidLoan);
        }
        if self.next_sequence == u64::MAX {
            return Err(PublisherSendError::SequenceExhausted);
        }
        if !self.config.enable_safe_overflow && self.config.unable_to_deliver_strategy
            == UnableToDeliverStrategy::Block && self.any_channel_full() {
            return Err(PublisherSendError::WouldBlock);
        }
        let ghost m = self@;
        let chunk = Chunk {
            header: Header { publisher_id: self.id, sequence: self.next_sequence },
            user_header,
            payload,
        };
        self.chunks.set(offset, Some(chunk));
        self.arena.publish(offset, 1);
        self.next_sequence = self.next_sequence + 1;
        let ghost m0 = self@;
        proof {
            assert(m0 == (PublisherView {
                chunks: m.chunks.update(offset as int, Some(chunk)),
                slots: m.slots.update(offset as int, SlotState::InFlight(1)),
                next_sequence: (m.next_sequence + 1) as u64,
                ..m
            }));
            assert forall|k: int| 0 <= k < m0.connections.len() implies {
                &&& 0 < (#[trigger] m0.connections[k]).capacity
                &&& m0.connections[k].queue.len() <= m0.connections[k].capacity
                &&& all_hold_samples(m0, m0.connections[k].queue)
                &&& all_hold_samples(m0, m0.connections[k].held)
            } by {
                assert(m0.connections[k] == m.connections[k]);
                assert(all_hold_samples(m, m.connections[k].queue));
                assert(all_hold_samples(m, m.connections[k].held));
            }
            assert(all_hold_samples(m0, m0.history));
            assert(publisher_wf(m0));
        }
        let mut count: usize = 0;
        let mut k: usize = 0;
        while k < self.connections.len()
            invariant
                k <= m0.connections.len(),
                self.connections@.len() == m0.connections.len(),
                publisher_wf(m0),
                holds_sample(m0, offset),
                m0.slots[offset as int] is InFlight,
                (self@, count as nat) == fan_out(m0, offset, k as nat),
                self.holder_limit == old(self).holder_limit,
            decreases m0.connections.len() - k,
        {
            proof {
                lemma_fan_out_keeps_wf(m0, offset, k as nat);
                self.lemma_view_facts();
            }
            let arrived = self.deliver(k, offset);
            proof {
                lemma_fan_out_keeps_wf(m0, offset, k as nat);
                self.lemma_view_facts();
            }
            if arrived {
                count = count + 1;
            }
            k = k + 1;
        }
        proof {
            lemma_fan_out_keeps_wf(m0, offset, k as nat);
        }
        let ghost m1 = self@;
        if self.config.history_size > 0 {
            self.arena.borrow(offset);
            self.history.push(offset);
            if self.history.len() > self.config.history_size {
                let oldest = self.history.remove(0);
                let _ = self.arena.release(oldest);
            }
        }
        proof {
            lemma_borrow_keeps_observable(m1.slots, offset as int);
            let h = m1.history.push(offset);
            if h.len() > 0 {
                lemma_release_keeps_observable(borrow_at(m1.slots, offset as int), h[0] as int);
            }
            if self.config.history_size > 0 {
                lemma_last_n_push(m.sent, offset, self.config.history_size as nat);
            }
            assert(self@ == retain(m1, offset));
        }
        let ghost m2 = self@;
        let _ = self.arena.release(offset);
        self.sent = Ghost(self.sent@.push(offset));
        proof {
            lemma_release_keeps_observable(m2.slots, offset as int);
            let fin = self@;
            assert(fin == (PublisherView {
                slots: release_at(m2.slots, offset as int),
                sent: m.sent.push(offset),
                ..m2
            }));
            if self.config.history_size == 0 {
                assert(last_n(m.sent.push(offset), 0) =~= Seq::<usize>::empty());
                assert(last_n(m.sent, 0) =~= Seq::<usize>::empty());
            }
            assert(all_hold_samples(fin, fin.history));
            assert forall|j: int| 0 <= j < fin.connections.len() implies {
                &&& 0 < (#[trigger] fin.connections[j]).capacity
                &&& fin.connections[j].queue.len() <= fin.connections[j].capacity
                &&& all_hold_samples(fin, fin.connections[j].queue)
                &&& all_hold_samples(fin, fin.connections[j].held)
            } by {
                assert(fin.connections[j] == m1.connections[j]);
                assert(all_hold_samples(m1, m1.connections[j].queue));
                assert(all_hold_samples(m1, m1.connections[j].held));
            }
            lemma_send_accounted(m, offset, chunk);
            lemma_send_keeps_order(m, offset, chunk);
            crate::publisher_laws::lemma_sent_chunk_holders(m, offset, chunk);
            assert(fin == send_result(m, offset, chunk).0);
        }
        Ok(count)
    }
}

impl<P: Copy, U: Copy> Publisher<P, U> {
    fn find_connection(&self, subscriber_id: u64) -> (r: Option<usize>)
        ensures
            r is None <==> !is_connected(self@.connections, subscriber_id),
            r matches Some(k) ==> is_first_connection_of(self@.connections, subscriber_id, k as int),
    {
        proof {
            self.lemma_view_facts();
        }
        let mut k: usize = 0;
        while k < self.connections.len()
            invariant
                k <= self@.connections.len(),
                self@.connections.len() == self.connections@.len(),
                forall|j: int| 0 <= j < self.connections@.len() ==> #[trigger] self@.connections[j] == self.connections@[j].view(),
                forall|j: int| 0 <= j < k ==> (#[trigger] self@.connections[j]).subscriber_id != subscriber_id,
            decreases self@.connections.len() - k,
        {
            if self.connections[k].subscriber_id == subscriber_id {
                assert(self@.connections[k as int].subscriber_id == subscriber_id);
                return Some(k);
            }
            k = k + 1;
        }
        None
    }

    /// Connects a subscriber with a channel of depth `buffer_size`, and
    /// replays the history into it, oldest first.
    pub fn connect_subscriber(&mut self, subscriber_id: u64, buffer_size: usize, max_borrowed: usize) -> (r: Result<(), ConnectionError>)
        requires
            old(self).wf(),
        ensures
            final(self).wf(),
            is_connected(old(self)@.connections, subscriber_id) ==> r == Err::<(), ConnectionError>(
                ConnectionError::AlreadyConnected),
            !is_connected(old(self)@.connections, subscriber_id) && old(self)@.connections.len()
                >= old(self)@.config.max_subscribers ==> r == Err::<(), ConnectionError>(
                ConnectionError::ExceedsMaxSubscribers),
            !is_connected(old(self)@.connections, subscriber_id) && old(self)@.connections.len()
                < old(self)@.config.max_subscribers && (buffer_size == 0 || buffer_size
                < old(self)@.config.history_size) ==> r == Err::<(), ConnectionError>(ConnectionError::BufferTooSmall),
            !is_connected(old(self)@.connections, subscriber_id) && old(self)@.connections.len()
                < old(self)@.config.max_subscribers && buffer_size > 0 && buffer_size
                >= old(self)@.config.history_size && holder_bound(old(self)@) + buffer_size + max_borrowed + 4
                > u64::MAX ==> r == Err::<(), ConnectionError>(ConnectionError::ExceedsHolderLimit),
            !is_connected(old(self)@.connections, subscriber_id) && old(self)@.connections.len()
                < old(self)@.config.max_subscribers && buffer_size > 0 && buffer_size
                >= old(self)@.config.history_size && holder_bound(old(self)@) + buffer_size + max_borrowed + 4
                <= u64::MAX ==> r is Ok,
            r is Err ==> final(self)@ == old(self)@,
            r is Ok ==> final(self)@ == (PublisherView {
                slots: borrow_each(old(self)@.slots, old(self)@.history),
                connections: old(self)@.connections.push(
                    ConnectionView {
                        subscriber_id,
                        queue: old(self)@.history,
                        capacity: buffer_size as nat,
                        held: Seq::empty(),
                        max_borrowed: max_borrowed as nat,
                    },
                ),
                ..old(self)@
            }),
    {
        if self.find_connection(subscriber_id).is_some() {
            return Err(ConnectionError::AlreadyConnected);
        }
        if self.connections.len() >= self.config.max_subscribers {
            return Err(ConnectionError::ExceedsMaxSubscribers);
        }
        if buffer_size == 0 || buffer_size < self.config.history_size {
            return Err(ConnectionError::BufferTooSmall);
        }
        let limit = self.holder_limit;
        if buffer_size as u64 > u64::MAX - 4 - limit || max_borrowed as u64 > u64::MAX - 4 - limit
            - buffer_size as u64 {
            return Err(ConnectionError::ExceedsHolderLimit);
        }
        let ghost m = self@;
        proof {
            lemma_last_n_len(m.sent, m.config.history_size as nat);
        }
        let mut channel = Channel::new(buffer_size);
        let mut i: usize = 0;
        while i < self.history.len()
            invariant
                i <= m.history.len(),
                m.history.len() <= buffer_size,
                self.history@ == m.history,
                channel.wf(),
                channel.spec_capacity() == buffer_size,
                channel@ == m.history.subrange(0, i as int),
                self.arena@ == borrow_each(m.slots, m.history.subrange(0, i as int)),
                self.arena.wf(),
                self.arena@.len() == m.slots.len(),
                self.connections@ == old(self).connections@,
                self.chunks@ == m.chunks,
                self.id == m.id,
                self.config == m.config,
                self.sent@ == m.sent,
                self.next_sequence == m.next_sequence,
                self.dropped == m.dropped,
                self.alive == m.alive,
                self.holder_limit == old(self).holder_limit,
            decreases m.history.len() - i,
        {
            let o = self.history[i];
            self.arena.borrow(o);
            let outcome = channel.push(o, false);
            proof {
                assert(m.history.subrange(0, i + 1).drop_last() =~= m.history.subrange(0, i as int));
                assert(m.history.subrange(0, i + 1) =~= m.history.subrange(0, i as int).push(o));
            }
            i = i + 1;
        }
        proof {
            assert(m.history.subrange(0, m.history.len() as int) =~= m.history);
        }
        self.connections.push(Connection { subscriber_id, channel, held: Vec::new(), max_borrowed });
        self.holder_limit = limit + buffer_size as u64 + max_borrowed as u64;
        proof {
            let fin = self@;
            assert(fin.connections =~= m.connections.push(
                ConnectionView {
                    subscriber_id,
                    queue: m.history,
                    capacity: buffer_size as nat,
                    held: Seq::empty(),
                    max_borrowed: max_borrowed as nat,
                },
            ));
            lemma_borrow_each_keeps_observable(m.slots, m.history);
            assert forall|j: int| 0 <= j < fin.connections.len() implies {
                &&& 0 < (#[trigger] fin.connections[j]).capacity
                &&& fin.connections[j].queue.len() <= fin.connections[j].capacity
                &&& all_hold_samples(fin, fin.connections[j].queue)
                &&& all_hold_samples(fin, fin.connections[j].held)
            } by {
                if j < m.connections.len() {
                    assert(fin.connections[j] == m.connections[j]);
                    assert(all_hold_samples(m, m.connections[j].queue));
                    assert(all_hold_samples(m, m.connections[j].held));
                }
            }
            assert(all_hold_samples(fin, fin.history));
            let c = ConnectionView {
                subscriber_id,
                queue: m.history,
                capacity: buffer_size as nat,
                held: Seq::empty(),
                max_borrowed: max_borrowed as nat,
            };
            lemma_all_occ_push(m.connections, c, 0);
            assert forall|y: int| #[trigger] holders(fin, y) == holders(m, y) + crate::accounting::occ(m.history, y) by {
                lemma_all_occ_push(m.connections, c, y);
            }
            assert forall|x: int| 0 <= x < fin.connections.len() implies (#[trigger] fin.connections[x]).held.len()
                <= fin.connections[x].max_borrowed by {
                if x < m.connections.len() {
                    assert(fin.connections[x] == m.connections[x]);
                }
            }
            lemma_holders_le_bound(fin);
            assert forall|x: int| 0 <= x < m.slots.len() && crate::accounting::occ(m.history, x) > 0 implies (
            #[trigger] m.slots[x]) is InFlight by {
                assert(holders_of(m.slots[x]) == holders(m, x));
            }
            assert forall|x: int| 0 <= x < m.slots.len() implies holders_of(#[trigger] m.slots[x])
                + crate::accounting::occ(m.history, x) < u64::MAX by {
                assert(holders_of(m.slots[x]) == holders(m, x));
                assert(holders(fin, x) <= holder_bound(fin));
            }
            assert forall|j: int| 0 <= j < m.history.len() implies (#[trigger] m.history[j]) < m.slots.len() by {
                assert(holds_sample(m, m.history[j]));
            }
            assert forall|i: int| 0 <= i < fin.slots.len() implies holders_of(#[trigger] fin.slots[i]) == holders(fin, i)
                + if i == -1 {
                0nat
            } else {
                0nat
            } by {
                assert(holders_of(m.slots[i]) == holders(m, i));
                lemma_borrow_each_adds(m.slots, m.history, i);
            }
        }
        Ok(())
    }

    /// Whether chunks are queued for the subscriber `subscriber_id`.
    pub fn has_queued(&self, subscriber_id: u64) -> (r: bool)
        ensures
            r == exists|k: int| #[trigger] is_first_connection_of(self@.connections, subscriber_id, k)
                && self@.connections[k].queue.len() > 0,
    {
        match self.find_connection(subscriber_id) {
            None => false,
            Some(k) => {
                proof {
                    self.lemma_view_facts();
                    assert forall|j: int| #[trigger] is_first_connection_of(self@.connections, subscriber_id, j) implies j
                        == k by {
                        if j < k {
                            assert(self@.connections[j].subscriber_id != subscriber_id);
                        } else if j > k {
                            assert(self@.connections[k as int].subscriber_id != subscriber_id);
                        }
                    }
                }
                assert(self@.connections[k as int] == self.connections@[k as int].view());
                !self.connections[k].channel.is_empty()
            },
        }
    }

    /// Takes the oldest chunk queued for a subscriber and records it as
    /// borrowed by that subscriber. Returns its offset and contents.
    pub fn receive_chunk(&mut self, subscriber_id: u64) -> (r: Result<Option<(usize, Chunk<P, U>)>, ReceiveError>)
        requires
            old(self).wf(),
        ensures
            final(self).wf(),
            !is_connected(old(self)@.connections, subscriber_id) ==> r
                == Err::<Option<(usize, Chunk<P, U>)>, ReceiveError>(ReceiveError::NotConnected),
            r is Err || r == Ok::<Option<(usize, Chunk<P, U>)>, ReceiveError>(None) ==> final(self)@ == old(self)@,
            forall|k: int| #[trigger]
                is_first_connection_of(old(self)@.connections, subscriber_id, k) ==> {
                    let c = old(self)@.connections[k];
                    &&& c.held.len() >= c.max_borrowed ==> r == Err::<Option<(usize, Chunk<P, U>)>, ReceiveError>(
                        ReceiveError::ExceedsMaxBorrowedSamples)
                    &&& c.held.len() < c.max_borrowed && c.queue.len() == 0 ==> r == Ok::<
                        Option<(usize, Chunk<P, U>)>,
                        ReceiveError,
                    >(None)
                    &&& c.held.len() < c.max_borrowed && c.queue.len() > 0 ==> {
                        &&& r matches Ok(Some((o, chunk)))
                        &&& o == c.queue[0]
                        &&& old(self)@.chunks[o as int] == Some(chunk)
                        &&& final(self)@ == take_oldest(old(self)@, k)
                    }
                },
    {
        let k = match self.find_connection(subscriber_id) {
            Some(k) => k,
            None => return Err(ReceiveError::NotConnected),
        };
        proof {
            self.lemma_view_facts();
        }
        let ghost m = self@;
        let ghost c = m.connections[k as int];
        assert(m.connections[k as int] == self.connections@[k as int].view());
        if self.connections[k].held.len() >= self.connections[k].max_borrowed {
            return Err(ReceiveError::ExceedsMaxBorrowedSamples);
        }
        assert(self.connections@[k as int].channel.wf());
        let popped = self.connections[k].channel.pop();
        match popped {
            None => {
                assert(self@.connections =~= m.connections);
                Ok(None)
            },
            Some(o) => {
                self.connections[k].held.push(o);
                proof {
                    assert(self@.connections =~= take_oldest(m, k as int).connections);
                    lemma_receive_accounted(m, k as int);
                    lemma_take_oldest_keeps_order(m, k as int);
                    assert(all_hold_samples(m, c.queue));
                    assert(holds_sample(m, c.queue[0]));
                }
                let chunk = match &self.chunks[o] {
                    Some(ch) => *ch,
                    None => {
                        assert(false);
                        return Err(ReceiveError::NotConnected);
                    },
                };
                proof {
                    let fin = self@;
                    assert forall|j: int| 0 <= j < fin.connections.len() implies {
                        &&& 0 < (#[trigger] fin.connections[j]).capacity
                        &&& fin.connections[j].queue.len() <= fin.connections[j].capacity
                        &&& all_hold_samples(fin, fin.connections[j].queue)
                        &&& all_hold_samples(fin, fin.connections[j].held)
                    } by {
                        assert(all_hold_samples(m, m.connections[j].queue));
                        assert(all_hold_samples(m, m.connections[j].held));
                    }
                }
                Ok(Some((o, chunk)))
            },
        }
    }

    /// Ends a subscriber's borrow of the chunk `offset` and drops its hold on
    /// the chunk; the last holder frees it.
    pub fn release_chunk(&mut self, subscriber_id: u64, offset: usize) -> (r: Result<(), ReleaseError>)
        requires
            old(self).wf(),
        ensures
            final(self).wf(),
            !is_connected(old(self)@.connections, subscriber_id) ==> r == Err::<(), ReleaseError>(
                ReleaseError::NotConnected),
            r is Err ==> final(self)@ == old(self)@,
            r is Ok ==> final(self)@.slots == release_at(old(self)@.slots, offset as int),
            forall|k: int| #[trigger]
                is_first_connection_of(old(self)@.connections, subscriber_id, k) ==> {
                    let c = old(self)@.connections[k];
                    &&& !c.held.contains(offset) ==> r == Err::<(), ReleaseError>(ReleaseError::NotBorrowed)
                    &&& c.held.contains(offset) ==> r is Ok && exists|j: int| {
                        &&& #[trigger] is_first_index_of(c.held, offset, j)
                        &&& final(self)@ == (PublisherView {
                            slots: release_at(old(self)@.slots, offset as int),
                            connections: old(self)@.connections.update(
                                k,
                                ConnectionView { held: c.held.remove(j), ..c },
                            ),
                            ..old(self)@
                        })
                    }
                },
    {
        let k = match self.find_connection(subscriber_id) {
            Some(k) => k,
            None => return Err(ReleaseError::NotConnected),
        };
        proof {
            self.lemma_view_facts();
        }
        let ghost m = self@;
        let ghost c = m.connections[k as int];
        assert(m.connections[k as int] == self.connections@[k as int].view());
        let j = match index_of(&self.connections[k].held, offset) {
            Some(j) => j,
            None => return Err(ReleaseError::NotBorrowed),
        };
        assert(is_first_index_of(c.held, offset, j as int));
        self.connections[k].held.remove(j);
        let _ = self.arena.release(offset);
        proof {
            let fin = self@;
            assert(fin.connections =~= m.connections.update(k as int, ConnectionView { held: c.held.remove(j as int), ..c }));
            lemma_release_accounted(m, k as int, j as int, offset);
            lemma_release_keeps_observable(m.slots, offset as int);
            assert forall|x: int| 0 <= x < fin.connections.len() implies {
                &&& 0 < (#[trigger] fin.connections[x]).capacity
                &&& fin.connections[x].queue.len() <= fin.connections[x].capacity
                &&& all_hold_samples(fin, fin.connections[x].queue)
                &&& all_hold_samples(fin, fin.connections[x].held)
            } by {
                assert(all_hold_samples(m, m.connections[x].queue));
                assert(all_hold_samples(m, m.connections[x].held));
                if x == k {
                    assert forall|y: int| 0 <= y < c.held.remove(j as int).len() implies holds_sample(
                        fin,
                        #[trigger] c.held.remove(j as int)[y],
                    ) by {
                        if y < j {
                            assert(c.held.remove(j as int)[y] == c.held[y]);
                        } else {
                            assert(c.held.remove(j as int)[y] == c.held[y + 1]);
                        }
                    }
                }
            }
            assert(all_hold_samples(fin, fin.history));
        }
        Ok(())
    }

    /// The publisher's process is gone: its unsent loans return to the arena.
    /// Chunks in flight stay valid until their holders release them.
    pub fn mark_dead(&mut self)
        requires
            old(self).wf(),
        ensures
            final(self).wf(),
            final(self)@ == (PublisherView {
                slots: loans_returned(old(self)@.slots),
                alive: false,
                ..old(self)@
            }),
    {
        let ghost m = self@;
        let mut i: usize = 0;
        while i < self.arena.number_of_chunks()
            invariant
                i <= m.slots.len(),
                self.arena.wf(),
                self.arena@.len() == m.slots.len(),
                forall|j: int| 0 <= j < i ==> self.arena@[j] == loans_returned(m.slots)[j],
                forall|j: int| i <= j < m.slots.len() ==> self.arena@[j] == m.slots[j],
                self.connections@ == old(self).connections@,
                self.chunks@ == m.chunks,
                self.history@ == m.history,
                self.id == m.id,
                self.config == m.config,
                self.sent@ == m.sent,
                self.next_sequence == m.next_sequence,
                self.dropped == m.dropped,
                self.alive == m.alive,
                self.holder_limit == old(self).holder_limit,
            decreases m.slots.len() - i,
        {
            self.arena.return_loan(i);
            i = i + 1;
        }
        self.alive = false;
        proof {
            assert(self.arena@ =~= loans_returned(m.slots));
            lemma_loans_returned_accounted(m);
            let fin = self@;
            assert forall|x: int| 0 <= x < fin.connections.len() implies {
                &&& 0 < (#[trigger] fin.connections[x]).capacity
                &&& fin.connections[x].queue.len() <= fin.connections[x].capacity
                &&& all_hold_samples(fin, fin.connections[x].queue)
                &&& all_hold_samples(fin, fin.connections[x].held)
            } by {
                assert(fin.connections[x] == m.connections[x]);
                assert(all_hold_samples(m, m.connections[x].queue));
                assert(all_hold_samples(m, m.connections[x].held));
            }
            assert(all_hold_samples(fin, fin.history));
        }
    }

    /// Whether the data segment can be removed: its publisher is gone and no
    /// chunk is in flight any more.
    pub fn can_remove_data_segment(&self) -> (r: bool)
        ensures
            r == (!self@.alive && crate::arena::in_flight_count(self@.slots) == 0),
    {
        !self.alive && self.arena.in_flight() == 0
    }
}

/// The first index at which `v` holds `x`.
fn index_of(v: &Vec<usize>, x: usize) -> (r: Option<usize>)
    ensures
        r is None <==> !v@.contains(x),
        r matches Some(j) ==> is_first_index_of(v@, x, j as int),
{
    let mut j: usize = 0;
    while j < v.len()
        invariant
            j <= v@.len(),
            forall|i: int| 0 <= i < j ==> v@[i] != x,
        decreases v@.len() - j,
    {
        if v[j] == x {
            return Some(j);
        }
        j = j + 1;
    }
    None
}

/// The chunk that a send stamps: this publisher's id and its next sequence
/// number, with the given contents.
pub open spec fn stamped<P, U>(m: PublisherView<P, U>, user_header: U, payload: P) -> Chunk<P, U> {
    Chunk { header: Header { publisher_id: m.id, sequence: m.next_sequence }, user_header, payload }
}

/// The table with one holder fewer on each slot that `h` names, front first.
pub open spec fn release_each(s: Seq<SlotState>, h: Seq<usize>) -> Seq<SlotState>
    decreases h.len(),
{
    if h.len() == 0 {
        s
    } else {
        release_each(release_at(s, h[0] as int), h.drop_first())
    }
}

impl<P: Copy, U: Copy> Publisher<P, U> {
    /// Disconnects a subscriber: its connection goes, and every chunk still
    /// queued for it or borrowed by it loses one holder. Returns whether it
    /// was connected.
    pub fn disconnect_subscriber(&mut self, subscriber_id: u64) -> (r: bool)
        requires
            old(self).wf(),
        ensures
            final(self).wf(),
            r == is_connected(old(self)@.connections, subscriber_id),
            !r ==> final(self)@ == old(self)@,
            forall|k: int| #[trigger]
                is_first_connection_of(old(self)@.connections, subscriber_id, k) ==> final(self)@ == (
                PublisherView {
                    slots: release_each(
                        release_each(old(self)@.slots, old(self)@.connections[k].queue),
                        old(self)@.connections[k].held,
                    ),
                    connections: old(self)@.connections.remove(k),
                    ..old(self)@
                }),
    {
        let k = match self.find_connection(subscriber_id) {
            Some(k) => k,
            None => return false,
        };
        proof {
            self.lemma_view_facts();
        }
        let ghost m = self@;
        let ghost c = m.connections[k as int];
        assert(m.connections[k as int] == self.connections@[k as int].view());
        let ghost conns_before = self.connections@;
        let mut connection = self.connections.remove(k);
        assert(connection.channel.wf());
        let ghost conns_after = self.connections@;
        proof {
            lemma_all_occ_remove(m.connections, k as int, 0);
        }
        self.holder_limit = self.holder_limit - (connection.channel.capacity() as u64 + connection.max_borrowed as u64);
        let ghost limit_after = self.holder_limit;
        while !connection.channel.is_empty()
            invariant
                connection.channel.wf(),
                self.arena.wf(),
                release_each(release_each(self.arena@, connection.channel@), c.held) == release_each(
                    release_each(m.slots, c.queue),
                    c.held,
                ),
                connection.held@ == c.held,
                self.arena@.len() == m.slots.len(),
                self.connections@ == conns_after,
                self.chunks@ == m.chunks,
                self.history@ == m.history,
                self.id == m.id,
                self.config == m.config,
                self.sent@ == m.sent,
                self.next_sequence == m.next_sequence,
                self.dropped == m.dropped,
                self.alive == m.alive,
                self.holder_limit == limit_after,
            decreases connection.channel@.len(),
        {
            let ghost q = connection.channel@;
            let o = connection.channel.pop();
            match o {
                Some(offset) => {
                    let _ = self.arena.release(offset);
                },
                None => {},
            }
        }
        assert(release_each(self.arena@, connection.channel@) == self.arena@);
        assert(c.held.subrange(0, c.held.len() as int) =~= c.held);
        let mut i: usize = 0;
        while i < connection.held.len()
            invariant
                i <= c.held.len(),
                connection.held@ == c.held,
                self.arena.wf(),
                release_each(self.arena@, c.held.subrange(i as int, c.held.len() as int)) == release_each(
                    release_each(m.slots, c.queue),
                    c.held,
                ),
                self.arena@.len() == m.slots.len(),
                self.connections@ == conns_after,
                self.chunks@ == m.chunks,
                self.history@ == m.history,
                self.id == m.id,
                self.config == m.config,
                self.sent@ == m.sent,
                self.next_sequence == m.next_sequence,
                self.dropped == m.dropped,
                self.alive == m.alive,
                self.holder_limit == limit_after,
            decreases c.held.len() - i,
        {
            let ghost rest = c.held.subrange(i as int, c.held.len() as int);
            let _ = self.arena.release(connection.held[i]);
            proof {
                assert(rest.drop_first() =~= c.held.subrange(i + 1, c.held.len() as int));
            }
            i = i + 1;
        }
        proof {
            let fin = self@;
            assert(c.held.subrange(0, c.held.len() as int) =~= c.held);
            assert(fin.slots == release_each(release_each(m.slots, c.queue), c.held));
            assert(self.connections@ == conns_after);
            assert(conns_after == conns_before.remove(k as int));
            assert forall|x: int| 0 <= x < fin.connections.len() implies fin.connections[x] == m.connections.remove(k as int)[x] by {
                let ox = if x < k { x } else { x + 1 };
                assert(conns_after[x] == conns_before[ox]);
                assert(m.connections[ox] == conns_before[ox].view());
            }
            assert(fin.connections =~= m.connections.remove(k as int));
            lemma_release_each_keeps_observable(m.slots, c.queue);
            lemma_release_each_keeps_observable(release_each(m.slots, c.queue), c.held);
            assert forall|x: int| 0 <= x < fin.connections.len() implies {
                &&& 0 < (#[trigger] fin.connections[x]).capacity
                &&& fin.connections[x].queue.len() <= fin.connections[x].capacity
                &&& all_hold_samples(fin, fin.connections[x].queue)
                &&& all_hold_samples(fin, fin.connections[x].held)
            } by {
                let ox = if x < k { x } else { x + 1 };
                assert(fin.connections[x] == m.connections[ox]);
                assert(all_hold_samples(m, m.connections[ox].queue));
                assert(all_hold_samples(m, m.connections[ox].held));
            }
            assert(all_hold_samples(fin, fin.history));
            assert forall|y: int| #[trigger] holders(fin, y) + conn_occ(c, y) == holders(m, y) by {
                lemma_all_occ_remove(m.connections, k as int, y);
            }
            assert forall|x: int| 0 <= x < fin.connections.len() implies (#[trigger] fin.connections[x]).held.len()
                <= fin.connections[x].max_borrowed by {
                let ox = if x < k { x } else { x + 1 };
                assert(fin.connections[x] == m.connections[ox]);
            }
            lemma_holders_le_bound(m);
            assert(all_hold_samples(m, c.queue));
            assert(all_hold_samples(m, c.held));
            let s1 = release_each(m.slots, c.queue);
            assert forall|x: int| 0 <= x < m.slots.len() implies holders_of(#[trigger] m.slots[x])
                >= crate::accounting::occ(c.queue, x) by {
                assert(holders_of(m.slots[x]) == holders(m, x));
                assert(holders(fin, x) + conn_occ(c, x) == holders(m, x));
            }
            assert forall|x: int| 0 <= x < m.slots.len() implies holders_of(#[trigger] m.slots[x]) < u64::MAX by {
                assert(holders_of(m.slots[x]) == holders(m, x));
                assert(holders(m, x) <= holder_bound(m));
            }
            assert forall|j: int| 0 <= j < c.queue.len() implies (#[trigger] c.queue[j]) < m.slots.len() by {
                assert(holds_sample(m, c.queue[j]));
            }
            assert forall|j: int| 0 <= j < c.held.len() implies (#[trigger] c.held[j]) < m.slots.len() by {
                assert(holds_sample(m, c.held[j]));
            }
            lemma_release_each_keeps_observable(m.slots, c.queue);
            assert forall|x: int| 0 <= x < s1.len() implies holders_of(#[trigger] s1[x]) >= crate::accounting::occ(c.held, x)
                && holders_of(s1[x]) < u64::MAX by {
                lemma_release_each_subtracts(m.slots, c.queue, x);
                assert(holders_of(m.slots[x]) == holders(m, x));
                assert(holders(fin, x) + conn_occ(c, x) == holders(m, x));
                assert(holders(m, x) <= holder_bound(m));
            }
            assert forall|i: int| 0 <= i < fin.slots.len() implies holders_of(#[trigger] fin.slots[i]) == holders(fin, i)
                + if i == -1 {
                0nat
            } else {
                0nat
            } by {
                lemma_release_each_subtracts(m.slots, c.queue, i);
                lemma_release_each_subtracts(s1, c.held, i);
                assert(holders_of(m.slots[i]) == holders(m, i));
                assert(holders(fin, i) + conn_occ(c, i) == holders(m, i));
            }
            assert forall|j: int| #[trigger] is_first_connection_of(m.connections, subscriber_id, j) implies j == k by {
                if j < k {
                    assert(m.connections[j].subscriber_id != subscriber_id);
                } else if j > k {
                    assert(m.connections[k as int].subscriber_id != subscriber_id);
                }
            }
        }
        true
    }
}

/// The sequence number stamped into the chunk at `o`.
pub open spec fn sequence_of<P, U>(m: PublisherView<P, U>, o: usize) -> u64 {
    match m.chunks[o as int] {
        Some(c) => c.header.sequence,
        None => 0,
    }
}

/// The chunks that `q` names carry strictly increasing sequence numbers, all
/// below the next one to be stamped.
pub open spec fn in_sequence_order<P, U>(m: PublisherView<P, U>, q: Seq<usize>) -> bool {
    &&& forall|a: int, b: int| 0 <= a < b < q.len() ==> sequence_of(m, #[trigger] q[a]) < sequence_of(m, #[trigger] q[b])
    &&& forall|a: int| 0 <= a < q.len() ==> sequence_of(m, #[trigger] q[a]) < m.next_sequence
}

/// Every channel, and the history, hold their chunks in the order in which
/// they were sent.
pub open spec fn sequences_ordered<P, U>(m: PublisherView<P, U>) -> bool {
    &&& in_sequence_order(m, m.history)
    &&& forall|k: int| 0 <= k < m.connections.len() ==> in_sequence_order(m, (#[trigger] m.connections[k]).queue)
}

/// The order facts that hold while a chunk is fanned out: everything else
/// queued is older than it, and the connections from `n` on do not have it
/// yet.
pub open spec fn fan_out_order<P, U>(m: PublisherView<P, U>, offset: usize, n: int) -> bool {
    &&& sequences_ordered(m)
    &&& sequence_of(m, offset) + 1 == m.next_sequence
    &&& forall|a: int| 0 <= a < m.history.len() ==> sequence_of(m, #[trigger] m.history[a]) < sequence_of(m, offset)
    &&& forall|k: int| n <= k < m.connections.len() ==> !(#[trigger] m.connections[k]).queue.contains(offset)
    &&& forall|k: int, a: int| n <= k < m.connections.len() && 0 <= a < m.connections[k].queue.len() ==> sequence_of(
        m,
        #[trigger] m.connections[k].queue[a],
    ) < sequence_of(m, offset)
}

} // verus!
