//! What the publisher's model satisfies: the steps of a send keep its
//! invariants, the chunk-ownership accounting and the send order, and the
//! laws that relate several operations.

use crate::accounting::{
    accounted, accounted_except, all_occ, borrows_bounded, conn_occ, holder_bound, holders,
    lemma_all_occ_le_bound, lemma_all_occ_update, lemma_count_steps, lemma_occ_drop_first,
    lemma_occ_le_len, lemma_occ_push, lemma_occ_remove,
};
use crate::arena::{
    published,
    all_observable, borrow_at, borrowed, holders_of, is_observable_state, release_at, released,
    SlotState,
};
use crate::channel::{push_outcome, PushOutcome};
use crate::publisher::{
    all_hold_samples, borrow_each, deliver_one, fan_out, fan_out_order, holds_sample,
    in_sequence_order, last_n, loans_returned, publisher_wf, release_each, retain, send_result,
    sequence_of, sequences_ordered, stamped, take_oldest, Chunk, ConnectionView, PublisherView,
};
use vstd::prelude::*;

verus! {

pub(crate) proof fn lemma_borrow_keeps_observable(s: Seq<SlotState>, i: int)
    requires
        all_observable(s),
    ensures
        all_observable(borrow_at(s, i)),
        borrow_at(s, i).len() == s.len(),
{
    assert forall|j: int| 0 <= j < s.len() implies is_observable_state(#[trigger] borrow_at(s, i)[j]) by {
        crate::arena::lemma_transitions_keep_states_observable(s[j], 1);
    }
}

pub(crate) proof fn lemma_release_keeps_observable(s: Seq<SlotState>, i: int)
    requires
        all_observable(s),
    ensures
        all_observable(release_at(s, i)),
        release_at(s, i).len() == s.len(),
{
    assert forall|j: int| 0 <= j < s.len() implies is_observable_state(#[trigger] release_at(s, i)[j]) by {
        crate::arena::lemma_transitions_keep_states_observable(s[j], 1);
    }
}

/// A slot in flight stays in flight when it gets a holder, and when it then
/// loses one, whichever slot loses it.
pub(crate) proof fn lemma_held_slot_stays_in_flight(s: Seq<SlotState>, offset: int, other: int)
    requires
        all_observable(s),
        0 <= offset < s.len(),
        s[offset] is InFlight,
    ensures
        borrow_at(s, offset)[offset] is InFlight,
        release_at(borrow_at(s, offset), other)[offset] is InFlight,
{
}

/// While a chunk is fanned out, the publisher's invariant holds and the
/// chunk stays in flight.
pub(crate) proof fn lemma_deliver_keeps_wf<P, U>(m: PublisherView<P, U>, k: int, offset: usize)
    requires
        publisher_wf(m),
        0 <= k < m.connections.len(),
        holds_sample(m, offset),
        m.slots[offset as int] is InFlight,
    ensures
        publisher_wf(deliver_one(m, k, offset).0),
        holds_sample(deliver_one(m, k, offset).0, offset),
        deliver_one(m, k, offset).0.slots[offset as int] is InFlight,
        deliver_one(m, k, offset).0.connections.len() == m.connections.len(),
        deliver_one(m, k, offset).0.chunks == m.chunks,
        deliver_one(m, k, offset).0.history == m.history,
        deliver_one(m, k, offset).0.sent == m.sent,
        deliver_one(m, k, offset).0.next_sequence == m.next_sequence,
        deliver_one(m, k, offset).0.config == m.config,
        deliver_one(m, k, offset).0.id == m.id,
        deliver_one(m, k, offset).0.alive == m.alive,
{
    let c = m.connections[k];
    let (q, outcome) = push_outcome(c.queue, c.capacity, offset, m.config.enable_safe_overflow);
    lemma_borrow_keeps_observable(m.slots, offset as int);
    lemma_release_keeps_observable(borrow_at(m.slots, offset as int), q.len() as int);
    match outcome {
        PushOutcome::Displaced(oldest) => {
            lemma_release_keeps_observable(borrow_at(m.slots, offset as int), oldest as int);
            lemma_held_slot_stays_in_flight(m.slots, offset as int, oldest as int);
        },
        _ => {
            lemma_held_slot_stays_in_flight(m.slots, offset as int, 0);
        },
    }
    let r = deliver_one(m, k, offset).0;
    assert(all_hold_samples(r, q));
    assert forall|j: int| 0 <= j < r.connections.len() implies {
        &&& 0 < (#[trigger] r.connections[j]).capacity
        &&& r.connections[j].queue.len() <= r.connections[j].capacity
        &&& all_hold_samples(r, r.connections[j].queue)
        &&& all_hold_samples(r, r.connections[j].held)
    } by {
        if j != k {
            assert(r.connections[j] == m.connections[j]);
        }
    }
}

/// The fan-out keeps the invariant; its count never exceeds the number of
/// connections.
pub(crate) proof fn lemma_fan_out_keeps_wf<P, U>(m: PublisherView<P, U>, offset: usize, n: nat)
    requires
        publisher_wf(m),
        n <= m.connections.len(),
        holds_sample(m, offset),
        m.slots[offset as int] is InFlight,
    ensures
        publisher_wf(fan_out(m, offset, n).0),
        holds_sample(fan_out(m, offset, n).0, offset),
        fan_out(m, offset, n).0.slots[offset as int] is InFlight,
        fan_out(m, offset, n).0.connections.len() == m.connections.len(),
        fan_out(m, offset, n).0.chunks == m.chunks,
        fan_out(m, offset, n).0.history == m.history,
        fan_out(m, offset, n).0.sent == m.sent,
        fan_out(m, offset, n).0.next_sequence == m.next_sequence,
        fan_out(m, offset, n).0.config == m.config,
        fan_out(m, offset, n).0.id == m.id,
        fan_out(m, offset, n).0.alive == m.alive,
        fan_out(m, offset, n).1 <= n,
    decreases n,
{
    if n > 0 {
        lemma_fan_out_keeps_wf(m, offset, (n - 1) as nat);
        lemma_deliver_keeps_wf(fan_out(m, offset, (n - 1) as nat).0, n - 1, offset);
    }
}

/// Keeping one more sent offset in the history keeps it equal to the last
/// `size` sent offsets.
pub(crate) proof fn lemma_last_n_push(s: Seq<usize>, x: usize, size: nat)
    requires
        size > 0,
    ensures
        last_n(s.push(x), size) == (if last_n(s, size).push(x).len() > size {
            last_n(s, size).push(x).drop_first()
        } else {
            last_n(s, size).push(x)
        }),
        last_n(s, size).len() <= size,
{
    if s.len() + 1 <= size {
    } else if s.len() <= size {
        assert(last_n(s.push(x), size) =~= s.push(x).drop_first());
    } else {
        assert(last_n(s.push(x), size) =~= last_n(s, size).push(x).drop_first());
    }
}

pub(crate) proof fn lemma_last_n_len(s: Seq<usize>, n: nat)
    ensures
        last_n(s, n).len() <= n,
{
}

pub(crate) proof fn lemma_borrow_each_keeps_observable(s: Seq<SlotState>, h: Seq<usize>)
    requires
        all_observable(s),
    ensures
        all_observable(borrow_each(s, h)),
        borrow_each(s, h).len() == s.len(),
    decreases h.len(),
{
    if h.len() > 0 {
        lemma_borrow_each_keeps_observable(s, h.drop_last());
        lemma_borrow_keeps_observable(borrow_each(s, h.drop_last()), h.last() as int);
    }
}

pub(crate) proof fn lemma_send_result_facts<P, U>(m: PublisherView<P, U>, offset: usize, chunk: Chunk<P, U>)
    requires
        publisher_wf(m),
        offset < m.slots.len(),
        m.next_sequence < u64::MAX,
    ensures
        send_result(m, offset, chunk).0.next_sequence == m.next_sequence + 1,
        send_result(m, offset, chunk).0.id == m.id,
        send_result(m, offset, chunk).0.config == m.config,
        send_result(m, offset, chunk).0.sent == m.sent.push(offset),
        send_result(m, offset, chunk).0.chunks == m.chunks.update(offset as int, Some(chunk)),
        send_result(m, offset, chunk).0.connections.len() == m.connections.len(),
{
    let m0 = PublisherView {
        chunks: m.chunks.update(offset as int, Some(chunk)),
        slots: m.slots.update(offset as int, SlotState::InFlight(1)),
        next_sequence: (m.next_sequence + 1) as u64,
        ..m
    };
    assert(all_observable(m0.slots));
    assert forall|k: int| 0 <= k < m0.connections.len() implies {
        &&& 0 < (#[trigger] m0.connections[k]).capacity
        &&& m0.connections[k].queue.len() <= m0.connections[k].capacity
        &&& all_hold_samples(m0, m0.connections[k].queue)
        &&& all_hold_samples(m0, m0.connections[k].held)
    } by {
        assert(all_hold_samples(m, m.connections[k].queue));
        assert(all_hold_samples(m, m.connections[k].held));
    }
    lemma_fan_out_keeps_wf(m0, offset, m.connections.len());
}

/// Every send stamps a sequence number one above the one before: the
/// samples of one publisher carry strictly increasing sequence numbers, in
/// the order in which they were sent.
pub proof fn lemma_sequence_strictly_increasing<P, U>(
    m: PublisherView<P, U>,
    offset: usize,
    first_user_header: U,
    first_payload: P,
    second_user_header: U,
    second_payload: P,
)
    requires
        publisher_wf(m),
        offset < m.slots.len(),
        m.next_sequence < u64::MAX,
    ensures
        ({
            let after = send_result(m, offset, stamped(m, first_user_header, first_payload)).0;
            &&& stamped(after, second_user_header, second_payload).header.sequence == stamped(
                m,
                first_user_header,
                first_payload,
            ).header.sequence + 1
            &&& stamped(after, second_user_header, second_payload).header.publisher_id == stamped(
                m,
                first_user_header,
                first_payload,
            ).header.publisher_id
        }),
{
    lemma_send_result_facts(m, offset, stamped(m, first_user_header, first_payload));
}

/// The history always holds the last `history_size` sent samples, oldest
/// first (all of them while fewer were sent); a new subscriber's channel
/// starts with exactly these.
pub proof fn lemma_history_replay<P, U>(m: PublisherView<P, U>, connected: PublisherView<P, U>, subscriber_id: u64, buffer_size: usize, max_borrowed: usize)
    requires
        publisher_wf(m),
        connected == (PublisherView {
            slots: borrow_each(m.slots, m.history),
            connections: m.connections.push(
                ConnectionView {
                    subscriber_id,
                    queue: m.history,
                    capacity: buffer_size as nat,
                    held: Seq::empty(),
                    max_borrowed: max_borrowed as nat,
                },
            ),
            ..m
        }),
    ensures
        connected.connections.last().queue == last_n(m.sent, m.config.history_size as nat),
        connected.connections.last().queue.len() == if m.sent.len() < m.config.history_size {
            m.sent.len()
        } else {
            m.config.history_size as nat
        },
{
}

/// Delivery to connection `k` leaves every other connection as it was.
pub(crate) proof fn lemma_deliver_touches_one<P, U>(m: PublisherView<P, U>, k: int, j: int, offset: usize)
    requires
        0 <= k < m.connections.len(),
        0 <= j < m.connections.len(),
        j != k,
    ensures
        deliver_one(m, k, offset).0.connections[j] == m.connections[j],
        deliver_one(m, k, offset).0.connections.len() == m.connections.len(),
{
}

/// Fanning out to the first `n` connections appends `offset` to connection
/// `k < n` if it had room, and leaves connections from `n` on as they were.
pub(crate) proof fn lemma_fan_out_reaches<P, U>(m: PublisherView<P, U>, offset: usize, n: nat, k: int)
    requires
        n <= m.connections.len(),
        0 <= k < m.connections.len(),
        m.connections[k].queue.len() < m.connections[k].capacity,
    ensures
        fan_out(m, offset, n).0.connections.len() == m.connections.len(),
        k < n ==> fan_out(m, offset, n).0.connections[k].queue == m.connections[k].queue.push(offset),
        k >= n ==> fan_out(m, offset, n).0.connections[k] == m.connections[k],
    decreases n,
{
    if n > 0 {
        lemma_fan_out_reaches(m, offset, (n - 1) as nat, k);
        let m1 = fan_out(m, offset, (n - 1) as nat).0;
        if k != n - 1 {
            lemma_deliver_touches_one(m1, n - 1, k, offset);
        }
    }
}

/// Samples sent after a subscriber connected follow what it already has: a
/// send appends the chunk to every connection whose channel has room.
pub proof fn lemma_send_appends_to_connection<P, U>(m: PublisherView<P, U>, offset: usize, chunk: Chunk<P, U>, k: int)
    requires
        publisher_wf(m),
        offset < m.slots.len(),
        m.next_sequence < u64::MAX,
        0 <= k < m.connections.len(),
        m.connections[k].queue.len() < m.connections[k].capacity,
    ensures
        send_result(m, offset, chunk).0.connections[k].queue == m.connections[k].queue.push(offset),
{
    let m0 = PublisherView {
        chunks: m.chunks.update(offset as int, Some(chunk)),
        slots: m.slots.update(offset as int, SlotState::InFlight(1)),
        next_sequence: (m.next_sequence + 1) as u64,
        ..m
    };
    lemma_fan_out_reaches(m0, offset, m.connections.len(), k);
}

/// Loaning a free chunk and giving it back unsent restores the publisher
/// exactly, so this can be repeated without limit and leaks nothing.
pub proof fn lemma_loan_then_return_restores<P, U>(m: PublisherView<P, U>, i: int)
    requires
        0 <= i < m.slots.len(),
        m.slots[i] == SlotState::Free,
    ensures
        (PublisherView {
            slots: (PublisherView { slots: m.slots.update(i, SlotState::Loaned), ..m }).slots.update(i, SlotState::Free),
            ..(PublisherView { slots: m.slots.update(i, SlotState::Loaned), ..m })
        }) == m,
{
    crate::arena::lemma_loan_then_drop_restores(m.slots, i);
}

/// A sample sent while no subscriber is connected and no history is kept
/// frees its chunk at once.
pub proof fn lemma_unreceived_send_frees<P, U>(m: PublisherView<P, U>, offset: usize, chunk: Chunk<P, U>)
    requires
        publisher_wf(m),
        offset < m.slots.len(),
        m.connections.len() == 0,
        m.config.history_size == 0,
    ensures
        send_result(m, offset, chunk).0.slots[offset as int] == SlotState::Free,
        send_result(m, offset, chunk).1 == 0,
{
}

/// A send records the sent offset last and stores the stamped chunk there.
pub proof fn lemma_sent_records_chunk<P, U>(m: PublisherView<P, U>, offset: usize, user_header: U, payload: P)
    requires
        publisher_wf(m),
        offset < m.slots.len(),
        m.next_sequence < u64::MAX,
    ensures
        send_result(m, offset, stamped(m, user_header, payload)).0.sent == m.sent.push(offset),
        send_result(m, offset, stamped(m, user_header, payload)).0.chunks[offset as int] == Some(
            stamped(m, user_header, payload),
        ),
{
    lemma_send_result_facts(m, offset, stamped(m, user_header, payload));
}

pub(crate) proof fn lemma_release_each_keeps_observable(s: Seq<SlotState>, h: Seq<usize>)
    requires
        all_observable(s),
    ensures
        all_observable(release_each(s, h)),
        release_each(s, h).len() == s.len(),
    decreases h.len(),
{
    if h.len() > 0 {
        lemma_release_keeps_observable(s, h[0] as int);
        lemma_release_each_keeps_observable(release_at(s, h[0] as int), h.drop_first());
    }
}

/// Every chunk has at most as many holders as the bound allows.
pub(crate) proof fn lemma_holders_le_bound<P, U>(m: PublisherView<P, U>)
    requires
        publisher_wf(m),
        borrows_bounded(m.connections),
    ensures
        forall|y: int| #[trigger] holders(m, y) <= holder_bound(m),
{
    assert forall|y: int| #[trigger] holders(m, y) <= holder_bound(m) by {
        assert forall|k: int| 0 <= k < m.connections.len() implies (#[trigger] m.connections[k]).queue.len()
            <= m.connections[k].capacity by {
        }
        lemma_all_occ_le_bound(m.connections, y);
        lemma_occ_le_len(m.history, y);
        lemma_last_n_len(m.sent, m.config.history_size as nat);
    }
}

/// Delivering to one connection keeps the accounting, with the sender's own
/// hold as the one extra holder of the chunk.
pub(crate) proof fn lemma_deliver_accounted<P, U>(m: PublisherView<P, U>, k: int, offset: usize)
    requires
        publisher_wf(m),
        accounted_except(m, offset as int, 1),
        0 <= k < m.connections.len(),
        holds_sample(m, offset),
        m.slots[offset as int] is InFlight,
    ensures
        accounted_except(deliver_one(m, k, offset).0, offset as int, 1),
        holder_bound(deliver_one(m, k, offset).0) == holder_bound(m),
{
    let c = m.connections[k];
    let (q, outcome) = push_outcome(c.queue, c.capacity, offset, m.config.enable_safe_overflow);
    let c2 = ConnectionView { queue: q, ..c };
    let r = deliver_one(m, k, offset).0;
    lemma_deliver_keeps_wf(m, k, offset);
    assert forall|y: int| #[trigger] all_occ(m.connections.update(k, c2), y) + conn_occ(c, y) == all_occ(m.connections, y)
        + conn_occ(c2, y) by {
        lemma_all_occ_update(m.connections, k, c2, y);
    }
    lemma_all_occ_update(m.connections, k, c2, 0);
    assert(borrows_bounded(r.connections)) by {
        assert forall|j: int| 0 <= j < r.connections.len() implies (#[trigger] r.connections[j]).held.len()
            <= r.connections[j].max_borrowed by {
            assert(m.connections[j].held.len() <= m.connections[j].max_borrowed);
        }
    }
    lemma_holders_le_bound(r);
    lemma_holders_le_bound(m);
    match outcome {
        PushOutcome::Enqueued => {
            assert forall|y: int| #[trigger] holders(r, y) == holders(m, y) + if y == offset as int {
                1nat
            } else {
                0nat
            } by {
                lemma_occ_push(c.queue, offset, y);
            }
            assert forall|i: int| 0 <= i < r.slots.len() implies holders_of(#[trigger] r.slots[i]) == holders(r, i)
                + if i == offset as int {
                1nat
            } else {
                0nat
            } by {
                assert(holders_of(m.slots[i]) == holders(m, i) + if i == offset as int {
                    1nat
                } else {
                    0nat
                });
                lemma_count_steps(m.slots[i]);
            }
        },
        PushOutcome::Displaced(oldest) => {
            assert forall|y: int| #[trigger] holders(r, y) + (if y == oldest as int {
                1nat
            } else {
                0nat
            }) == holders(m, y) + if y == offset as int {
                1nat
            } else {
                0nat
            } by {
                lemma_occ_drop_first(c.queue, y);
                lemma_occ_push(c.queue.drop_first(), offset, y);
            }
            let s1 = borrow_at(m.slots, offset as int);
            assert forall|i: int| 0 <= i < r.slots.len() implies holders_of(#[trigger] r.slots[i]) == holders(r, i)
                + if i == offset as int {
                1nat
            } else {
                0nat
            } by {
                assert(holders_of(m.slots[i]) == holders(m, i) + if i == offset as int {
                    1nat
                } else {
                    0nat
                });
                lemma_count_steps(m.slots[i]);
                lemma_count_steps(s1[i]);
                assert(holders(r, i) <= holder_bound(m));
                assert(holders(m, i) <= holder_bound(m));
            }
        },
        PushOutcome::Rejected => {
            assert(r.connections =~= m.connections);
        },
    }
}

pub(crate) proof fn lemma_fan_out_accounted<P, U>(m: PublisherView<P, U>, offset: usize, n: nat)
    requires
        publisher_wf(m),
        accounted_except(m, offset as int, 1),
        n <= m.connections.len(),
        holds_sample(m, offset),
        m.slots[offset as int] is InFlight,
    ensures
        accounted_except(fan_out(m, offset, n).0, offset as int, 1),
        holder_bound(fan_out(m, offset, n).0) == holder_bound(m),
    decreases n,
{
    if n > 0 {
        lemma_fan_out_accounted(m, offset, (n - 1) as nat);
        lemma_fan_out_keeps_wf(m, offset, (n - 1) as nat);
        lemma_deliver_accounted(fan_out(m, offset, (n - 1) as nat).0, n - 1, offset);
    }
}

/// Keeping the chunk in the history keeps the accounting.
pub(crate) proof fn lemma_retain_accounted<P, U>(m: PublisherView<P, U>, offset: usize)
    requires
        publisher_wf(m),
        accounted_except(m, offset as int, 1),
        holds_sample(m, offset),
        m.slots[offset as int] is InFlight,
    ensures
        accounted_except(retain(m, offset), offset as int, 1),
        holder_bound(retain(m, offset)) == holder_bound(m),
        retain(m, offset).connections == m.connections,
        forall|y: int| #[trigger] holders(retain(m, offset), y) <= holder_bound(m),
{
    let r = retain(m, offset);
    lemma_holders_le_bound(m);
    if m.config.history_size > 0 {
        let h = m.history.push(offset);
        lemma_last_n_len(m.sent, m.config.history_size as nat);
        let s1 = borrow_at(m.slots, offset as int);
        if h.len() > m.config.history_size {
            assert(r.history == h.drop_first());
            assert forall|y: int| #[trigger] holders(r, y) + (if y == h[0] as int {
                1nat
            } else {
                0nat
            }) == holders(m, y) + if y == offset as int {
                1nat
            } else {
                0nat
            } by {
                lemma_occ_push(m.history, offset, y);
                lemma_occ_drop_first(h, y);
            }
            lemma_occ_le_len(r.history, 0);
            assert forall|y: int| #[trigger] holders(r, y) <= holder_bound(m) by {
                lemma_occ_le_len(r.history, y);
                assert forall|k: int| 0 <= k < m.connections.len() implies (#[trigger] m.connections[k]).queue.len()
                    <= m.connections[k].capacity by {
                }
                lemma_all_occ_le_bound(m.connections, y);
            }
            assert forall|i: int| 0 <= i < r.slots.len() implies holders_of(#[trigger] r.slots[i]) == holders(r, i)
                + if i == offset as int {
                1nat
            } else {
                0nat
            } by {
                assert(holders_of(m.slots[i]) == holders(m, i) + if i == offset as int {
                    1nat
                } else {
                    0nat
                });
                lemma_count_steps(m.slots[i]);
                lemma_count_steps(s1[i]);
                assert(holders(m, i) <= holder_bound(m));
            }
        } else {
            assert forall|y: int| #[trigger] holders(r, y) == holders(m, y) + if y == offset as int {
                1nat
            } else {
                0nat
            } by {
                lemma_occ_push(m.history, offset, y);
            }
            assert forall|y: int| #[trigger] holders(r, y) <= holder_bound(m) by {
                lemma_occ_le_len(r.history, y);
                assert forall|k: int| 0 <= k < m.connections.len() implies (#[trigger] m.connections[k]).queue.len()
                    <= m.connections[k].capacity by {
                }
                lemma_all_occ_le_bound(m.connections, y);
            }
            assert forall|i: int| 0 <= i < r.slots.len() implies holders_of(#[trigger] r.slots[i]) == holders(r, i)
                + if i == offset as int {
                1nat
            } else {
                0nat
            } by {
                assert(holders_of(m.slots[i]) == holders(m, i) + if i == offset as int {
                    1nat
                } else {
                    0nat
                });
                lemma_count_steps(m.slots[i]);
            }
        }
    }
}

/// A whole send keeps the accounting: the chunk ends with exactly the
/// holders that took it.
pub(crate) proof fn lemma_send_accounted<P, U>(m: PublisherView<P, U>, offset: usize, chunk: Chunk<P, U>)
    requires
        publisher_wf(m),
        accounted(m),
        offset < m.slots.len(),
        m.slots[offset as int] == SlotState::Loaned,
        m.next_sequence < u64::MAX,
    ensures
        accounted(send_result(m, offset, chunk).0),
        holder_bound(send_result(m, offset, chunk).0) == holder_bound(m),
{
    let m0 = PublisherView {
        chunks: m.chunks.update(offset as int, Some(chunk)),
        slots: m.slots.update(offset as int, SlotState::InFlight(1)),
        next_sequence: (m.next_sequence + 1) as u64,
        ..m
    };
    lemma_send_result_facts(m, offset, chunk);
    assert(all_observable(m0.slots));
    assert forall|k: int| 0 <= k < m0.connections.len() implies {
        &&& 0 < (#[trigger] m0.connections[k]).capacity
        &&& m0.connections[k].queue.len() <= m0.connections[k].capacity
        &&& all_hold_samples(m0, m0.connections[k].queue)
        &&& all_hold_samples(m0, m0.connections[k].held)
    } by {
        assert(all_hold_samples(m, m.connections[k].queue));
        assert(all_hold_samples(m, m.connections[k].held));
    }
    assert forall|i: int| 0 <= i < m0.slots.len() implies holders_of(#[trigger] m0.slots[i]) == holders(m0, i)
        + if i == offset as int {
        1nat
    } else {
        0nat
    } by {
        assert(holders_of(m.slots[i]) == holders(m, i));
    }
    let n = m.connections.len();
    lemma_fan_out_keeps_wf(m0, offset, n);
    lemma_fan_out_accounted(m0, offset, n);
    let m1 = fan_out(m0, offset, n).0;
    lemma_retain_accounted(m1, offset);
    let m2 = retain(m1, offset);
    lemma_borrow_keeps_observable(m1.slots, offset as int);
    let fin = send_result(m, offset, chunk).0;
    assert(fin.slots == release_at(m2.slots, offset as int));
    lemma_holders_le_bound(m);
    assert forall|y: int| #[trigger] holders(fin, y) == holders(m2, y) by {
    }
    assert forall|y: int| #[trigger] holders(m2, y) <= holder_bound(m) by {
    }
    assert forall|i: int| 0 <= i < fin.slots.len() implies holders_of(#[trigger] fin.slots[i]) == holders(fin, i) + if i
        == -1 {
        0nat
    } else {
        0nat
    } by {
        assert(holders_of(m2.slots[i]) == holders(m2, i) + if i == offset as int {
            1nat
        } else {
            0nat
        });
        lemma_count_steps(m2.slots[i]);
    }
}

/// Loaning a free chunk or giving a loan back keeps the accounting.
pub(crate) proof fn lemma_loan_change_accounted<P, U>(m: PublisherView<P, U>, i: int, st: SlotState)
    requires
        accounted(m),
        0 <= i < m.slots.len(),
        !(m.slots[i] is InFlight),
        !(st is InFlight),
    ensures
        accounted(PublisherView { slots: m.slots.update(i, st), ..m }),
{
    let r = PublisherView { slots: m.slots.update(i, st), ..m };
    assert forall|j: int| 0 <= j < r.slots.len() implies holders_of(#[trigger] r.slots[j]) == holders(r, j) + if j == -1 {
        0nat
    } else {
        0nat
    } by {
        assert(holders_of(m.slots[j]) == holders(m, j));
    }
}

/// A receive moves the chunk from the queue to the borrowed ones, which
/// keeps the accounting.
pub(crate) proof fn lemma_receive_accounted<P, U>(m: PublisherView<P, U>, k: int)
    requires
        accounted(m),
        0 <= k < m.connections.len(),
        m.connections[k].queue.len() > 0,
        m.connections[k].held.len() < m.connections[k].max_borrowed,
    ensures
        accounted(take_oldest(m, k)),
        holder_bound(take_oldest(m, k)) == holder_bound(m),
{
    let c = m.connections[k];
    let c2 = ConnectionView { queue: c.queue.drop_first(), held: c.held.push(c.queue[0]), ..c };
    let r = take_oldest(m, k);
    lemma_all_occ_update(m.connections, k, c2, 0);
    assert forall|y: int| #[trigger] holders(r, y) == holders(m, y) by {
        lemma_all_occ_update(m.connections, k, c2, y);
        lemma_occ_drop_first(c.queue, y);
        lemma_occ_push(c.held, c.queue[0], y);
    }
    assert forall|j: int| 0 <= j < r.connections.len() implies (#[trigger] r.connections[j]).held.len()
        <= r.connections[j].max_borrowed by {
        assert(m.connections[j].held.len() <= m.connections[j].max_borrowed);
    }
    assert forall|j: int| 0 <= j < r.slots.len() implies holders_of(#[trigger] r.slots[j]) == holders(r, j) + if j == -1 {
        0nat
    } else {
        0nat
    } by {
        assert(holders_of(m.slots[j]) == holders(m, j));
    }
}

/// Ending a borrow takes one holder off the chunk, which keeps the
/// accounting.
pub(crate) proof fn lemma_release_accounted<P, U>(m: PublisherView<P, U>, k: int, j: int, offset: usize)
    requires
        publisher_wf(m),
        accounted(m),
        0 <= k < m.connections.len(),
        0 <= j < m.connections[k].held.len(),
        m.connections[k].held[j] == offset,
    ensures
        accounted(
            PublisherView {
                slots: release_at(m.slots, offset as int),
                connections: m.connections.update(
                    k,
                    ConnectionView { held: m.connections[k].held.remove(j), ..m.connections[k] },
                ),
                ..m
            },
        ),
        holder_bound(
            PublisherView {
                slots: release_at(m.slots, offset as int),
                connections: m.connections.update(
                    k,
                    ConnectionView { held: m.connections[k].held.remove(j), ..m.connections[k] },
                ),
                ..m
            },
        ) == holder_bound(m),
{
    let c = m.connections[k];
    let c2 = ConnectionView { held: c.held.remove(j), ..c };
    let r = PublisherView {
        slots: release_at(m.slots, offset as int),
        connections: m.connections.update(k, c2),
        ..m
    };
    lemma_all_occ_update(m.connections, k, c2, 0);
    assert forall|y: int| #[trigger] holders(r, y) + (if y == offset as int {
        1nat
    } else {
        0nat
    }) == holders(m, y) by {
        lemma_all_occ_update(m.connections, k, c2, y);
        lemma_occ_remove(c.held, j, y);
    }
    assert forall|x: int| 0 <= x < r.connections.len() implies (#[trigger] r.connections[x]).held.len()
        <= r.connections[x].max_borrowed by {
        assert(m.connections[x].held.len() <= m.connections[x].max_borrowed);
    }
    lemma_holders_le_bound(m);
    assert(all_hold_samples(m, c.held));
    assert(holds_sample(m, c.held[j]));
    assert forall|i: int| 0 <= i < r.slots.len() implies holders_of(#[trigger] r.slots[i]) == holders(r, i) + if i == -1 {
        0nat
    } else {
        0nat
    } by {
        assert(holders_of(m.slots[i]) == holders(m, i));
        assert(holders(m, i) <= holder_bound(m));
        lemma_count_steps(m.slots[i]);
    }
}

/// Returning the unsent loans keeps the accounting.
pub(crate) proof fn lemma_loans_returned_accounted<P, U>(m: PublisherView<P, U>)
    requires
        accounted(m),
    ensures
        accounted(PublisherView { slots: loans_returned(m.slots), alive: false, ..m }),
{
    let r = PublisherView { slots: loans_returned(m.slots), alive: false, ..m };
    assert forall|j: int| 0 <= j < r.slots.len() implies holders_of(#[trigger] r.slots[j]) == holders(r, j) + if j == -1 {
        0nat
    } else {
        0nat
    } by {
        assert(holders_of(m.slots[j]) == holders(m, j));
    }
}

/// Each slot that `h` names gets as many more holders as `h` names it,
/// where each such slot is in flight and the counts stay below the limit.
pub(crate) proof fn lemma_borrow_each_adds(s: Seq<SlotState>, h: Seq<usize>, i: int)
    requires
        0 <= i < s.len(),
        forall|x: int| 0 <= x < s.len() && crate::accounting::occ(h, x) > 0 ==> (#[trigger] s[x]) is InFlight,
        forall|x: int| 0 <= x < s.len() ==> holders_of(#[trigger] s[x]) + crate::accounting::occ(h, x) < u64::MAX,
        forall|j: int| 0 <= j < h.len() ==> (#[trigger] h[j]) < s.len(),
    ensures
        holders_of(borrow_each(s, h)[i]) == holders_of(s[i]) + crate::accounting::occ(h, i),
        borrow_each(s, h)[i] is InFlight <==> s[i] is InFlight,
        borrow_each(s, h).len() == s.len(),
    decreases h.len(),
{
    if h.len() > 0 {
        let init = h.drop_last();
        assert forall|x: int| 0 <= x < s.len() && crate::accounting::occ(init, x) > 0 implies (#[trigger] s[x]) is InFlight by {
            lemma_occ_push(init, h.last(), x);
            assert(init.push(h.last()) =~= h);
        }
        assert forall|x: int| 0 <= x < s.len() implies holders_of(#[trigger] s[x]) + crate::accounting::occ(init, x)
            < u64::MAX by {
            lemma_occ_push(init, h.last(), x);
            assert(init.push(h.last()) =~= h);
        }
        lemma_borrow_each_adds(s, init, i);
        let last = h.last() as int;
        lemma_borrow_each_adds(s, init, last);
        lemma_occ_push(init, h.last(), i);
        lemma_occ_push(init, h.last(), last);
        assert(init.push(h.last()) =~= h);
        lemma_count_steps(borrow_each(s, init)[last]);
    }
}

/// Each slot that `h` names loses as many holders as `h` names it, where
/// each slot has at least that many holders, below the limit.
pub(crate) proof fn lemma_release_each_subtracts(s: Seq<SlotState>, h: Seq<usize>, i: int)
    requires
        0 <= i < s.len(),
        forall|x: int| 0 <= x < s.len() ==> holders_of(#[trigger] s[x]) >= crate::accounting::occ(h, x),
        forall|x: int| 0 <= x < s.len() ==> holders_of(#[trigger] s[x]) < u64::MAX,
        forall|j: int| 0 <= j < h.len() ==> (#[trigger] h[j]) < s.len(),
        all_observable(s),
    ensures
        holders_of(release_each(s, h)[i]) + crate::accounting::occ(h, i) == holders_of(s[i]),
        release_each(s, h).len() == s.len(),
    decreases h.len(),
{
    if h.len() > 0 {
        let first = h[0] as int;
        let s1 = release_at(s, first);
        let rest = h.drop_first();
        assert forall|x: int| 0 <= x < s.len() implies holders_of(#[trigger] s1[x]) >= crate::accounting::occ(rest, x) by {
            lemma_occ_drop_first(h, x);
            lemma_count_steps(s[x]);
        }
        assert forall|x: int| 0 <= x < s.len() implies holders_of(#[trigger] s1[x]) < u64::MAX by {
            lemma_count_steps(s[x]);
        }
        assert forall|j: int| 0 <= j < rest.len() implies (#[trigger] rest[j]) < s1.len() by {
            assert(rest[j] == h[j + 1]);
        }
        lemma_release_keeps_observable(s, first);
        lemma_release_each_subtracts(s1, rest, i);
        lemma_occ_drop_first(h, i);
        lemma_count_steps(s[i]);
    }
}

/// A chunk that something holds (a history entry, a channel, or a
/// subscriber's borrow) is in flight with exactly that many holders, so it
/// cannot be reused while anyone may still read it.
pub proof fn lemma_held_chunk_stays_in_flight<P, U>(m: PublisherView<P, U>, i: int)
    requires
        accounted(m),
        0 <= i < m.slots.len(),
        holders(m, i) > 0,
    ensures
        m.slots[i] == SlotState::InFlight(holders(m, i) as u64),
{
    assert(holders_of(m.slots[i]) == holders(m, i));
}

/// A sent chunk that nothing holds any more is free: once every subscriber
/// has released it and the history has let it go, it can be loaned again.
pub proof fn lemma_released_chunk_is_free<P, U>(m: PublisherView<P, U>, i: int)
    requires
        publisher_wf(m),
        accounted(m),
        0 <= i < m.slots.len(),
        holders(m, i) == 0,
        m.slots[i] != SlotState::Loaned,
    ensures
        m.slots[i] == SlotState::Free,
{
    assert(holders_of(m.slots[i]) == holders(m, i));
    assert(is_observable_state(m.slots[i]));
}

pub(crate) proof fn lemma_occ_zero_excludes(s: Seq<usize>, x: usize)
    requires
        crate::accounting::occ(s, x as int) == 0,
    ensures
        !s.contains(x),
    decreases s.len(),
{
    if s.len() > 0 {
        lemma_occ_zero_excludes(s.drop_last(), x);
        assert forall|j: int| 0 <= j < s.len() implies s[j] != x by {
            if j < s.len() - 1 {
                assert(s[j] == s.drop_last()[j]);
            }
        }
    }
}

pub(crate) proof fn lemma_conn_occ_le_all(cs: Seq<ConnectionView>, k: int, y: int)
    requires
        0 <= k < cs.len(),
    ensures
        conn_occ(cs[k], y) <= all_occ(cs, y),
    decreases cs.len(),
{
    if k < cs.len() - 1 {
        lemma_conn_occ_le_all(cs.drop_last(), k, y);
        assert(cs.drop_last()[k] == cs[k]);
    }
}

/// A loaned chunk is in no channel and not in the history.
pub(crate) proof fn lemma_loaned_chunk_is_unqueued<P, U>(m: PublisherView<P, U>, offset: usize)
    requires
        accounted(m),
        offset < m.slots.len(),
        m.slots[offset as int] == SlotState::Loaned,
    ensures
        !m.history.contains(offset),
        forall|k: int| 0 <= k < m.connections.len() ==> !(#[trigger] m.connections[k]).queue.contains(offset),
{
    assert(holders_of(m.slots[offset as int]) == holders(m, offset as int));
    lemma_occ_zero_excludes(m.history, offset);
    assert forall|k: int| 0 <= k < m.connections.len() implies !(#[trigger] m.connections[k]).queue.contains(offset) by {
        lemma_conn_occ_le_all(m.connections, k, offset as int);
        lemma_occ_zero_excludes(m.connections[k].queue, offset);
    }
}

pub(crate) proof fn lemma_deliver_keeps_order<P, U>(m: PublisherView<P, U>, k: int, offset: usize)
    requires
        fan_out_order(m, offset, k),
        0 <= k < m.connections.len(),
    ensures
        fan_out_order(deliver_one(m, k, offset).0, offset, k + 1),
{
    let c = m.connections[k];
    let (q, outcome) = push_outcome(c.queue, c.capacity, offset, m.config.enable_safe_overflow);
    let r = deliver_one(m, k, offset).0;
    assert(r.chunks == m.chunks);
    assert(r.next_sequence == m.next_sequence);
    assert(r.history == m.history);
    assert forall|j: int| 0 <= j < r.connections.len() && j != k implies r.connections[j] == m.connections[j] by {
        lemma_deliver_touches_one(m, k, j, offset);
    }
    assert(in_sequence_order(m, c.queue));
    match outcome {
        PushOutcome::Enqueued => {
            assert(r.connections[k].queue == c.queue.push(offset));
        },
        PushOutcome::Displaced(o) => {
            assert(r.connections[k].queue == c.queue.drop_first().push(offset));
            assert forall|a: int, b: int| 0 <= a < b < q.len() implies sequence_of(r, #[trigger] q[a]) < sequence_of(r, #[trigger] q[b]) by {
                if b < q.len() - 1 {
                    assert(q[a] == c.queue[a + 1]);
                    assert(q[b] == c.queue[b + 1]);
                } else {
                    assert(q[a] == c.queue[a + 1]);
                }
            }
        },
        PushOutcome::Rejected => {
            assert(r.connections =~= m.connections);
        },
    }
    assert forall|j: int| 0 <= j < r.connections.len() implies in_sequence_order(r, (#[trigger] r.connections[j]).queue) by {
        if j != k {
            assert(in_sequence_order(m, m.connections[j].queue));
        }
    }
}

pub(crate) proof fn lemma_fan_out_keeps_order<P, U>(m: PublisherView<P, U>, offset: usize, n: nat)
    requires
        fan_out_order(m, offset, 0),
        n <= m.connections.len(),
    ensures
        fan_out_order(fan_out(m, offset, n).0, offset, n as int),
        fan_out(m, offset, n).0.connections.len() == m.connections.len(),
    decreases n,
{
    if n > 0 {
        lemma_fan_out_keeps_order(m, offset, (n - 1) as nat);
        let m1 = fan_out(m, offset, (n - 1) as nat).0;
        lemma_deliver_keeps_order(m1, n - 1, offset);
        assert(deliver_one(m1, n - 1, offset).0.connections.len() == m1.connections.len());
    }
}

/// A send keeps every channel and the history in send order.
pub(crate) proof fn lemma_send_keeps_order<P, U>(m: PublisherView<P, U>, offset: usize, chunk: Chunk<P, U>)
    requires
        publisher_wf(m),
        accounted(m),
        sequences_ordered(m),
        offset < m.slots.len(),
        m.slots[offset as int] == SlotState::Loaned,
        m.next_sequence < u64::MAX,
        chunk.header.sequence == m.next_sequence,
    ensures
        sequences_ordered(send_result(m, offset, chunk).0),
{
    let m0 = PublisherView {
        chunks: m.chunks.update(offset as int, Some(chunk)),
        slots: m.slots.update(offset as int, SlotState::InFlight(1)),
        next_sequence: (m.next_sequence + 1) as u64,
        ..m
    };
    lemma_loaned_chunk_is_unqueued(m, offset);
    assert forall|a: int| 0 <= a < m.history.len() implies sequence_of(m0, #[trigger] m.history[a]) == sequence_of(m, m.history[a]) by {
        assert(m.history[a] != offset);
    }
    assert forall|k: int, a: int| 0 <= k < m.connections.len() && 0 <= a < m.connections[k].queue.len() implies sequence_of(
        m0,
        #[trigger] m.connections[k].queue[a],
    ) == sequence_of(m, m.connections[k].queue[a]) by {
        assert(!m.connections[k].queue.contains(offset));
        assert(m.connections[k].queue[a] != offset);
    }
    assert forall|k: int| 0 <= k < m0.connections.len() implies in_sequence_order(m0, (#[trigger] m0.connections[k]).queue) by {
        assert(in_sequence_order(m, m.connections[k].queue));
        let q = m.connections[k].queue;
        assert forall|a: int| 0 <= a < q.len() implies sequence_of(m0, #[trigger] q[a]) == sequence_of(m, q[a]) by {
            assert(m.connections[k].queue[a] == q[a]);
        }
    }
    assert(fan_out_order(m0, offset, 0));
    let n = m.connections.len();
    lemma_fan_out_keeps_order(m0, offset, n);
    let m1 = fan_out(m0, offset, n).0;
    let m2 = retain(m1, offset);
    if m1.config.history_size > 0 {
        let h = m1.history.push(offset);
        assert(in_sequence_order(m1, h));
        if h.len() > m1.config.history_size {
            assert forall|a: int, b: int| 0 <= a < b < h.drop_first().len() implies sequence_of(m1, #[trigger] h.drop_first()[a])
                < sequence_of(m1, #[trigger] h.drop_first()[b]) by {
                assert(h.drop_first()[a] == h[a + 1]);
                assert(h.drop_first()[b] == h[b + 1]);
            }
        }
    }
    assert(sequences_ordered(m2));
}

/// Taking the oldest queued chunk keeps the order.
pub(crate) proof fn lemma_take_oldest_keeps_order<P, U>(m: PublisherView<P, U>, k: int)
    requires
        sequences_ordered(m),
        0 <= k < m.connections.len(),
        m.connections[k].queue.len() > 0,
    ensures
        sequences_ordered(take_oldest(m, k)),
{
    let r = take_oldest(m, k);
    let q = m.connections[k].queue;
    assert(in_sequence_order(m, q));
    assert forall|a: int, b: int| 0 <= a < b < q.drop_first().len() implies sequence_of(r, #[trigger] q.drop_first()[a])
        < sequence_of(r, #[trigger] q.drop_first()[b]) by {
        assert(q.drop_first()[a] == q[a + 1]);
        assert(q.drop_first()[b] == q[b + 1]);
    }
    assert forall|j: int| 0 <= j < r.connections.len() implies in_sequence_order(r, (#[trigger] r.connections[j]).queue) by {
        if j != k {
            assert(in_sequence_order(m, m.connections[j].queue));
        }
    }
}

/// Samples reach a subscriber in send order: the chunk a receive takes has
/// a lower sequence number than every chunk still queued for that
/// subscriber, and than every chunk sent later.
pub proof fn lemma_receives_in_sequence_order<P, U>(m: PublisherView<P, U>, k: int)
    requires
        sequences_ordered(m),
        0 <= k < m.connections.len(),
        m.connections[k].queue.len() > 0,
    ensures
        forall|a: int| 1 <= a < m.connections[k].queue.len() ==> sequence_of(m, m.connections[k].queue[0]) < sequence_of(
            m,
            #[trigger] m.connections[k].queue[a],
        ),
        sequence_of(m, m.connections[k].queue[0]) < m.next_sequence,
{
    assert(in_sequence_order(m, m.connections[k].queue));
}


/// There are no more connections than the bound on holders counts.
proof fn lemma_connections_le_bound(cs: Seq<ConnectionView>)
    requires
        forall|k: int| 0 <= k < cs.len() ==> 0 < (#[trigger] cs[k]).capacity,
    ensures
        cs.len() <= crate::accounting::conn_bound(cs),
    decreases cs.len(),
{
    if cs.len() > 0 {
        let init = cs.drop_last();
        assert forall|k: int| 0 <= k < init.len() implies 0 < (#[trigger] init[k]).capacity by {
            assert(init[k] == cs[k]);
        }
        lemma_connections_le_bound(init);
        assert(cs.last() == cs[cs.len() - 1]);
    }
}

/// During the fan-out the sent chunk has the publisher's own hold plus one
/// holder for each connection it reached.
proof fn lemma_fan_out_count<P, U>(m0: PublisherView<P, U>, offset: usize, n: nat)
    requires
        publisher_wf(m0),
        accounted_except(m0, offset as int, 1),
        fan_out_order(m0, offset, 0),
        holds_sample(m0, offset),
        m0.slots[offset as int] == SlotState::InFlight(1),
        n <= m0.connections.len(),
    ensures
        fan_out(m0, offset, n).0.slots[offset as int] == SlotState::InFlight((1 + fan_out(m0, offset, n).1) as u64),
    decreases n,
{
    if n > 0 {
        let k = n - 1;
        lemma_fan_out_count(m0, offset, (n - 1) as nat);
        lemma_fan_out_keeps_wf(m0, offset, (n - 1) as nat);
        lemma_fan_out_accounted(m0, offset, (n - 1) as nat);
        lemma_fan_out_keeps_order(m0, offset, (n - 1) as nat);
        let m1 = fan_out(m0, offset, (n - 1) as nat).0;
        lemma_holders_le_bound(m1);
        assert(holders_of(m1.slots[offset as int]) == holders(m1, offset as int) + 1);
        assert(holders(m1, offset as int) <= holder_bound(m1));
        let c = m1.connections[k];
        let d = fan_out(m0, offset, (n - 1) as nat).1;
        lemma_connections_le_bound(m0.connections);
        assert(1 + d < u64::MAX);
        assert(!c.queue.contains(offset));
        let (q, outcome) = push_outcome(c.queue, c.capacity, offset, m1.config.enable_safe_overflow);
        let s1 = borrow_at(m1.slots, offset as int);
        assert(s1[offset as int] == SlotState::InFlight((2 + d) as u64));
        match outcome {
            PushOutcome::Displaced(o) => {
                assert(c.queue[0] != offset);
                assert(release_at(s1, o as int)[offset as int] == s1[offset as int]);
            },
            _ => {},
        }
    }
}

/// After a send the chunk has one holder for each subscriber that received
/// it, and one more if the history keeps it; with none it is free.
pub proof fn lemma_sent_chunk_holders<P, U>(m: PublisherView<P, U>, offset: usize, chunk: Chunk<P, U>)
    requires
        publisher_wf(m),
        accounted(m),
        sequences_ordered(m),
        offset < m.slots.len(),
        m.slots[offset as int] == SlotState::Loaned,
        m.next_sequence < u64::MAX,
        chunk.header.sequence == m.next_sequence,
    ensures
        send_result(m, offset, chunk).0.slots[offset as int] == published(
            (send_result(m, offset, chunk).1 + if m.config.history_size > 0 {
                1nat
            } else {
                0nat
            }) as u64,
        ),
{
    let m0 = PublisherView {
        chunks: m.chunks.update(offset as int, Some(chunk)),
        slots: m.slots.update(offset as int, SlotState::InFlight(1)),
        next_sequence: (m.next_sequence + 1) as u64,
        ..m
    };
    lemma_loaned_chunk_is_unqueued(m, offset);
    assert forall|a: int| 0 <= a < m.history.len() implies sequence_of(m0, #[trigger] m.history[a]) == sequence_of(m, m.history[a]) by {
        assert(m.history[a] != offset);
    }
    assert forall|k: int, a: int| 0 <= k < m.connections.len() && 0 <= a < m.connections[k].queue.len() implies sequence_of(
        m0,
        #[trigger] m.connections[k].queue[a],
    ) == sequence_of(m, m.connections[k].queue[a]) by {
        assert(!m.connections[k].queue.contains(offset));
        assert(m.connections[k].queue[a] != offset);
    }
    assert forall|k: int| 0 <= k < m0.connections.len() implies in_sequence_order(m0, (#[trigger] m0.connections[k]).queue) by {
        assert(in_sequence_order(m, m.connections[k].queue));
        let q = m.connections[k].queue;
        assert forall|a: int| 0 <= a < q.len() implies sequence_of(m0, #[trigger] q[a]) == sequence_of(m, q[a]) by {
            assert(m.connections[k].queue[a] == q[a]);
        }
    }
    assert(fan_out_order(m0, offset, 0));
    assert(all_observable(m0.slots));
    assert forall|k: int| 0 <= k < m0.connections.len() implies {
        &&& 0 < (#[trigger] m0.connections[k]).capacity
        &&& m0.connections[k].queue.len() <= m0.connections[k].capacity
        &&& all_hold_samples(m0, m0.connections[k].queue)
        &&& all_hold_samples(m0, m0.connections[k].held)
    } by {
        assert(all_hold_samples(m, m.connections[k].queue));
        assert(all_hold_samples(m, m.connections[k].held));
    }
    assert forall|i: int| 0 <= i < m0.slots.len() implies holders_of(#[trigger] m0.slots[i]) == holders(m0, i)
        + if i == offset as int {
        1nat
    } else {
        0nat
    } by {
        assert(holders_of(m.slots[i]) == holders(m, i));
    }
    let n = m.connections.len();
    lemma_fan_out_count(m0, offset, n);
    lemma_fan_out_keeps_wf(m0, offset, n);
    lemma_fan_out_accounted(m0, offset, n);
    lemma_fan_out_keeps_order(m0, offset, n);
    let m1 = fan_out(m0, offset, n).0;
    lemma_holders_le_bound(m1);
    assert(holders_of(m1.slots[offset as int]) == holders(m1, offset as int) + 1);
    let d = fan_out(m0, offset, n).1;
    lemma_connections_le_bound(m0.connections);
    assert(m1.slots[offset as int] == SlotState::InFlight((1 + d) as u64));
    assert(2 + d < u64::MAX);
    let m2 = retain(m1, offset);
    if m1.config.history_size > 0 {
        let h = m1.history.push(offset);
        let s1 = borrow_at(m1.slots, offset as int);
        assert(s1[offset as int] == SlotState::InFlight((2 + d) as u64));
        if h.len() > m1.config.history_size {
            assert(m1.history.len() > 0);
            assert(sequence_of(m1, m1.history[0]) < sequence_of(m1, offset));
            assert(h[0] == m1.history[0]);
            assert(h[0] != offset);
            assert(release_at(s1, h[0] as int)[offset as int] == s1[offset as int]);
        }
        assert(m2.slots[offset as int] == SlotState::InFlight((2 + d) as u64));
    } else {
        assert(m2.slots[offset as int] == SlotState::InFlight((1 + d) as u64));
    }
}


/// The publisher after `rounds` rounds of loaning the free chunk `i` and
/// giving it back unsent.
pub open spec fn loan_and_drop_rounds<P, U>(m: PublisherView<P, U>, i: int, rounds: nat) -> PublisherView<P, U>
    decreases rounds,
{
    if rounds == 0 {
        m
    } else {
        let loaned = PublisherView { slots: m.slots.update(i, SlotState::Loaned), ..m };
        let returned = PublisherView { slots: loaned.slots.update(i, SlotState::Free), ..loaned };
        loan_and_drop_rounds(returned, i, (rounds - 1) as nat)
    }
}

/// Any number of loan-and-drop rounds leaves the publisher exactly as it
/// was: nothing leaks, however often it is repeated.
pub proof fn lemma_loan_and_drop_rounds_restore<P, U>(m: PublisherView<P, U>, i: int, rounds: nat)
    requires
        0 <= i < m.slots.len(),
        m.slots[i] == SlotState::Free,
    ensures
        loan_and_drop_rounds(m, i, rounds) == m,
    decreases rounds,
{
    if rounds > 0 {
        lemma_loan_then_return_restores(m, i);
        lemma_loan_and_drop_rounds_restore(m, i, (rounds - 1) as nat);
    }
}

} // verus!
