//! Chunk-ownership accounting: the holder count of every chunk equals the
//! number of places that hold its offset (the history, the channels, and
//! what subscribers have borrowed), so a chunk is freed exactly when its last
//! holder lets go, and never before.

use crate::arena::{borrowed, holders_of, released, SlotState};
use crate::publisher::{ConnectionView, PublisherView};
use vstd::prelude::*;

verus! {

/// How often `x` stands in `s`.
pub open spec fn occ(s: Seq<usize>, x: int) -> nat
    decreases s.len(),
{
    if s.len() == 0 {
        0
    } else {
        occ(s.drop_last(), x) + if s.last() as int == x {
            1nat
        } else {
            0nat
        }
    }
}

/// How often a connection holds `x`: queued or borrowed.
pub open spec fn conn_occ(c: ConnectionView, x: int) -> nat {
    occ(c.queue, x) + occ(c.held, x)
}

/// How often the connections hold `x`.
pub open spec fn all_occ(cs: Seq<ConnectionView>, x: int) -> nat
    decreases cs.len(),
{
    if cs.len() == 0 {
        0
    } else {
        all_occ(cs.drop_last(), x) + conn_occ(cs.last(), x)
    }
}

/// The number of holders of chunk `x`.
pub open spec fn holders<P, U>(m: PublisherView<P, U>, x: int) -> nat {
    occ(m.history, x) + all_occ(m.connections, x)
}

/// The most that the connections can hold at once.
pub open spec fn conn_bound(cs: Seq<ConnectionView>) -> nat
    decreases cs.len(),
{
    if cs.len() == 0 {
        0
    } else {
        conn_bound(cs.drop_last()) + cs.last().capacity + cs.last().max_borrowed
    }
}

/// The most holders that any chunk can have.
pub open spec fn holder_bound<P, U>(m: PublisherView<P, U>) -> nat {
    m.config.history_size as nat + conn_bound(m.connections)
}

/// The headroom that holder counts keep below the counter's limit.
pub open spec fn fits_counter(n: nat) -> bool {
    n + 4 <= u64::MAX
}

/// Every connection borrows no more than it may.
pub open spec fn borrows_bounded(cs: Seq<ConnectionView>) -> bool {
    forall|k: int| 0 <= k < cs.len() ==> (#[trigger] cs[k]).held.len() <= cs[k].max_borrowed
}

/// The holder count of every chunk is its number of holders, but for `extra`
/// more on chunk `offset` (a hold of the publisher's own while it sends).
pub open spec fn accounted_except<P, U>(m: PublisherView<P, U>, offset: int, extra: nat) -> bool {
    &&& fits_counter(holder_bound(m))
    &&& borrows_bounded(m.connections)
    &&& forall|i: int| 0 <= i < m.slots.len() ==> holders_of(#[trigger] m.slots[i]) == holders(m, i) + if i == offset {
        extra
    } else {
        0nat
    }
}

/// The holder count of every chunk is its number of holders.
pub open spec fn accounted<P, U>(m: PublisherView<P, U>) -> bool {
    accounted_except(m, -1, 0)
}

pub proof fn lemma_occ_push(s: Seq<usize>, x: usize, y: int)
    ensures
        occ(s.push(x), y) == occ(s, y) + if x as int == y {
            1nat
        } else {
            0nat
        },
{
    assert(s.push(x).drop_last() =~= s);
}

pub proof fn lemma_occ_drop_first(s: Seq<usize>, y: int)
    requires
        s.len() > 0,
    ensures
        occ(s, y) == occ(s.drop_first(), y) + if s[0] as int == y {
            1nat
        } else {
            0nat
        },
    decreases s.len(),
{
    if s.len() > 1 {
        lemma_occ_drop_first(s.drop_last(), y);
        assert(s.drop_last().drop_first() =~= s.drop_first().drop_last());
    } else {
        assert(s.drop_first() =~= Seq::<usize>::empty());
        assert(s.drop_last() =~= Seq::<usize>::empty());
    }
}

pub proof fn lemma_occ_remove(s: Seq<usize>, j: int, y: int)
    requires
        0 <= j < s.len(),
    ensures
        occ(s, y) == occ(s.remove(j), y) + if s[j] as int == y {
            1nat
        } else {
            0nat
        },
    decreases s.len(),
{
    if j == s.len() - 1 {
        assert(s.remove(j) =~= s.drop_last());
    } else {
        lemma_occ_remove(s.drop_last(), j, y);
        assert(s.remove(j).drop_last() =~= s.drop_last().remove(j));
        assert(s.remove(j).last() == s.last());
    }
}

pub proof fn lemma_occ_le_len(s: Seq<usize>, y: int)
    ensures
        occ(s, y) <= s.len(),
    decreases s.len(),
{
    if s.len() > 0 {
        lemma_occ_le_len(s.drop_last(), y);
    }
}

pub proof fn lemma_occ_empty(y: int)
    ensures
        occ(Seq::<usize>::empty(), y) == 0,
{
}

pub proof fn lemma_all_occ_update(cs: Seq<ConnectionView>, k: int, c: ConnectionView, y: int)
    requires
        0 <= k < cs.len(),
    ensures
        all_occ(cs.update(k, c), y) + conn_occ(cs[k], y) == all_occ(cs, y) + conn_occ(c, y),
        (c.capacity == cs[k].capacity && c.max_borrowed == cs[k].max_borrowed) ==> conn_bound(cs.update(k, c))
            == conn_bound(cs),
    decreases cs.len(),
{
    if k == cs.len() - 1 {
        assert(cs.update(k, c).drop_last() =~= cs.drop_last());
    } else {
        lemma_all_occ_update(cs.drop_last(), k, c, y);
        assert(cs.update(k, c).drop_last() =~= cs.drop_last().update(k, c));
    }
}

pub proof fn lemma_all_occ_push(cs: Seq<ConnectionView>, c: ConnectionView, y: int)
    ensures
        all_occ(cs.push(c), y) == all_occ(cs, y) + conn_occ(c, y),
        conn_bound(cs.push(c)) == conn_bound(cs) + c.capacity + c.max_borrowed,
{
    assert(cs.push(c).drop_last() =~= cs);
}

pub proof fn lemma_all_occ_remove(cs: Seq<ConnectionView>, k: int, y: int)
    requires
        0 <= k < cs.len(),
    ensures
        all_occ(cs.remove(k), y) + conn_occ(cs[k], y) == all_occ(cs, y),
        conn_bound(cs.remove(k)) + cs[k].capacity + cs[k].max_borrowed == conn_bound(cs),
    decreases cs.len(),
{
    if k == cs.len() - 1 {
        assert(cs.remove(k) =~= cs.drop_last());
    } else {
        lemma_all_occ_remove(cs.drop_last(), k, y);
        assert(cs.remove(k).drop_last() =~= cs.drop_last().remove(k));
        assert(cs.remove(k).last() == cs.last());
    }
}

pub proof fn lemma_all_occ_le_bound(cs: Seq<ConnectionView>, y: int)
    requires
        borrows_bounded(cs),
        forall|k: int| 0 <= k < cs.len() ==> (#[trigger] cs[k]).queue.len() <= cs[k].capacity,
    ensures
        all_occ(cs, y) <= conn_bound(cs),
    decreases cs.len(),
{
    if cs.len() > 0 {
        let init = cs.drop_last();
        assert forall|k: int| 0 <= k < init.len() implies (#[trigger] init[k]).held.len() <= init[k].max_borrowed by {
            assert(init[k] == cs[k]);
        }
        assert forall|k: int| 0 <= k < init.len() implies (#[trigger] init[k]).queue.len() <= init[k].capacity by {
            assert(init[k] == cs[k]);
        }
        lemma_all_occ_le_bound(init, y);
        lemma_occ_le_len(cs.last().queue, y);
        lemma_occ_le_len(cs.last().held, y);
        assert(cs.last() == cs[cs.len() - 1]);
    }
}

/// Holder counts below the limit move by exactly one on a borrow or a
/// release.
pub proof fn lemma_count_steps(s: SlotState)
    ensures
        s is InFlight && holders_of(s) < u64::MAX ==> holders_of(borrowed(s)) == holders_of(s) + 1,
        s is InFlight && 1 <= holders_of(s) < u64::MAX ==> holders_of(released(s)) + 1 == holders_of(s),
{
}

} // verus!
