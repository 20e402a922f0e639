//! The broadcast engine: a message that one session sent is delivered to
//! every other session that is registered at that moment.
//!
//! Delivering ends where the transport begins. [`broadcast_message`] hands
//! out what is to be written to whom; whoever owns the transports writes
//! it, and may tell [`reached`] how each write went.

use crate::registry::{
    Registry,
    distinct_ids,
    has_id,
    lemma_without_absent,
    lemma_without_distinct,
    lemma_without_present,
    position_of,
    without,
};
use crate::session::SessionView;
use vstd::prelude::*;

verus! {

/// Bytes that the transport of one session has to write.
pub struct Delivery {
    /// The id of the session that the bytes are for.
    pub dest: u64,
    /// The bytes.
    pub bytes: Vec<u8>,
}

/// A delivery as a mathematical value.
pub struct DeliveryView {
    pub dest: u64,
    pub bytes: Seq<u8>,
}

impl View for Delivery {
    type V = DeliveryView;

    open spec fn view(&self) -> DeliveryView {
        DeliveryView { dest: self.dest, bytes: self.bytes@ }
    }
}

/// The mathematical values of a sequence of deliveries.
pub open spec fn delivery_views(deliveries: Seq<Delivery>) -> Seq<DeliveryView> {
    deliveries.map_values(|d: Delivery| d@)
}

/// What a session is sent when `message` is delivered to it: whatever was
/// still queued for it, then the message.
pub open spec fn delivery_to(session: SessionView, message: Seq<u8>) -> DeliveryView {
    DeliveryView { dest: session.id, bytes: session.outbound + message }
}

/// What each of these sessions is sent when `message` is delivered to all
/// of them, in their order.
pub open spec fn deliveries_to(sessions: Seq<SessionView>, message: Seq<u8>) -> Seq<DeliveryView> {
    sessions.map_values(|s: SessionView| delivery_to(s, message))
}

/// The deliveries of one broadcast: one to each session other than the
/// sender, in the order of the registry.
pub open spec fn fan_out(sessions: Seq<SessionView>, source: u64, message: Seq<u8>) -> Seq<
    DeliveryView,
> {
    deliveries_to(without(sessions, source), message)
}

/// A session once its outbound buffer has been flushed.
pub open spec fn flushed(session: SessionView) -> SessionView {
    SessionView { outbound: Seq::empty(), ..session }
}

/// The sessions after a broadcast: the sender is as it was, every other
/// session has been flushed.
pub open spec fn after_broadcast(sessions: Seq<SessionView>, source: u64) -> Seq<SessionView> {
    sessions.map_values(
        |s: SessionView|
            if s.id == source {
                s
            } else {
                flushed(s)
            },
    )
}

/// One more session at the end of the registry adds one delivery at the end
/// of the fan-out, unless that session is the sender.
pub proof fn lemma_fan_out_push(
    sessions: Seq<SessionView>,
    last: SessionView,
    source: u64,
    message: Seq<u8>,
)
    ensures
        last.id == source ==> fan_out(sessions.push(last), source, message) == fan_out(
            sessions,
            source,
            message,
        ),
        last.id != source ==> fan_out(sessions.push(last), source, message) == fan_out(
            sessions,
            source,
            message,
        ).push(delivery_to(last, message)),
{
    sessions.lemma_filter_push(last, |s: SessionView| s.id != source);
    if last.id != source {
        assert(fan_out(sessions.push(last), source, message) =~= fan_out(
            sessions,
            source,
            message,
        ).push(delivery_to(last, message)));
    }
}

/// Delivers `message`, which the session `source` sent, to every other
/// session of the registry: the message is appended to the session's
/// outbound buffer and the buffer is flushed. The deliveries come back in
/// the order of the registry, for the transports to write.
///
/// The sessions that are served are those that are registered when the
/// call begins. The deliveries are fixed before any of them is written,
/// so a session that leaves the registry afterwards is still written to,
/// and no write can keep another from being tried.
///
/// Whether `source` itself is registered makes no difference.
pub fn broadcast_message(message: &Vec<u8>, source: u64, pool: &mut Registry) -> (deliveries: Vec<
    Delivery,
>)
    ensures
        delivery_views(deliveries@) == fan_out(old(pool)@, source, message@),
        final(pool)@ == after_broadcast(old(pool)@, source),
        old(pool).wf() ==> final(pool).wf(),
        forall|i: int| 0 <= i < deliveries@.len() ==> (#[trigger] deliveries@[i]).dest != source,
        forall|k: int|
            0 <= k < old(pool)@.len() && (#[trigger] old(pool)@[k]).id != source
                ==> delivery_views(deliveries@).contains(delivery_to(old(pool)@[k], message@)),
        !has_id(old(pool)@, source) ==> delivery_views(deliveries@) == deliveries_to(
            old(pool)@,
            message@,
        ),
        old(pool).wf() && has_id(old(pool)@, source) ==> delivery_views(deliveries@)
            == deliveries_to(old(pool)@.remove(position_of(old(pool)@, source)), message@),
{
    let ghost before = pool@;
    let count: usize = pool.len();
    let mut deliveries: Vec<Delivery> = Vec::new();
    let mut i: usize = 0;
    while i < count
        invariant
            i <= count,
            count == before.len(),
            pool@.len() == count,
            forall|k: int| 0 <= k < i ==> pool@[k] == after_broadcast(before, source)[k],
            forall|k: int| i <= k < count ==> pool@[k] == before[k],
            delivery_views(deliveries@) == fan_out(before.take(i as int), source, message@),
        decreases count - i,
    {
        let dest: u64 = pool.id_at(i);
        proof {
            lemma_fan_out_push(before.take(i as int), before[i as int], source, message@);
            assert(before.take(i + 1) =~= before.take(i as int).push(before[i as int]));
        }
        if dest != source {
            let ghost sent = delivery_views(deliveries@);
            let bytes: Vec<u8> = pool.deliver(i, message);
            deliveries.push(Delivery { dest, bytes });
            proof {
                assert(delivery_views(deliveries@) =~= sent.push(
                    delivery_to(before[i as int], message@),
                ));
            }
        }
        i = i + 1;
    }
    proof {
        assert(before.take(count as int) =~= before);
        assert(pool@ =~= after_broadcast(before, source));
        if distinct_ids(before) {
            assert forall|a: int, b: int| 0 <= a < b < pool@.len() implies (#[trigger] pool@[a]).id
                != (#[trigger] pool@[b]).id by {
                assert(before[a].id != before[b].id);
            }
        }
        if !has_id(before, source) {
            lemma_without_absent(before, source);
        } else if distinct_ids(before) {
            lemma_without_present(before, position_of(before, source));
        }
        lemma_sender_is_excluded(before, source, message@, Seq::empty());
        assert forall|i: int| 0 <= i < deliveries@.len() implies (#[trigger] deliveries@[i]).dest
            != source by {
            assert(delivery_views(deliveries@)[i].dest != source);
        }
        assert forall|k: int| 0 <= k < before.len() && (#[trigger] before[k]).id
            != source implies delivery_views(deliveries@).contains(
            delivery_to(before[k], message@),
        ) by {
            lemma_every_other_session_is_served(before, source, message@, Seq::empty(), k);
        }
    }
    deliveries
}

/// How the write of one delivery went.
#[derive(Clone, Copy, PartialEq, Eq, Structural, Debug)]
pub enum WriteOutcome {
    /// The transport took the bytes.
    Written,
    /// The transport reported an error.
    Failed,
}

/// Whether delivery number `i` arrived: its write was tried and went well.
pub open spec fn arrived(outcomes: Seq<WriteOutcome>, i: int) -> bool {
    0 <= i < outcomes.len() && outcomes[i] == WriteOutcome::Written
}

/// The ids of the sessions that a broadcast reached, in the order of the
/// deliveries: those whose delivery arrived. `outcomes[i]` says how the
/// write of `deliveries[i]` went; a delivery without an outcome did not
/// arrive.
pub open spec fn reached_ids(deliveries: Seq<DeliveryView>, outcomes: Seq<WriteOutcome>) -> Seq<u64>
    decreases deliveries.len(),
{
    if deliveries.len() == 0 {
        Seq::empty()
    } else {
        let front = reached_ids(deliveries.drop_last(), outcomes);
        if arrived(outcomes, deliveries.len() - 1) {
            front.push(deliveries.last().dest)
        } else {
            front
        }
    }
}

/// Says which sessions a broadcast reached, given how each write went.
pub fn reached(deliveries: &Vec<Delivery>, outcomes: &Vec<WriteOutcome>) -> (ids: Vec<u64>)
    ensures
        ids@ == reached_ids(delivery_views(deliveries@), outcomes@),
{
    let ghost all = delivery_views(deliveries@);
    let mut ids: Vec<u64> = Vec::new();
    let mut i: usize = 0;
    while i < deliveries.len()
        invariant
            i <= deliveries.len(),
            all == delivery_views(deliveries@),
            ids@ == reached_ids(all.take(i as int), outcomes@),
        decreases deliveries.len() - i,
    {
        proof {
            assert(all.take(i + 1).drop_last() =~= all.take(i as int));
            assert(all.take(i + 1).last() == deliveries@[i as int]@);
        }
        if i < outcomes.len() {
            match outcomes[i] {
                WriteOutcome::Written => {
                    ids.push(deliveries[i].dest);
                },
                WriteOutcome::Failed => {},
            }
        }
        i = i + 1;
    }
    proof {
        assert(all.take(deliveries.len() as int) =~= all);
    }
    ids
}

/// A session was reached exactly if one of the deliveries that arrived
/// was for it.
pub proof fn lemma_reached_ids_contains(
    deliveries: Seq<DeliveryView>,
    outcomes: Seq<WriteOutcome>,
    id: u64,
)
    ensures
        reached_ids(deliveries, outcomes).contains(id) <==> exists|i: int|
            0 <= i < deliveries.len() && arrived(outcomes, i) && (#[trigger] deliveries[i]).dest
                == id,
    decreases deliveries.len(),
{
    let ids = reached_ids(deliveries, outcomes);
    if deliveries.len() > 0 {
        let front = deliveries.drop_last();
        let front_ids = reached_ids(front, outcomes);
        let last = deliveries.len() - 1;
        lemma_reached_ids_contains(front, outcomes, id);
        if ids.contains(id) {
            let k = choose|k: int| 0 <= k < ids.len() && ids[k] == id;
            if k < front_ids.len() {
                assert(front_ids[k] == id);
                assert(front_ids.contains(id));
                let i = choose|i: int|
                    0 <= i < front.len() && arrived(outcomes, i) && (#[trigger] front[i]).dest
                        == id;
                assert(deliveries[i].dest == id);
            } else {
                assert(deliveries[last].dest == id);
            }
        }
        if exists|i: int|
            0 <= i < deliveries.len() && arrived(outcomes, i) && (#[trigger] deliveries[i]).dest
                == id {
            let i = choose|i: int|
                0 <= i < deliveries.len() && arrived(outcomes, i) && (#[trigger] deliveries[i]).dest
                    == id;
            if i < last {
                assert(front[i].dest == id);
                assert(front_ids.contains(id));
                let k = choose|k: int| 0 <= k < front_ids.len() && front_ids[k] == id;
                assert(ids[k] == id);
            } else {
                assert(ids[ids.len() - 1] == id);
            }
        }
    }
}

/// Exclusion: no delivery of a broadcast is for the sender, so the sender
/// is not reached however the writes go; and the sender's own handle is
/// left as it was.
pub proof fn lemma_sender_is_excluded(
    sessions: Seq<SessionView>,
    source: u64,
    message: Seq<u8>,
    outcomes: Seq<WriteOutcome>,
)
    ensures
        forall|i: int|
            0 <= i < fan_out(sessions, source, message).len() ==> (#[trigger] fan_out(
                sessions,
                source,
                message,
            )[i]).dest != source,
        !reached_ids(fan_out(sessions, source, message), outcomes).contains(source),
        forall|k: int|
            0 <= k < sessions.len() && (#[trigger] sessions[k]).id == source ==> after_broadcast(
                sessions,
                source,
            )[k] == sessions[k],
{
    let deliveries = fan_out(sessions, source, message);
    let others = without(sessions, source);
    assert forall|i: int| 0 <= i < deliveries.len() implies (#[trigger] deliveries[i]).dest
        != source by {
        sessions.lemma_filter_pred(|s: SessionView| s.id != source, i);
        assert(deliveries[i].dest == others[i].id);
    }
    lemma_reached_ids_contains(deliveries, outcomes, source);
}

/// Completeness: every session of the registry other than the sender is
/// sent the message, behind whatever was still queued for it; and if
/// every write goes well, every such session is reached.
pub proof fn lemma_every_other_session_is_served(
    sessions: Seq<SessionView>,
    source: u64,
    message: Seq<u8>,
    outcomes: Seq<WriteOutcome>,
    k: int,
)
    requires
        0 <= k < sessions.len(),
        sessions[k].id != source,
    ensures
        fan_out(sessions, source, message).contains(delivery_to(sessions[k], message)),
        (forall|i: int| 0 <= i < fan_out(sessions, source, message).len() ==> arrived(outcomes, i))
            ==> reached_ids(fan_out(sessions, source, message), outcomes).contains(sessions[k].id),
{
    let deliveries = fan_out(sessions, source, message);
    let others = without(sessions, source);
    sessions.lemma_filter_contains(|s: SessionView| s.id != source, k);
    let i = choose|i: int| 0 <= i < others.len() && others[i] == sessions[k];
    assert(deliveries[i] == delivery_to(sessions[k], message));
    lemma_reached_ids_contains(deliveries, outcomes, sessions[k].id);
}

/// Isolation: where no two sessions share an id, whether a session is
/// reached depends on the write of its own delivery and on no other. A
/// write that fails keeps no other session from being reached.
pub proof fn lemma_failed_write_is_isolated(
    sessions: Seq<SessionView>,
    source: u64,
    message: Seq<u8>,
    outcomes: Seq<WriteOutcome>,
    c: int,
)
    requires
        distinct_ids(sessions),
        0 <= c < fan_out(sessions, source, message).len(),
    ensures
        reached_ids(fan_out(sessions, source, message), outcomes).contains(
            fan_out(sessions, source, message)[c].dest,
        ) <==> arrived(outcomes, c),
{
    let deliveries = fan_out(sessions, source, message);
    let others = without(sessions, source);
    let id = deliveries[c].dest;
    lemma_without_distinct(sessions, source);
    lemma_reached_ids_contains(deliveries, outcomes, id);
    if reached_ids(deliveries, outcomes).contains(id) {
        let i = choose|i: int|
            0 <= i < deliveries.len() && arrived(outcomes, i) && (#[trigger] deliveries[i]).dest
                == id;
        if i != c {
            assert(others[i].id == others[c].id);
        }
    }
}

} // verus!
