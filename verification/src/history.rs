//! Histories of an engine: what holds of it after any sequence of accepted
//! connections and reported reads.

use crate::broadcast::after_broadcast;
use crate::engine::{
    EngineView,
    after_accept,
    after_read,
    assigned_id,
    consumed,
    initial,
    lemma_without_subset,
};
use crate::registry::{distinct_ids, has_id, lemma_without_distinct, lemma_without_has_id, without};
use crate::worker::{ReadOutcome, classify};
use vstd::prelude::*;

verus! {

/// One thing that happens to an engine.
pub enum Event {
    /// A connection from `address` is accepted.
    Accept { address: Seq<char> },
    /// The worker of session `id` reports a read. The bytes that the read
    /// brought are relayed and leave no trace in the engine.
    Read { id: u64, val: u64 },
}

/// The engine after one event.
pub open spec fn after_event(state: EngineView, event: Event) -> EngineView {
    match event {
        Event::Accept { address } => after_accept(state, address),
        Event::Read { id, val } => after_read(state, id, val),
    }
}

/// The engine after a sequence of events, the first one first.
pub open spec fn after_all(state: EngineView, events: Seq<Event>) -> EngineView
    decreases events.len(),
{
    if events.len() == 0 {
        state
    } else {
        after_event(after_all(state, events.drop_last()), events.last())
    }
}

/// The number of connections that a sequence of events accepts.
pub open spec fn accepts(events: Seq<Event>) -> nat
    decreases events.len(),
{
    if events.len() == 0 {
        0
    } else if events.last() is Accept {
        accepts(events.drop_last()) + 1
    } else {
        accepts(events.drop_last())
    }
}

/// One event keeps the engine consistent, moves the id counter forward if
/// at all, and registers no id below the counter that was not registered.
pub proof fn lemma_event_keeps_consistent(state: EngineView, event: Event)
    requires
        state.wf(),
    ensures
        after_event(state, event).wf(),
        state.next_id <= after_event(state, event).next_id,
        forall|id: u64|
            id < state.next_id && !has_id(state.sessions, id) ==> !has_id(
                after_event(state, event).sessions,
                id,
            ),
{
    let next = after_event(state, event);
    match event {
        Event::Accept { address } => {
            assert forall|id: u64| id < state.next_id && !has_id(state.sessions, id) implies !has_id(
                next.sessions,
                id,
            ) by {
                if has_id(next.sessions, id) {
                    let i = choose|i: int|
                        0 <= i < next.sessions.len() && (#[trigger] next.sessions[i]).id == id;
                    if i < state.sessions.len() {
                        assert(state.sessions[i].id == id);
                    }
                }
            }
        },
        Event::Read { id: reader, val } => {
            if has_id(state.sessions, reader) {
                match classify(val) {
                    ReadOutcome::Established => {},
                    ReadOutcome::Closed => {
                        lemma_without_distinct(state.sessions, reader);
                        lemma_without_subset(state.sessions, reader, state.next_id);
                        assert forall|id: u64|
                            id < state.next_id && !has_id(state.sessions, id) implies !has_id(
                            next.sessions,
                            id,
                        ) by {
                            lemma_without_has_id(state.sessions, reader, id);
                        }
                    },
                    ReadOutcome::Data => {
                        let middle = consumed(state.sessions, reader);
                        assert forall|k: int| 0 <= k < next.sessions.len() implies (
                        #[trigger] next.sessions[k]).id == state.sessions[k].id by {
                            assert(middle[k].id == state.sessions[k].id);
                        }
                        assert forall|a: int, b: int|
                            0 <= a < b < next.sessions.len() implies (#[trigger] next.sessions[a]).id
                            != (#[trigger] next.sessions[b]).id by {
                            assert(state.sessions[a].id != state.sessions[b].id);
                        }
                        assert forall|k: int| 0 <= k < next.sessions.len() implies (
                        #[trigger] next.sessions[k]).id < next.next_id by {
                            assert(state.sessions[k].id < state.next_id);
                        }
                        assert forall|id: u64|
                            id < state.next_id && !has_id(state.sessions, id) implies !has_id(
                            next.sessions,
                            id,
                        ) by {
                            if has_id(next.sessions, id) {
                                let i = choose|i: int|
                                    0 <= i < next.sessions.len() && (#[trigger] next.sessions[i]).id
                                        == id;
                                assert(state.sessions[i].id == id);
                            }
                        }
                    },
                }
            }
        },
    }
}

/// Consistency: whatever happens to a consistent engine, at no moment do
/// two registered sessions have the same id, and no id in use is one that
/// is still to be assigned.
pub proof fn lemma_engine_stays_consistent(state: EngineView, events: Seq<Event>)
    requires
        state.wf(),
    ensures
        after_all(state, events).wf(),
        state.next_id <= after_all(state, events).next_id,
    decreases events.len(),
{
    if events.len() > 0 {
        lemma_engine_stays_consistent(state, events.drop_last());
        lemma_event_keeps_consistent(after_all(state, events.drop_last()), events.last());
    }
}

/// The id that the connection gets which is accepted after `n` others:
/// `n` itself, as long as ids are left.
pub open spec fn nth_id(n: nat) -> Option<u64> {
    if n < u64::MAX {
        Some(n as u64)
    } else {
        None
    }
}

/// The id counter of an engine that started from nothing is the number of
/// connections it has accepted, until the ids are used up.
pub proof fn lemma_counter_counts_accepts(events: Seq<Event>)
    ensures
        accepts(events) < u64::MAX ==> after_all(initial(), events).next_id == accepts(events),
        accepts(events) >= u64::MAX ==> after_all(initial(), events).next_id == u64::MAX,
    decreases events.len(),
{
    if events.len() > 0 {
        lemma_counter_counts_accepts(events.drop_last());
    }
}

/// Ids count up: in any history of an engine that started from nothing,
/// the connection that is accepted after `n` others gets the id `n`,
/// whatever was read or closed in between.
pub proof fn lemma_ids_count_up(events: Seq<Event>, i: int)
    requires
        0 <= i < events.len(),
        events[i] is Accept,
    ensures
        assigned_id(after_all(initial(), events.take(i))) == nth_id(accepts(events.take(i))),
{
    lemma_counter_counts_accepts(events.take(i));
}

/// A longer history accepts at least as many connections, and one more if
/// the event at which the shorter one ends is itself an accept.
pub proof fn lemma_accepts_grow(events: Seq<Event>, i: int, j: int)
    requires
        0 <= i <= j <= events.len(),
    ensures
        accepts(events.take(i)) <= accepts(events.take(j)),
        i < j && events[i] is Accept ==> accepts(events.take(i)) < accepts(events.take(j)),
    decreases j - i,
{
    if i < j {
        assert(events.take(j).drop_last() =~= events.take(j - 1));
        lemma_accepts_grow(events, i, j - 1);
    }
}

/// No id is assigned twice: two connections that are accepted at
/// different moments of one history get different ids, also where the
/// session of the first has left the registry in between.
pub proof fn lemma_no_id_is_assigned_twice(events: Seq<Event>, i: int, j: int)
    requires
        0 <= i < j < events.len(),
        events[i] is Accept,
        events[j] is Accept,
        assigned_id(after_all(initial(), events.take(j))) is Some,
    ensures
        assigned_id(after_all(initial(), events.take(i))) is Some,
        assigned_id(after_all(initial(), events.take(i))) != assigned_id(
            after_all(initial(), events.take(j)),
        ),
{
    lemma_ids_count_up(events, i);
    lemma_ids_count_up(events, j);
    lemma_accepts_grow(events, i, j);
}

/// A session that was closed stays out: once the worker of a session that
/// had been accepted has reported a closed connection, the registry of a
/// consistent engine holds no entry for that session at any later moment.
pub proof fn lemma_closed_session_stays_out(state: EngineView, events: Seq<Event>, i: int, j: int)
    requires
        state.wf(),
        0 <= i < j <= events.len(),
        events[i] is Read,
        classify(events[i]->val) == ReadOutcome::Closed,
        events[i]->id < after_all(state, events.take(i)).next_id,
    ensures
        !has_id(after_all(state, events.take(j)).sessions, events[i]->id),
        events[i]->id < after_all(state, events.take(j)).next_id,
    decreases j - i,
{
    let id = events[i]->id;
    let before = after_all(state, events.take(j - 1));
    assert(events.take(j).drop_last() =~= events.take(j - 1));
    assert(events.take(j).last() == events[j - 1]);
    lemma_engine_stays_consistent(state, events.take(j - 1));
    if j == i + 1 {
        if has_id(before.sessions, id) {
            lemma_without_has_id(before.sessions, id, id);
        }
    } else {
        lemma_closed_session_stays_out(state, events, i, j - 1);
        lemma_event_keeps_consistent(before, events[j - 1]);
    }
}

} // verus!
