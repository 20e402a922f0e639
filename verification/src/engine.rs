//! The engine: the registry together with the counter from which session
//! ids are assigned, and the two things that happen to it. A connection is
//! accepted, or a worker reports what its read brought.
//!
//! The engine waits for nothing and writes nothing. Whoever runs it blocks
//! for connections and reads, hands each event in, and carries out what
//! comes back.

use crate::arg_handling::{ArgError, KryptosConfig, checked_key};
use crate::broadcast::{after_broadcast, broadcast_message, fan_out, lemma_fan_out_push};
use crate::registry::{
    Registry,
    distinct_ids,
    has_id,
    lemma_without_has_id,
    position_of,
    without,
};
use crate::session::{SessionHandle, SessionView};
use crate::worker::{
    ReadOutcome,
    WorkerAction,
    WorkerActionView,
    classify,
    classify_read,
    greeting,
    greeting_bytes,
};
use vstd::prelude::*;

verus! {

/// The engine as a mathematical value.
pub struct EngineView {
    /// The registered sessions, in the order of their registration.
    pub sessions: Seq<SessionView>,
    /// The id that the next accepted connection gets.
    pub next_id: u64,
}

impl EngineView {
    /// The invariant of the engine: no two registered sessions have the
    /// same id, and every id in use was assigned before.
    pub open spec fn wf(self) -> bool {
        &&& distinct_ids(self.sessions)
        &&& forall|i: int|
            0 <= i < self.sessions.len() ==> (#[trigger] self.sessions[i]).id < self.next_id
    }
}

/// The engine before anything has happened: no session, and zero as the
/// first id.
pub open spec fn initial() -> EngineView {
    EngineView { sessions: Seq::empty(), next_id: 0 }
}

/// The session of a connection that was just accepted.
pub open spec fn fresh_session(id: u64, address: Seq<char>) -> SessionView {
    SessionView { id, address, inbound: Seq::empty(), outbound: Seq::empty() }
}

/// The id that the next accepted connection gets, as long as there is one
/// left that was never assigned.
pub open spec fn assigned_id(state: EngineView) -> Option<u64> {
    if state.next_id < u64::MAX {
        Some(state.next_id)
    } else {
        None
    }
}

/// The engine after a connection from `address` was accepted: the new
/// session stands behind the others, and the counter has moved on. Once
/// the ids are used up nothing changes any more.
pub open spec fn after_accept(state: EngineView, address: Seq<char>) -> EngineView {
    match assigned_id(state) {
        Some(id) => EngineView {
            sessions: state.sessions.push(fresh_session(id, address)),
            next_id: (id + 1) as u64,
        },
        None => state,
    }
}

/// The sessions after the session `id` has consumed what it read.
pub open spec fn consumed(sessions: Seq<SessionView>, id: u64) -> Seq<SessionView> {
    sessions.map_values(
        |s: SessionView|
            if s.id == id {
                SessionView { inbound: Seq::empty(), ..s }
            } else {
                s
            },
    )
}

/// The engine after the worker of session `id` reported a read.
///
/// A session that is not registered changes nothing. Of a registered one,
/// a closed connection takes the session out of the registry, an
/// established one changes nothing, and data is consumed by the sender and
/// flushed out of every other session.
pub open spec fn after_read(state: EngineView, id: u64, val: u64) -> EngineView {
    if !has_id(state.sessions, id) {
        state
    } else {
        match classify(val) {
            ReadOutcome::Established => state,
            ReadOutcome::Closed => EngineView { sessions: without(state.sessions, id), ..state },
            ReadOutcome::Data => EngineView {
                sessions: after_broadcast(consumed(state.sessions, id), id),
                ..state
            },
        }
    }
}

/// What the worker of session `id` has to do after a read that reported
/// `val` and brought `data`.
///
/// The message that is relayed is what the session had read and not
/// consumed, then `data`.
pub open spec fn action_after_read(state: EngineView, id: u64, val: u64, data: Seq<u8>) -> WorkerActionView {
    if !has_id(state.sessions, id) {
        WorkerActionView::Terminate
    } else {
        match classify(val) {
            ReadOutcome::Established => WorkerActionView::Continue,
            ReadOutcome::Closed => WorkerActionView::Terminate,
            ReadOutcome::Data => {
                let message = state.sessions[position_of(state.sessions, id)].inbound + data;
                WorkerActionView::Relay {
                    greeting: greeting_bytes(),
                    message,
                    deliveries: fan_out(state.sessions, id, message),
                }
            },
        }
    }
}

/// The registry and the id counter.
pub struct Engine {
    registry: Registry,
    next_id: u64,
}

impl View for Engine {
    type V = EngineView;

    closed spec fn view(&self) -> EngineView {
        EngineView { sessions: self.registry@, next_id: self.next_id }
    }
}

impl Engine {
    /// The invariant of the engine.
    pub open spec fn wf(&self) -> bool {
        self@.wf()
    }

    /// An engine in which nothing has happened yet.
    pub fn new() -> (engine: Self)
        ensures
            engine@ == initial(),
            engine.wf(),
    {
        Engine { registry: Registry::new(), next_id: 0 }
    }

    /// Starts an engine for a configuration, and refuses to if the
    /// configuration is not valid.
    pub fn start(config: &KryptosConfig) -> (started: Result<Self, ArgError>)
        ensures
            started is Ok <==> config@.valid(),
            started matches Ok(engine) ==> engine@ == initial() && engine.wf(),
            started matches Err(e) ==> checked_key(config@.optional_key, config.key_size) == Err::<
                (),
                ArgError,
            >(e),
    {
        match config.validate() {
            Ok(_) => Ok(Engine::new()),
            Err(e) => Err(e),
        }
    }

    /// The registry.
    pub fn registry(&self) -> (registry: &Registry)
        ensures
            registry@ == self@.sessions,
    {
        &self.registry
    }

    /// The id that the next accepted connection gets.
    pub fn next_id(&self) -> (id: u64)
        ensures
            id == self@.next_id,
    {
        self.next_id
    }

    /// Takes in a connection that was accepted from `address`: assigns it
    /// the next id, makes its session handle and registers it. Returns the
    /// id, for the worker that is to be started. Ids count up from zero
    /// and none is assigned twice; when none is left the connection is
    /// refused.
    pub fn accept(&mut self, address: String) -> (assigned: Option<u64>)
        requires
            old(self).wf(),
        ensures
            assigned == assigned_id(old(self)@),
            final(self)@ == after_accept(old(self)@, address@),
            final(self).wf(),
    {
        if self.next_id == u64::MAX {
            return None;
        }
        let id: u64 = self.next_id;
        let session = SessionHandle::new(id, address);
        proof {
            if has_id(self.registry@, id) {
                let i = choose|i: int|
                    0 <= i < self.registry@.len() && (#[trigger] self.registry@[i]).id == id;
                assert(self@.sessions[i].id < self.next_id);
            }
        }
        self.registry.insert(session);
        self.next_id = id + 1;
        Some(id)
    }

    /// Takes in what the worker of session `connection_id` read: `val` is
    /// what the read reported, `data` the bytes it brought. Says what the
    /// worker has to do.
    pub fn worker_step(&mut self, connection_id: u64, val: u64, data: &Vec<u8>) -> (action:
        WorkerAction)
        requires
            old(self).wf(),
        ensures
            final(self)@ == after_read(old(self)@, connection_id, val),
            action@ == action_after_read(old(self)@, connection_id, val, data@),
            final(self).wf(),
            action is Terminate ==> !has_id(final(self)@.sessions, connection_id),
            action is Terminate && has_id(old(self)@.sessions, connection_id)
                ==> final(self)@.sessions == old(self)@.sessions.remove(
                position_of(old(self)@.sessions, connection_id),
            ),
    {
        let position: usize = match self.registry.position(connection_id) {
            Some(position) => position,
            None => {
                return WorkerAction::Terminate;
            },
        };
        match classify_read(val) {
            ReadOutcome::Established => WorkerAction::Continue,
            ReadOutcome::Closed => {
                proof {
                    lemma_without_subset(self@.sessions, connection_id, self@.next_id);
                }
                self.registry.remove(connection_id);
                WorkerAction::Terminate
            },
            ReadOutcome::Data => {
                let ghost before = self@.sessions;
                let message: Vec<u8> = self.registry.receive(position, data);
                proof {
                    assert(self.registry@ =~= consumed(before, connection_id)) by {
                        assert forall|k: int| 0 <= k < before.len() implies self.registry@[k]
                            == consumed(before, connection_id)[k] by {
                            if k != position {
                                assert(before[k].id != before[position as int].id);
                            }
                        }
                    }
                    lemma_fan_out_ignores_inbound(before, connection_id, message@);
                }
                let deliveries = broadcast_message(&message, connection_id, &mut self.registry);
                proof {
                    let after = self.registry@;
                    assert forall|k: int| 0 <= k < after.len() implies (#[trigger] after[k]).id
                        == before[k].id by {}
                    assert forall|a: int, b: int| 0 <= a < b < after.len() implies (
                    #[trigger] after[a]).id != (#[trigger] after[b]).id by {
                        assert(before[a].id != before[b].id);
                    }
                }
                WorkerAction::Relay { greeting: greeting(), message, deliveries }
            },
        }
    }
}

/// Taking an id away leaves every id below a bound that all were below.
pub proof fn lemma_without_subset(sessions: Seq<SessionView>, id: u64, bound: u64)
    requires
        forall|i: int| 0 <= i < sessions.len() ==> (#[trigger] sessions[i]).id < bound,
    ensures
        forall|i: int|
            0 <= i < without(sessions, id).len() ==> (#[trigger] without(sessions, id)[i]).id
                < bound,
{
    let rest = without(sessions, id);
    assert forall|i: int| 0 <= i < rest.len() implies (#[trigger] rest[i]).id < bound by {
        assert(has_id(rest, rest[i].id));
        lemma_without_has_id(sessions, id, rest[i].id);
        let k = choose|k: int| 0 <= k < sessions.len() && (#[trigger] sessions[k]).id == rest[i].id;
        assert(sessions[k].id < bound);
    }
}

/// What the sender has read and not consumed makes no difference to what
/// the others are sent.
pub proof fn lemma_fan_out_ignores_inbound(sessions: Seq<SessionView>, id: u64, message: Seq<u8>)
    ensures
        fan_out(consumed(sessions, id), id, message) == fan_out(sessions, id, message),
    decreases sessions.len(),
{
    if sessions.len() == 0 {
        assert(consumed(sessions, id) =~= sessions);
    } else {
        let front = sessions.drop_last();
        let last = sessions.last();
        let consumed_last = consumed(sessions, id).last();
        lemma_fan_out_ignores_inbound(front, id, message);
        assert(consumed(sessions, id) =~= consumed(front, id).push(consumed_last));
        assert(sessions =~= front.push(last));
        lemma_fan_out_push(consumed(front, id), consumed_last, id, message);
        lemma_fan_out_push(front, last, id, message);
    }
}

} // verus!
