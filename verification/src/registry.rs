//! The connection registry: the sessions that are registered at this
//! moment, in the order in which they were inserted, each at most once.

use crate::session::{SessionHandle, SessionView};
use vstd::prelude::*;

verus! {

/// Whether no two entries have the same session id.
pub open spec fn distinct_ids(sessions: Seq<SessionView>) -> bool {
    forall|i: int, j: int|
        0 <= i < j < sessions.len() ==> (#[trigger] sessions[i]).id != (#[trigger] sessions[j]).id
}

/// Whether some entry has the session id `id`.
pub open spec fn has_id(sessions: Seq<SessionView>, id: u64) -> bool {
    exists|i: int| 0 <= i < sessions.len() && (#[trigger] sessions[i]).id == id
}

/// Where the entry with the session id `id` stands, if there is one. Where
/// ids are distinct there is at most one such place.
pub open spec fn position_of(sessions: Seq<SessionView>, id: u64) -> int {
    choose|p: int| 0 <= p < sessions.len() && (#[trigger] sessions[p]).id == id
}

/// The entries whose session id is not `id`, in their order.
pub open spec fn without(sessions: Seq<SessionView>, id: u64) -> Seq<SessionView> {
    sessions.filter(|s: SessionView| s.id != id)
}

/// The mathematical values of a sequence of handles.
pub open spec fn session_views(handles: Seq<SessionHandle>) -> Seq<SessionView> {
    handles.map_values(|s: SessionHandle| s@)
}

/// Taking away an id that no entry has takes away nothing.
pub proof fn lemma_without_absent(sessions: Seq<SessionView>, id: u64)
    requires
        !has_id(sessions, id),
    ensures
        without(sessions, id) == sessions,
    decreases sessions.len(),
{
    reveal(Seq::filter);
    if sessions.len() > 0 {
        let front = sessions.drop_last();
        assert(sessions[sessions.len() - 1].id != id);
        assert forall|i: int| 0 <= i < front.len() implies (#[trigger] front[i]).id != id by {
            assert(sessions[i].id != id);
        }
        lemma_without_absent(front, id);
        assert(without(front, id).push(sessions.last()) =~= sessions);
    }
}

/// Where ids are distinct, taking away the id of the entry at `position`
/// takes away that entry and no other.
pub proof fn lemma_without_present(sessions: Seq<SessionView>, position: int)
    requires
        distinct_ids(sessions),
        0 <= position < sessions.len(),
    ensures
        without(sessions, sessions[position].id) == sessions.remove(position),
    decreases sessions.len(),
{
    reveal(Seq::filter);
    let id = sessions[position].id;
    let front = sessions.drop_last();
    let last = sessions.len() - 1;
    if position == last {
        assert forall|i: int| 0 <= i < front.len() implies (#[trigger] front[i]).id != id by {
            assert(sessions[i].id != sessions[last].id);
        }
        lemma_without_absent(front, id);
        assert(without(sessions, id) == without(front, id));
        assert(sessions.remove(position) =~= front);
    } else {
        assert(sessions[position].id != sessions[last].id);
        assert(front[position].id == id);
        assert forall|i: int, j: int| 0 <= i < j < front.len() implies (#[trigger] front[i]).id
            != (#[trigger] front[j]).id by {
            assert(sessions[i].id != sessions[j].id);
        }
        lemma_without_present(front, position);
        assert(without(sessions, id) == without(front, id).push(sessions.last()));
        assert(front.remove(position).push(sessions.last()) =~= sessions.remove(position));
    }
}

/// What is left after `id` is taken away holds an id exactly if that id is
/// another one and was there before.
pub proof fn lemma_without_has_id(sessions: Seq<SessionView>, id: u64, other: u64)
    ensures
        has_id(without(sessions, id), other) <==> other != id && has_id(sessions, other),
    decreases sessions.len(),
{
    reveal(Seq::filter);
    let rest = without(sessions, id);
    if sessions.len() > 0 {
        let front = sessions.drop_last();
        let last = sessions.last();
        let front_rest = without(front, id);
        lemma_without_has_id(front, id, other);
        if has_id(rest, other) {
            let i = choose|i: int| 0 <= i < rest.len() && (#[trigger] rest[i]).id == other;
            if i < front_rest.len() {
                assert(front_rest[i].id == other);
                let k = choose|k: int| 0 <= k < front.len() && (#[trigger] front[k]).id == other;
                assert(sessions[k].id == other);
            } else {
                assert(sessions[sessions.len() - 1].id == other);
            }
        }
        if other != id && has_id(sessions, other) {
            let k = choose|k: int| 0 <= k < sessions.len() && (#[trigger] sessions[k]).id == other;
            if k < front.len() {
                assert(front[k].id == other);
                let i = choose|i: int|
                    0 <= i < front_rest.len() && (#[trigger] front_rest[i]).id == other;
                assert(rest[i].id == other);
            } else {
                assert(rest[rest.len() - 1].id == other);
            }
        }
    }
}

/// Taking an id away keeps the other ids distinct, and makes nothing longer.
pub proof fn lemma_without_distinct(sessions: Seq<SessionView>, id: u64)
    requires
        distinct_ids(sessions),
    ensures
        distinct_ids(without(sessions, id)),
        without(sessions, id).len() <= sessions.len(),
    decreases sessions.len(),
{
    reveal(Seq::filter);
    let rest = without(sessions, id);
    if sessions.len() > 0 {
        let front = sessions.drop_last();
        let last = sessions.last();
        let front_rest = without(front, id);
        assert forall|i: int, j: int| 0 <= i < j < front.len() implies (#[trigger] front[i]).id
            != (#[trigger] front[j]).id by {
            assert(sessions[i].id != sessions[j].id);
        }
        lemma_without_distinct(front, id);
        assert forall|i: int, j: int| 0 <= i < j < rest.len() implies (#[trigger] rest[i]).id
            != (#[trigger] rest[j]).id by {
            if j < front_rest.len() {
                assert(front_rest[i].id != front_rest[j].id);
            } else {
                assert(rest[j] == last);
                assert(front_rest[i].id == rest[i].id);
                lemma_without_has_id(front, id, rest[i].id);
                let k = choose|k: int| 0 <= k < front.len() && (#[trigger] front[k]).id == rest[i].id;
                assert(sessions[k].id != sessions[sessions.len() - 1].id);
            }
        }
    }
}

/// The registered sessions.
pub struct Registry {
    sessions: Vec<SessionHandle>,
}

impl View for Registry {
    type V = Seq<SessionView>;

    closed spec fn view(&self) -> Seq<SessionView> {
        self.sessions@.map_values(|s: SessionHandle| s@)
    }
}

impl Registry {
    /// The invariant of the registry: a session appears in it at most once.
    pub open spec fn wf(&self) -> bool {
        distinct_ids(self@)
    }

    /// A registry without sessions.
    pub fn new() -> (registry: Self)
        ensures
            registry@ == Seq::<SessionView>::empty(),
            registry.wf(),
    {
        let registry = Registry { sessions: Vec::new() };
        assert(registry@ =~= Seq::<SessionView>::empty());
        registry
    }

    /// The number of registered sessions.
    pub fn len(&self) -> (n: usize)
        ensures
            n == self@.len(),
    {
        self.sessions.len()
    }

    /// The id of the session at `position`.
    pub(crate) fn id_at(&self, position: usize) -> (id: u64)
        requires
            position < self@.len(),
        ensures
            id == self@[position as int].id,
    {
        self.sessions[position].id()
    }

    /// Whether a session with this id is registered.
    pub fn contains(&self, id: u64) -> (found: bool)
        ensures
            found == has_id(self@, id),
    {
        self.position(id).is_some()
    }

    /// Where the session with this id stands, if it is registered.
    pub fn position(&self, id: u64) -> (found: Option<usize>)
        ensures
            found is Some <==> has_id(self@, id),
            found matches Some(p) ==> p < self@.len() && self@[p as int].id == id && forall|i: int|
                0 <= i < p ==> (#[trigger] self@[i]).id != id,
            found matches Some(p) ==> (self.wf() ==> p == position_of(self@, id)),
    {
        let mut i: usize = 0;
        while i < self.sessions.len()
            invariant
                i <= self.sessions.len(),
                forall|k: int| 0 <= k < i ==> (#[trigger] self@[k]).id != id,
            decreases self.sessions.len() - i,
        {
            assert(self@[i as int] == self.sessions[i as int]@);
            if self.sessions[i].id() == id {
                proof {
                    let chosen = position_of(self@, id);
                    if distinct_ids(self@) && chosen != i {
                        assert(self@[chosen].id == self@[i as int].id);
                    }
                }
                return Some(i);
            }
            i = i + 1;
        }
        None
    }

    /// Registers a session that is not registered yet, behind those that
    /// are. Returns its position: the number of sessions that were
    /// registered before it.
    pub fn insert(&mut self, session: SessionHandle) -> (position: usize)
        requires
            old(self).wf(),
            !has_id(old(self)@, session@.id),
        ensures
            final(self)@ == old(self)@.push(session@),
            position == old(self)@.len(),
            final(self).wf(),
    {
        let position: usize = self.sessions.len();
        self.sessions.push(session);
        assert(self@ =~= old(self)@.push(session@));
        position
    }

    /// Takes the session with this id out of the registry and hands it
    /// back, if it is registered. The others keep their order.
    pub fn remove(&mut self, id: u64) -> (removed: Option<SessionHandle>)
        requires
            old(self).wf(),
        ensures
            final(self)@ == without(old(self)@, id),
            final(self).wf(),
            !has_id(final(self)@, id),
            removed is Some <==> has_id(old(self)@, id),
            removed matches Some(session) ==> session@ == old(self)@[position_of(old(self)@, id)],
            removed is Some ==> final(self)@ == old(self)@.remove(position_of(old(self)@, id)),
            removed is None ==> final(self)@ == old(self)@,
    {
        proof {
            lemma_without_has_id(self@, id, id);
            lemma_without_distinct(self@, id);
        }
        match self.position(id) {
            Some(position) => {
                let session = self.sessions.remove(position);
                proof {
                    lemma_without_present(old(self)@, position as int);
                    assert(self@ =~= old(self)@.remove(position as int));
                    assert(old(self)@[position as int] == session@);
                }
                Some(session)
            },
            None => {
                proof {
                    lemma_without_absent(self@, id);
                }
                None
            },
        }
    }

    /// A copy of all sessions that are registered at this moment, in their
    /// order. What happens to the registry afterwards does not show in it.
    pub fn snapshot(&self) -> (copy: Vec<SessionHandle>)
        ensures
            session_views(copy@) == self@,
    {
        let mut copy: Vec<SessionHandle> = Vec::new();
        let mut i: usize = 0;
        while i < self.sessions.len()
            invariant
                i <= self.sessions.len(),
                copy@.len() == i,
                session_views(copy@) == self@.take(i as int),
            decreases self.sessions.len() - i,
        {
            let ghost before = copy@;
            let session = self.sessions[i].clone();
            copy.push(session);
            i = i + 1;
            proof {
                assert forall|k: int| 0 <= k < i implies session_views(copy@)[k] == self@[k] by {
                    if k < i - 1 {
                        assert(copy@[k] == before[k]);
                        assert(session_views(before)[k] == self@.take(i - 1)[k]);
                    } else {
                        assert(copy@[k] == session);
                        assert(self@[k] == self.sessions@[k]@);
                    }
                }
                assert(session_views(copy@) =~= self@.take(i as int));
            }
        }
        assert(self@.take(i as int) =~= self@);
        copy
    }

    /// Takes in what the session at `position` has read and consumes it:
    /// the bytes go into its inbound buffer, a copy of the buffer is
    /// captured, and the buffer is cleared. What comes back is the capture.
    pub(crate) fn receive(&mut self, position: usize, bytes: &Vec<u8>) -> (message: Vec<u8>)
        requires
            position < old(self)@.len(),
        ensures
            message@ == old(self)@[position as int].inbound + bytes@,
            final(self)@ == old(self)@.update(
                position as int,
                (SessionView { inbound: Seq::empty(), ..old(self)@[position as int] }),
            ),
    {
        self.sessions[position].fill_read_buffer(bytes);
        let message = self.sessions[position].flush_read_buffer();
        assert(self@ =~= old(self)@.update(
            position as int,
            SessionView { inbound: Seq::empty(), ..old(self)@[position as int] },
        ));
        message
    }

    /// Delivers to the session at `position`: the message is appended to
    /// its outbound buffer, and the buffer is flushed. What comes back is
    /// what the transport has to write.
    pub(crate) fn deliver(&mut self, position: usize, message: &Vec<u8>) -> (bytes: Vec<u8>)
        requires
            position < old(self)@.len(),
        ensures
            bytes@ == old(self)@[position as int].outbound + message@,
            final(self)@ == old(self)@.update(
                position as int,
                (SessionView { outbound: Seq::empty(), ..old(self)@[position as int] }),
            ),
    {
        self.sessions[position].fill_write_buffer(message);
        let bytes = self.sessions[position].flush_write_buffer();
        assert(self@ =~= old(self)@.update(
            position as int,
            SessionView { outbound: Seq::empty(), ..old(self)@[position as int] },
        ));
        bytes
    }
}

} // verus!
