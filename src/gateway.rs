//! The decisions of one terminal connection: which frames start, feed,
//! resize or end which session, and what the client is told. The transport,
//! the terminals and the threads stay outside; they perform the actions
//! asked for here and report back.

use vstd::prelude::*;
use vstd::string::*;
use crate::protocol::{ClientMessage, ServerMessage};
use crate::registry::SessionTable;

verus! {

/// The live sessions of a connection, each with the serial number that its
/// read loop carries and its handle.
pub type Live<H> = Map<Seq<char>, (u64, H)>;

/// What the connection does next with the outside world.
pub enum Action<H> {
    /// Spawn a shell on a new terminal for this session id, then report the
    /// outcome with `spawned`.
    Spawn { session_id: String },
    /// Write these bytes to the session's terminal and flush them.
    Write { session_id: String, data: String },
    /// Give the session's terminal this geometry.
    Resize { session_id: String, cols: u16, rows: u16 },
    /// Send `reply`, and release the handle, which is no longer registered.
    Release { handle: H, reply: ServerMessage },
    /// Send a message.
    Reply { message: ServerMessage },
    /// Nothing to do.
    Ignore,
}

/// The session id of a `create`: the client's own, else a generated one.
pub open spec fn chosen_id(requested: Option<String>, generated: Seq<char>) -> Seq<char> {
    match requested {
        Some(id) => id@,
        None => generated,
    }
}

/// The error sent for a `create` whose id is already live.
pub open spec fn in_use_message(id: Seq<char>) -> Seq<char> {
    "session id already in use: "@ + id
}

/// The error sent when no more sessions can be numbered.
pub open spec fn exhausted_message() -> Seq<char> {
    "no session numbers left"@
}

/// How one decoded frame moves the live sessions from `old` to `new` and
/// what it asks for (`r`). A `create` picks `generated` where the client
/// names no id.
pub open spec fn dispatched<H>(
    old: Live<H>,
    new: Live<H>,
    msg: ClientMessage,
    generated: Seq<char>,
    r: Action<H>,
) -> bool {
    match msg {
        ClientMessage::Create { id } => {
            let chosen = chosen_id(id, generated);
            &&& new == old
            &&& if old.contains_key(chosen) {
                match r {
                    Action::Reply { message: ServerMessage::Error { message } } => message@
                        == in_use_message(chosen),
                    _ => false,
                }
            } else {
                match r {
                    Action::Spawn { session_id } => session_id@ == chosen,
                    _ => false,
                }
            }
        },
        ClientMessage::Input { session_id, data } => {
            &&& new == old
            &&& if old.contains_key(session_id@) {
                r == Action::<H>::Write { session_id, data }
            } else {
                r is Ignore
            }
        },
        ClientMessage::Resize { session_id, cols, rows } => {
            &&& new == old
            &&& if old.contains_key(session_id@) {
                r == Action::<H>::Resize { session_id, cols, rows }
            } else {
                r is Ignore
            }
        },
        ClientMessage::Close { session_id } => {
            if old.contains_key(session_id@) {
                &&& new == old.remove(session_id@)
                &&& r == Action::<H>::Release {
                    handle: old[session_id@].1,
                    reply: ServerMessage::Closed { session_id },
                }
            } else {
                &&& new == old
                &&& r is Ignore
            }
        },
    }
}

/// How the end of the read loop numbered `serial` of `session_id` moves the
/// live sessions from `old` to `new`, and what comes back (`r`): only the
/// session that the loop belongs to is closed.
pub open spec fn read_end_step<H>(
    old: Live<H>,
    new: Live<H>,
    session_id: String,
    serial: u64,
    r: Option<(H, ServerMessage)>,
) -> bool {
    if old.contains_key(session_id@) && old[session_id@].0 == serial {
        &&& new == old.remove(session_id@)
        &&& r == Some((old[session_id@].1, ServerMessage::Closed { session_id }))
    } else {
        &&& new == old
        &&& r is None
    }
}

/// How recording a spawn outcome for `session_id` moves the live sessions
/// from `old` to `new` and the next serial number from `next` to
/// `new_next`, and what comes back (`r`).
pub open spec fn spawned_step<H>(
    old: Live<H>,
    new: Live<H>,
    next: u64,
    new_next: u64,
    session_id: String,
    outcome: Result<H, String>,
    r: (ServerMessage, Option<u64>, Option<H>),
) -> bool {
    match outcome {
        Err(e) => {
            &&& new == old
            &&& new_next == next
            &&& r == (ServerMessage::Error { message: e }, None::<u64>, None::<H>)
        },
        Ok(h) => if old.contains_key(session_id@) {
            &&& new == old
            &&& new_next == next
            &&& r.0 matches ServerMessage::Error { message }
            &&& r.0->Error_message@ == in_use_message(session_id@)
            &&& r.1 is None
            &&& r.2 == Some(h)
        } else if next == u64::MAX {
            &&& new == old
            &&& new_next == next
            &&& r.0 matches ServerMessage::Error { message }
            &&& r.0->Error_message@ == exhausted_message()
            &&& r.1 is None
            &&& r.2 == Some(h)
        } else {
            &&& new == old.insert(session_id@, (next, h))
            &&& new_next == next + 1
            &&& r.0 == ServerMessage::Created { session_id }
            &&& r.1 == Some(next)
            &&& r.2 is None
        },
    }
}

/// The ids announced with `created` among some replies, in order.
pub open spec fn created_ids(replies: Seq<ServerMessage>) -> Seq<Seq<char>>
    decreases replies.len(),
{
    if replies.len() == 0 {
        Seq::empty()
    } else {
        let rest = created_ids(replies.drop_last());
        match replies.last() {
            ServerMessage::Created { session_id } => rest.push(session_id@),
            _ => rest,
        }
    }
}

/// Whether `states`, `serials`, `replies` is a run of `spawned` over `ids`
/// and `outcomes`.
pub open spec fn spawn_run<H>(
    states: Seq<Live<H>>,
    serials: Seq<u64>,
    ids: Seq<String>,
    outcomes: Seq<Result<H, String>>,
    replies: Seq<(ServerMessage, Option<u64>, Option<H>)>,
) -> bool {
    &&& states.len() == ids.len() + 1
    &&& serials.len() == ids.len() + 1
    &&& outcomes.len() == ids.len()
    &&& replies.len() == ids.len()
    &&& forall|i: int|
        0 <= i < ids.len() ==> #[trigger] spawned_step(
            states[i],
            states[i + 1],
            serials[i],
            serials[i + 1],
            ids[i],
            outcomes[i],
            replies[i],
        )
}

pub open spec fn first_of<H>(replies: Seq<(ServerMessage, Option<u64>, Option<H>)>) -> Seq<ServerMessage> {
    replies.map_values(|r: (ServerMessage, Option<u64>, Option<H>)| r.0)
}

/// Over any run of creates on a connection, every id announced with
/// `created` is unique: it was not live before the run, no other
/// announcement of the run repeats it, and it is live after the run; the
/// sessions live before stay live.
pub proof fn lemma_created_ids_unique<H>(
    states: Seq<Live<H>>,
    serials: Seq<u64>,
    ids: Seq<String>,
    outcomes: Seq<Result<H, String>>,
    replies: Seq<(ServerMessage, Option<u64>, Option<H>)>,
)
    requires
        spawn_run(states, serials, ids, outcomes, replies),
    ensures
        created_ids(first_of(replies)).no_duplicates(),
        forall|i: int|
            0 <= i < created_ids(first_of(replies)).len() ==> {
                &&& !states[0].contains_key(#[trigger] created_ids(first_of(replies))[i])
                &&& states.last().contains_key(created_ids(first_of(replies))[i])
            },
        forall|k: Seq<char>| states[0].contains_key(k) ==> #[trigger] states.last().contains_key(k),
    decreases ids.len(),
{
    if ids.len() > 0 {
        let n = ids.len() - 1;
        let s2 = states.drop_last();
        let v2 = serials.drop_last();
        let i2 = ids.drop_last();
        let o2 = outcomes.drop_last();
        let r2 = replies.drop_last();
        assert forall|i: int| 0 <= i < i2.len() implies #[trigger] spawned_step(
            s2[i],
            s2[i + 1],
            v2[i],
            v2[i + 1],
            i2[i],
            o2[i],
            r2[i],
        ) by {
            assert(spawned_step(
                states[i],
                states[i + 1],
                serials[i],
                serials[i + 1],
                ids[i],
                outcomes[i],
                replies[i],
            ));
        }
        lemma_created_ids_unique(s2, v2, i2, o2, r2);
        assert(spawned_step(
            states[n],
            states[n + 1],
            serials[n],
            serials[n + 1],
            ids[n],
            outcomes[n],
            replies[n],
        ));
        assert(first_of(r2) =~= first_of(replies).drop_last());
        let before = created_ids(first_of(r2));
        let now = created_ids(first_of(replies));
        assert(s2.last() == states[n]);
        assert(states.last() == states[n + 1]);
        assert(forall|k: Seq<char>| states[n].contains_key(k) ==> states[n + 1].contains_key(k));
        if now.len() > before.len() {
            assert(now == before.push(ids[n]@));
            let id = ids[n]@;
            assert(!states[n].contains_key(id));
            assert forall|i: int, j: int| 0 <= i < now.len() && 0 <= j < now.len() && i != j implies now[i]
                != now[j] by {
                if i == before.len() {
                    assert(states[n].contains_key(before[j]));
                } else if j == before.len() {
                    assert(states[n].contains_key(before[i]));
                } else {
                    assert(now[i] == before[i] && now[j] == before[j]);
                }
            }
            assert forall|i: int| 0 <= i < now.len() implies {
                &&& !states[0].contains_key(#[trigger] now[i])
                &&& states.last().contains_key(now[i])
            } by {
                if i < before.len() {
                    assert(now[i] == before[i]);
                    assert(states[n].contains_key(before[i]));
                } else {
                    assert(now[i] == id);
                }
            }
        } else {
            assert(now == before);
            assert forall|i: int| 0 <= i < now.len() implies {
                &&& !states[0].contains_key(#[trigger] now[i])
                &&& states.last().contains_key(now[i])
            } by {
                assert(states[n].contains_key(before[i]));
            }
        }
    }
}

/// The bytes written to session `id` by a run of actions.
pub open spec fn writes_to<H>(actions: Seq<Action<H>>, id: Seq<char>) -> Seq<char>
    decreases actions.len(),
{
    if actions.len() == 0 {
        Seq::empty()
    } else {
        writes_to(actions.drop_last(), id) + match actions.last() {
            Action::Write { session_id, data } => if session_id@ == id {
                data@
            } else {
                Seq::empty()
            },
            _ => Seq::empty(),
        }
    }
}

/// The bytes that a run of frames sends as input to session `id`.
pub open spec fn inputs_to(frames: Seq<ClientMessage>, id: Seq<char>) -> Seq<char>
    decreases frames.len(),
{
    if frames.len() == 0 {
        Seq::empty()
    } else {
        inputs_to(frames.drop_last(), id) + match frames.last() {
            ClientMessage::Input { session_id, data } => if session_id@ == id {
                data@
            } else {
                Seq::empty()
            },
            _ => Seq::empty(),
        }
    }
}

/// Whether `states`, `actions` is a run of `dispatch` over `frames`.
pub open spec fn dispatch_run<H>(
    states: Seq<Live<H>>,
    frames: Seq<ClientMessage>,
    generated: Seq<Seq<char>>,
    actions: Seq<Action<H>>,
) -> bool {
    &&& states.len() == frames.len() + 1
    &&& generated.len() == frames.len()
    &&& actions.len() == frames.len()
    &&& forall|i: int|
        0 <= i < frames.len() ==> #[trigger] dispatched(
            states[i],
            states[i + 1],
            frames[i],
            generated[i],
            actions[i],
        )
}

/// While a session is live and no frame closes it, exactly the bytes of the
/// `input` frames for it are written to it, in the order sent, and nothing
/// of the input for other sessions comes in between.
pub proof fn lemma_input_in_order<H>(
    states: Seq<Live<H>>,
    frames: Seq<ClientMessage>,
    generated: Seq<Seq<char>>,
    actions: Seq<Action<H>>,
    id: Seq<char>,
)
    requires
        dispatch_run(states, frames, generated, actions),
        states[0].contains_key(id),
        forall|i: int|
            0 <= i < frames.len() ==> !(#[trigger] frames[i] matches ClientMessage::Close {
                session_id,
            } && session_id@ == id),
    ensures
        writes_to(actions, id) == inputs_to(frames, id),
        states.last().contains_key(id),
    decreases frames.len(),
{
    if frames.len() > 0 {
        let n = frames.len() - 1;
        let s2 = states.drop_last();
        let f2 = frames.drop_last();
        let g2 = generated.drop_last();
        let a2 = actions.drop_last();
        assert forall|i: int| 0 <= i < f2.len() implies #[trigger] dispatched(
            s2[i],
            s2[i + 1],
            f2[i],
            g2[i],
            a2[i],
        ) by {
            assert(dispatched(states[i], states[i + 1], frames[i], generated[i], actions[i]));
        }
        assert forall|i: int| 0 <= i < f2.len() implies !(#[trigger] f2[i] matches ClientMessage::Close {
            session_id,
        } && session_id@ == id) by {
            assert(f2[i] == frames[i]);
        }
        lemma_input_in_order(s2, f2, g2, a2, id);
        assert(dispatched(states[n], states[n + 1], frames[n], generated[n], actions[n]));
        assert(states[n] == s2.last());
        match frames[n] {
            ClientMessage::Close { session_id } => {
                assert(session_id@ != id);
                assert(states[n + 1].contains_key(id));
            },
            ClientMessage::Input { session_id, data } => {
                if states[n].contains_key(session_id@) {
                    assert(actions[n] == Action::<H>::Write { session_id, data });
                }
            },
            _ => {},
        }
        assert(writes_to(a2, id) == inputs_to(f2, id));
    }
}

/// Whether an action sends `closed` for session `id`.
pub open spec fn closes<H>(a: Action<H>, id: Seq<char>) -> bool {
    match a {
        Action::Release { reply: ServerMessage::Closed { session_id }, .. } => session_id@ == id,
        _ => false,
    }
}

/// Whether the end of a read loop sends `closed` for session `id`.
pub open spec fn ended_closes<H>(ended: Option<(H, ServerMessage)>, id: Seq<char>) -> bool {
    match ended {
        Some((_, ServerMessage::Closed { session_id })) => session_id@ == id,
        _ => false,
    }
}

/// Two `close` frames for the same session send `closed` once if it was
/// live, and never otherwise; after the first, it is no longer live.
pub proof fn lemma_close_idempotent<H>(
    s0: Live<H>,
    s1: Live<H>,
    s2: Live<H>,
    first: String,
    second: String,
    g1: Seq<char>,
    g2: Seq<char>,
    a1: Action<H>,
    a2: Action<H>,
)
    requires
        first@ == second@,
        dispatched(s0, s1, ClientMessage::Close { session_id: first }, g1, a1),
        dispatched(s1, s2, ClientMessage::Close { session_id: second }, g2, a2),
    ensures
        closes(a1, first@) == s0.contains_key(first@),
        !closes(a2, first@),
        !s2.contains_key(first@),
        s2 == s0.remove(first@),
{
    assert(s0.remove(first@).remove(first@) =~= s0.remove(first@));
}

/// A session whose shell ends by itself sends `closed` exactly once: when
/// its read loop ends, and not again for a later `close`; and a read loop
/// that ends after a `close` sends nothing.
pub proof fn lemma_exit_closes_once<H>(
    s0: Live<H>,
    s1: Live<H>,
    s2: Live<H>,
    id: String,
    other: String,
    serial: u64,
    ended: Option<(H, ServerMessage)>,
    g: Seq<char>,
    a: Action<H>,
)
    requires
        id@ == other@,
        s0.contains_key(id@),
        s0[id@].0 == serial,
    ensures
        read_end_step(s0, s1, id, serial, ended) && dispatched(
            s1,
            s2,
            ClientMessage::Close { session_id: other },
            g,
            a,
        ) ==> ended_closes(ended, id@) && !closes(a, id@) && !s2.contains_key(id@),
        dispatched(s0, s1, ClientMessage::Close { session_id: other }, g, a) && read_end_step(
            s1,
            s2,
            id,
            serial,
            ended,
        ) ==> closes(a, id@) && ended is None && !s2.contains_key(id@),
{
}

/// Relies on uuid::Uuid::new_v4 and its `Display`: a random id, of which
/// nothing is promised.
#[verifier::external_body]
fn random_session_id() -> (r: String) {
    uuid::Uuid::new_v4().to_string()
}

/// The state of one client connection: the sessions it owns.
pub struct Gateway<H> {
    sessions: SessionTable<(u64, H)>,
    next: u64,
}

impl<H> Gateway<H> {
    pub closed spec fn live(&self) -> Live<H> {
        self.sessions@
    }

    /// The serial number that the next registered session gets.
    pub closed spec fn next_serial(&self) -> u64 {
        self.next
    }

    pub closed spec fn wf(&self) -> bool {
        self.sessions.wf()
    }

    pub fn new() -> (r: Self)
        ensures
            r.wf(),
            r.live() == Live::<H>::empty(),
            r.next_serial() == 0,
    {
        Gateway { sessions: SessionTable::new(), next: 0 }
    }

    /// Whether `session_id` is live.
    pub fn is_live(&self, session_id: &str) -> (r: bool)
        requires
            self.wf(),
        ensures
            r == self.live().contains_key(session_id@),
    {
        self.sessions.contains(session_id)
    }

    /// The handle of a live session, for the writes and resizes that
    /// `dispatch` asks for.
    pub fn handle(&self, session_id: &str) -> (r: Option<&H>)
        requires
            self.wf(),
        ensures
            match r {
                Some(h) => self.live().contains_key(session_id@) && *h == self.live()[session_id@].1,
                None => !self.live().contains_key(session_id@),
            },
    {
        match self.sessions.lookup(session_id) {
            Some(entry) => Some(&entry.1),
            None => None,
        }
    }

    /// Decides what one decoded frame does; `generated` is the id that a
    /// `create` without an id of its own gets.
    pub fn dispatch(&mut self, msg: ClientMessage, generated: String) -> (r: Action<H>)
        requires
            old(self).wf(),
        ensures
            final(self).wf(),
            final(self).next_serial() == old(self).next_serial(),
            dispatched(old(self).live(), final(self).live(), msg, generated@, r),
    {
        match msg {
            ClientMessage::Create { id } => {
                let session_id = match id {
                    Some(id) => id,
                    None => generated,
                };
                if self.sessions.contains(session_id.as_str()) {
                    let mut message = String::from_str("session id already in use: ");
                    message.append(session_id.as_str());
                    Action::Reply { message: ServerMessage::Error { message } }
                } else {
                    Action::Spawn { session_id }
                }
            },
            ClientMessage::Input { session_id, data } => {
                if self.sessions.contains(session_id.as_str()) {
                    Action::Write { session_id, data }
                } else {
                    Action::Ignore
                }
            },
            ClientMessage::Resize { session_id, cols, rows } => {
                if self.sessions.contains(session_id.as_str()) {
                    Action::Resize { session_id, cols, rows }
                } else {
                    Action::Ignore
                }
            },
            ClientMessage::Close { session_id } => {
                match self.sessions.remove(session_id.as_str()) {
                    Some(entry) => Action::Release {
                        handle: entry.1,
                        reply: ServerMessage::Closed { session_id },
                    },
                    None => Action::Ignore,
                }
            },
        }
    }

    /// `dispatch`, with a fresh random id for a `create` that names none.
    pub fn on_frame(&mut self, msg: ClientMessage) -> (r: Action<H>)
        requires
            old(self).wf(),
        ensures
            final(self).wf(),
            final(self).next_serial() == old(self).next_serial(),
            exists|generated: Seq<char>|
                dispatched(old(self).live(), final(self).live(), msg, generated, r),
    {
        let generated = match &msg {
            ClientMessage::Create { id: None } => random_session_id(),
            _ => String::new(),
        };
        self.dispatch(msg, generated)
    }

    /// Records the outcome of spawning the shell of a `Spawn`. A spawned
    /// session is registered and announced with `created`, and its serial
    /// number comes back for its read loop; a failure is reported with
    /// `error` and nothing is registered. A handle that cannot be registered
    /// comes back, to be released.
    pub fn spawned(&mut self, session_id: String, outcome: Result<H, String>) -> (r: (
        ServerMessage,
        Option<u64>,
        Option<H>,
    ))
        requires
            old(self).wf(),
        ensures
            final(self).wf(),
            spawned_step(
                old(self).live(),
                final(self).live(),
                old(self).next_serial(),
                final(self).next_serial(),
                session_id,
                outcome,
                r,
            ),
    {
        match outcome {
            Err(e) => (ServerMessage::Error { message: e }, None, None),
            Ok(h) => {
                if self.sessions.contains(session_id.as_str()) {
                    let mut message = String::from_str("session id already in use: ");
                    message.append(session_id.as_str());
                    (ServerMessage::Error { message }, None, Some(h))
                } else if self.next == u64::MAX {
                    (ServerMessage::Error { message: String::from_str("no session numbers left") }, None, Some(h))
                } else {
                    let serial = self.next;
                    let key = session_id.clone();
                    let registered = self.sessions.register(key, (serial, h));
                    proof {
                        assert(registered is Ok);
                    }
                    self.next = self.next + 1;
                    (ServerMessage::Created { session_id }, Some(serial), None)
                }
            },
        }
    }

    /// The read loop numbered `serial` of `session_id` has ended: its shell
    /// exited or its terminal failed. If that session is still live, it is
    /// unregistered, its handle comes back to be released, and `closed` is
    /// sent; a session closed before, or a newer session under the same id,
    /// is left alone.
    pub fn read_ended(&mut self, session_id: String, serial: u64) -> (r: Option<(H, ServerMessage)>)
        requires
            old(self).wf(),
        ensures
            final(self).wf(),
            final(self).next_serial() == old(self).next_serial(),
            read_end_step(old(self).live(), final(self).live(), session_id, serial, r),
    {
        let current = match self.sessions.lookup(session_id.as_str()) {
            Some(entry) => entry.0 == serial,
            None => false,
        };
        if current {
            match self.sessions.remove(session_id.as_str()) {
                Some(entry) => Some((entry.1, ServerMessage::Closed { session_id })),
                None => None,
            }
        } else {
            None
        }
    }

    /// The connection is gone: every session is unregistered and comes back,
    /// with its id, to have its shell terminated.
    pub fn disconnect(&mut self) -> (r: Vec<(String, H)>)
        requires
            old(self).wf(),
        ensures
            final(self).wf(),
            final(self).live() == Live::<H>::empty(),
            final(self).next_serial() == old(self).next_serial(),
            forall|i: int, j: int|
                0 <= i < j < r@.len() ==> #[trigger] r@[i].0@ != #[trigger] r@[j].0@,
            forall|i: int|
                0 <= i < r@.len() ==> #[trigger] old(self).live().contains_key(r@[i].0@) && old(
                    self,
                ).live()[r@[i].0@].1 == r@[i].1,
            forall|k: Seq<char>| #[trigger]
                old(self).live().contains_key(k) ==> exists|i: int|
                    0 <= i < r@.len() && #[trigger] r@[i].0@ == k,
    {
        let mut entries = self.sessions.drain();
        let ghost all = entries@;
        let mut out: Vec<(String, H)> = Vec::new();
        while entries.len() > 0
            invariant
                entries@ == all.take(entries@.len() as int),
                entries@.len() + out@.len() == all.len(),
                forall|j: int|
                    0 <= j < out@.len() ==> #[trigger] out@[j] == (
                        all[all.len() - 1 - j].0,
                        all[all.len() - 1 - j].1.1,
                    ),
            decreases entries@.len(),
        {
            let (id, (_serial, h)) = entries.pop().unwrap();
            out.push((id, h));
        }
        let ghost n = all.len();
        assert forall|i: int, j: int| 0 <= i < j < out@.len() implies #[trigger] out@[i].0@
            != #[trigger] out@[j].0@ by {
            assert(out@[i].0 == all[n - 1 - i].0);
            assert(out@[j].0 == all[n - 1 - j].0);
        }
        assert forall|i: int| 0 <= i < out@.len() implies #[trigger] old(self).live().contains_key(
            out@[i].0@,
        ) && old(self).live()[out@[i].0@].1 == out@[i].1 by {
            assert(out@[i] == (all[n - 1 - i].0, all[n - 1 - i].1.1));
        }
        assert forall|k: Seq<char>| #[trigger] old(self).live().contains_key(k) implies exists|
            i: int,
        | 0 <= i < out@.len() && #[trigger] out@[i].0@ == k by {
            let oi = choose|i: int| 0 <= i < all.len() && #[trigger] all[i].0@ == k;
            assert(out@[n - 1 - oi].0 == all[oi].0);
        }
        out
    }
}

} // verus!
