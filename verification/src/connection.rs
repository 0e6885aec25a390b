//! The server's connection table.
//!
//! A connection is `Connecting` once the transport has accepted it,
//! `Established` once it has been given a player identity, and `Closed` when
//! it has left the table. Whoever reads the sockets tells the table what
//! happened; the table answers with lifecycle events for the tick loop.

use vstd::prelude::*;
use vstd::seq_lib::seq_to_set_is_finite;
use vstd::set_lib::lemma_len_subset;
use crate::ident::{PlayerId, SessionId};
use crate::keyed::{distinct_keys, has_key, lemma_remove_is_without, lemma_without, without, Keyed};
use crate::messages::Direction;
use crate::registry::Registry;
use crate::stream::{intake, Inbox, Intake};

verus! {

/// Where a connection stands.
#[derive(Clone, Copy, Debug, PartialEq, Eq, Structural)]
pub enum ConnState {
    Connecting,
    Established,
    Closed,
}

/// One live connection. It has a player once it is established.
#[derive(Clone, Copy, Debug, PartialEq, Eq)]
pub struct Session {
    pub id: SessionId,
    pub player: Option<PlayerId>,
}

impl Keyed for Session {
    type Key = SessionId;

    open spec fn key(&self) -> SessionId {
        self.id
    }
}

/// What the tick loop is told about connections.
#[derive(Clone, Copy, Debug, PartialEq, Eq, Structural)]
pub enum LifecycleEvent {
    Connected { session: SessionId, player: PlayerId },
    Disconnected { session: SessionId, player: PlayerId },
}

/// Why the table turned a request down.
#[derive(Clone, Copy, Debug, PartialEq, Eq, Structural)]
pub enum ConnectionError {
    /// No live connection has this handle.
    UnknownSession,
    /// A live connection has this handle already.
    DuplicateSession,
    /// The connection has its player already.
    AlreadyEstablished,
    /// The connection is not established.
    NotEstablished,
}

/// Some established connection belongs to the player `id`.
pub open spec fn uses_id(sessions: Seq<Session>, id: PlayerId) -> bool {
    exists|i: int| 0 <= i < sessions.len() && sessions[i].player == Some(id)
}

/// No two established connections belong to the same player.
pub open spec fn distinct_players(sessions: Seq<Session>) -> bool {
    forall|i: int, j: int|
        0 <= i < j < sessions.len() && sessions[i].player is Some ==> sessions[i].player
            != sessions[j].player
}

/// The table after the connection `session` has been given `player`.
pub open spec fn established(sessions: Seq<Session>, session: SessionId, player: PlayerId) -> Seq<
    Session,
> {
    sessions.map_values(
        |s: Session|
            if s.id == session {
                Session { id: s.id, player: Some(player) }
            } else {
                s
            },
    )
}

/// The table after a new connection `session` has come and been given
/// `player`.
pub open spec fn connected(sessions: Seq<Session>, session: SessionId, player: PlayerId) -> Seq<
    Session,
> {
    established(sessions.push(Session { id: session, player: None }), session, player)
}

/// Where the connection with this handle stands in a table: closed when the
/// table does not hold it, connecting while it has no player, established
/// once it has one.
pub open spec fn state_in(sessions: Seq<Session>, session: SessionId) -> ConnState {
    if !has_key(sessions, session) {
        ConnState::Closed
    } else if sessions.contains(Session { id: session, player: None }) {
        ConnState::Connecting
    } else {
        ConnState::Established
    }
}

/// A connection that comes to the table is connecting; the others stand
/// where they stood.
pub proof fn lemma_state_after_open(sessions: Seq<Session>, session: SessionId)
    requires
        !has_key(sessions, session),
    ensures
        state_in(sessions.push(Session { id: session, player: None }), session)
            == ConnState::Connecting,
        forall|s: SessionId|
            s != session ==> #[trigger] state_in(
                sessions.push(Session { id: session, player: None }),
                s,
            ) == state_in(sessions, s),
{
    let new = Session { id: session, player: None };
    let after = sessions.push(new);
    assert(after[sessions.len() as int] == new);
    assert forall|s: SessionId| s != session implies #[trigger] state_in(after, s) == state_in(
        sessions,
        s,
    ) by {
        let idle = Session { id: s, player: None };
        if has_key(sessions, s) {
            let i = choose|i: int| 0 <= i < sessions.len() && sessions[i].key() == s;
            assert(after[i].key() == s);
        }
        if has_key(after, s) {
            let i = choose|i: int| 0 <= i < after.len() && after[i].key() == s;
            assert(sessions[i].key() == s);
        }
        if sessions.contains(idle) {
            let i = choose|i: int| 0 <= i < sessions.len() && sessions[i] == idle;
            assert(after[i] == idle);
        }
        if after.contains(idle) {
            let i = choose|i: int| 0 <= i < after.len() && after[i] == idle;
            assert(sessions[i] == idle);
        }
    }
}

/// A connection that is given its player is established; the others stand
/// where they stood.
pub proof fn lemma_state_after_establish(
    sessions: Seq<Session>,
    session: SessionId,
    player: PlayerId,
)
    requires
        has_key(sessions, session),
    ensures
        state_in(established(sessions, session, player), session) == ConnState::Established,
        established(sessions, session, player).contains(
            Session { id: session, player: Some(player) },
        ),
        uses_id(established(sessions, session, player), player),
        forall|s: SessionId|
            s != session ==> #[trigger] state_in(established(sessions, session, player), s)
                == state_in(sessions, s),
{
    let after = established(sessions, session, player);
    let k = choose|k: int| 0 <= k < sessions.len() && sessions[k].key() == session;
    assert(after[k] == Session { id: session, player: Some(player) });
    assert(after[k].key() == session);
    assert(!after.contains(Session { id: session, player: None })) by {
        let idle = Session { id: session, player: None };
        if after.contains(idle) {
            let i = choose|i: int| 0 <= i < after.len() && after[i] == idle;
            assert(sessions[i].id == session || after[i] == sessions[i]);
        }
    }
    assert forall|s: SessionId| s != session implies #[trigger] state_in(after, s) == state_in(
        sessions,
        s,
    ) by {
        let idle = Session { id: s, player: None };
        if has_key(sessions, s) {
            let i = choose|i: int| 0 <= i < sessions.len() && sessions[i].key() == s;
            assert(after[i].key() == s);
        }
        if has_key(after, s) {
            let i = choose|i: int| 0 <= i < after.len() && after[i].key() == s;
            assert(sessions[i].key() == s);
        }
        if sessions.contains(idle) {
            let i = choose|i: int| 0 <= i < sessions.len() && sessions[i] == idle;
            assert(after[i] == idle);
        }
        if after.contains(idle) {
            let i = choose|i: int| 0 <= i < after.len() && after[i] == idle;
            assert(sessions[i] == idle);
        }
    }
}

/// A connection that leaves the table is closed; the others stand where
/// they stood.
pub proof fn lemma_state_after_close(sessions: Seq<Session>, session: SessionId)
    ensures
        state_in(without(sessions, session), session) == ConnState::Closed,
        forall|s: SessionId|
            s != session ==> #[trigger] state_in(without(sessions, session), s) == state_in(
                sessions,
                s,
            ),
{
    let after = without(sessions, session);
    lemma_without(sessions, session);
    assert forall|s: SessionId| s != session implies #[trigger] state_in(after, s) == state_in(
        sessions,
        s,
    ) by {
        let idle = Session { id: s, player: None };
        if has_key(sessions, s) {
            let i = choose|i: int| 0 <= i < sessions.len() && sessions[i].key() == s;
            assert(after.contains(sessions[i]));
            let j = choose|j: int| 0 <= j < after.len() && after[j] == sessions[i];
            assert(after[j].key() == s);
        }
        if has_key(after, s) {
            let i = choose|i: int| 0 <= i < after.len() && after[i].key() == s;
            assert(sessions.contains(after[i]));
            let j = choose|j: int| 0 <= j < sessions.len() && sessions[j] == after[i];
            assert(sessions[j].key() == s);
        }
        if sessions.contains(idle) {
            let i = choose|i: int| 0 <= i < sessions.len() && sessions[i] == idle;
            assert(sessions[i].key() != session);
            assert(after.contains(sessions[i]));
        }
        if after.contains(idle) {
            let i = choose|i: int| 0 <= i < after.len() && after[i] == idle;
            assert(sessions.contains(after[i]));
        }
    }
}

/// An identity that no connection has is the first free one from itself
/// upwards, unless it lies too near the top of the range.
pub proof fn lemma_free_candidate_is_taken(sessions: Seq<Session>, candidate: u128, id: PlayerId)
    requires
        is_fresh(sessions, candidate, id),
        !uses_id(sessions, PlayerId(candidate)),
        candidate <= u128::MAX - sessions.len(),
    ensures
        id == PlayerId(candidate),
{
}

/// Where the search for a free identity starts: at the candidate, or as far
/// below the top as there are connections, whichever is lower.
pub open spec fn first_try(candidate: u128, n: nat) -> u128 {
    if candidate > u128::MAX - n {
        (u128::MAX - n) as u128
    } else {
        candidate
    }
}

/// `id` is the first identity from `first_try` upwards that no connection
/// has.
pub open spec fn is_fresh(sessions: Seq<Session>, candidate: u128, id: PlayerId) -> bool {
    &&& !uses_id(sessions, id)
    &&& first_try(candidate, sessions.len()) <= id.0
    &&& forall|v: u128|
        first_try(candidate, sessions.len()) <= v < id.0 ==> uses_id(sessions, PlayerId(v))
}

/// `uuid::Uuid::new_v4` and `Uuid::as_u128`: the 128 bits of a random UUID.
/// The value comes from the operating system's random source, so nothing is
/// claimed of it.
#[verifier::external_body]
fn random_uuid() -> (r: u128) {
    uuid::Uuid::new_v4().as_u128()
}

/// The live connections and the events that nobody has fetched yet.
pub struct ConnectionManager {
    sessions: Vec<Session>,
    events: Vec<LifecycleEvent>,
}

impl ConnectionManager {
    /// The live connections, oldest first.
    pub closed spec fn sessions(&self) -> Seq<Session> {
        self.sessions@
    }

    /// The events that have not been fetched, oldest first.
    pub closed spec fn events(&self) -> Seq<LifecycleEvent> {
        self.events@
    }

    /// Handles are distinct, and so are the players of established
    /// connections.
    pub open spec fn wf(&self) -> bool {
        distinct_keys(self.sessions()) && distinct_players(self.sessions())
    }

    /// A live connection has this handle.
    pub open spec fn has(&self, session: SessionId) -> bool {
        has_key(self.sessions(), session)
    }

    /// An established connection belongs to this player.
    pub open spec fn uses(&self, id: PlayerId) -> bool {
        uses_id(self.sessions(), id)
    }

    /// Where the connection with this handle stands.
    pub open spec fn state_spec(&self, session: SessionId) -> ConnState {
        state_in(self.sessions(), session)
    }

    /// A table without connections.
    pub fn new() -> (r: ConnectionManager)
        ensures
            r.wf(),
            r.sessions() == Seq::<Session>::empty(),
            r.events() == Seq::<LifecycleEvent>::empty(),
    {
        ConnectionManager { sessions: Vec::new(), events: Vec::new() }
    }

    /// How many connections are live.
    pub fn len(&self) -> (n: usize)
        ensures
            n == self.sessions().len(),
    {
        self.sessions.len()
    }

    fn index_of(&self, session: SessionId) -> (r: Option<usize>)
        ensures
            match r {
                Some(i) => i < self.sessions().len() && self.sessions()[i as int].id == session,
                None => !self.has(session),
            },
    {
        let mut i: usize = 0;
        while i < self.sessions.len()
            invariant
                i <= self.sessions@.len(),
                forall|j: int| 0 <= j < i ==> self.sessions@[j].id != session,
            decreases self.sessions@.len() - i,
        {
            if self.sessions[i].id.0 == session.0 {
                return Some(i);
            }
            i += 1;
        }
        None
    }

    /// Where the connection with this handle stands.
    pub fn state_of(&self, session: SessionId) -> (r: ConnState)
        requires
            self.wf(),
        ensures
            r == self.state_spec(session),
    {
        match self.index_of(session) {
            None => ConnState::Closed,
            Some(i) => {
                let s = self.sessions[i];
                match s.player {
                    None => {
                        assert(self.sessions@[i as int] == Session { id: session, player: None });
                        ConnState::Connecting
                    },
                    Some(_) => {
                        proof {
                            let gone = Session { id: session, player: None };
                            if self.sessions@.contains(gone) {
                                let j = choose|j: int|
                                    0 <= j < self.sessions@.len() && self.sessions@[j] == gone;
                                assert(self.sessions@[j].key() == self.sessions@[i as int].key());
                            }
                        }
                        ConnState::Established
                    },
                }
            },
        }
    }

    /// The player of the connection with this handle.
    pub fn player_of(&self, session: SessionId) -> (r: Option<PlayerId>)
        requires
            self.wf(),
        ensures
            match r {
                Some(p) => self.sessions().contains(Session { id: session, player: Some(p) }),
                None => forall|p: PlayerId|
                    !self.sessions().contains(Session { id: session, player: Some(p) }),
            },
    {
        match self.index_of(session) {
            None => {
                assert forall|p: PlayerId|
                    !self.sessions@.contains(Session { id: session, player: Some(p) }) by {
                    let x = Session { id: session, player: Some(p) };
                    if self.sessions@.contains(x) {
                        let j = choose|j: int| 0 <= j < self.sessions@.len() && self.sessions@[j] == x;
                        assert(self.sessions@[j].key() == session);
                    }
                }
                None
            },
            Some(i) => {
                let s = self.sessions[i];
                proof {
                    assert forall|p: PlayerId|
                        self.sessions@.contains(Session { id: session, player: Some(p) })
                            implies s.player == Some(p) by {
                        let x = Session { id: session, player: Some(p) };
                        let j = choose|j: int| 0 <= j < self.sessions@.len() && self.sessions@[j] == x;
                        assert(self.sessions@[j].key() == self.sessions@[i as int].key());
                    }
                    assert(self.sessions@[i as int] == s);
                }
                s.player
            },
        }
    }

    /// The connection of this player.
    pub fn session_of(&self, player: PlayerId) -> (r: Option<SessionId>)
        ensures
            match r {
                Some(s) => self.sessions().contains(Session { id: s, player: Some(player) }),
                None => !self.uses(player),
            },
    {
        let mut i: usize = 0;
        while i < self.sessions.len()
            invariant
                i <= self.sessions@.len(),
                forall|j: int| 0 <= j < i ==> self.sessions@[j].player != Some(player),
            decreases self.sessions@.len() - i,
        {
            let s = self.sessions[i];
            match s.player {
                Some(p) => {
                    if p.0 == player.0 {
                        assert(self.sessions@[i as int] == Session {
                            id: s.id,
                            player: Some(player),
                        });
                        return Some(s.id);
                    }
                },
                None => {},
            }
            i += 1;
        }
        None
    }

    /// The live connections, oldest first.
    pub fn live(&self) -> (r: Vec<Session>)
        ensures
            r@ == self.sessions(),
    {
        let mut out: Vec<Session> = Vec::new();
        let mut i: usize = 0;
        while i < self.sessions.len()
            invariant
                i <= self.sessions@.len(),
                out@ == self.sessions@.subrange(0, i as int),
            decreases self.sessions@.len() - i,
        {
            out.push(self.sessions[i]);
            assert(out@ =~= self.sessions@.subrange(0, i + 1));
            i += 1;
        }
        assert(self.sessions@.subrange(0, i as int) =~= self.sessions@);
        out
    }

    fn is_used(&self, id: PlayerId) -> (r: bool)
        ensures
            r == self.uses(id),
    {
        self.session_of(id).is_some()
    }

    /// The first identity from the candidate upwards that no connection has.
    fn allocate(&self, candidate: u128) -> (id: PlayerId)
        ensures
            is_fresh(self.sessions(), candidate, id),
    {
        let n = self.sessions.len();
        let start: u128 = if candidate > u128::MAX - (n as u128) {
            u128::MAX - (n as u128)
        } else {
            candidate
        };
        let ghost players = self.sessions@.map_values(|s: Session| s.player);
        let ghost all = players.to_set();
        let ghost mut probed: Set<Option<PlayerId>> = Set::empty();
        proof {
            players.lemma_cardinality_of_set();
            seq_to_set_is_finite(players);
        }
        let mut k: usize = 0;
        loop
            invariant
                n == self.sessions@.len(),
                k <= n,
                start == first_try(candidate, n as nat),
                start + n <= u128::MAX,
                players == self.sessions@.map_values(|s: Session| s.player),
                all == players.to_set(),
                all.finite(),
                all.len() <= n,
                probed.finite(),
                probed.len() == k,
                probed.subset_of(all),
                forall|x: Option<PlayerId>|
                    probed.contains(x) ==> x is Some && start <= x.unwrap().0 < start + k,
                forall|v: u128| start <= v < start + k ==> uses_id(self.sessions@, PlayerId(v)),
            decreases n - k,
        {
            let c = PlayerId(start + k as u128);
            if !self.is_used(c) {
                return c;
            }
            proof {
                let i = choose|i: int|
                    0 <= i < self.sessions@.len() && self.sessions@[i].player == Some(c);
                assert(players[i] == Some(c));
                assert(players.contains(Some(c)));
                assert(all.contains(Some(c)));
                probed = probed.insert(Some(c));
                lemma_len_subset(probed, all);
            }
            k += 1;
        }
    }

    /// The transport has accepted a connection: it enters the table as
    /// `Connecting`.
    pub fn open(&mut self, session: SessionId) -> (r: Result<(), ConnectionError>)
        requires
            old(self).wf(),
        ensures
            final(self).wf(),
            final(self).events() == old(self).events(),
            match r {
                Ok(_) => !old(self).has(session) && final(self).sessions() == old(
                    self,
                ).sessions().push(Session { id: session, player: None }) && final(self).state_spec(session) == ConnState::Connecting,
                Err(e) => e == ConnectionError::DuplicateSession && old(self).has(session)
                    && final(self).sessions() == old(self).sessions(),
            },
            forall|s: SessionId|
                s != session ==> #[trigger] final(self).state_spec(s) == old(self).state_spec(s),
    {
        if self.index_of(session).is_some() {
            return Err(ConnectionError::DuplicateSession);
        }
        proof {
            lemma_state_after_open(self.sessions@, session);
        }
        self.sessions.push(Session { id: session, player: None });
        Ok(())
    }

    /// Establishes a connecting connection with the identity that `candidate`
    /// leads to, and notes a `Connected` event.
    pub fn establish_with(&mut self, session: SessionId, candidate: u128) -> (r: Result<
        PlayerId,
        ConnectionError,
    >)
        requires
            old(self).wf(),
        ensures
            final(self).wf(),
            match r {
                Ok(id) => old(self).state_spec(session) == ConnState::Connecting && is_fresh(
                    old(self).sessions(),
                    candidate,
                    id,
                ) && final(self).sessions() == established(old(self).sessions(), session, id)
                    && final(self).events() == old(self).events().push(
                    LifecycleEvent::Connected { session, player: id },
                ) && final(self).state_spec(session) == ConnState::Established && final(self).uses(id),
                Err(e) => final(self).sessions() == old(self).sessions() && final(self).events()
                    == old(self).events() && match old(self).state_spec(session) {
                    ConnState::Closed => e == ConnectionError::UnknownSession,
                    ConnState::Established => e == ConnectionError::AlreadyEstablished,
                    ConnState::Connecting => false,
                },
            },
            forall|s: SessionId|
                s != session ==> #[trigger] final(self).state_spec(s) == old(self).state_spec(s),
    {
        match self.state_of(session) {
            ConnState::Closed => Err(ConnectionError::UnknownSession),
            ConnState::Established => Err(ConnectionError::AlreadyEstablished),
            ConnState::Connecting => {
                let id = self.allocate(candidate);
                let found = self.index_of(session);
                let i = found.unwrap();
                let ghost before = self.sessions@;
                self.sessions[i] = Session { id: session, player: Some(id) };
                self.events.push(LifecycleEvent::Connected { session, player: id });
                proof {
                    assert forall|j: int| 0 <= j < before.len() && j != i implies before[j].id
                        != session by {
                        if j < i {
                            assert(before[j].key() != before[i as int].key());
                        } else {
                            assert(before[i as int].key() != before[j].key());
                        }
                    }
                    assert(self.sessions@ =~= established(before, session, id));
                    lemma_state_after_establish(before, session, id);
                    assert forall|a: int, b: int|
                        0 <= a < b < self.sessions@.len() && self.sessions@[a].player
                            is Some implies self.sessions@[a].player
                        != self.sessions@[b].player by {
                        if a != i && b != i {
                            assert(before[a].player != before[b].player);
                        } else if a == i {
                            assert(before[b].player != Some(id));
                        } else {
                            assert(before[a].player != Some(id));
                        }
                    }
                    assert forall|a: int, b: int|
                        0 <= a < b < self.sessions@.len() implies self.sessions@[a].key()
                        != self.sessions@[b].key() by {
                        assert(before[a].key() != before[b].key());
                    }
                }
                Ok(id)
            },
        }
    }

    /// Establishes a connecting connection with a fresh random identity, and
    /// notes a `Connected` event.
    pub fn establish(&mut self, session: SessionId) -> (r: Result<PlayerId, ConnectionError>)
        requires
            old(self).wf(),
        ensures
            final(self).wf(),
            match r {
                Ok(id) => old(self).state_spec(session) == ConnState::Connecting && !old(
                    self,
                ).uses(id) && final(self).sessions() == established(
                    old(self).sessions(),
                    session,
                    id,
                ) && final(self).events() == old(self).events().push(
                    LifecycleEvent::Connected { session, player: id },
                ) && final(self).state_spec(session) == ConnState::Established && final(self).uses(id),
                Err(e) => final(self).sessions() == old(self).sessions() && final(self).events()
                    == old(self).events() && match old(self).state_spec(session) {
                    ConnState::Closed => e == ConnectionError::UnknownSession,
                    ConnState::Established => e == ConnectionError::AlreadyEstablished,
                    ConnState::Connecting => false,
                },
            },
            forall|s: SessionId|
                s != session ==> #[trigger] final(self).state_spec(s) == old(self).state_spec(s),
    {
        let candidate = random_uuid();
        self.establish_with(session, candidate)
    }

    /// The connection has ended, for whatever reason: it leaves the table,
    /// and if it was established a `Disconnected` event is noted.
    pub fn close(&mut self, session: SessionId) -> (r: Result<Option<PlayerId>, ConnectionError>)
        requires
            old(self).wf(),
        ensures
            final(self).wf(),
            final(self).state_spec(session) == ConnState::Closed,
            forall|s: SessionId|
                s != session ==> #[trigger] final(self).state_spec(s) == old(self).state_spec(s),
            match r {
                Ok(player) => old(self).has(session) && old(self).sessions().contains(
                    Session { id: session, player },
                )
                    && final(self).sessions() == without(old(self).sessions(), session)
                    && final(self).events() == match player {
                    Some(p) => old(self).events().push(
                        LifecycleEvent::Disconnected { session, player: p },
                    ),
                    None => old(self).events(),
                },
                Err(e) => e == ConnectionError::UnknownSession && !old(self).has(session)
                    && final(self).sessions() == old(self).sessions() && final(self).events()
                    == old(self).events(),
            },
    {
        proof {
            lemma_state_after_close(self.sessions@, session);
            lemma_without(self.sessions@, session);
        }
        match self.index_of(session) {
            None => Err(ConnectionError::UnknownSession),
            Some(i) => {
                let ghost before = self.sessions@;
                let gone = self.sessions.remove(i);
                proof {
                    lemma_remove_is_without(before, session, i as int);
                    lemma_without(before, session);
                    lemma_without_keeps_players(before, session);
                    assert(before[i as int] == Session { id: session, player: gone.player });
                }
                match gone.player {
                    Some(p) => {
                        self.events.push(LifecycleEvent::Disconnected { session, player: p });
                    },
                    None => {},
                }
                Ok(gone.player)
            },
        }
    }

    /// Reads what the stream of an established connection holds. A frame that
    /// announces more than a frame may carry is a protocol violation: the
    /// connection is closed.
    pub fn receive(&mut self, session: SessionId, inbox: &mut Inbox, registry: &Registry) -> (r:
        Result<Intake, ConnectionError>)
        requires
            old(self).wf(),
        ensures
            final(self).wf(),
            match r {
                Err(e) => e == ConnectionError::NotEstablished && old(self).state_spec(session)
                    != ConnState::Established && final(self).sessions() == old(self).sessions()
                    && final(self).events() == old(self).events() && final(inbox).pending() == old(
                    inbox,
                ).pending(),
                Ok(got) => old(self).state_spec(session) == ConnState::Established && (
                    got@,
                    final(inbox).pending(),
                ) == intake(old(inbox).pending(), *registry, Direction::ClientToServer) && if got
                    is Violation {
                    final(self).sessions() == without(old(self).sessions(), session)
                        && exists|p: PlayerId|
                        old(self).sessions().contains(Session { id: session, player: Some(p) })
                            && final(self).events() == old(self).events().push(
                            LifecycleEvent::Disconnected { session, player: p },
                        )
                } else {
                    final(self).sessions() == old(self).sessions() && final(self).events() == old(
                        self,
                    ).events()
                },
            },
    {
        match self.state_of(session) {
            ConnState::Established => {
                let got = inbox.poll(registry, Direction::ClientToServer);
                match got {
                    Intake::Violation => {
                        let closed = self.close(session);
                        proof {
                            let player = closed.unwrap();
                            if player is None {
                                assert(old(self).sessions().contains(
                                    Session { id: session, player: None },
                                ));
                            }
                        }
                        Ok(Intake::Violation)
                    },
                    other => Ok(other),
                }
            },
            _ => Err(ConnectionError::NotEstablished),
        }
    }

    /// Hands over the events that were noted since the last call, oldest
    /// first.
    pub fn drain_events(&mut self) -> (r: Vec<LifecycleEvent>)
        ensures
            r@ == old(self).events(),
            final(self).events() == Seq::<LifecycleEvent>::empty(),
            final(self).sessions() == old(self).sessions(),
    {
        let mut out: Vec<LifecycleEvent> = Vec::new();
        out.append(&mut self.events);
        out
    }
}

/// Taking a connection out of the table leaves the players of the others
/// distinct.
pub proof fn lemma_without_keeps_players(sessions: Seq<Session>, session: SessionId)
    requires
        distinct_keys(sessions),
        distinct_players(sessions),
    ensures
        distinct_players(without(sessions, session)),
    decreases sessions.len(),
{
    let out = without(sessions, session);
    if sessions.len() > 0 {
        let front = sessions.drop_last();
        let n = front.len() as int;
        assert(distinct_keys(front) && distinct_players(front)) by {
            assert forall|a: int, b: int| 0 <= a < b < front.len() implies front[a].key()
                != front[b].key() by {
                assert(sessions[a].key() != sessions[b].key());
            }
            assert forall|a: int, b: int|
                0 <= a < b < front.len() && front[a].player is Some implies front[a].player
                != front[b].player by {
                assert(sessions[a].player != sessions[b].player);
            }
        }
        lemma_without_keeps_players(front, session);
        lemma_without(front, session);
        let front_out = without(front, session);
        assert forall|a: int, b: int|
            0 <= a < b < out.len() && out[a].player is Some implies out[a].player
            != out[b].player by {
            if sessions.last().key() != session && b == out.len() - 1 {
                assert(front_out[a] == out[a]);
                assert(front.contains(front_out[a]));
                let k = choose|k: int| 0 <= k < front.len() && front[k] == front_out[a];
                assert(sessions[k].player != sessions[n].player);
            } else {
                assert(front_out[a].player != front_out[b].player);
            }
        }
    }
}

/// Spawn uniqueness, as far as the table goes: however many connections come
/// one after the other, each is given an identity that none of the earlier
/// ones has, and all of them are still in the table at the end.
pub proof fn lemma_connects_assign_distinct_ids(
    states: Seq<Seq<Session>>,
    sessions: Seq<SessionId>,
    players: Seq<PlayerId>,
)
    requires
        states.len() == sessions.len() + 1,
        players.len() == sessions.len(),
        forall|k: int|
            0 <= k < sessions.len() ==> !has_key(#[trigger] states[k], sessions[k]) && !uses_id(
                states[k],
                players[k],
            ) && states[k + 1] == connected(states[k], sessions[k], players[k]),
    ensures
        forall|i: int, j: int| 0 <= i < j < players.len() ==> players[i] != players[j],
        forall|i: int| 0 <= i < players.len() ==> uses_id(states.last(), #[trigger] players[i]),
    decreases sessions.len(),
{
    if sessions.len() > 0 {
        let n = sessions.len() - 1;
        let before = states[n];
        let after = states[n + 1];
        lemma_connects_assign_distinct_ids(
            states.drop_last(),
            sessions.drop_last(),
            players.drop_last(),
        );
        assert(states.drop_last().last() == before);
        assert(after.len() == before.len() + 1);
        assert forall|i: int| 0 <= i < players.len() implies uses_id(
            after,
            #[trigger] players[i],
        ) by {
            if i < n {
                assert(players.drop_last()[i] == players[i]);
                let a = choose|a: int| 0 <= a < before.len() && before[a].player == Some(players[i]);
                assert(before[a].key() != sessions[n]);
                assert(after[a].player == Some(players[i]));
            } else {
                assert(after[before.len() as int].player == Some(players[n]));
            }
        }
        assert forall|i: int, j: int| 0 <= i < j < players.len() implies players[i]
            != players[j] by {
            if j < n {
                assert(players.drop_last()[i] != players.drop_last()[j]);
            } else {
                assert(players.drop_last()[i] == players[i]);
                assert(uses_id(before, players[i]));
            }
        }
    }
}

} // verus!
