//! The world state store: the players and where they are.
//!
//! The server owns the authoritative store; a client fills a mirror of it
//! from what the server sends. Coordinates are whole world units.

use vstd::prelude::*;
use crate::ident::{PlayerId, SessionId};
use crate::keyed::{distinct_keys, has_key, lemma_remove_is_without, lemma_without, without, Keyed};
use crate::messages::{Actions, Position, Spawn};

verus! {

/// Width of the playing field.
pub const WIDTH: i32 = 800;

/// Height of the playing field.
pub const HEIGHT: i32 = 600;

/// What is kept free along each edge when a player is placed.
pub const MARGIN: i32 = 53;

/// How far one key press moves a player.
pub const STEP: i32 = 10;

/// The nearest coordinate to `v`.
pub open spec fn saturate(v: int) -> i32 {
    if v > i32::MAX {
        i32::MAX
    } else if v < i32::MIN {
        i32::MIN
    } else {
        v as i32
    }
}

/// Moves a coordinate, stopping at the ends of the coordinate range.
pub fn shift(c: i32, d: i32) -> (r: i32)
    ensures
        r == saturate(c + d),
{
    let wide: i64 = c as i64 + d as i64;
    if wide > i32::MAX as i64 {
        i32::MAX
    } else if wide < i32::MIN as i64 {
        i32::MIN
    } else {
        wide as i32
    }
}

impl Actions {
    /// The movement that the counters ask for: right minus left and up minus
    /// down, each times `STEP`.
    pub open spec fn delta_spec(self) -> (i32, i32) {
        (((self.d - self.a) * STEP) as i32, ((self.w - self.s) * STEP) as i32)
    }

    /// The movement that the counters ask for.
    pub fn delta(&self) -> (r: (i32, i32))
        ensures
            r == self.delta_spec(),
            r.0 == (self.d - self.a) * 10,
            r.1 == (self.w - self.s) * 10,
    {
        let dx: i32 = (self.d as i32 - self.a as i32) * STEP;
        let dy: i32 = (self.w as i32 - self.s as i32) * STEP;
        (dx, dy)
    }
}

/// One player in the world. Only the server knows the session.
#[derive(Clone, Copy, Debug, PartialEq, Eq)]
pub struct Player {
    pub id: PlayerId,
    pub x: i32,
    pub y: i32,
    pub session: Option<SessionId>,
}

impl Player {
    /// The same player, moved by `(dx, dy)`.
    pub open spec fn moved(self, dx: i32, dy: i32) -> Player {
        Player { x: saturate(self.x + dx), y: saturate(self.y + dy), ..self }
    }

    /// The same player at `(x, y)`.
    pub open spec fn placed(self, x: i32, y: i32) -> Player {
        Player { x, y, ..self }
    }

    /// What is broadcast of this player.
    pub open spec fn report(self) -> Position {
        Position { id: self.id, x: self.x, y: self.y }
    }
}

/// Which player this client is.
#[derive(Clone, Copy, Debug, PartialEq, Eq, Structural)]
pub struct Me(pub PlayerId);

impl Keyed for Player {
    type Key = PlayerId;

    open spec fn key(&self) -> PlayerId {
        self.id
    }
}

/// The players after the one called `id`, if there is one, has moved by
/// `(dx, dy)`.
pub open spec fn moved_by(players: Seq<Player>, id: PlayerId, dx: i32, dy: i32) -> Seq<Player> {
    players.map_values(
        |p: Player|
            if p.id == id {
                p.moved(dx, dy)
            } else {
                p
            },
    )
}

/// The players after the one called `id`, if there is one, has been put at
/// `(x, y)`.
pub open spec fn placed_at(players: Seq<Player>, id: PlayerId, x: i32, y: i32) -> Seq<Player> {
    players.map_values(
        |p: Player|
            if p.id == id {
                p.placed(x, y)
            } else {
                p
            },
    )
}

/// The players after `p` has entered, unless a player of its name was there.
pub open spec fn spawned(players: Seq<Player>, p: Player) -> Seq<Player> {
    if has_key(players, p.id) {
        players
    } else {
        players.push(p)
    }
}

/// One report for every player, in the players' order.
pub open spec fn reports(players: Seq<Player>) -> Seq<Position> {
    players.map_values(|p: Player| p.report())
}

/// The players of one world and, on a client, which of them the client is.
pub struct WorldState {
    players: Vec<Player>,
    me: Option<Me>,
}

impl WorldState {
    /// The players, in the order in which they entered.
    pub closed spec fn players(&self) -> Seq<Player> {
        self.players@
    }

    /// Which player this client is, once it has been told.
    pub closed spec fn me(&self) -> Option<Me> {
        self.me
    }

    /// A player called `id` is in the world.
    pub open spec fn has(&self, id: PlayerId) -> bool {
        has_key(self.players(), id)
    }

    /// No two players share an identity.
    pub open spec fn wf(&self) -> bool {
        distinct_keys(self.players())
    }

    /// The player called `id` is drawn as the local player.
    pub open spec fn shown_as_self(&self, id: PlayerId) -> bool {
        self.has(id) && self.me() == Some(Me(id))
    }

    /// An empty world.
    pub fn new() -> (w: WorldState)
        ensures
            w.wf(),
            w.players() == Seq::<Player>::empty(),
            w.me() is None,
    {
        WorldState { players: Vec::new(), me: None }
    }

    /// How many players there are.
    pub fn len(&self) -> (n: usize)
        ensures
            n == self.players().len(),
    {
        self.players.len()
    }

    /// Which player this client is.
    pub fn local_player(&self) -> (r: Option<Me>)
        ensures
            r == self.me(),
    {
        self.me
    }

    fn index_of(&self, id: PlayerId) -> (r: Option<usize>)
        ensures
            match r {
                Some(i) => i < self.players().len() && self.players()[i as int].id == id,
                None => !self.has(id),
            },
    {
        let mut i: usize = 0;
        while i < self.players.len()
            invariant
                i <= self.players@.len(),
                forall|j: int| 0 <= j < i ==> self.players@[j].id != id,
            decreases self.players@.len() - i,
        {
            if self.players[i].id.0 == id.0 {
                return Some(i);
            }
            i += 1;
        }
        None
    }

    /// The player called `id`.
    pub fn get(&self, id: PlayerId) -> (r: Option<Player>)
        ensures
            match r {
                Some(p) => p.id == id && self.players().contains(p),
                None => !self.has(id),
            },
    {
        match self.index_of(id) {
            Some(i) => Some(self.players[i]),
            None => None,
        }
    }

    /// Puts a new player into the world. If a player of that identity is
    /// there already, the world stays as it is and the answer is `false`.
    pub fn spawn(&mut self, id: PlayerId, x: i32, y: i32, session: Option<SessionId>) -> (r: bool)
        requires
            old(self).wf(),
        ensures
            final(self).wf(),
            r == !old(self).has(id),
            final(self).me() == old(self).me(),
            final(self).players() == spawned(old(self).players(), Player { id, x, y, session }),
    {
        if self.index_of(id).is_some() {
            return false;
        }
        self.players.push(Player { id, x, y, session });
        true
    }

    /// Moves the player called `id` by `(dx, dy)`; nobody else moves. The
    /// answer says whether there is such a player.
    pub fn update_position(&mut self, id: PlayerId, dx: i32, dy: i32) -> (r: bool)
        requires
            old(self).wf(),
        ensures
            final(self).wf(),
            r == old(self).has(id),
            final(self).me() == old(self).me(),
            final(self).players() == moved_by(old(self).players(), id, dx, dy),
    {
        match self.index_of(id) {
            Some(i) => {
                let p = self.players[i];
                let q = Player { id: p.id, x: shift(p.x, dx), y: shift(p.y, dy), session: p.session };
                self.players[i] = q;
                assert(self.players@ =~= moved_by(old(self).players(), id, dx, dy));
                true
            },
            None => {
                assert(self.players@ =~= moved_by(old(self).players(), id, dx, dy));
                false
            },
        }
    }

    /// Takes the player called `id` out of the world. The answer says whether
    /// there was such a player.
    pub fn despawn(&mut self, id: PlayerId) -> (r: bool)
        requires
            old(self).wf(),
        ensures
            final(self).wf(),
            r == old(self).has(id),
            !final(self).has(id),
            final(self).me() == old(self).me(),
            final(self).players() == without(old(self).players(), id),
    {
        proof {
            lemma_without(self.players@, id);
        }
        match self.index_of(id) {
            Some(i) => {
                self.players.remove(i);
                proof {
                    lemma_remove_is_without(old(self).players(), id, i as int);
                }
                true
            },
            None => false,
        }
    }

    /// What the server broadcasts each tick: one report for every player.
    pub fn snapshot(&self) -> (r: Vec<Position>)
        ensures
            r@ == reports(self.players()),
    {
        let mut out: Vec<Position> = Vec::new();
        let mut i: usize = 0;
        while i < self.players.len()
            invariant
                i <= self.players@.len(),
                out@ == reports(self.players@.subrange(0, i as int)),
            decreases self.players@.len() - i,
        {
            let p = self.players[i];
            out.push(Position { id: p.id, x: p.x, y: p.y });
            assert(out@ =~= reports(self.players@.subrange(0, i + 1)));
            i += 1;
        }
        assert(self.players@.subrange(0, i as int) =~= self.players@);
        out
    }

    /// Client side: a player has entered. A player that the mirror holds
    /// already stays as it is.
    pub fn apply_spawn(&mut self, spawn: &Spawn) -> (r: bool)
        requires
            old(self).wf(),
        ensures
            final(self).wf(),
            r == !old(self).has(spawn.id),
            final(self).me() == old(self).me(),
            final(self).players() == spawned(
                old(self).players(),
                Player { id: spawn.id, x: spawn.x, y: spawn.y, session: None },
            ),
    {
        self.spawn(spawn.id, spawn.x, spawn.y, None)
    }

    /// Client side: a player is reported at a place. A report about a player
    /// that the mirror does not hold changes nothing.
    pub fn apply_position(&mut self, report: &Position) -> (r: bool)
        requires
            old(self).wf(),
        ensures
            final(self).wf(),
            r == old(self).has(report.id),
            final(self).me() == old(self).me(),
            final(self).players() == placed_at(old(self).players(), report.id, report.x, report.y),
    {
        match self.index_of(report.id) {
            Some(i) => {
                let p = self.players[i];
                let q = Player { id: p.id, x: report.x, y: report.y, session: p.session };
                self.players[i] = q;
                assert(self.players@ =~= placed_at(old(self).players(), report.id, report.x, report.y));
                true
            },
            None => {
                assert(self.players@ =~= placed_at(old(self).players(), report.id, report.x, report.y));
                false
            },
        }
    }

    /// Client side: the server has said which player this client is.
    pub fn mark_self(&mut self, id: PlayerId)
        ensures
            final(self).me() == told_self(old(self).me(), id),
            final(self).players() == old(self).players(),
    {
        self.me = Some(Me(id));
    }

    /// Whether the player called `id` is the local player.
    pub fn is_self(&self, id: PlayerId) -> (r: bool)
        ensures
            r == (self.me() == Some(Me(id))),
    {
        match self.me {
            Some(me) => me.0.0 == id.0,
            None => false,
        }
    }
}

/// Which player the client is after it has been told that it is `id`.
pub open spec fn told_self(me: Option<Me>, id: PlayerId) -> Option<Me> {
    Some(Me(id))
}

/// Telling a client twice which player it is, is telling it once.
pub proof fn lemma_mark_self_idempotent(me: Option<Me>, id: PlayerId)
    ensures
        told_self(told_self(me, id), id) == told_self(me, id),
{
}

/// At most one player of a world is shown as the local player.
pub proof fn lemma_at_most_one_self(world: WorldState, p: PlayerId, q: PlayerId)
    requires
        world.shown_as_self(p),
        world.shown_as_self(q),
    ensures
        p == q,
{
}

} // verus!
