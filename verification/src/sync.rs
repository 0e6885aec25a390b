//! The synchronisation loop: what the server and a client do each tick.
//!
//! The server first lets in the players whose connections were established
//! and takes out those whose connections ended, then moves the players as
//! the buffered input asks, then reports where every player is. A client
//! applies what has arrived to its mirror and sends its input counters.

use vstd::prelude::*;
use vstd::string::StringExecFns;
use crate::client::{ClientError, NetworkClient};
use crate::codec::{frame_of, lemma_fixed_shapes_encodable};
use crate::connection::LifecycleEvent;
use crate::ident::{PlayerId, SessionId};
use crate::keyed::{has_key, without, Keyed};
use crate::messages::{Actions, Connected, Message, MessageView, NewChatMessage, Spawn};
use crate::stream::views;
use crate::world::{
    moved_by, placed_at, reports, spawned, Me, Player, WorldState, HEIGHT, MARGIN, STEP, WIDTH,
};

verus! {

/// To whom the server sends a message.
#[derive(Clone, Copy, Debug, PartialEq, Eq)]
pub enum Target {
    /// To the one connection.
    One(SessionId),
    /// To every connection.
    All,
}

/// A message for the server to send.
#[derive(Clone, Debug, PartialEq, Eq)]
pub struct Outgoing {
    pub target: Target,
    pub message: Message,
}

/// What an outgoing message says, with the message as its view.
pub struct OutgoingView {
    pub target: Target,
    pub message: MessageView,
}

impl View for Outgoing {
    type V = OutgoingView;

    open spec fn view(&self) -> OutgoingView {
        OutgoingView { target: self.target, message: self.message@ }
    }
}

/// The views of a sequence of outgoing messages.
pub open spec fn out_views(out: Seq<Outgoing>) -> Seq<OutgoingView> {
    out.map_values(|o: Outgoing| o@)
}

/// A lifecycle event together with the place drawn for the player, which
/// matters when the event is `Connected`.
#[derive(Clone, Copy, Debug, PartialEq, Eq)]
pub struct Placed {
    pub event: LifecycleEvent,
    pub x: i32,
    pub y: i32,
}

/// The input of one player that arrived since the last tick.
#[derive(Clone, Copy, Debug, PartialEq, Eq)]
pub struct PlayerAction {
    pub player: PlayerId,
    pub actions: Actions,
}

/// The place lies where new players are put: inside the field, `MARGIN`
/// away from each edge.
pub open spec fn in_field(x: i32, y: i32) -> bool {
    &&& -WIDTH / 2 + MARGIN <= x < WIDTH / 2 - MARGIN
    &&& -HEIGHT / 2 + MARGIN <= y < HEIGHT / 2 - MARGIN
}

/// The name under which the server speaks.
pub open spec fn server_name() -> Seq<char> {
    seq!['S', 'e', 'r', 'v', 'e', 'r']
}

/// How the server's notice of a new player begins.
pub open spec fn join_prefix() -> Seq<char> {
    seq![
        'N', 'e', 'w', ' ', 'u', 's', 'e', 'r', ' ', 'c', 'o', 'n', 'n', 'e', 'c', 't', 'e', 'd',
        ';', ' ',
    ]
}

/// What the server says when a player joins: the prefix, then the player's
/// identity in hexadecimal digits.
pub open spec fn join_text(player: PlayerId) -> Seq<char> {
    join_prefix() + player.text_spec()
}

/// What is sent when a player joins: to the new connection its identity,
/// then to everybody the notice and the spawn.
pub open spec fn join_messages(session: SessionId, player: PlayerId, x: i32, y: i32) -> Seq<
    OutgoingView,
> {
    seq![
        OutgoingView { target: Target::One(session), message: MessageView::Connected { id: player } },
        OutgoingView {
            target: Target::All,
            message: MessageView::NewChatMessage {
                name: server_name(),
                message: join_text(player),
            },
        },
        OutgoingView { target: Target::All, message: MessageView::Spawn { id: player, x, y } },
    ]
}

/// The players and the messages to send at some point of a server tick.
pub struct Stage {
    pub players: Seq<Player>,
    pub out: Seq<OutgoingView>,
}

/// One lifecycle event: a connected player enters at the place drawn for it
/// and is announced, unless the world holds it already; a disconnected
/// player leaves.
pub open spec fn after_event(players: Seq<Player>, placed: Placed) -> Stage {
    match placed.event {
        LifecycleEvent::Connected { session, player } => if has_key(players, player) {
            Stage { players, out: Seq::empty() }
        } else {
            Stage {
                players: players.push(
                    Player { id: player, x: placed.x, y: placed.y, session: Some(session) },
                ),
                out: join_messages(session, player, placed.x, placed.y),
            }
        },
        LifecycleEvent::Disconnected { session, player } => Stage {
            players: without(players, player),
            out: Seq::empty(),
        },
    }
}

/// The lifecycle events of one tick, in their order.
pub open spec fn after_events(players: Seq<Player>, events: Seq<Placed>) -> Stage
    decreases events.len(),
{
    if events.len() == 0 {
        Stage { players, out: Seq::empty() }
    } else {
        let before = after_events(players, events.drop_last());
        let step = after_event(before.players, events.last());
        Stage { players: step.players, out: before.out + step.out }
    }
}

/// The buffered input of one tick, in its order.
pub open spec fn after_actions(players: Seq<Player>, actions: Seq<PlayerAction>) -> Seq<Player>
    decreases actions.len(),
{
    if actions.len() == 0 {
        players
    } else {
        let a = actions.last();
        moved_by(
            after_actions(players, actions.drop_last()),
            a.player,
            a.actions.delta_spec().0,
            a.actions.delta_spec().1,
        )
    }
}

/// One `Position` for every player, to everybody.
pub open spec fn position_messages(players: Seq<Player>) -> Seq<OutgoingView> {
    players.map_values(
        |p: Player|
            OutgoingView {
                target: Target::All,
                message: MessageView::Position { id: p.id, x: p.x, y: p.y },
            },
    )
}

/// A whole server tick: events, then input, then the report of every player.
pub open spec fn tick_result(
    players: Seq<Player>,
    events: Seq<Placed>,
    actions: Seq<PlayerAction>,
) -> Stage {
    let joined = after_events(players, events);
    let moved = after_actions(joined.players, actions);
    Stage { players: moved, out: joined.out + position_messages(moved) }
}

/// `rand::thread_rng` and `Rng::gen_range` of rand on a half-open range of
/// `i32`: a number of the range, whichever the generator picks. An empty
/// range makes `gen_range` panic and is left out.
#[verifier::external_body]
fn random_between(low: i32, high: i32) -> (r: i32)
    requires
        low < high,
    ensures
        low <= r < high,
{
    rand::Rng::gen_range(&mut rand::thread_rng(), low..high)
}

/// Draws a place for every event.
pub fn place_events(events: &Vec<LifecycleEvent>) -> (r: Vec<Placed>)
    ensures
        r@.len() == events@.len(),
        forall|i: int|
            0 <= i < r@.len() ==> (#[trigger] r@[i]).event == events@[i] && in_field(
                r@[i].x,
                r@[i].y,
            ),
{
    let mut out: Vec<Placed> = Vec::new();
    let mut i: usize = 0;
    while i < events.len()
        invariant
            i <= events@.len(),
            out@.len() == i,
            forall|j: int|
                0 <= j < i ==> (#[trigger] out@[j]).event == events@[j] && in_field(
                    out@[j].x,
                    out@[j].y,
                ),
        decreases events@.len() - i,
    {
        let x = random_between(-WIDTH / 2 + MARGIN, WIDTH / 2 - MARGIN);
        let y = random_between(-HEIGHT / 2 + MARGIN, HEIGHT / 2 - MARGIN);
        out.push(Placed { event: events[i], x, y });
        i += 1;
    }
    out
}

/// The three messages that announce a player.
fn announce(session: SessionId, player: PlayerId, x: i32, y: i32) -> (out: Vec<Outgoing>)
    ensures
        out_views(out@) == join_messages(session, player, x, y),
{
    proof {
        reveal_strlit("Server");
        reveal_strlit("New user connected; ");
    }
    let name = "Server".to_owned();
    let mut message = "New user connected; ".to_owned();
    assert(name@ =~= server_name());
    assert(message@ =~= join_prefix());
    let id_text = player.text();
    message.append(id_text.as_str());
    let mut out: Vec<Outgoing> = Vec::new();
    out.push(
        Outgoing {
            target: Target::One(session),
            message: Message::Connected(Connected { id: player }),
        },
    );
    out.push(
        Outgoing {
            target: Target::All,
            message: Message::NewChatMessage(NewChatMessage { name, message }),
        },
    );
    out.push(
        Outgoing { target: Target::All, message: Message::Spawn(Spawn { id: player, x, y }) },
    );
    assert(out_views(out@) =~= join_messages(session, player, x, y));
    out
}

/// Applies one lifecycle event to the world and says what to send.
pub fn handle_event(world: &mut WorldState, placed: Placed) -> (out: Vec<Outgoing>)
    requires
        old(world).wf(),
    ensures
        final(world).wf(),
        final(world).me() == old(world).me(),
        after_event(old(world).players(), placed) == (Stage {
            players: final(world).players(),
            out: out_views(out@),
        }),
{
    match placed.event {
        LifecycleEvent::Connected { session, player } => {
            if world.spawn(player, placed.x, placed.y, Some(session)) {
                announce(session, player, placed.x, placed.y)
            } else {
                let out: Vec<Outgoing> = Vec::new();
                assert(out_views(out@) =~= Seq::<OutgoingView>::empty());
                out
            }
        },
        LifecycleEvent::Disconnected { session, player } => {
            world.despawn(player);
            let out: Vec<Outgoing> = Vec::new();
            assert(out_views(out@) =~= Seq::<OutgoingView>::empty());
            out
        },
    }
}

/// Applies the lifecycle events of one tick, in their order.
pub fn apply_events(world: &mut WorldState, events: &Vec<Placed>) -> (out: Vec<Outgoing>)
    requires
        old(world).wf(),
    ensures
        final(world).wf(),
        final(world).me() == old(world).me(),
        after_events(old(world).players(), events@) == (Stage {
            players: final(world).players(),
            out: out_views(out@),
        }),
{
    let mut out: Vec<Outgoing> = Vec::new();
    let mut i: usize = 0;
    assert(out_views(out@) =~= Seq::<OutgoingView>::empty());
    assert(events@.take(0) =~= Seq::<Placed>::empty());
    while i < events.len()
        invariant
            i <= events@.len(),
            world.wf(),
            world.me() == old(world).me(),
            after_events(old(world).players(), events@.take(i as int)) == (Stage {
                players: world.players(),
                out: out_views(out@),
            }),
        decreases events@.len() - i,
    {
        let ghost sofar = out@;
        let mut step = handle_event(world, events[i]);
        let ghost added = step@;
        out.append(&mut step);
        proof {
            assert(events@.take(i + 1).drop_last() =~= events@.take(i as int));
            assert(events@.take(i + 1).last() == events@[i as int]);
            assert(out_views(out@) =~= out_views(sofar) + out_views(added));
        }
        i += 1;
    }
    assert(events@.take(i as int) =~= events@);
    out
}

/// Moves the players as the buffered input asks, in its order.
pub fn apply_actions(world: &mut WorldState, actions: &Vec<PlayerAction>)
    requires
        old(world).wf(),
    ensures
        final(world).wf(),
        final(world).me() == old(world).me(),
        final(world).players() == after_actions(old(world).players(), actions@),
{
    let mut i: usize = 0;
    assert(actions@.take(0) =~= Seq::<PlayerAction>::empty());
    while i < actions.len()
        invariant
            i <= actions@.len(),
            world.wf(),
            world.me() == old(world).me(),
            world.players() == after_actions(old(world).players(), actions@.take(i as int)),
        decreases actions@.len() - i,
    {
        let a = actions[i];
        let (dx, dy) = a.actions.delta();
        world.update_position(a.player, dx, dy);
        proof {
            assert(actions@.take(i + 1).drop_last() =~= actions@.take(i as int));
            assert(actions@.take(i + 1).last() == actions@[i as int]);
        }
        i += 1;
    }
    assert(actions@.take(i as int) =~= actions@);
}

/// The report of every player, to everybody.
pub fn broadcast_positions(world: &WorldState) -> (out: Vec<Outgoing>)
    ensures
        out_views(out@) == position_messages(world.players()),
{
    let snapshot = world.snapshot();
    let mut out: Vec<Outgoing> = Vec::new();
    let mut i: usize = 0;
    while i < snapshot.len()
        invariant
            i <= snapshot@.len(),
            snapshot@ == reports(world.players()),
            out@.len() == i,
            forall|j: int|
                0 <= j < i ==> (#[trigger] out@[j])@ == (OutgoingView {
                    target: Target::All,
                    message: MessageView::Position {
                        id: snapshot@[j].id,
                        x: snapshot@[j].x,
                        y: snapshot@[j].y,
                    },
                }),
        decreases snapshot@.len() - i,
    {
        let p = snapshot[i];
        out.push(Outgoing { target: Target::All, message: Message::Position(p) });
        i += 1;
    }
    assert(out_views(out@) =~= position_messages(world.players()));
    out
}

/// One server tick with the places already drawn.
pub fn server_tick_with(
    world: &mut WorldState,
    events: &Vec<Placed>,
    actions: &Vec<PlayerAction>,
) -> (out: Vec<Outgoing>)
    requires
        old(world).wf(),
    ensures
        final(world).wf(),
        final(world).me() == old(world).me(),
        tick_result(old(world).players(), events@, actions@) == (Stage {
            players: final(world).players(),
            out: out_views(out@),
        }),
{
    let mut out = apply_events(world, events);
    let ghost joined = out@;
    apply_actions(world, actions);
    let mut positions = broadcast_positions(world);
    let ghost told = positions@;
    out.append(&mut positions);
    assert(out_views(out@) =~= out_views(joined) + out_views(told));
    out
}

/// One server tick: a place is drawn for every new player, then the tick
/// runs as `server_tick_with` says.
pub fn server_tick(
    world: &mut WorldState,
    events: &Vec<LifecycleEvent>,
    actions: &Vec<PlayerAction>,
) -> (out: Vec<Outgoing>)
    requires
        old(world).wf(),
    ensures
        final(world).wf(),
        final(world).me() == old(world).me(),
        exists|placed: Seq<Placed>|
            {
                &&& placed.len() == events@.len()
                &&& forall|i: int|
                    0 <= i < placed.len() ==> (#[trigger] placed[i]).event == events@[i]
                        && in_field(placed[i].x, placed[i].y)
                &&& tick_result(old(world).players(), placed, actions@) == (Stage {
                    players: final(world).players(),
                    out: out_views(out@),
                })
            },
{
    let placed = place_events(events);
    let out = server_tick_with(world, &placed, actions);
    proof {
        let witness = placed@;
        assert(witness.len() == events@.len());
        assert(tick_result(old(world).players(), witness, actions@) == (Stage {
            players: world.players(),
            out: out_views(out@),
        }));
    }
    out
}

/// The counters of a client's four directions: how often each was asked for
/// since the counters were last sent.
#[derive(Clone, Copy, Debug, PartialEq, Eq, Structural)]
pub struct InputAccumulator {
    pub w: i16,
    pub a: i16,
    pub s: i16,
    pub d: i16,
}

impl InputAccumulator {
    /// All four counters at zero.
    pub open spec fn zero() -> InputAccumulator {
        InputAccumulator { w: 0, a: 0, s: 0, d: 0 }
    }

    /// A counter after one more look at its key. It stays at the top of its
    /// range once it is there.
    pub open spec fn bump(c: i16, pressed: bool) -> i16 {
        if pressed && c < i16::MAX {
            (c + 1) as i16
        } else {
            c
        }
    }

    /// The counters as the message that reports them.
    pub open spec fn report(self) -> Actions {
        Actions { w: self.w, a: self.a, s: self.s, d: self.d }
    }

    /// Counters at zero.
    pub fn new() -> (r: InputAccumulator)
        ensures
            r == InputAccumulator::zero(),
    {
        InputAccumulator { w: 0, a: 0, s: 0, d: 0 }
    }

    /// Counts one look at the keys: each direction that is held counts once.
    pub fn press(&mut self, up: bool, left: bool, down: bool, right: bool)
        ensures
            final(self).w == InputAccumulator::bump(old(self).w, up),
            final(self).a == InputAccumulator::bump(old(self).a, left),
            final(self).s == InputAccumulator::bump(old(self).s, down),
            final(self).d == InputAccumulator::bump(old(self).d, right),
    {
        if up && self.w < i16::MAX {
            self.w = self.w + 1;
        }
        if left && self.a < i16::MAX {
            self.a = self.a + 1;
        }
        if down && self.s < i16::MAX {
            self.s = self.s + 1;
        }
        if right && self.d < i16::MAX {
            self.d = self.d + 1;
        }
    }

    /// Hands the counters over as a message and sets them to zero, whatever
    /// they were.
    pub fn flush(&mut self) -> (r: Actions)
        ensures
            r == old(self).report(),
            *final(self) == InputAccumulator::zero(),
    {
        let r = Actions { w: self.w, a: self.a, s: self.s, d: self.d };
        self.w = 0;
        self.a = 0;
        self.s = 0;
        self.d = 0;
        r
    }
}

/// A line of chat, as characters.
pub struct ChatLine {
    pub name: Seq<char>,
    pub message: Seq<char>,
}

/// The lines of a sequence of chat messages.
pub open spec fn chat_views(notices: Seq<NewChatMessage>) -> Seq<ChatLine> {
    notices.map_values(|n: NewChatMessage| ChatLine { name: n.name@, message: n.message@ })
}

/// A client's mirror of the world, with the chat lines to show.
pub struct Mirror {
    pub players: Seq<Player>,
    pub me: Option<Me>,
    pub notices: Seq<ChatLine>,
}

/// What one message from the server does to the mirror.
pub open spec fn mirror_step(s: Mirror, m: MessageView) -> Mirror {
    match m {
        MessageView::Connected { id } => Mirror { me: Some(Me(id)), ..s },
        MessageView::Spawn { id, x, y } => Mirror {
            players: spawned(s.players, Player { id, x, y, session: None }),
            ..s
        },
        MessageView::Position { id, x, y } => Mirror {
            players: placed_at(s.players, id, x, y),
            ..s
        },
        MessageView::NewChatMessage { name, message } => Mirror {
            notices: s.notices.push(ChatLine { name, message }),
            ..s
        },
        MessageView::UserChatMessage { .. } => s,
        MessageView::Actions { .. } => s,
    }
}

/// What the messages of one tick do to the mirror, in their order.
pub open spec fn mirror_after(s: Mirror, messages: Seq<MessageView>) -> Mirror
    decreases messages.len(),
{
    if messages.len() == 0 {
        s
    } else {
        mirror_step(mirror_after(s, messages.drop_last()), messages.last())
    }
}

/// Applies what has arrived from the server to the mirror, in its order, and
/// hands back the chat lines for the screen.
pub fn apply_inbound(world: &mut WorldState, messages: &Vec<Message>) -> (notices: Vec<
    NewChatMessage,
>)
    requires
        old(world).wf(),
    ensures
        final(world).wf(),
        mirror_after(
            Mirror { players: old(world).players(), me: old(world).me(), notices: Seq::empty() },
            views(messages@),
        ) == (Mirror {
            players: final(world).players(),
            me: final(world).me(),
            notices: chat_views(notices@),
        }),
{
    let mut notices: Vec<NewChatMessage> = Vec::new();
    let mut i: usize = 0;
    let ghost start = Mirror {
        players: old(world).players(),
        me: old(world).me(),
        notices: Seq::empty(),
    };
    assert(chat_views(notices@) =~= Seq::<ChatLine>::empty());
    assert(views(messages@).take(0) =~= Seq::<MessageView>::empty());
    while i < messages.len()
        invariant
            i <= messages@.len(),
            world.wf(),
            start == (Mirror {
                players: old(world).players(),
                me: old(world).me(),
                notices: Seq::empty(),
            }),
            mirror_after(start, views(messages@).take(i as int)) == (Mirror {
                players: world.players(),
                me: world.me(),
                notices: chat_views(notices@),
            }),
        decreases messages@.len() - i,
    {
        let ghost lines = notices@;
        proof {
            let upto = views(messages@).take(i + 1);
            assert(upto.drop_last() =~= views(messages@).take(i as int));
            assert(upto.last() == messages@[i as int]@);
        }
        match &messages[i] {
            Message::Connected(m) => {
                world.mark_self(m.id);
            },
            Message::Spawn(m) => {
                world.apply_spawn(m);
            },
            Message::Position(m) => {
                world.apply_position(m);
            },
            Message::NewChatMessage(m) => {
                let line = NewChatMessage { name: m.name.clone(), message: m.message.clone() };
                notices.push(line);
                assert(chat_views(notices@) =~= chat_views(lines).push(
                    ChatLine { name: m.name@, message: m.message@ },
                ));
            },
            Message::UserChatMessage(_) => {},
            Message::Actions(_) => {},
        }
        i += 1;
    }
    assert(views(messages@).take(i as int) =~= views(messages@));
    notices
}

/// What a client tick hands back: the chat lines for the screen, and whether
/// the input could be sent.
#[derive(Debug, PartialEq, Eq)]
pub struct ClientReport {
    pub notices: Vec<NewChatMessage>,
    pub sent: Result<(), ClientError>,
}

/// One client tick: what has arrived is applied to the mirror, then the
/// input counters are sent, all zero or not, and set to zero, sent or not.
pub fn client_tick(
    world: &mut WorldState,
    client: &mut NetworkClient,
    input: &mut InputAccumulator,
) -> (r: ClientReport)
    requires
        old(world).wf(),
    ensures
        final(world).wf(),
        mirror_after(
            Mirror { players: old(world).players(), me: old(world).me(), notices: Seq::empty() },
            old(client).inbound(),
        ) == (Mirror {
            players: final(world).players(),
            me: final(world).me(),
            notices: chat_views(r.notices@),
        }),
        *final(input) == InputAccumulator::zero(),
        r.sent is Ok <==> old(client).is_connected(),
        r.sent is Err ==> r.sent == Err::<(), ClientError>(ClientError::NotConnected),
        final(client).outgoing() == if old(client).is_connected() {
            old(client).outgoing() + frame_of(
                MessageView::Actions {
                    w: old(input).w,
                    a: old(input).a,
                    s: old(input).s,
                    d: old(input).d,
                },
            )
        } else {
            old(client).outgoing()
        },
        final(client).inbound() == Seq::<MessageView>::empty(),
        final(client).is_connected() == old(client).is_connected(),
        final(client).unread() == old(client).unread(),
        final(client).events() == old(client).events(),
{
    let messages = client.drain_inbound();
    let notices = apply_inbound(world, &messages);
    let report = Message::Actions(input.flush());
    proof {
        lemma_fixed_shapes_encodable(report@);
    }
    let sent = client.send(&report);
    ClientReport { notices, sent }
}

/// Movement integration: a player who is far enough from the ends of the
/// coordinate range ends up right minus left steps further along x and up
/// minus down steps further along y.
pub proof fn lemma_movement(p: Player, input: Actions)
    requires
        i32::MIN <= p.x + (input.d - input.a) * STEP <= i32::MAX,
        i32::MIN <= p.y + (input.w - input.s) * STEP <= i32::MAX,
    ensures
        p.moved(input.delta_spec().0, input.delta_spec().1).x == p.x + (input.d - input.a) * 10,
        p.moved(input.delta_spec().0, input.delta_spec().1).y == p.y + (input.w - input.s) * 10,
        p.moved(input.delta_spec().0, input.delta_spec().1).id == p.id,
        p.moved(input.delta_spec().0, input.delta_spec().1).session == p.session,
{
}

/// The identities of the `Spawn` messages among `out`, in their order.
pub open spec fn spawn_ids(out: Seq<OutgoingView>) -> Seq<PlayerId>
    decreases out.len(),
{
    if out.len() == 0 {
        Seq::empty()
    } else {
        match out.last().message {
            MessageView::Spawn { id, .. } => spawn_ids(out.drop_last()).push(id),
            _ => spawn_ids(out.drop_last()),
        }
    }
}

/// The player that a lifecycle event is about.
pub open spec fn event_player(e: Placed) -> PlayerId {
    match e.event {
        LifecycleEvent::Connected { player, .. } => player,
        LifecycleEvent::Disconnected { player, .. } => player,
    }
}

/// The announcement of one player adds exactly its one `Spawn`.
proof fn lemma_join_adds_one_spawn(
    out: Seq<OutgoingView>,
    session: SessionId,
    player: PlayerId,
    x: i32,
    y: i32,
)
    ensures
        spawn_ids(out + join_messages(session, player, x, y)) == spawn_ids(out).push(player),
{
    let jm = join_messages(session, player, x, y);
    let all = out + jm;
    let two = out + jm.take(2);
    let one = out + jm.take(1);
    assert(all.last() == jm[2]);
    assert(all.drop_last() =~= two);
    assert(spawn_ids(all) == spawn_ids(two).push(player));
    assert(two.last() == jm[1]);
    assert(two.drop_last() =~= one);
    assert(spawn_ids(two) == spawn_ids(one));
    assert(one.last() == jm[0]);
    assert(one.drop_last() =~= out);
    assert(spawn_ids(one) == spawn_ids(out));
}

/// Spawn uniqueness, as far as the world goes: when connections with
/// identities that differ from each other and from every player in the world
/// are established one after the other, each player enters the world and
/// exactly one `Spawn` is sent for each, with its identity, in that order.
pub proof fn lemma_each_connect_one_spawn(players: Seq<Player>, events: Seq<Placed>)
    requires
        forall|i: int|
            0 <= i < events.len() ==> (#[trigger] events[i]).event is Connected && !has_key(
                players,
                event_player(events[i]),
            ),
        forall|i: int, j: int|
            0 <= i < j < events.len() ==> event_player(events[i]) != event_player(events[j]),
    ensures
        spawn_ids(after_events(players, events).out) == events.map_values(
            |e: Placed| event_player(e),
        ),
        after_events(players, events).players.len() == players.len() + events.len(),
        forall|id: PlayerId|
            has_key(after_events(players, events).players, id) <==> has_key(players, id) || exists|
                i: int,
            |
                0 <= i < events.len() && event_player(#[trigger] events[i]) == id,
    decreases events.len(),
{
    let ids = events.map_values(|e: Placed| event_player(e));
    if events.len() == 0 {
        assert(spawn_ids(after_events(players, events).out) =~= ids);
    } else {
        let front = events.drop_last();
        let last = events.last();
        let n = front.len() as int;
        let before = after_events(players, front);
        let after = after_events(players, events);
        let p = event_player(last);
        assert forall|i: int| 0 <= i < front.len() implies (#[trigger] front[i]).event
            is Connected && !has_key(players, event_player(front[i])) by {
            assert(front[i] == events[i]);
        }
        assert forall|i: int, j: int| 0 <= i < j < front.len() implies event_player(front[i])
            != event_player(front[j]) by {
            assert(front[i] == events[i] && front[j] == events[j]);
        }
        lemma_each_connect_one_spawn(players, front);
        assert(events[n] == last);
        assert(!has_key(before.players, p)) by {
            if has_key(before.players, p) {
                let i = choose|i: int| 0 <= i < front.len() && event_player(#[trigger] front[i]) == p;
                assert(front[i] == events[i]);
                assert(event_player(events[i]) != event_player(events[n]));
            }
        }
        match last.event {
            LifecycleEvent::Connected { session, player } => {
                let entered = Player { id: player, x: last.x, y: last.y, session: Some(session) };
                assert(after.players == before.players.push(entered));
                lemma_join_adds_one_spawn(before.out, session, player, last.x, last.y);
                assert(spawn_ids(after.out) =~= ids) by {
                    assert(front.map_values(|e: Placed| event_player(e)).push(p) =~= ids);
                }
                assert forall|id: PlayerId|
                    has_key(after.players, id) <==> has_key(players, id) || exists|i: int|
                        0 <= i < events.len() && event_player(#[trigger] events[i]) == id by {
                    if has_key(after.players, id) {
                        let k = choose|k: int|
                            0 <= k < after.players.len() && after.players[k].key() == id;
                        if k < before.players.len() {
                            assert(before.players[k].key() == id);
                            assert(has_key(before.players, id));
                            if !has_key(players, id) {
                                let i = choose|i: int|
                                    0 <= i < front.len() && event_player(#[trigger] front[i])
                                        == id;
                                assert(events[i] == front[i]);
                            }
                        } else {
                            assert(event_player(events[n]) == id);
                        }
                    }
                    if has_key(players, id) {
                        assert(has_key(before.players, id));
                        let k = choose|k: int|
                            0 <= k < before.players.len() && before.players[k].key() == id;
                        assert(after.players[k].key() == id);
                    }
                    if exists|i: int|
                        0 <= i < events.len() && event_player(#[trigger] events[i]) == id {
                        let i = choose|i: int|
                            0 <= i < events.len() && event_player(#[trigger] events[i]) == id;
                        if i < n {
                            assert(front[i] == events[i]);
                            assert(has_key(before.players, id));
                            let k = choose|k: int|
                                0 <= k < before.players.len() && before.players[k].key() == id;
                            assert(after.players[k].key() == id);
                        } else {
                            assert(after.players[before.players.len() as int].key() == id);
                        }
                    }
                }
            },
            LifecycleEvent::Disconnected { .. } => {},
        }
    }
}

} // verus!
