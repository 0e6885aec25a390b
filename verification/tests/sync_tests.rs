use rusty_crabs::client::{ClientError, NetworkClient};
use rusty_crabs::codec::encode;
use rusty_crabs::connection::LifecycleEvent;
use rusty_crabs::sync::{
    apply_actions, apply_events, apply_inbound, broadcast_positions, client_tick, handle_event,
    place_events, server_tick, server_tick_with, InputAccumulator, Outgoing, Placed, PlayerAction,
    Target,
};
use rusty_crabs::{
    Actions, Connected, Me, Message, NewChatMessage, Player, PlayerId, Position, SessionId, Spawn,
    UserChatMessage, WorldState,
};

fn connected(session: u64, player: u128) -> LifecycleEvent {
    LifecycleEvent::Connected { session: SessionId(session), player: PlayerId(player) }
}

fn join(session: u64, player: u128, x: i32, y: i32) -> Vec<Outgoing> {
    vec![
        Outgoing {
            target: Target::One(SessionId(session)),
            message: Message::Connected(Connected { id: PlayerId(player) }),
        },
        Outgoing {
            target: Target::All,
            message: Message::NewChatMessage(NewChatMessage {
                name: String::from("Server"),
                message: format!("New user connected; {:032x}", player),
            }),
        },
        Outgoing {
            target: Target::All,
            message: Message::Spawn(Spawn { id: PlayerId(player), x, y }),
        },
    ]
}

fn told(player: u128, x: i32, y: i32) -> Outgoing {
    Outgoing {
        target: Target::All,
        message: Message::Position(Position { id: PlayerId(player), x, y }),
    }
}

#[test]
fn the_counters_count_the_keys_that_are_held() {
    let mut input = InputAccumulator::new();
    assert_eq!(input, InputAccumulator { w: 0, a: 0, s: 0, d: 0 });
    input.press(true, false, false, true);
    input.press(true, true, false, false);
    input.press(false, false, false, false);
    assert_eq!(input, InputAccumulator { w: 2, a: 1, s: 0, d: 1 });
}

#[test]
fn a_counter_stays_at_the_top_of_its_range() {
    let mut input = InputAccumulator { w: i16::MAX - 1, a: i16::MAX, s: 0, d: -3 };
    input.press(true, true, true, true);
    assert_eq!(input, InputAccumulator { w: i16::MAX, a: i16::MAX, s: 1, d: -2 });
    input.press(true, true, false, false);
    assert_eq!(input, InputAccumulator { w: i16::MAX, a: i16::MAX, s: 1, d: -2 });
}

#[test]
fn flushing_reports_the_counters_and_sets_them_to_zero() {
    let mut input = InputAccumulator { w: 3, a: -7, s: i16::MAX, d: i16::MIN };
    assert_eq!(input.flush(), Actions { w: 3, a: -7, s: i16::MAX, d: i16::MIN });
    assert_eq!(input, InputAccumulator { w: 0, a: 0, s: 0, d: 0 });
    assert_eq!(input.flush(), Actions { w: 0, a: 0, s: 0, d: 0 });
    assert_eq!(input, InputAccumulator { w: 0, a: 0, s: 0, d: 0 });
}

#[test]
fn places_are_drawn_inside_the_margin() {
    let mut events = Vec::new();
    for n in 0..500u64 {
        events.push(connected(n, n as u128));
    }
    let placed = place_events(&events);
    assert_eq!(placed.len(), events.len());
    let mut xs = std::collections::BTreeSet::new();
    let mut ys = std::collections::BTreeSet::new();
    for (p, e) in placed.iter().zip(events.iter()) {
        assert_eq!(p.event, *e);
        assert!(-347 <= p.x && p.x < 347);
        assert!(-247 <= p.y && p.y < 247);
        xs.insert(p.x);
        ys.insert(p.y);
    }
    // the places are drawn, not copied from the bounds
    assert!(xs.len() > 50);
    assert!(ys.len() > 50);
}

#[test]
fn a_connected_player_is_spawned_and_announced() {
    let mut world = WorldState::new();
    let out = handle_event(&mut world, Placed { event: connected(4, 40), x: -12, y: 30 });
    assert_eq!(out, join(4, 40, -12, 30));
    assert_eq!(
        world.get(PlayerId(40)),
        Some(Player { id: PlayerId(40), x: -12, y: 30, session: Some(SessionId(4)) })
    );
    let again = handle_event(&mut world, Placed { event: connected(5, 40), x: 0, y: 0 });
    assert_eq!(again, vec![]);
    assert_eq!(world.len(), 1);
}

#[test]
fn a_disconnected_player_leaves_the_world() {
    let mut world = WorldState::new();
    world.spawn(PlayerId(1), 0, 0, Some(SessionId(1)));
    world.spawn(PlayerId(2), 0, 0, Some(SessionId(2)));
    let gone = LifecycleEvent::Disconnected { session: SessionId(1), player: PlayerId(1) };
    assert_eq!(handle_event(&mut world, Placed { event: gone, x: 0, y: 0 }), vec![]);
    assert_eq!(world.snapshot(), vec![Position { id: PlayerId(2), x: 0, y: 0 }]);
    assert_eq!(broadcast_positions(&world), vec![told(2, 0, 0)]);
}

#[test]
fn every_connect_is_answered_with_one_spawn_of_its_identity() {
    let mut world = WorldState::new();
    let mut events = Vec::new();
    for n in 0..20u64 {
        events.push(Placed { event: connected(n, 1000 + n as u128), x: n as i32, y: -(n as i32) });
    }
    let out = apply_events(&mut world, &events);
    let spawns: Vec<PlayerId> = out
        .iter()
        .filter_map(|o| match &o.message {
            Message::Spawn(s) => Some(s.id),
            _ => None,
        })
        .collect();
    let expected: Vec<PlayerId> = (0..20u128).map(|n| PlayerId(1000 + n)).collect();
    assert_eq!(spawns, expected);
    assert_eq!(out.len(), 60);
    assert_eq!(world.len(), 20);
}

#[test]
fn the_given_input_moves_the_player_by_fifty_and_twenty() {
    let mut world = WorldState::new();
    let (x0, y0) = (-120, 75);
    world.spawn(PlayerId(1), x0, y0, Some(SessionId(1)));
    world.spawn(PlayerId(2), x0, y0, Some(SessionId(2)));
    let input = Actions { w: 2, a: 0, s: 0, d: 5 };
    apply_actions(&mut world, &vec![PlayerAction { player: PlayerId(1), actions: input }]);
    assert_eq!(
        world.snapshot(),
        vec![
            Position { id: PlayerId(1), x: x0 + 5 * 10, y: y0 + 2 * 10 },
            Position { id: PlayerId(2), x: x0, y: y0 },
        ]
    );
}

#[test]
fn input_of_one_tick_adds_up_in_its_order() {
    let mut world = WorldState::new();
    world.spawn(PlayerId(1), 0, 0, None);
    let actions = vec![
        PlayerAction { player: PlayerId(1), actions: Actions { w: 1, a: 0, s: 0, d: 0 } },
        PlayerAction { player: PlayerId(9), actions: Actions { w: 1, a: 0, s: 0, d: 0 } },
        PlayerAction { player: PlayerId(1), actions: Actions { w: 0, a: 3, s: 1, d: 1 } },
    ];
    apply_actions(&mut world, &actions);
    assert_eq!(world.snapshot(), vec![Position { id: PlayerId(1), x: -20, y: 0 }]);
}

#[test]
fn a_tick_spawns_then_moves_then_reports() {
    let mut world = WorldState::new();
    world.spawn(PlayerId(1), 0, 0, Some(SessionId(1)));
    let events = vec![Placed { event: connected(2, 2), x: 100, y: 100 }];
    let actions = vec![
        PlayerAction { player: PlayerId(2), actions: Actions { w: 0, a: 0, s: 1, d: 1 } },
        PlayerAction { player: PlayerId(1), actions: Actions { w: 1, a: 1, s: 0, d: 0 } },
    ];
    let out = server_tick_with(&mut world, &events, &actions);
    let mut expected = join(2, 2, 100, 100);
    expected.push(told(1, -10, 10));
    expected.push(told(2, 110, 90));
    assert_eq!(out, expected);
}

#[test]
fn a_tick_without_events_reports_every_player() {
    let mut world = WorldState::new();
    assert_eq!(server_tick(&mut world, &vec![], &vec![]), vec![]);
    world.spawn(PlayerId(1), 3, 4, None);
    world.spawn(PlayerId(2), 5, 6, None);
    assert_eq!(server_tick(&mut world, &vec![], &vec![]), vec![told(1, 3, 4), told(2, 5, 6)]);
    assert_eq!(server_tick(&mut world, &vec![], &vec![]), vec![told(1, 3, 4), told(2, 5, 6)]);
}

#[test]
fn a_tick_draws_the_place_of_a_new_player() {
    let mut world = WorldState::new();
    let out = server_tick(&mut world, &vec![connected(1, 11)], &vec![]);
    assert_eq!(out.len(), 4);
    let spawned = world.get(PlayerId(11)).unwrap();
    assert!(-347 <= spawned.x && spawned.x < 347);
    assert!(-247 <= spawned.y && spawned.y < 247);
    assert_eq!(spawned.session, Some(SessionId(1)));
    let mut expected = join(1, 11, spawned.x, spawned.y);
    expected.push(told(11, spawned.x, spawned.y));
    assert_eq!(out, expected);
}

#[test]
fn the_mirror_applies_what_arrives_in_its_order() {
    let mut mirror = WorldState::new();
    let messages = vec![
        Message::Connected(Connected { id: PlayerId(1) }),
        Message::NewChatMessage(NewChatMessage {
            name: String::from("Server"),
            message: String::from("New user connected"),
        }),
        Message::Position(Position { id: PlayerId(1), x: 50, y: 50 }),
        Message::Spawn(Spawn { id: PlayerId(1), x: 1, y: 2 }),
        Message::Spawn(Spawn { id: PlayerId(2), x: 3, y: 4 }),
        Message::Position(Position { id: PlayerId(2), x: 13, y: 4 }),
        Message::UserChatMessage(UserChatMessage { message: String::from("ignored") }),
        Message::Actions(Actions { w: 1, a: 1, s: 1, d: 1 }),
        Message::NewChatMessage(NewChatMessage {
            name: String::from("Ann"),
            message: String::from("hi"),
        }),
    ];
    let notices = apply_inbound(&mut mirror, &messages);
    assert_eq!(
        notices,
        vec![
            NewChatMessage {
                name: String::from("Server"),
                message: String::from("New user connected"),
            },
            NewChatMessage { name: String::from("Ann"), message: String::from("hi") },
        ]
    );
    assert_eq!(mirror.local_player(), Some(Me(PlayerId(1))));
    assert!(mirror.is_self(PlayerId(1)));
    assert_eq!(
        mirror.snapshot(),
        vec![Position { id: PlayerId(1), x: 1, y: 2 }, Position { id: PlayerId(2), x: 13, y: 4 }]
    );
}

#[test]
fn a_client_tick_sends_the_counters_and_resets_them() {
    let mut mirror = WorldState::new();
    let mut client = NetworkClient::new();
    client.on_connect();
    let mut input = InputAccumulator { w: 4, a: 3, s: 2, d: 1 };
    let report = client_tick(&mut mirror, &mut client, &mut input);
    assert_eq!(report.sent, Ok(()));
    assert_eq!(report.notices, vec![]);
    assert_eq!(input, InputAccumulator { w: 0, a: 0, s: 0, d: 0 });
    assert_eq!(
        client.take_outgoing(),
        encode(&Message::Actions(Actions { w: 4, a: 3, s: 2, d: 1 })).unwrap()
    );
    // the counters are sent even when they are all zero
    let report = client_tick(&mut mirror, &mut client, &mut input);
    assert_eq!(report.sent, Ok(()));
    assert_eq!(
        client.take_outgoing(),
        encode(&Message::Actions(Actions { w: 0, a: 0, s: 0, d: 0 })).unwrap()
    );
}

#[test]
fn the_counters_are_reset_even_when_nothing_can_be_sent() {
    let mut mirror = WorldState::new();
    let mut client = NetworkClient::new();
    let mut input = InputAccumulator { w: i16::MAX, a: i16::MIN, s: -1, d: 1 };
    let report = client_tick(&mut mirror, &mut client, &mut input);
    assert_eq!(report.sent, Err(ClientError::NotConnected));
    assert_eq!(input, InputAccumulator { w: 0, a: 0, s: 0, d: 0 });
    assert_eq!(client.take_outgoing(), Vec::<u8>::new());
}

#[test]
fn the_notice_names_the_new_player() {
    let mut world = WorldState::new();
    let event = connected(1, 0x936DA01F9ABD4D9D80C702AF85C822A8);
    let out = handle_event(&mut world, Placed { event, x: 0, y: 0 });
    assert_eq!(
        out[1].message,
        Message::NewChatMessage(NewChatMessage {
            name: String::from("Server"),
            message: String::from("New user connected; 936da01f9abd4d9d80c702af85c822a8"),
        })
    );
}

#[test]
fn an_identity_is_written_as_thirty_two_hexadecimal_digits() {
    assert_eq!(PlayerId(0).text(), "00000000000000000000000000000000");
    assert_eq!(PlayerId(u128::MAX).text(), "ffffffffffffffffffffffffffffffff");
    assert_eq!(PlayerId(0xabc).text(), "00000000000000000000000000000abc");
    assert_eq!(
        PlayerId(0x0123456789abcdef_fedcba9876543210).text(),
        "0123456789abcdeffedcba9876543210"
    );
    assert_eq!(PlayerId(1 << 127).text(), "80000000000000000000000000000000");
}
