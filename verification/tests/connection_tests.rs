use rusty_crabs::codec::{encode, CodecError, MAX_FRAME_LEN};
use rusty_crabs::connection::{
    ConnState, ConnectionError, ConnectionManager, LifecycleEvent, Session,
};
use rusty_crabs::stream::{Inbox, Intake};
use rusty_crabs::{
    server_register_network_messages, Actions, Connected, Message, PlayerId, Registry, SessionId,
    UserChatMessage,
};

fn server_registry() -> Registry {
    let mut registry = Registry::new();
    assert_eq!(server_register_network_messages(&mut registry), Ok(()));
    registry
}

#[test]
fn a_connection_goes_from_connecting_to_established_to_closed() {
    let mut table = ConnectionManager::new();
    let s = SessionId(11);
    assert_eq!(table.state_of(s), ConnState::Closed);
    assert_eq!(table.open(s), Ok(()));
    assert_eq!(table.state_of(s), ConnState::Connecting);
    assert_eq!(table.player_of(s), None);
    assert_eq!(table.drain_events(), vec![]);
    let id = table.establish_with(s, 500).unwrap();
    assert_eq!(id, PlayerId(500));
    assert_eq!(table.state_of(s), ConnState::Established);
    assert_eq!(table.player_of(s), Some(id));
    assert_eq!(table.session_of(id), Some(s));
    assert_eq!(table.live(), vec![Session { id: s, player: Some(id) }]);
    assert_eq!(table.close(s), Ok(Some(id)));
    assert_eq!(table.state_of(s), ConnState::Closed);
    assert_eq!(table.session_of(id), None);
    assert_eq!(table.len(), 0);
    assert_eq!(
        table.drain_events(),
        vec![
            LifecycleEvent::Connected { session: s, player: id },
            LifecycleEvent::Disconnected { session: s, player: id },
        ]
    );
    assert_eq!(table.drain_events(), vec![]);
}

#[test]
fn requests_that_do_not_fit_the_state_are_turned_down() {
    let mut table = ConnectionManager::new();
    let s = SessionId(1);
    assert_eq!(table.establish(s), Err(ConnectionError::UnknownSession));
    assert_eq!(table.establish_with(s, 3), Err(ConnectionError::UnknownSession));
    assert_eq!(table.close(s), Err(ConnectionError::UnknownSession));
    assert_eq!(table.open(s), Ok(()));
    assert_eq!(table.open(s), Err(ConnectionError::DuplicateSession));
    let id = table.establish_with(s, 3).unwrap();
    assert_eq!(table.establish_with(s, 4), Err(ConnectionError::AlreadyEstablished));
    assert_eq!(table.establish(s), Err(ConnectionError::AlreadyEstablished));
    assert_eq!(table.open(s), Err(ConnectionError::DuplicateSession));
    assert_eq!(table.player_of(s), Some(id));
    assert_eq!(table.len(), 1);
    assert_eq!(table.drain_events(), vec![LifecycleEvent::Connected { session: s, player: id }]);
}

#[test]
fn closing_a_connecting_connection_notes_no_event() {
    let mut table = ConnectionManager::new();
    assert_eq!(table.open(SessionId(5)), Ok(()));
    assert_eq!(table.close(SessionId(5)), Ok(None));
    assert_eq!(table.drain_events(), vec![]);
    assert_eq!(table.len(), 0);
}

#[test]
fn a_candidate_that_is_taken_leads_to_the_next_free_identity() {
    let mut table = ConnectionManager::new();
    for n in 0..5u64 {
        assert_eq!(table.open(SessionId(n)), Ok(()));
    }
    assert_eq!(table.establish_with(SessionId(0), 40), Ok(PlayerId(40)));
    assert_eq!(table.establish_with(SessionId(1), 41), Ok(PlayerId(41)));
    assert_eq!(table.establish_with(SessionId(2), 40), Ok(PlayerId(42)));
    assert_eq!(table.establish_with(SessionId(3), 41), Ok(PlayerId(43)));
    assert_eq!(table.establish_with(SessionId(4), 39), Ok(PlayerId(39)));
}

#[test]
fn a_candidate_at_the_top_of_the_range_is_moved_down() {
    let mut table = ConnectionManager::new();
    assert_eq!(table.open(SessionId(0)), Ok(()));
    assert_eq!(table.open(SessionId(1)), Ok(()));
    assert_eq!(table.establish_with(SessionId(0), u128::MAX), Ok(PlayerId(u128::MAX - 2)));
    assert_eq!(table.establish_with(SessionId(1), u128::MAX), Ok(PlayerId(u128::MAX - 1)));
    // with three connections the search starts three below the top
    assert_eq!(table.open(SessionId(2)), Ok(()));
    assert_eq!(table.establish_with(SessionId(2), u128::MAX - 1), Ok(PlayerId(u128::MAX - 3)));
    assert_eq!(table.open(SessionId(3)), Ok(()));
    assert_eq!(table.establish_with(SessionId(3), u128::MAX), Ok(PlayerId(u128::MAX - 4)));
    assert_eq!(table.open(SessionId(4)), Ok(()));
    assert_eq!(table.establish_with(SessionId(4), u128::MAX - 2), Ok(PlayerId(u128::MAX - 5)));
}

#[test]
fn sequential_connects_get_distinct_identities() {
    let mut table = ConnectionManager::new();
    let mut ids = Vec::new();
    for n in 0..64u64 {
        assert_eq!(table.open(SessionId(n)), Ok(()));
        ids.push(table.establish(SessionId(n)).unwrap());
    }
    for i in 0..ids.len() {
        for j in 0..i {
            assert_ne!(ids[i], ids[j]);
        }
        assert_eq!(table.session_of(ids[i]), Some(SessionId(i as u64)));
    }
    let mut same = ConnectionManager::new();
    for n in 0..64u64 {
        assert_eq!(same.open(SessionId(n)), Ok(()));
        assert_eq!(same.establish_with(SessionId(n), 7), Ok(PlayerId(7 + n as u128)));
    }
}

#[test]
fn a_fresh_identity_is_a_random_uuid() {
    let mut table = ConnectionManager::new();
    for n in 0..16u64 {
        assert_eq!(table.open(SessionId(n)), Ok(()));
        let id = table.establish(SessionId(n)).unwrap();
        // version 4, variant 1, as every random UUID has them
        assert_eq!((id.0 >> 76) & 0xf, 4);
        assert_eq!((id.0 >> 62) & 0x3, 2);
    }
}

#[test]
fn an_identity_is_free_again_when_its_connection_has_closed() {
    let mut table = ConnectionManager::new();
    assert_eq!(table.open(SessionId(0)), Ok(()));
    assert_eq!(table.open(SessionId(1)), Ok(()));
    assert_eq!(table.establish_with(SessionId(0), 9), Ok(PlayerId(9)));
    assert_eq!(table.close(SessionId(0)), Ok(Some(PlayerId(9))));
    assert_eq!(table.establish_with(SessionId(1), 9), Ok(PlayerId(9)));
    assert_eq!(table.live(), vec![Session { id: SessionId(1), player: Some(PlayerId(9)) }]);
}

#[test]
fn closing_keeps_the_other_connections_in_their_order() {
    let mut table = ConnectionManager::new();
    for n in 0..4u64 {
        assert_eq!(table.open(SessionId(n)), Ok(()));
        assert_eq!(table.establish_with(SessionId(n), 100), Ok(PlayerId(100 + n as u128)));
    }
    assert_eq!(table.close(SessionId(1)), Ok(Some(PlayerId(101))));
    assert_eq!(
        table.live(),
        vec![
            Session { id: SessionId(0), player: Some(PlayerId(100)) },
            Session { id: SessionId(2), player: Some(PlayerId(102)) },
            Session { id: SessionId(3), player: Some(PlayerId(103)) },
        ]
    );
}

#[test]
fn an_established_connection_is_read_frame_by_frame() {
    let registry = server_registry();
    let mut table = ConnectionManager::new();
    let s = SessionId(3);
    let mut inbox = Inbox::new();
    assert_eq!(table.receive(s, &mut inbox, &registry), Err(ConnectionError::NotEstablished));
    assert_eq!(table.open(s), Ok(()));
    assert_eq!(table.receive(s, &mut inbox, &registry), Err(ConnectionError::NotEstablished));
    table.establish_with(s, 1).unwrap();
    assert_eq!(table.receive(s, &mut inbox, &registry), Ok(Intake::Pending));

    let actions = Message::Actions(Actions { w: 1, a: 0, s: 0, d: 3 });
    let chat = Message::UserChatMessage(UserChatMessage { message: String::from("hello") });
    let wrong_way = Message::Connected(Connected { id: PlayerId(1) });
    inbox.feed(&encode(&actions).unwrap());
    inbox.feed(&encode(&wrong_way).unwrap());
    inbox.feed(&encode(&chat).unwrap());
    assert_eq!(table.receive(s, &mut inbox, &registry), Ok(Intake::Message(actions)));
    assert_eq!(
        table.receive(s, &mut inbox, &registry),
        Ok(Intake::Dropped(CodecError::UnknownTag))
    );
    assert_eq!(table.receive(s, &mut inbox, &registry), Ok(Intake::Message(chat)));
    assert_eq!(table.receive(s, &mut inbox, &registry), Ok(Intake::Pending));
    assert_eq!(inbox.len(), 0);
    assert_eq!(table.state_of(s), ConnState::Established);
}

#[test]
fn an_oversized_frame_closes_the_connection() {
    let registry = server_registry();
    let mut table = ConnectionManager::new();
    let s = SessionId(8);
    assert_eq!(table.open(s), Ok(()));
    let id = table.establish_with(s, 77).unwrap();
    table.drain_events();
    let mut inbox = Inbox::new();
    inbox.feed(&((MAX_FRAME_LEN as u32) + 1).to_le_bytes());
    inbox.feed(&[1, 2, 3]);
    assert_eq!(table.receive(s, &mut inbox, &registry), Ok(Intake::Violation));
    assert_eq!(table.state_of(s), ConnState::Closed);
    assert_eq!(
        table.drain_events(),
        vec![LifecycleEvent::Disconnected { session: s, player: id }]
    );
    assert_eq!(table.receive(s, &mut inbox, &registry), Err(ConnectionError::NotEstablished));
}

#[test]
fn a_frame_of_exactly_the_limit_is_no_violation() {
    let registry = server_registry();
    let mut inbox = Inbox::new();
    inbox.feed(&(MAX_FRAME_LEN as u32).to_le_bytes());
    assert_eq!(
        inbox.poll(&registry, rusty_crabs::Direction::ClientToServer),
        Intake::Pending
    );
    assert_eq!(inbox.len(), 4);
}
