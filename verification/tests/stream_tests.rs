use rusty_crabs::client::{ClientError, ClientEvent, NetworkClient};
use rusty_crabs::codec::{encode, CodecError, MAX_FRAME_LEN};
use rusty_crabs::stream::{Inbox, Intake};
use rusty_crabs::{
    client_register_network_messages, Actions, Connected, Direction, Message, NewChatMessage,
    PlayerId, Position, Registry, Spawn, UserChatMessage,
};

fn client_registry() -> Registry {
    let mut registry = Registry::new();
    assert_eq!(client_register_network_messages(&mut registry), Ok(()));
    registry
}

#[test]
fn a_frame_in_pieces_is_pending_until_its_last_byte() {
    let registry = client_registry();
    let message = Message::Spawn(Spawn { id: PlayerId(5), x: 1, y: 2 });
    let bytes = encode(&message).unwrap();
    let mut inbox = Inbox::new();
    for (n, byte) in bytes.iter().enumerate() {
        assert_eq!(inbox.poll(&registry, Direction::ServerToClient), Intake::Pending);
        assert_eq!(inbox.len(), n);
        inbox.feed(&[*byte]);
    }
    assert_eq!(inbox.poll(&registry, Direction::ServerToClient), Intake::Message(message));
    assert_eq!(inbox.len(), 0);
    assert_eq!(inbox.poll(&registry, Direction::ServerToClient), Intake::Pending);
}

#[test]
fn draining_reads_every_whole_frame_and_keeps_the_rest() {
    let registry = client_registry();
    let first = Message::Connected(Connected { id: PlayerId(1) });
    let second = Message::Position(Position { id: PlayerId(1), x: 3, y: 4 });
    let third = Message::NewChatMessage(NewChatMessage {
        name: String::from("Server"),
        message: String::from("hi"),
    });
    let dropped = Message::Actions(Actions { w: 0, a: 0, s: 0, d: 0 });
    let mut inbox = Inbox::new();
    inbox.feed(&encode(&first).unwrap());
    inbox.feed(&encode(&dropped).unwrap());
    inbox.feed(&encode(&second).unwrap());
    let tail = encode(&third).unwrap();
    inbox.feed(&tail[..10]);
    let (messages, violation) = inbox.drain(&registry, Direction::ServerToClient);
    assert_eq!(messages, vec![first, second]);
    assert!(!violation);
    assert_eq!(inbox.len(), 10);
    inbox.feed(&tail[10..]);
    let (messages, violation) = inbox.drain(&registry, Direction::ServerToClient);
    assert_eq!(messages, vec![third]);
    assert!(!violation);
    assert_eq!(inbox.len(), 0);
}

#[test]
fn draining_stops_at_a_frame_that_is_too_long() {
    let registry = client_registry();
    let first = Message::Connected(Connected { id: PlayerId(1) });
    let mut inbox = Inbox::new();
    inbox.feed(&encode(&first).unwrap());
    inbox.feed(&u32::MAX.to_le_bytes());
    inbox.feed(&encode(&first).unwrap());
    let before = inbox.len();
    let (messages, violation) = inbox.drain(&registry, Direction::ServerToClient);
    assert_eq!(messages, vec![first.clone()]);
    assert!(violation);
    assert_eq!(inbox.len(), before - encode(&first).unwrap().len());
    assert_eq!(inbox.poll(&registry, Direction::ServerToClient), Intake::Violation);
    inbox.clear();
    assert_eq!(inbox.len(), 0);
    assert_eq!(inbox.poll(&registry, Direction::ServerToClient), Intake::Pending);
}

#[test]
fn a_frame_that_cannot_be_decoded_is_taken_off_the_stream() {
    let registry = client_registry();
    let mut inbox = Inbox::new();
    let mut bad = vec![3u8, 0, 0, 0];
    bad.extend_from_slice(&[2, b'N', b'o']);
    inbox.feed(&bad);
    assert_eq!(
        inbox.poll(&registry, Direction::ServerToClient),
        Intake::Dropped(CodecError::UnknownTag)
    );
    assert_eq!(inbox.len(), 0);
    let mut mismatch = vec![6u8, 0, 0, 0];
    mismatch.extend_from_slice(&[5, b'S', b'p', b'a', b'w', b'n']);
    inbox.feed(&mismatch);
    inbox.feed(&[9]);
    assert_eq!(
        inbox.poll(&registry, Direction::ServerToClient),
        Intake::Dropped(CodecError::SchemaMismatch)
    );
    assert_eq!(inbox.len(), 1);
}

#[test]
fn sending_needs_a_connection() {
    let mut client = NetworkClient::new();
    let message = Message::Actions(Actions { w: 1, a: 2, s: 3, d: 4 });
    assert!(!client.connected());
    assert_eq!(client.send(&message), Err(ClientError::NotConnected));
    assert_eq!(client.take_outgoing(), Vec::<u8>::new());
    client.on_connect();
    assert!(client.connected());
    assert_eq!(client.send(&message), Ok(()));
    let chat = Message::UserChatMessage(UserChatMessage { message: String::from("hi") });
    assert_eq!(client.send(&chat), Ok(()));
    let mut expected = encode(&message).unwrap();
    expected.extend_from_slice(&encode(&chat).unwrap());
    assert_eq!(client.take_outgoing(), expected);
    assert_eq!(client.take_outgoing(), Vec::<u8>::new());
    client.on_disconnect();
    assert_eq!(client.send(&message), Err(ClientError::NotConnected));
    assert_eq!(
        client.drain_events(),
        vec![ClientEvent::Connected, ClientEvent::Disconnected]
    );
    assert_eq!(client.drain_events(), vec![]);
}

#[test]
fn a_message_without_a_frame_is_not_sent() {
    let mut client = NetworkClient::new();
    client.on_connect();
    let huge = Message::UserChatMessage(UserChatMessage { message: "x".repeat(MAX_FRAME_LEN) });
    assert_eq!(client.send(&huge), Err(ClientError::Oversized));
    assert_eq!(client.take_outgoing(), Vec::<u8>::new());
    assert!(client.connected());
}

#[test]
fn losing_the_connection_drops_what_was_waiting() {
    let mut client = NetworkClient::new();
    client.on_connect();
    assert_eq!(client.send(&Message::Actions(Actions { w: 0, a: 0, s: 0, d: 1 })), Ok(()));
    client.on_disconnect();
    assert_eq!(client.take_outgoing(), Vec::<u8>::new());
    assert!(!client.connected());
}

#[test]
fn the_client_queues_what_arrives_in_its_order() {
    let registry = client_registry();
    let mut client = NetworkClient::new();
    let first = Message::Connected(Connected { id: PlayerId(1) });
    let second = Message::Spawn(Spawn { id: PlayerId(1), x: 3, y: 4 });
    let bytes = encode(&first).unwrap();
    assert!(!client.receive(&bytes, &registry));
    assert_eq!(client.drain_inbound(), vec![]);
    client.on_connect();
    let mut stream = bytes.clone();
    stream.extend_from_slice(&encode(&second).unwrap());
    assert!(!client.receive(&stream[..7], &registry));
    assert!(!client.receive(&stream[7..40], &registry));
    assert!(!client.receive(&stream[40..], &registry));
    assert_eq!(client.drain_inbound(), vec![first, second]);
    assert_eq!(client.drain_inbound(), vec![]);
}

#[test]
fn an_oversized_frame_ends_the_clients_connection() {
    let registry = client_registry();
    let mut client = NetworkClient::new();
    client.on_connect();
    client.drain_events();
    let first = Message::Connected(Connected { id: PlayerId(1) });
    let mut stream = encode(&first).unwrap();
    stream.extend_from_slice(&((MAX_FRAME_LEN as u32) + 1).to_le_bytes());
    assert!(client.receive(&stream, &registry));
    assert!(!client.connected());
    assert_eq!(client.drain_inbound(), vec![first]);
    assert_eq!(client.drain_events(), vec![ClientEvent::Disconnected]);
}
