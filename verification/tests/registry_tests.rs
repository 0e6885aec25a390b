use rusty_crabs::messages::{FieldDecl, Key};
use rusty_crabs::wire::{KIND_COORD, KIND_COUNT, KIND_ID, KIND_TEXT};
use rusty_crabs::{
    client_register_network_messages, server_register_network_messages, Direction, MessageKind,
    Registry, RegistryError,
};

const ALL: [MessageKind; 6] = [
    MessageKind::Connected,
    MessageKind::Spawn,
    MessageKind::Position,
    MessageKind::NewChatMessage,
    MessageKind::UserChatMessage,
    MessageKind::Actions,
];

#[test]
fn tags_are_the_catalogue_names() {
    assert_eq!(MessageKind::Connected.tag(), "Connected");
    assert_eq!(MessageKind::Spawn.tag(), "Spawn");
    assert_eq!(MessageKind::Position.tag(), "Position");
    assert_eq!(MessageKind::NewChatMessage.tag(), "NewChatMessage");
    assert_eq!(MessageKind::UserChatMessage.tag(), "UserChatMessage");
    assert_eq!(MessageKind::Actions.tag(), "Actions");
    for kind in ALL {
        assert_eq!(kind.wire_tag(), kind.tag().as_bytes());
        assert_eq!(MessageKind::from_tag(kind.wire_tag()), Some(kind));
    }
    assert_eq!(MessageKind::from_tag(b"Action"), None);
    assert_eq!(MessageKind::from_tag(b""), None);
    assert_eq!(MessageKind::from_tag(b"spawn"), None);
}

#[test]
fn a_new_registry_resolves_nothing() {
    let registry = Registry::new();
    for kind in ALL {
        assert!(!registry.is_known(kind));
        assert_eq!(
            registry.resolve(kind.tag(), Direction::ClientToServer),
            Err(RegistryError::UnknownTag)
        );
        assert_eq!(
            registry.resolve(kind.tag(), Direction::ServerToClient),
            Err(RegistryError::UnknownTag)
        );
    }
}

#[test]
fn a_registered_tag_resolves_in_its_direction_only() {
    let mut registry = Registry::new();
    assert_eq!(registry.register(MessageKind::Spawn, Direction::ServerToClient), Ok(()));
    assert_eq!(registry.resolve("Spawn", Direction::ServerToClient), Ok(MessageKind::Spawn));
    assert_eq!(
        registry.resolve("Spawn", Direction::ClientToServer),
        Err(RegistryError::UnknownTag)
    );
    assert_eq!(
        registry.resolve("Position", Direction::ServerToClient),
        Err(RegistryError::UnknownTag)
    );
    assert_eq!(
        registry.resolve("NoSuchTag", Direction::ServerToClient),
        Err(RegistryError::UnknownTag)
    );
    assert!(registry.is_registered(MessageKind::Spawn, Direction::ServerToClient));
    assert!(!registry.is_registered(MessageKind::Spawn, Direction::ClientToServer));
}

#[test]
fn registering_twice_is_a_duplicate() {
    let mut registry = Registry::new();
    assert_eq!(registry.register(MessageKind::Actions, Direction::ClientToServer), Ok(()));
    assert_eq!(
        registry.register(MessageKind::Actions, Direction::ClientToServer),
        Err(RegistryError::DuplicateTag)
    );
    assert_eq!(
        registry.register(MessageKind::Actions, Direction::ServerToClient),
        Err(RegistryError::DuplicateTag)
    );
    assert!(registry.is_registered(MessageKind::Actions, Direction::ClientToServer));
    assert!(!registry.is_registered(MessageKind::Actions, Direction::ServerToClient));
}

#[test]
fn the_client_listens_for_what_the_server_sends() {
    let mut registry = Registry::new();
    assert_eq!(client_register_network_messages(&mut registry), Ok(()));
    for kind in [
        MessageKind::NewChatMessage,
        MessageKind::Position,
        MessageKind::Spawn,
        MessageKind::Connected,
    ] {
        assert_eq!(registry.resolve(kind.tag(), Direction::ServerToClient), Ok(kind));
        assert!(!registry.is_registered(kind, Direction::ClientToServer));
    }
    assert!(!registry.is_known(MessageKind::UserChatMessage));
    assert!(!registry.is_known(MessageKind::Actions));
    assert_eq!(client_register_network_messages(&mut registry), Err(RegistryError::DuplicateTag));
}

#[test]
fn the_server_listens_for_what_clients_send() {
    let mut registry = Registry::new();
    assert_eq!(server_register_network_messages(&mut registry), Ok(()));
    for kind in [MessageKind::UserChatMessage, MessageKind::Actions] {
        assert_eq!(registry.resolve(kind.tag(), Direction::ClientToServer), Ok(kind));
        assert!(!registry.is_registered(kind, Direction::ServerToClient));
    }
    assert!(!registry.is_known(MessageKind::Spawn));
    assert_eq!(server_register_network_messages(&mut registry), Err(RegistryError::DuplicateTag));
}

#[test]
fn a_refused_bulk_registration_registers_nothing() {
    let mut registry = Registry::new();
    assert_eq!(registry.register(MessageKind::Spawn, Direction::ClientToServer), Ok(()));
    assert_eq!(client_register_network_messages(&mut registry), Err(RegistryError::DuplicateTag));
    assert!(!registry.is_known(MessageKind::NewChatMessage));
    assert!(!registry.is_known(MessageKind::Position));
    assert!(!registry.is_known(MessageKind::Connected));
    assert!(registry.is_registered(MessageKind::Spawn, Direction::ClientToServer));
}

#[test]
fn both_sides_together_make_the_whole_catalogue() {
    let mut registry = Registry::new();
    assert_eq!(client_register_network_messages(&mut registry), Ok(()));
    assert_eq!(server_register_network_messages(&mut registry), Ok(()));
    for kind in ALL {
        assert!(registry.is_known(kind));
    }
}

#[test]
fn every_shape_declares_the_fields_of_the_catalogue() {
    let id = FieldDecl { key: Key::Id, code: KIND_ID };
    let x = FieldDecl { key: Key::X, code: KIND_COORD };
    let y = FieldDecl { key: Key::Y, code: KIND_COORD };
    let text = |key| FieldDecl { key, code: KIND_TEXT };
    let count = |key| FieldDecl { key, code: KIND_COUNT };
    assert_eq!(MessageKind::Connected.fields(), vec![id]);
    assert_eq!(MessageKind::Spawn.fields(), vec![id, x, y]);
    assert_eq!(MessageKind::Position.fields(), vec![id, x, y]);
    assert_eq!(MessageKind::NewChatMessage.fields(), vec![text(Key::Name), text(Key::Message)]);
    assert_eq!(MessageKind::UserChatMessage.fields(), vec![text(Key::Message)]);
    assert_eq!(
        MessageKind::Actions.fields(),
        vec![count(Key::W), count(Key::A), count(Key::S), count(Key::D)]
    );
    assert_eq!((KIND_ID, KIND_COORD, KIND_COUNT, KIND_TEXT), (1, 2, 3, 4));
    let names: Vec<&str> = [
        Key::Id, Key::X, Key::Y, Key::Name, Key::Message, Key::W, Key::A, Key::S, Key::D,
    ]
    .iter()
    .map(|k| k.name())
    .collect();
    assert_eq!(names, vec!["id", "x", "y", "name", "message", "w", "a", "s", "d"]);
    assert_eq!(Key::Message.wire_name(), b"message");
}
