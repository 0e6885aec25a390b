//! The message registry: which shapes may arrive from which side.

use vstd::prelude::*;
use crate::messages::{Direction, MessageKind};
use crate::wire::same_bytes;

verus! {

/// Why the registry turned a request down.
#[derive(Clone, Copy, Debug, PartialEq, Eq, Structural)]
pub enum RegistryError {
    /// The tag is registered already.
    DuplicateTag,
    /// No shape with this tag is registered for the direction asked for.
    UnknownTag,
}

/// One registration.
#[derive(Clone, Copy, Debug, PartialEq, Eq, Structural)]
pub struct Entry {
    pub kind: MessageKind,
    pub direction: Direction,
}

/// The shape whose tag is `tag`, if there is one.
pub open spec fn kind_of_tag(tag: Seq<u8>) -> Option<MessageKind> {
    if tag == MessageKind::Connected.tag_bytes() {
        Some(MessageKind::Connected)
    } else if tag == MessageKind::Spawn.tag_bytes() {
        Some(MessageKind::Spawn)
    } else if tag == MessageKind::Position.tag_bytes() {
        Some(MessageKind::Position)
    } else if tag == MessageKind::NewChatMessage.tag_bytes() {
        Some(MessageKind::NewChatMessage)
    } else if tag == MessageKind::UserChatMessage.tag_bytes() {
        Some(MessageKind::UserChatMessage)
    } else if tag == MessageKind::Actions.tag_bytes() {
        Some(MessageKind::Actions)
    } else {
        None
    }
}

/// Every shape is found again by its own tag.
pub proof fn lemma_kind_of_own_tag(kind: MessageKind)
    ensures
        kind_of_tag(kind.tag_bytes()) == Some(kind),
{
    MessageKind::lemma_tags_distinct(kind, MessageKind::Connected);
    MessageKind::lemma_tags_distinct(kind, MessageKind::Spawn);
    MessageKind::lemma_tags_distinct(kind, MessageKind::Position);
    MessageKind::lemma_tags_distinct(kind, MessageKind::NewChatMessage);
    MessageKind::lemma_tags_distinct(kind, MessageKind::UserChatMessage);
    MessageKind::lemma_tags_distinct(kind, MessageKind::Actions);
}

impl MessageKind {
    /// The shape that a tag names.
    pub fn from_tag(tag: &[u8]) -> (r: Option<MessageKind>)
        ensures
            r == kind_of_tag(tag@),
    {
        let n = tag.len();
        assert(tag@.subrange(0, n as int) =~= tag@);
        if same_bytes(tag, 0, n, MessageKind::Connected.wire_tag()) {
            Some(MessageKind::Connected)
        } else if same_bytes(tag, 0, n, MessageKind::Spawn.wire_tag()) {
            Some(MessageKind::Spawn)
        } else if same_bytes(tag, 0, n, MessageKind::Position.wire_tag()) {
            Some(MessageKind::Position)
        } else if same_bytes(tag, 0, n, MessageKind::NewChatMessage.wire_tag()) {
            Some(MessageKind::NewChatMessage)
        } else if same_bytes(tag, 0, n, MessageKind::UserChatMessage.wire_tag()) {
            Some(MessageKind::UserChatMessage)
        } else if same_bytes(tag, 0, n, MessageKind::Actions.wire_tag()) {
            Some(MessageKind::Actions)
        } else {
            None
        }
    }
}

/// The catalogue of shapes that may arrive, kept apart by direction.
pub struct Registry {
    entries: Vec<Entry>,
}

impl Registry {
    /// The registrations, oldest first.
    pub closed spec fn entries(&self) -> Seq<Entry> {
        self.entries@
    }

    /// The shape is registered for the direction.
    pub open spec fn registered(&self, kind: MessageKind, direction: Direction) -> bool {
        self.entries().contains(Entry { kind, direction })
    }

    /// The shape is registered, for whichever direction.
    pub open spec fn knows(&self, kind: MessageKind) -> bool {
        self.registered(kind, Direction::ClientToServer) || self.registered(
            kind,
            Direction::ServerToClient,
        )
    }

    /// No shape is registered twice, so none is registered for both directions.
    pub open spec fn wf(&self) -> bool {
        forall|i: int, j: int|
            0 <= i < j < self.entries().len() ==> self.entries()[i].kind != self.entries()[j].kind
    }

    /// The shape that `tag` names among those registered for `direction`.
    pub open spec fn resolve_spec(&self, tag: Seq<u8>, direction: Direction) -> Option<
        MessageKind,
    > {
        match kind_of_tag(tag) {
            Some(kind) => if self.registered(kind, direction) {
                Some(kind)
            } else {
                None
            },
            None => None,
        }
    }

    /// A registry that knows no shape.
    pub fn new() -> (r: Registry)
        ensures
            r.wf(),
            r.entries() == Seq::<Entry>::empty(),
            forall|kind: MessageKind| !r.knows(kind),
    {
        Registry { entries: Vec::new() }
    }

    /// Whether the shape is registered for the direction.
    pub fn is_registered(&self, kind: MessageKind, direction: Direction) -> (r: bool)
        ensures
            r == self.registered(kind, direction),
    {
        let mut i: usize = 0;
        while i < self.entries.len()
            invariant
                i <= self.entries@.len(),
                forall|j: int| 0 <= j < i ==> self.entries@[j] != (Entry { kind, direction }),
            decreases self.entries@.len() - i,
        {
            let e = self.entries[i];
            if e.kind == kind && e.direction == direction {
                return true;
            }
            i += 1;
        }
        false
    }

    /// Whether the shape is registered at all.
    pub fn is_known(&self, kind: MessageKind) -> (r: bool)
        ensures
            r == self.knows(kind),
    {
        self.is_registered(kind, Direction::ClientToServer) || self.is_registered(
            kind,
            Direction::ServerToClient,
        )
    }

    fn insert(&mut self, kind: MessageKind, direction: Direction)
        requires
            old(self).wf(),
            !old(self).knows(kind),
        ensures
            final(self).wf(),
            final(self).entries() == old(self).entries().push(Entry { kind, direction }),
            forall|k: MessageKind, d: Direction|
                final(self).registered(k, d) <==> old(self).registered(k, d) || (k == kind && d
                    == direction),
    {
        let ghost before = self.entries@;
        let entry = Entry { kind, direction };
        self.entries.push(entry);
        proof {
            assert forall|i: int| 0 <= i < before.len() implies before[i].kind != kind by {
                let e = before[i];
                assert(before.contains(e));
                if e.kind == kind {
                    assert(e.direction == Direction::ClientToServer || e.direction
                        == Direction::ServerToClient);
                    assert(e == Entry { kind, direction: e.direction });
                }
            }
            assert forall|k: MessageKind, d: Direction|
                self.registered(k, d) <==> before.contains(Entry { kind: k, direction: d }) || (k
                    == kind && d == direction) by {
                let x = Entry { kind: k, direction: d };
                if before.contains(x) {
                    let i = choose|i: int| 0 <= i < before.len() && before[i] == x;
                    assert(self.entries@[i] == x);
                }
                if k == kind && d == direction {
                    assert(self.entries@[before.len() as int] == x);
                }
            }
        }
    }

    /// Registers a shape for a direction. A shape that is registered already,
    /// for either direction, is turned down and the registry stays as it was.
    pub fn register(&mut self, kind: MessageKind, direction: Direction) -> (r: Result<
        (),
        RegistryError,
    >)
        requires
            old(self).wf(),
        ensures
            final(self).wf(),
            r is Ok <==> !old(self).knows(kind),
            r is Ok ==> final(self).entries() == old(self).entries().push(
                Entry { kind, direction },
            ),
            r is Ok ==> forall|k: MessageKind, d: Direction|
                final(self).registered(k, d) <==> old(self).registered(k, d) || (k == kind && d
                    == direction),
            r is Err ==> r == Err::<(), RegistryError>(RegistryError::DuplicateTag)
                && final(self).entries() == old(self).entries(),
    {
        if self.is_known(kind) {
            return Err(RegistryError::DuplicateTag);
        }
        self.insert(kind, direction);
        Ok(())
    }

    /// Looks up the shape that the tag bytes name for a direction.
    pub fn resolve_bytes(&self, tag: &[u8], direction: Direction) -> (r: Result<
        MessageKind,
        RegistryError,
    >)
        ensures
            match self.resolve_spec(tag@, direction) {
                Some(kind) => r == Ok::<MessageKind, RegistryError>(kind),
                None => r == Err::<MessageKind, RegistryError>(RegistryError::UnknownTag),
            },
    {
        match MessageKind::from_tag(tag) {
            Some(kind) => {
                if self.is_registered(kind, direction) {
                    Ok(kind)
                } else {
                    Err(RegistryError::UnknownTag)
                }
            },
            None => Err(RegistryError::UnknownTag),
        }
    }

    /// Looks up the shape that a tag names for a direction.
    pub fn resolve(&self, tag: &str, direction: Direction) -> (r: Result<
        MessageKind,
        RegistryError,
    >)
        ensures
            match self.resolve_spec(vstd::utf8::encode_utf8(tag@), direction) {
                Some(kind) => r == Ok::<MessageKind, RegistryError>(kind),
                None => r == Err::<MessageKind, RegistryError>(RegistryError::UnknownTag),
            },
    {
        self.resolve_bytes(tag.as_bytes(), direction)
    }
}

/// Registers what a client listens for: the four shapes that the server
/// sends. If one of them is registered already, nothing is registered.
pub fn client_register_network_messages(registry: &mut Registry) -> (r: Result<
    (),
    RegistryError,
>)
    requires
        old(registry).wf(),
    ensures
        final(registry).wf(),
        r is Ok <==> !old(registry).knows(MessageKind::NewChatMessage) && !old(registry).knows(
            MessageKind::Position,
        ) && !old(registry).knows(MessageKind::Spawn) && !old(registry).knows(
            MessageKind::Connected,
        ),
        r is Ok ==> forall|k: MessageKind, d: Direction|
            final(registry).registered(k, d) <==> old(registry).registered(k, d) || (d
                == Direction::ServerToClient && (k == MessageKind::NewChatMessage || k
                == MessageKind::Position || k == MessageKind::Spawn || k
                == MessageKind::Connected)),
        r is Err ==> r == Err::<(), RegistryError>(RegistryError::DuplicateTag)
            && final(registry).entries() == old(registry).entries(),
{
    if registry.is_known(MessageKind::NewChatMessage) || registry.is_known(MessageKind::Position)
        || registry.is_known(MessageKind::Spawn) || registry.is_known(MessageKind::Connected) {
        return Err(RegistryError::DuplicateTag);
    }
    registry.insert(MessageKind::NewChatMessage, Direction::ServerToClient);
    registry.insert(MessageKind::Position, Direction::ServerToClient);
    registry.insert(MessageKind::Spawn, Direction::ServerToClient);
    registry.insert(MessageKind::Connected, Direction::ServerToClient);
    Ok(())
}

/// Registers what the server listens for: the two shapes that clients send.
/// If one of them is registered already, nothing is registered.
pub fn server_register_network_messages(registry: &mut Registry) -> (r: Result<
    (),
    RegistryError,
>)
    requires
        old(registry).wf(),
    ensures
        final(registry).wf(),
        r is Ok <==> !old(registry).knows(MessageKind::UserChatMessage) && !old(registry).knows(
            MessageKind::Actions,
        ),
        r is Ok ==> forall|k: MessageKind, d: Direction|
            final(registry).registered(k, d) <==> old(registry).registered(k, d) || (d
                == Direction::ClientToServer && (k == MessageKind::UserChatMessage || k
                == MessageKind::Actions)),
        r is Err ==> r == Err::<(), RegistryError>(RegistryError::DuplicateTag)
            && final(registry).entries() == old(registry).entries(),
{
    if registry.is_known(MessageKind::UserChatMessage) || registry.is_known(MessageKind::Actions) {
        return Err(RegistryError::DuplicateTag);
    }
    registry.insert(MessageKind::UserChatMessage, Direction::ClientToServer);
    registry.insert(MessageKind::Actions, Direction::ClientToServer);
    Ok(())
}

} // verus!
