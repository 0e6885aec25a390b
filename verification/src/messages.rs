//! The message catalogue: six message shapes, their tags and field names.

use vstd::prelude::*;
use vstd::string::*;
use crate::ident::PlayerId;
use crate::wire::{ascii, KIND_COORD, KIND_COUNT, KIND_ID, KIND_TEXT};

verus! {

/// Who sends a message.
#[derive(Clone, Copy, Debug, PartialEq, Eq, Structural, Hash)]
pub enum Direction {
    ClientToServer,
    ServerToClient,
}

/// A line of chat as a client sends it.
#[derive(Clone, Debug, PartialEq, Eq)]
pub struct UserChatMessage {
    pub message: String,
}

/// A line of chat as the server hands it on, with the name it gave the sender.
#[derive(Clone, Debug, PartialEq, Eq)]
pub struct NewChatMessage {
    pub name: String,
    pub message: String,
}

/// A player has entered the world at the given place.
#[derive(Clone, Copy, Debug, PartialEq, Eq, Structural)]
pub struct Spawn {
    pub id: PlayerId,
    pub x: i32,
    pub y: i32,
}

/// Tells a client which player it is.
#[derive(Clone, Copy, Debug, PartialEq, Eq, Structural)]
pub struct Connected {
    pub id: PlayerId,
}

/// Where a player is now.
#[derive(Clone, Copy, Debug, PartialEq, Eq, Structural)]
pub struct Position {
    pub id: PlayerId,
    pub x: i32,
    pub y: i32,
}

/// How often each direction was asked for since the last report.
#[derive(Clone, Copy, Debug, PartialEq, Eq, Structural)]
pub struct Actions {
    pub w: i16,
    pub a: i16,
    pub s: i16,
    pub d: i16,
}

/// Any message of the catalogue.
#[derive(Clone, Debug, PartialEq, Eq)]
pub enum Message {
    Connected(Connected),
    Spawn(Spawn),
    Position(Position),
    NewChatMessage(NewChatMessage),
    UserChatMessage(UserChatMessage),
    Actions(Actions),
}

/// What a message says, with texts as character sequences.
pub enum MessageView {
    Connected { id: PlayerId },
    Spawn { id: PlayerId, x: i32, y: i32 },
    Position { id: PlayerId, x: i32, y: i32 },
    NewChatMessage { name: Seq<char>, message: Seq<char> },
    UserChatMessage { message: Seq<char> },
    Actions { w: i16, a: i16, s: i16, d: i16 },
}

impl View for Message {
    type V = MessageView;

    open spec fn view(&self) -> MessageView {
        match *self {
            Message::Connected(m) => MessageView::Connected { id: m.id },
            Message::Spawn(m) => MessageView::Spawn { id: m.id, x: m.x, y: m.y },
            Message::Position(m) => MessageView::Position { id: m.id, x: m.x, y: m.y },
            Message::NewChatMessage(m) => MessageView::NewChatMessage {
                name: m.name@,
                message: m.message@,
            },
            Message::UserChatMessage(m) => MessageView::UserChatMessage { message: m.message@ },
            Message::Actions(m) => MessageView::Actions { w: m.w, a: m.a, s: m.s, d: m.d },
        }
    }
}

/// Which of the six shapes a message has.
#[derive(Clone, Copy, Debug, PartialEq, Eq, Structural, Hash)]
pub enum MessageKind {
    Connected,
    Spawn,
    Position,
    NewChatMessage,
    UserChatMessage,
    Actions,
}

impl MessageView {
    pub open spec fn kind(self) -> MessageKind {
        match self {
            MessageView::Connected { .. } => MessageKind::Connected,
            MessageView::Spawn { .. } => MessageKind::Spawn,
            MessageView::Position { .. } => MessageKind::Position,
            MessageView::NewChatMessage { .. } => MessageKind::NewChatMessage,
            MessageView::UserChatMessage { .. } => MessageKind::UserChatMessage,
            MessageView::Actions { .. } => MessageKind::Actions,
        }
    }
}

impl Message {
    /// The shape of this message.
    pub fn kind(&self) -> (k: MessageKind)
        ensures
            k == self@.kind(),
    {
        match self {
            Message::Connected(_) => MessageKind::Connected,
            Message::Spawn(_) => MessageKind::Spawn,
            Message::Position(_) => MessageKind::Position,
            Message::NewChatMessage(_) => MessageKind::NewChatMessage,
            Message::UserChatMessage(_) => MessageKind::UserChatMessage,
            Message::Actions(_) => MessageKind::Actions,
        }
    }
}

/// The bytes of an ASCII string.
fn ascii_bytes<'a>(s: &'a str) -> (r: &'a [u8])
    requires
        is_ascii(s),
    ensures
        r@ == ascii(s@),
{
    proof {
        is_ascii_spec_bytes(s);
    }
    let r = s.as_bytes();
    assert(r@ =~= ascii(s@));
    r
}

impl MessageKind {
    /// The tag, as characters.
    pub open spec fn tag_chars(self) -> Seq<char> {
        match self {
            MessageKind::Connected => seq!['C', 'o', 'n', 'n', 'e', 'c', 't', 'e', 'd'],
            MessageKind::Spawn => seq!['S', 'p', 'a', 'w', 'n'],
            MessageKind::Position => seq!['P', 'o', 's', 'i', 't', 'i', 'o', 'n'],
            MessageKind::NewChatMessage => seq![
                'N', 'e', 'w', 'C', 'h', 'a', 't', 'M', 'e', 's', 's', 'a', 'g', 'e',
            ],
            MessageKind::UserChatMessage => seq![
                'U', 's', 'e', 'r', 'C', 'h', 'a', 't', 'M', 'e', 's', 's', 'a', 'g', 'e',
            ],
            MessageKind::Actions => seq!['A', 'c', 't', 'i', 'o', 'n', 's'],
        }
    }

    /// The tag, as it stands on the wire.
    pub open spec fn tag_bytes(self) -> Seq<u8> {
        ascii(self.tag_chars())
    }

    /// The stable tag that names this shape.
    pub fn tag(&self) -> (r: &'static str)
        ensures
            r@ == self.tag_chars(),
            is_ascii(r),
    {
        match self {
            MessageKind::Connected => {
                proof {
                    reveal_strlit("Connected");
                }
                let r = "Connected";
                assert(r@ =~= self.tag_chars());
                r
            },
            MessageKind::Spawn => {
                proof {
                    reveal_strlit("Spawn");
                }
                let r = "Spawn";
                assert(r@ =~= self.tag_chars());
                r
            },
            MessageKind::Position => {
                proof {
                    reveal_strlit("Position");
                }
                let r = "Position";
                assert(r@ =~= self.tag_chars());
                r
            },
            MessageKind::NewChatMessage => {
                proof {
                    reveal_strlit("NewChatMessage");
                }
                let r = "NewChatMessage";
                assert(r@ =~= self.tag_chars());
                r
            },
            MessageKind::UserChatMessage => {
                proof {
                    reveal_strlit("UserChatMessage");
                }
                let r = "UserChatMessage";
                assert(r@ =~= self.tag_chars());
                r
            },
            MessageKind::Actions => {
                proof {
                    reveal_strlit("Actions");
                }
                let r = "Actions";
                assert(r@ =~= self.tag_chars());
                r
            },
        }
    }

    /// The tag's bytes.
    pub fn wire_tag(&self) -> (r: &'static [u8])
        ensures
            r@ == self.tag_bytes(),
            r@.len() <= 15,
    {
        ascii_bytes(self.tag())
    }

    /// Different shapes have different tags.
    pub proof fn lemma_tags_distinct(a: MessageKind, b: MessageKind)
        ensures
            a.tag_bytes() == b.tag_bytes() ==> a == b,
            1 <= a.tag_bytes().len() <= 15,
    {
        if a != b && a.tag_bytes() == b.tag_bytes() {
            assert(a.tag_bytes().len() == b.tag_bytes().len());
            assert(a.tag_bytes()[0] == b.tag_bytes()[0]);
        }
    }
}

/// The names of the fields that messages carry.
#[derive(Clone, Copy, Debug, PartialEq, Eq, Structural, Hash)]
pub enum Key {
    Id,
    X,
    Y,
    Name,
    Message,
    W,
    A,
    S,
    D,
}

impl Key {
    /// The field name, as characters.
    pub open spec fn chars(self) -> Seq<char> {
        match self {
            Key::Id => seq!['i', 'd'],
            Key::X => seq!['x'],
            Key::Y => seq!['y'],
            Key::Name => seq!['n', 'a', 'm', 'e'],
            Key::Message => seq!['m', 'e', 's', 's', 'a', 'g', 'e'],
            Key::W => seq!['w'],
            Key::A => seq!['a'],
            Key::S => seq!['s'],
            Key::D => seq!['d'],
        }
    }

    /// The field name, as it stands on the wire.
    pub open spec fn bytes(self) -> Seq<u8> {
        ascii(self.chars())
    }

    /// The field name.
    pub fn name(&self) -> (r: &'static str)
        ensures
            r@ == self.chars(),
            is_ascii(r),
    {
        match self {
            Key::Id => {
                proof {
                    reveal_strlit("id");
                }
                let r = "id";
                assert(r@ =~= self.chars());
                r
            },
            Key::X => {
                proof {
                    reveal_strlit("x");
                }
                let r = "x";
                assert(r@ =~= self.chars());
                r
            },
            Key::Y => {
                proof {
                    reveal_strlit("y");
                }
                let r = "y";
                assert(r@ =~= self.chars());
                r
            },
            Key::Name => {
                proof {
                    reveal_strlit("name");
                }
                let r = "name";
                assert(r@ =~= self.chars());
                r
            },
            Key::Message => {
                proof {
                    reveal_strlit("message");
                }
                let r = "message";
                assert(r@ =~= self.chars());
                r
            },
            Key::W => {
                proof {
                    reveal_strlit("w");
                }
                let r = "w";
                assert(r@ =~= self.chars());
                r
            },
            Key::A => {
                proof {
                    reveal_strlit("a");
                }
                let r = "a";
                assert(r@ =~= self.chars());
                r
            },
            Key::S => {
                proof {
                    reveal_strlit("s");
                }
                let r = "s";
                assert(r@ =~= self.chars());
                r
            },
            Key::D => {
                proof {
                    reveal_strlit("d");
                }
                let r = "d";
                assert(r@ =~= self.chars());
                r
            },
        }
    }

    /// The field name's bytes.
    pub fn wire_name(&self) -> (r: &'static [u8])
        ensures
            r@ == self.bytes(),
            r@.len() <= 7,
    {
        ascii_bytes(self.name())
    }

    /// Different keys have different names.
    pub proof fn lemma_names_distinct(a: Key, b: Key)
        ensures
            a.bytes() == b.bytes() ==> a == b,
            1 <= a.bytes().len() <= 7,
    {
        if a != b && a.bytes() == b.bytes() {
            assert(a.bytes().len() == b.bytes().len());
            assert(a.bytes()[0] == b.bytes()[0]);
        }
    }
}

/// One declared field of a shape: its name and the type code of its value.
#[derive(Clone, Copy, Debug, PartialEq, Eq)]
pub struct FieldDecl {
    pub key: Key,
    pub code: u8,
}

impl MessageKind {
    /// The fields that a message of this shape carries, in the order in
    /// which they are written.
    pub open spec fn schema(self) -> Seq<FieldDecl> {
        match self {
            MessageKind::Connected => seq![FieldDecl { key: Key::Id, code: KIND_ID }],
            MessageKind::Spawn => seq![
                FieldDecl { key: Key::Id, code: KIND_ID },
                FieldDecl { key: Key::X, code: KIND_COORD },
                FieldDecl { key: Key::Y, code: KIND_COORD },
            ],
            MessageKind::Position => seq![
                FieldDecl { key: Key::Id, code: KIND_ID },
                FieldDecl { key: Key::X, code: KIND_COORD },
                FieldDecl { key: Key::Y, code: KIND_COORD },
            ],
            MessageKind::NewChatMessage => seq![
                FieldDecl { key: Key::Name, code: KIND_TEXT },
                FieldDecl { key: Key::Message, code: KIND_TEXT },
            ],
            MessageKind::UserChatMessage => seq![FieldDecl { key: Key::Message, code: KIND_TEXT }],
            MessageKind::Actions => seq![
                FieldDecl { key: Key::W, code: KIND_COUNT },
                FieldDecl { key: Key::A, code: KIND_COUNT },
                FieldDecl { key: Key::S, code: KIND_COUNT },
                FieldDecl { key: Key::D, code: KIND_COUNT },
            ],
        }
    }

    /// The fields that a message of this shape carries.
    pub fn fields(&self) -> (r: Vec<FieldDecl>)
        ensures
            r@ == self.schema(),
    {
        let mut r: Vec<FieldDecl> = Vec::new();
        match self {
            MessageKind::Connected => {
                r.push(FieldDecl { key: Key::Id, code: KIND_ID });
            },
            MessageKind::Spawn => {
                r.push(FieldDecl { key: Key::Id, code: KIND_ID });
                r.push(FieldDecl { key: Key::X, code: KIND_COORD });
                r.push(FieldDecl { key: Key::Y, code: KIND_COORD });
            },
            MessageKind::Position => {
                r.push(FieldDecl { key: Key::Id, code: KIND_ID });
                r.push(FieldDecl { key: Key::X, code: KIND_COORD });
                r.push(FieldDecl { key: Key::Y, code: KIND_COORD });
            },
            MessageKind::NewChatMessage => {
                r.push(FieldDecl { key: Key::Name, code: KIND_TEXT });
                r.push(FieldDecl { key: Key::Message, code: KIND_TEXT });
            },
            MessageKind::UserChatMessage => {
                r.push(FieldDecl { key: Key::Message, code: KIND_TEXT });
            },
            MessageKind::Actions => {
                r.push(FieldDecl { key: Key::W, code: KIND_COUNT });
                r.push(FieldDecl { key: Key::A, code: KIND_COUNT });
                r.push(FieldDecl { key: Key::S, code: KIND_COUNT });
                r.push(FieldDecl { key: Key::D, code: KIND_COUNT });
            },
        }
        assert(r@ =~= self.schema());
        r
    }
}

} // verus!
