//! The wire codec: one message to one length-prefixed frame, and back.
//!
//! A frame is a four-byte little-endian length followed by that many bytes of
//! body. The body is the message's tag behind a length byte, then the fields
//! of the message, each under its name. A reader finds fields by name: their
//! order does not matter to it, and fields it does not know are passed over.

use vstd::prelude::*;
use vstd::bytes::*;
use vstd::slice::*;
use vstd::utf8::*;
use crate::ident::PlayerId;
use crate::messages::{
    Actions, Connected, Direction, FieldDecl, Key, Message, MessageKind, MessageView,
    NewChatMessage, Position, Spawn, UserChatMessage,
};
use crate::registry::{lemma_kind_of_own_tag, Registry};
use crate::text::string_from_utf8;
use crate::wire::{
    check_fields, coord_field, coord_value, count_field, count_value, field, fields_ok,
    find_field, id_field, id_value, lemma_value_lens, lemma_written_field_first, put_coord,
    put_count, put_id, put_short_str, put_text, read_coord, read_count, read_id, read_text,
    short_str, text_field, text_value, value_len, KIND_COORD, KIND_COUNT, KIND_ID, KIND_TEXT,
};

verus! {

/// Longest body that a frame may carry: 10 MiB.
pub const MAX_FRAME_LEN: usize = 10485760;

/// Why a frame could not be decoded.
#[derive(Clone, Copy, Debug, PartialEq, Eq, Structural)]
pub enum CodecError {
    /// The bytes end before the frame does: more are needed.
    Truncated,
    /// The frame names no shape that is registered for the direction.
    UnknownTag,
    /// The body does not hold the fields that the shape declares.
    SchemaMismatch,
}

/// The fields of a message, as they stand on the wire.
pub open spec fn fields_of(m: MessageView) -> Seq<u8> {
    match m {
        MessageView::Connected { id } => field(Key::Id.bytes(), KIND_ID, id_value(id.0)),
        MessageView::Spawn { id, x, y } => field(Key::Id.bytes(), KIND_ID, id_value(id.0)) + field(
            Key::X.bytes(),
            KIND_COORD,
            coord_value(x),
        ) + field(Key::Y.bytes(), KIND_COORD, coord_value(y)),
        MessageView::Position { id, x, y } => field(Key::Id.bytes(), KIND_ID, id_value(id.0))
            + field(Key::X.bytes(), KIND_COORD, coord_value(x)) + field(
            Key::Y.bytes(),
            KIND_COORD,
            coord_value(y),
        ),
        MessageView::NewChatMessage { name, message } => field(
            Key::Name.bytes(),
            KIND_TEXT,
            text_value(encode_utf8(name)),
        ) + field(Key::Message.bytes(), KIND_TEXT, text_value(encode_utf8(message))),
        MessageView::UserChatMessage { message } => field(
            Key::Message.bytes(),
            KIND_TEXT,
            text_value(encode_utf8(message)),
        ),
        MessageView::Actions { w, a, s, d } => field(Key::W.bytes(), KIND_COUNT, count_value(w))
            + field(Key::A.bytes(), KIND_COUNT, count_value(a)) + field(
            Key::S.bytes(),
            KIND_COUNT,
            count_value(s),
        ) + field(Key::D.bytes(), KIND_COUNT, count_value(d)),
    }
}

/// The body of a message's frame: its tag, then its fields.
pub open spec fn body_of(m: MessageView) -> Seq<u8> {
    short_str(m.kind().tag_bytes()) + fields_of(m)
}

/// A message can be sent if its body is no longer than a frame may carry.
pub open spec fn encodable(m: MessageView) -> bool {
    body_of(m).len() <= MAX_FRAME_LEN
}

/// The frame of a message.
pub open spec fn frame_of(m: MessageView) -> Seq<u8> {
    spec_u32_to_le_bytes(body_of(m).len() as u32) + body_of(m)
}

/// The text under `name`, if the field is there and holds UTF-8.
pub open spec fn utf8_field(fields: Seq<u8>, name: Seq<u8>) -> Option<Seq<char>> {
    match text_field(fields, name) {
        Some(bytes) => if valid_utf8(bytes) {
            Some(decode_utf8(bytes))
        } else {
            None
        },
        None => None,
    }
}

/// The message of shape `kind` that the fields spell out, if they do.
pub open spec fn decode_fields(kind: MessageKind, fields: Seq<u8>) -> Option<MessageView> {
    if !fields_ok(fields) {
        None
    } else {
        match kind {
            MessageKind::Connected => match id_field(fields, Key::Id.bytes()) {
                Some(id) => Some(MessageView::Connected { id: PlayerId(id) }),
                None => None,
            },
            MessageKind::Spawn => match (
                id_field(fields, Key::Id.bytes()),
                coord_field(fields, Key::X.bytes()),
                coord_field(fields, Key::Y.bytes()),
            ) {
                (Some(id), Some(x), Some(y)) => Some(MessageView::Spawn { id: PlayerId(id), x, y }),
                _ => None,
            },
            MessageKind::Position => match (
                id_field(fields, Key::Id.bytes()),
                coord_field(fields, Key::X.bytes()),
                coord_field(fields, Key::Y.bytes()),
            ) {
                (Some(id), Some(x), Some(y)) => Some(
                    MessageView::Position { id: PlayerId(id), x, y },
                ),
                _ => None,
            },
            MessageKind::NewChatMessage => match (
                utf8_field(fields, Key::Name.bytes()),
                utf8_field(fields, Key::Message.bytes()),
            ) {
                (Some(name), Some(message)) => Some(MessageView::NewChatMessage { name, message }),
                _ => None,
            },
            MessageKind::UserChatMessage => match utf8_field(fields, Key::Message.bytes()) {
                Some(message) => Some(MessageView::UserChatMessage { message }),
                None => None,
            },
            MessageKind::Actions => match (
                count_field(fields, Key::W.bytes()),
                count_field(fields, Key::A.bytes()),
                count_field(fields, Key::S.bytes()),
                count_field(fields, Key::D.bytes()),
            ) {
                (Some(w), Some(a), Some(s), Some(d)) => Some(MessageView::Actions { w, a, s, d }),
                _ => None,
            },
        }
    }
}

/// The fields hold the declared field: a value of the declared type stands
/// under the declared name, and if it is a text it is UTF-8.
pub open spec fn holds_field(fields: Seq<u8>, decl: FieldDecl) -> bool {
    match find_field(fields, decl.key.bytes()) {
        Some((code, value)) => code == decl.code && (code == KIND_TEXT ==> valid_utf8(
            value.skip(4),
        )),
        None => false,
    }
}

/// The fields match the schema of a shape: they are whole fields, and every
/// field that the shape declares is among them.
pub open spec fn matches_schema(kind: MessageKind, fields: Seq<u8>) -> bool {
    &&& fields_ok(fields)
    &&& forall|i: int| 0 <= i < kind.schema().len() ==> holds_field(fields, #[trigger] kind.schema()[i])
}

/// Fields spell out a message of a shape exactly when they match the
/// shape's schema.
pub proof fn lemma_schema_decides(kind: MessageKind, fields: Seq<u8>)
    ensures
        decode_fields(kind, fields) is Some <==> matches_schema(kind, fields),
        decode_fields(kind, fields) is Some ==> decode_fields(kind, fields).unwrap().kind()
            == kind,
{
    let schema = kind.schema();
    if matches_schema(kind, fields) {
        match kind {
            MessageKind::Connected => {
                assert(holds_field(fields, schema[0]));
            },
            MessageKind::Spawn => {
                assert(holds_field(fields, schema[0]));
                assert(holds_field(fields, schema[1]));
                assert(holds_field(fields, schema[2]));
            },
            MessageKind::Position => {
                assert(holds_field(fields, schema[0]));
                assert(holds_field(fields, schema[1]));
                assert(holds_field(fields, schema[2]));
            },
            MessageKind::NewChatMessage => {
                assert(holds_field(fields, schema[0]));
                assert(holds_field(fields, schema[1]));
            },
            MessageKind::UserChatMessage => {
                assert(holds_field(fields, schema[0]));
            },
            MessageKind::Actions => {
                assert(holds_field(fields, schema[0]));
                assert(holds_field(fields, schema[1]));
                assert(holds_field(fields, schema[2]));
                assert(holds_field(fields, schema[3]));
            },
        }
    }
}

/// What a frame's body decodes to for a listener in `direction`.
pub open spec fn decode_body(body: Seq<u8>, registry: Registry, direction: Direction) -> Result<
    MessageView,
    CodecError,
> {
    if body.len() < 1 || body.len() < 1 + body[0] {
        Err(CodecError::UnknownTag)
    } else {
        let t = body[0] as int;
        match registry.resolve_spec(body.subrange(1, 1 + t), direction) {
            None => Err(CodecError::UnknownTag),
            Some(kind) => match decode_fields(kind, body.skip(1 + t)) {
                Some(m) => Ok(m),
                None => Err(CodecError::SchemaMismatch),
            },
        }
    }
}

/// What the front of a byte stream decodes to: a message and the number of
/// bytes its frame took, or why there is none.
pub open spec fn decode_frame(bytes: Seq<u8>, registry: Registry, direction: Direction) -> Result<
    (MessageView, int),
    CodecError,
> {
    if bytes.len() < 4 {
        Err(CodecError::Truncated)
    } else {
        let n = spec_u32_from_le_bytes(bytes.subrange(0, 4)) as int;
        if bytes.len() < 4 + n {
            Err(CodecError::Truncated)
        } else {
            match decode_body(bytes.subrange(4, 4 + n), registry, direction) {
                Ok(m) => Ok((m, 4 + n)),
                Err(e) => Err(e),
            }
        }
    }
}

fn read_utf8(body: &[u8], start: usize, key: Key) -> (r: Option<String>)
    requires
        start <= body@.len(),
    ensures
        match utf8_field(body@.skip(start as int), key.bytes()) {
            Some(text) => r is Some && r.unwrap()@ == text,
            None => r is None,
        },
{
    match read_text(body, start, key.wire_name()) {
        Some(bytes) => {
            match string_from_utf8(bytes) {
                Some(s) => {
                    proof {
                        encode_utf8_decode_utf8(s@);
                    }
                    Some(s)
                },
                None => None,
            }
        },
        None => None,
    }
}

/// Reads the fields of a message of shape `kind` from `body`, from `start` on.
pub(crate) fn read_fields(kind: MessageKind, body: &[u8], start: usize) -> (r: Option<Message>)
    requires
        start <= body@.len(),
    ensures
        match decode_fields(kind, body@.skip(start as int)) {
            Some(m) => r is Some && r.unwrap()@ == m,
            None => r is None,
        },
{
    if !check_fields(body, start) {
        return None;
    }
    match kind {
        MessageKind::Connected => {
            match read_id(body, start, Key::Id.wire_name()) {
                Some(id) => Some(Message::Connected(Connected { id: PlayerId(id) })),
                None => None,
            }
        },
        MessageKind::Spawn => {
            let id = read_id(body, start, Key::Id.wire_name());
            let x = read_coord(body, start, Key::X.wire_name());
            let y = read_coord(body, start, Key::Y.wire_name());
            match (id, x, y) {
                (Some(id), Some(x), Some(y)) => Some(
                    Message::Spawn(Spawn { id: PlayerId(id), x, y }),
                ),
                _ => None,
            }
        },
        MessageKind::Position => {
            let id = read_id(body, start, Key::Id.wire_name());
            let x = read_coord(body, start, Key::X.wire_name());
            let y = read_coord(body, start, Key::Y.wire_name());
            match (id, x, y) {
                (Some(id), Some(x), Some(y)) => Some(
                    Message::Position(Position { id: PlayerId(id), x, y }),
                ),
                _ => None,
            }
        },
        MessageKind::NewChatMessage => {
            let name = read_utf8(body, start, Key::Name);
            let message = read_utf8(body, start, Key::Message);
            match (name, message) {
                (Some(name), Some(message)) => Some(
                    Message::NewChatMessage(NewChatMessage { name, message }),
                ),
                _ => None,
            }
        },
        MessageKind::UserChatMessage => {
            match read_utf8(body, start, Key::Message) {
                Some(message) => Some(Message::UserChatMessage(UserChatMessage { message })),
                None => None,
            }
        },
        MessageKind::Actions => {
            let w = read_count(body, start, Key::W.wire_name());
            let a = read_count(body, start, Key::A.wire_name());
            let s = read_count(body, start, Key::S.wire_name());
            let d = read_count(body, start, Key::D.wire_name());
            match (w, a, s, d) {
                (Some(w), Some(a), Some(s), Some(d)) => Some(
                    Message::Actions(Actions { w, a, s, d }),
                ),
                _ => None,
            }
        },
    }
}

/// The executable result says what the model says.
pub open spec fn decoded_as(
    r: Result<(Message, usize), CodecError>,
    model: Result<(MessageView, int), CodecError>,
) -> bool {
    match model {
        Ok((m, n)) => r matches Ok(got) && got.0@ == m && got.1 == n,
        Err(e) => r matches Err(got) && got == e,
    }
}

/// Decodes the frame at the front of `bytes` for a listener in `direction`.
/// On success the message comes with the number of bytes that its frame took.
pub fn decode(bytes: &[u8], registry: &Registry, direction: Direction) -> (r: Result<
    (Message, usize),
    CodecError,
>)
    ensures
        decoded_as(r, decode_frame(bytes@, *registry, direction)),
{
    let len = bytes.len();
    if len < 4 {
        return Err(CodecError::Truncated);
    }
    let n = u32_from_le_bytes(slice_subrange(bytes, 0, 4)) as usize;
    if len - 4 < n {
        return Err(CodecError::Truncated);
    }
    let body = slice_subrange(bytes, 4, 4 + n);
    if n < 1 {
        return Err(CodecError::UnknownTag);
    }
    let t = body[0] as usize;
    if n < 1 + t {
        return Err(CodecError::UnknownTag);
    }
    let tag = slice_subrange(body, 1, 1 + t);
    match registry.resolve_bytes(tag, direction) {
        Err(_) => Err(CodecError::UnknownTag),
        Ok(kind) => {
            match read_fields(kind, body, 1 + t) {
                Some(m) => Ok((m, 4 + n)),
                None => Err(CodecError::SchemaMismatch),
            }
        },
    }
}

/// Encodes a message as one frame. A message whose body would be longer than
/// a frame may carry has no frame.
pub fn encode(msg: &Message) -> (r: Option<Vec<u8>>)
    ensures
        match r {
            Some(frame) => encodable(msg@) && frame@ == frame_of(msg@),
            None => !encodable(msg@),
        },
{
    proof {
        lemma_auto_spec_u32_to_from_le_bytes();
    }
    let mut body: Vec<u8> = Vec::new();
    put_short_str(&mut body, msg.kind().wire_tag());
    match msg {
        Message::Connected(m) => {
            put_id(&mut body, Key::Id.wire_name(), m.id.0);
        },
        Message::Spawn(m) => {
            put_id(&mut body, Key::Id.wire_name(), m.id.0);
            put_coord(&mut body, Key::X.wire_name(), m.x);
            put_coord(&mut body, Key::Y.wire_name(), m.y);
        },
        Message::Position(m) => {
            put_id(&mut body, Key::Id.wire_name(), m.id.0);
            put_coord(&mut body, Key::X.wire_name(), m.x);
            put_coord(&mut body, Key::Y.wire_name(), m.y);
        },
        Message::NewChatMessage(m) => {
            let name = m.name.as_str().as_bytes();
            let message = m.message.as_str().as_bytes();
            if name.len() > MAX_FRAME_LEN || message.len() > MAX_FRAME_LEN {
                assert(fields_of(msg@).len() > MAX_FRAME_LEN);
                return None;
            }
            put_text(&mut body, Key::Name.wire_name(), name);
            put_text(&mut body, Key::Message.wire_name(), message);
        },
        Message::UserChatMessage(m) => {
            let message = m.message.as_str().as_bytes();
            if message.len() > MAX_FRAME_LEN {
                assert(fields_of(msg@).len() > MAX_FRAME_LEN);
                return None;
            }
            put_text(&mut body, Key::Message.wire_name(), message);
        },
        Message::Actions(m) => {
            put_count(&mut body, Key::W.wire_name(), m.w);
            put_count(&mut body, Key::A.wire_name(), m.a);
            put_count(&mut body, Key::S.wire_name(), m.s);
            put_count(&mut body, Key::D.wire_name(), m.d);
        },
    }
    assert(body@ =~= body_of(msg@));
    if body.len() > MAX_FRAME_LEN {
        return None;
    }
    let mut frame = u32_to_le_bytes(body.len() as u32);
    frame.append(&mut body);
    Some(frame)
}

/// A field under a key, written in front of other fields, is what a reader
/// finds under that key; under any other key it finds what the rest holds.
proof fn lemma_key_first(key: Key, code: u8, value: Seq<u8>, rest: Seq<u8>)
    requires
        value_len(code, value + rest) == Some(value.len() as int),
    ensures
        fields_ok(field(key.bytes(), code, value) + rest) == fields_ok(rest),
        forall|k: Key| #[trigger]
            find_field(field(key.bytes(), code, value) + rest, k.bytes()) == if k == key {
                Some((code, value))
            } else {
                find_field(rest, k.bytes())
            },
{
    lemma_written_field_first(key.bytes(), code, value, rest);
    assert forall|k: Key| #[trigger]
        find_field(field(key.bytes(), code, value) + rest, k.bytes()) == if k == key {
            Some((code, value))
        } else {
            find_field(rest, k.bytes())
        } by {
        Key::lemma_names_distinct(k, key);
    }
}

/// The fields written for a message are read back as that message.
pub proof fn lemma_fields_round_trip(m: MessageView)
    requires
        encodable(m),
    ensures
        decode_fields(m.kind(), fields_of(m)) == Some(m),
{
    let none = Seq::<u8>::empty();
    lemma_auto_spec_u32_to_from_le_bytes();
    match m {
        MessageView::Connected { id } => {
            let f_id = field(Key::Id.bytes(), KIND_ID, id_value(id.0));
            lemma_value_lens(id.0, 0, 0, none, none);
            lemma_key_first(Key::Id, KIND_ID, id_value(id.0), none);
            assert(f_id + none =~= fields_of(m));
        },
        MessageView::Spawn { id, x, y } => {
            lemma_coords_round_trip(id, x, y);
        },
        MessageView::Position { id, x, y } => {
            lemma_coords_round_trip(id, x, y);
        },
        MessageView::NewChatMessage { name, message } => {
            let name_bytes = encode_utf8(name);
            let message_bytes = encode_utf8(message);
            let f_message = field(Key::Message.bytes(), KIND_TEXT, text_value(message_bytes));
            let f_name = field(Key::Name.bytes(), KIND_TEXT, text_value(name_bytes));
            lemma_value_lens(0, 0, 0, message_bytes, none);
            lemma_value_lens(0, 0, 0, name_bytes, f_message + none);
            lemma_key_first(Key::Message, KIND_TEXT, text_value(message_bytes), none);
            lemma_key_first(Key::Name, KIND_TEXT, text_value(name_bytes), f_message + none);
            assert(f_name + (f_message + none) =~= fields_of(m));
            encode_utf8_valid_utf8(name);
            encode_utf8_valid_utf8(message);
            encode_utf8_decode_utf8(name);
            encode_utf8_decode_utf8(message);
        },
        MessageView::UserChatMessage { message } => {
            let message_bytes = encode_utf8(message);
            let f_message = field(Key::Message.bytes(), KIND_TEXT, text_value(message_bytes));
            lemma_value_lens(0, 0, 0, message_bytes, none);
            lemma_key_first(Key::Message, KIND_TEXT, text_value(message_bytes), none);
            assert(f_message + none =~= fields_of(m));
            encode_utf8_valid_utf8(message);
            encode_utf8_decode_utf8(message);
        },
        MessageView::Actions { w, a, s, d } => {
            let f_d = field(Key::D.bytes(), KIND_COUNT, count_value(d));
            let f_s = field(Key::S.bytes(), KIND_COUNT, count_value(s));
            let f_a = field(Key::A.bytes(), KIND_COUNT, count_value(a));
            let f_w = field(Key::W.bytes(), KIND_COUNT, count_value(w));
            let r3 = f_d + none;
            let r2 = f_s + r3;
            let r1 = f_a + r2;
            lemma_value_lens(0, 0, d, none, none);
            lemma_value_lens(0, 0, s, none, r3);
            lemma_value_lens(0, 0, a, none, r2);
            lemma_value_lens(0, 0, w, none, r1);
            lemma_key_first(Key::D, KIND_COUNT, count_value(d), none);
            lemma_key_first(Key::S, KIND_COUNT, count_value(s), r3);
            lemma_key_first(Key::A, KIND_COUNT, count_value(a), r2);
            lemma_key_first(Key::W, KIND_COUNT, count_value(w), r1);
            assert(f_w + r1 =~= fields_of(m));
        },
    }
}

/// An identity and two coordinates, as `Spawn` and `Position` carry them,
/// are read back as written.
proof fn lemma_coords_round_trip(id: PlayerId, x: i32, y: i32)
    ensures
        decode_fields(MessageKind::Spawn, fields_of(MessageView::Spawn { id, x, y })) == Some(
            MessageView::Spawn { id, x, y },
        ),
        decode_fields(MessageKind::Position, fields_of(MessageView::Position { id, x, y }))
            == Some(MessageView::Position { id, x, y }),
{
    let none = Seq::<u8>::empty();
    let f_y = field(Key::Y.bytes(), KIND_COORD, coord_value(y));
    let f_x = field(Key::X.bytes(), KIND_COORD, coord_value(x));
    let f_id = field(Key::Id.bytes(), KIND_ID, id_value(id.0));
    let r2 = f_y + none;
    let r1 = f_x + r2;
    lemma_value_lens(0, y, 0, none, none);
    lemma_value_lens(0, x, 0, none, r2);
    lemma_value_lens(id.0, 0, 0, none, r1);
    lemma_key_first(Key::Y, KIND_COORD, coord_value(y), none);
    lemma_key_first(Key::X, KIND_COORD, coord_value(x), r2);
    lemma_key_first(Key::Id, KIND_ID, id_value(id.0), r1);
    assert(f_id + r1 =~= fields_of(MessageView::Spawn { id, x, y }));
    assert(f_id + r1 =~= fields_of(MessageView::Position { id, x, y }));
}

/// The messages without text always fit in a frame.
pub proof fn lemma_fixed_shapes_encodable(m: MessageView)
    requires
        !(m is NewChatMessage),
        !(m is UserChatMessage),
    ensures
        encodable(m),
        body_of(m).len() <= 64,
{
    let none = Seq::<u8>::empty();
    lemma_value_lens(0, 0, 0, none, none);
    MessageKind::lemma_tags_distinct(m.kind(), m.kind());
    Key::lemma_names_distinct(Key::Id, Key::Id);
    Key::lemma_names_distinct(Key::X, Key::X);
    Key::lemma_names_distinct(Key::Y, Key::Y);
    Key::lemma_names_distinct(Key::W, Key::W);
    Key::lemma_names_distinct(Key::A, Key::A);
    Key::lemma_names_distinct(Key::S, Key::S);
    Key::lemma_names_distinct(Key::D, Key::D);
    match m {
        MessageView::Connected { id } => {
            lemma_value_lens(id.0, 0, 0, none, none);
        },
        MessageView::Spawn { id, x, y } => {
            lemma_value_lens(id.0, x, 0, none, none);
            lemma_value_lens(id.0, y, 0, none, none);
        },
        MessageView::Position { id, x, y } => {
            lemma_value_lens(id.0, x, 0, none, none);
            lemma_value_lens(id.0, y, 0, none, none);
        },
        MessageView::Actions { w, a, s, d } => {
            lemma_value_lens(0, 0, w, none, none);
            lemma_value_lens(0, 0, a, none, none);
            lemma_value_lens(0, 0, s, none, none);
            lemma_value_lens(0, 0, d, none, none);
        },
        _ => {},
    }
}

/// How the frame of a message lies in a byte stream that starts with it.
proof fn lemma_frame_shape(m: MessageView, rest: Seq<u8>)
    requires
        encodable(m),
    ensures
        frame_of(m).len() == 4 + body_of(m).len(),
        spec_u32_from_le_bytes((frame_of(m) + rest).subrange(0, 4)) == body_of(m).len(),
        (frame_of(m) + rest).subrange(4, 4 + body_of(m).len() as int) == body_of(m),
        body_of(m).len() >= 1 + m.kind().tag_bytes().len(),
        body_of(m)[0] == m.kind().tag_bytes().len(),
        body_of(m).subrange(1, 1 + m.kind().tag_bytes().len() as int) == m.kind().tag_bytes(),
        body_of(m).skip(1 + m.kind().tag_bytes().len() as int) == fields_of(m),
{
    lemma_auto_spec_u32_to_from_le_bytes();
    MessageKind::lemma_tags_distinct(m.kind(), m.kind());
    let body = body_of(m);
    let tag = m.kind().tag_bytes();
    let whole = frame_of(m) + rest;
    assert(whole.subrange(0, 4) =~= spec_u32_to_le_bytes(body.len() as u32));
    assert(whole.subrange(4, 4 + body.len() as int) =~= body);
    assert(body.subrange(1, 1 + tag.len() as int) =~= tag);
    assert(body.skip(1 + tag.len() as int) =~= fields_of(m));
}

/// Round trip: the frame of a message, with whatever follows it in the
/// stream, decodes to that message and to the length of the frame, for every
/// listener that has the message's shape registered.
pub proof fn lemma_round_trip(
    m: MessageView,
    registry: Registry,
    direction: Direction,
    rest: Seq<u8>,
)
    requires
        encodable(m),
        registry.registered(m.kind(), direction),
    ensures
        decode_frame(frame_of(m) + rest, registry, direction) == Ok::<
            (MessageView, int),
            CodecError,
        >((m, frame_of(m).len() as int)),
{
    lemma_frame_shape(m, rest);
    lemma_kind_of_own_tag(m.kind());
    lemma_fields_round_trip(m);
}

/// Unknown tag: the frame of a message whose shape is not registered for the
/// listener's direction is answered with `UnknownTag`.
pub proof fn lemma_unregistered_is_unknown(
    m: MessageView,
    registry: Registry,
    direction: Direction,
    rest: Seq<u8>,
)
    requires
        encodable(m),
        !registry.registered(m.kind(), direction),
    ensures
        decode_frame(frame_of(m) + rest, registry, direction) == Err::<
            (MessageView, int),
            CodecError,
        >(CodecError::UnknownTag),
{
    lemma_frame_shape(m, rest);
    lemma_kind_of_own_tag(m.kind());
}

/// Truncation: every strict prefix of a message's frame is answered with
/// `Truncated`, and the prefix followed by the bytes that were missing decodes
/// to the message.
pub proof fn lemma_prefix_is_truncated(
    m: MessageView,
    registry: Registry,
    direction: Direction,
    n: int,
)
    requires
        encodable(m),
        registry.registered(m.kind(), direction),
        0 <= n < frame_of(m).len(),
    ensures
        decode_frame(frame_of(m).take(n), registry, direction) == Err::<
            (MessageView, int),
            CodecError,
        >(CodecError::Truncated),
        decode_frame(frame_of(m).take(n) + frame_of(m).skip(n), registry, direction) == Ok::<
            (MessageView, int),
            CodecError,
        >((m, frame_of(m).len() as int)),
{
    let frame = frame_of(m);
    lemma_frame_shape(m, Seq::<u8>::empty());
    lemma_round_trip(m, registry, direction, Seq::<u8>::empty());
    assert(frame + Seq::<u8>::empty() =~= frame);
    assert(frame.take(n) + frame.skip(n) =~= frame);
    if n >= 4 {
        assert(frame.take(n).subrange(0, 4) =~= frame.subrange(0, 4));
    }
}

} // verus!
