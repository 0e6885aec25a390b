//! Byte-level layout of the named, typed fields that make up a message body.
//!
//! A field is its name (one length byte, then at most 255 name bytes), one
//! type code, and a value whose length follows from the type code. Integers
//! are little-endian; signed ones travel in two's complement.

use vstd::prelude::*;
use vstd::bytes::*;
use vstd::slice::*;

verus! {

/// Type code of a 128-bit identity: sixteen bytes.
pub const KIND_ID: u8 = 1;

/// Type code of a world coordinate: four bytes.
pub const KIND_COORD: u8 = 2;

/// Type code of an input counter: two bytes.
pub const KIND_COUNT: u8 = 3;

/// Type code of a text: a four-byte length, then that many bytes.
pub const KIND_TEXT: u8 = 4;

/// The bytes of an ASCII character sequence.
pub open spec fn ascii(s: Seq<char>) -> Seq<u8> {
    Seq::new(s.len(), |i: int| s[i] as u8)
}

/// A byte string of at most 255 bytes behind its length byte.
pub open spec fn short_str(s: Seq<u8>) -> Seq<u8> {
    seq![s.len() as u8] + s
}

/// One field on the wire.
pub open spec fn field(name: Seq<u8>, code: u8, value: Seq<u8>) -> Seq<u8> {
    short_str(name) + seq![code] + value
}

pub open spec fn id_value(id: u128) -> Seq<u8> {
    spec_u128_to_le_bytes(id)
}

pub open spec fn coord_value(c: i32) -> Seq<u8> {
    spec_u32_to_le_bytes(c as u32)
}

pub open spec fn count_value(c: i16) -> Seq<u8> {
    spec_u16_to_le_bytes(c as u16)
}

pub open spec fn text_value(text: Seq<u8>) -> Seq<u8> {
    spec_u32_to_le_bytes(text.len() as u32) + text
}

/// Length of the value of type `code` that starts `bytes`, if one is there.
pub open spec fn value_len(code: u8, bytes: Seq<u8>) -> Option<int> {
    if code == KIND_ID {
        if bytes.len() >= 16 { Some(16int) } else { None }
    } else if code == KIND_COORD {
        if bytes.len() >= 4 { Some(4int) } else { None }
    } else if code == KIND_COUNT {
        if bytes.len() >= 2 { Some(2int) } else { None }
    } else if code == KIND_TEXT {
        if bytes.len() >= 4 && 4 + spec_u32_from_le_bytes(bytes.subrange(0, 4)) <= bytes.len() {
            Some(4 + spec_u32_from_le_bytes(bytes.subrange(0, 4)))
        } else {
            None
        }
    } else {
        None
    }
}

/// A field as read from the front of a byte sequence; `len` is what it took.
pub struct Field {
    pub name: Seq<u8>,
    pub code: u8,
    pub value: Seq<u8>,
    pub len: int,
}

/// The field at the front of `bytes`, if the bytes start with a whole one.
pub open spec fn parse_field(bytes: Seq<u8>) -> Option<Field> {
    if bytes.len() < 1 {
        None
    } else {
        let n = bytes[0] as int;
        if bytes.len() < n + 2 {
            None
        } else {
            match value_len(bytes[n + 1], bytes.skip(n + 2)) {
                Some(v) => Some(
                    Field {
                        name: bytes.subrange(1, n + 1),
                        code: bytes[n + 1],
                        value: bytes.subrange(n + 2, n + 2 + v),
                        len: n + 2 + v,
                    },
                ),
                None => None,
            }
        }
    }
}

/// The bytes are a sequence of whole fields, with nothing left over.
pub open spec fn fields_ok(bytes: Seq<u8>) -> bool
    decreases bytes.len(),
{
    bytes.len() == 0 || match parse_field(bytes) {
        Some(f) => 0 < f.len <= bytes.len() && fields_ok(bytes.skip(f.len)),
        None => false,
    }
}

/// Type code and value of the first field called `name`.
pub open spec fn find_field(bytes: Seq<u8>, name: Seq<u8>) -> Option<(u8, Seq<u8>)>
    decreases bytes.len(),
{
    match parse_field(bytes) {
        None => None,
        Some(f) => if f.name == name {
            Some((f.code, f.value))
        } else if 0 < f.len <= bytes.len() {
            find_field(bytes.skip(f.len), name)
        } else {
            None
        },
    }
}

pub open spec fn id_field(fields: Seq<u8>, name: Seq<u8>) -> Option<u128> {
    match find_field(fields, name) {
        Some((code, value)) => if code == KIND_ID {
            Some(spec_u128_from_le_bytes(value))
        } else {
            None
        },
        None => None,
    }
}

pub open spec fn coord_field(fields: Seq<u8>, name: Seq<u8>) -> Option<i32> {
    match find_field(fields, name) {
        Some((code, value)) => if code == KIND_COORD {
            Some(spec_u32_from_le_bytes(value) as i32)
        } else {
            None
        },
        None => None,
    }
}

pub open spec fn count_field(fields: Seq<u8>, name: Seq<u8>) -> Option<i16> {
    match find_field(fields, name) {
        Some((code, value)) => if code == KIND_COUNT {
            Some(spec_u16_from_le_bytes(value) as i16)
        } else {
            None
        },
        None => None,
    }
}

/// The bytes of the text field called `name`, without their length prefix.
pub open spec fn text_field(fields: Seq<u8>, name: Seq<u8>) -> Option<Seq<u8>> {
    match find_field(fields, name) {
        Some((code, value)) => if code == KIND_TEXT {
            Some(value.skip(4))
        } else {
            None
        },
        None => None,
    }
}

/// A parsed field never reaches past the bytes it was read from.
pub proof fn lemma_parse_field_bounds(bytes: Seq<u8>)
    ensures
        match parse_field(bytes) {
            Some(f) => 2 < f.len <= bytes.len() && f.name.len() == bytes[0] && f.value.len()
                == f.len - f.name.len() - 2,
            None => true,
        },
{
}

/// Reading back a field that was written in front of anything gives the field.
pub proof fn lemma_parse_written_field(name: Seq<u8>, code: u8, value: Seq<u8>, rest: Seq<u8>)
    requires
        name.len() <= 255,
        value_len(code, value + rest) == Some(value.len() as int),
    ensures
        parse_field(field(name, code, value) + rest) == Some(
            Field { name, code, value, len: field(name, code, value).len() as int },
        ),
        field(name, code, value).len() == name.len() + 2 + value.len(),
        (field(name, code, value) + rest).skip(field(name, code, value).len() as int) == rest,
{
    let whole = field(name, code, value) + rest;
    let n = name.len() as int;
    assert(whole[0] == n as u8);
    assert(whole[n + 1] == code);
    assert(whole.skip(n + 2) =~= value + rest);
    assert(whole.subrange(1, n + 1) =~= name);
    assert(whole.subrange(n + 2, n + 2 + value.len()) =~= value);
    assert(whole.skip(n + 2 + value.len()) =~= rest);
}

/// A field written in front of other fields is the first one found under its
/// name, hides nothing under another name, and leaves the rest as well formed
/// as it was.
pub proof fn lemma_written_field_first(name: Seq<u8>, code: u8, value: Seq<u8>, rest: Seq<u8>)
    requires
        name.len() <= 255,
        value_len(code, value + rest) == Some(value.len() as int),
    ensures
        fields_ok(field(name, code, value) + rest) == fields_ok(rest),
        forall|key: Seq<u8>| #[trigger]
            find_field(field(name, code, value) + rest, key) == if name == key {
                Some((code, value))
            } else {
                find_field(rest, key)
            },
{
    lemma_parse_written_field(name, code, value, rest);
}

/// The values this module writes are read back at their own length.
pub proof fn lemma_value_lens(id: u128, c: i32, k: i16, text: Seq<u8>, rest: Seq<u8>)
    ensures
        value_len(KIND_ID, id_value(id) + rest) == Some(16int),
        id_value(id).len() == 16,
        value_len(KIND_COORD, coord_value(c) + rest) == Some(4int),
        coord_value(c).len() == 4,
        value_len(KIND_COUNT, count_value(k) + rest) == Some(2int),
        count_value(k).len() == 2,
        text.len() <= u32::MAX ==> value_len(KIND_TEXT, text_value(text) + rest) == Some(
            4 + text.len() as int,
        ) && text_value(text).len() == 4 + text.len() && text_value(text).skip(4) == text,
        spec_u128_from_le_bytes(id_value(id)) == id,
        spec_u32_from_le_bytes(coord_value(c)) as i32 == c,
        spec_u16_from_le_bytes(count_value(k)) as i16 == k,
{
    lemma_auto_spec_u128_to_from_le_bytes();
    lemma_auto_spec_u32_to_from_le_bytes();
    lemma_auto_spec_u16_to_from_le_bytes();
    assert((c as u32) as i32 == c) by (bit_vector);
    assert((k as u16) as i16 == k) by (bit_vector);
    if text.len() <= u32::MAX {
        let n = text.len() as u32;
        assert((text_value(text) + rest).subrange(0, 4) =~= spec_u32_to_le_bytes(n));
        assert(text_value(text).skip(4) =~= text);
    }
}

/// Where one field lies inside a buffer.
pub struct FieldSpan {
    pub name_start: usize,
    pub name_end: usize,
    pub code: u8,
    pub value_start: usize,
    pub value_end: usize,
}

impl FieldSpan {
    /// The span marks, inside `body`, the field `f` that starts at `pos`.
    pub open spec fn describes(self, body: Seq<u8>, pos: int, f: Field) -> bool {
        &&& self.name_start == pos + 1
        &&& self.name_end == pos + 1 + f.name.len()
        &&& self.code == f.code
        &&& self.value_start == self.name_end + 1
        &&& self.value_end == pos + f.len
        &&& self.value_start <= self.value_end <= body.len()
        &&& f.name == body.subrange(self.name_start as int, self.name_end as int)
        &&& f.value == body.subrange(self.value_start as int, self.value_end as int)
    }
}

/// Reads the field that starts at `pos`.
pub(crate) fn field_at(body: &[u8], pos: usize) -> (r: Option<FieldSpan>)
    requires
        pos <= body@.len(),
    ensures
        match parse_field(body@.skip(pos as int)) {
            Some(f) => r is Some && r.unwrap().describes(body@, pos as int, f),
            None => r is None,
        },
{
    let len = body.len();
    let ghost tail = body@.skip(pos as int);
    if len - pos < 1 {
        return None;
    }
    let n = body[pos] as usize;
    assert(tail[0] == body@[pos as int]);
    if len - pos < n + 2 {
        return None;
    }
    let code = body[pos + n + 1];
    assert(tail[n + 1] == code);
    let value_start = pos + n + 2;
    let avail = len - value_start;
    assert(tail.skip(n + 2) =~= body@.skip(value_start as int));
    let value_len: usize;
    if code == KIND_ID {
        if avail < 16 {
            return None;
        }
        value_len = 16;
    } else if code == KIND_COORD {
        if avail < 4 {
            return None;
        }
        value_len = 4;
    } else if code == KIND_COUNT {
        if avail < 2 {
            return None;
        }
        value_len = 2;
    } else if code == KIND_TEXT {
        if avail < 4 {
            return None;
        }
        let prefix = slice_subrange(body, value_start, value_start + 4);
        assert(prefix@ =~= body@.skip(value_start as int).subrange(0, 4));
        let text_len = u32_from_le_bytes(prefix) as usize;
        if avail - 4 < text_len {
            return None;
        }
        value_len = 4 + text_len;
    } else {
        return None;
    }
    let span = FieldSpan {
        name_start: pos + 1,
        name_end: pos + 1 + n,
        code,
        value_start,
        value_end: value_start + value_len,
    };
    proof {
        let f = parse_field(tail).unwrap();
        assert(f.name =~= body@.subrange(span.name_start as int, span.name_end as int));
        assert(f.value =~= body@.subrange(span.value_start as int, span.value_end as int));
    }
    Some(span)
}

/// Whether the buffer, from `start` on, is a sequence of whole fields.
pub(crate) fn check_fields(body: &[u8], start: usize) -> (r: bool)
    requires
        start <= body@.len(),
    ensures
        r == fields_ok(body@.skip(start as int)),
{
    let mut pos = start;
    while pos < body.len()
        invariant
            start <= pos <= body@.len(),
            fields_ok(body@.skip(start as int)) == fields_ok(body@.skip(pos as int)),
        decreases body@.len() - pos,
    {
        match field_at(body, pos) {
            None => {
                return false;
            },
            Some(span) => {
                proof {
                    lemma_parse_field_bounds(body@.skip(pos as int));
                    let f = parse_field(body@.skip(pos as int)).unwrap();
                    assert(body@.skip(pos as int).skip(f.len) =~= body@.skip(span.value_end as int));
                }
                pos = span.value_end;
            },
        }
    }
    true
}

/// Whether two byte strings hold the same bytes.
pub(crate) fn same_bytes(a: &[u8], a_start: usize, a_end: usize, b: &[u8]) -> (r: bool)
    requires
        a_start <= a_end <= a@.len(),
    ensures
        r == (a@.subrange(a_start as int, a_end as int) == b@),
{
    let n = a_end - a_start;
    if n != b.len() {
        return false;
    }
    let mut i: usize = 0;
    while i < n
        invariant
            i <= n,
            n == a_end - a_start,
            n == b@.len(),
            a_end <= a@.len(),
            forall|j: int| 0 <= j < i ==> a@[a_start + j] == b@[j],
        decreases n - i,
    {
        if a[a_start + i] != b[i] {
            assert(a@.subrange(a_start as int, a_end as int)[i as int] != b@[i as int]);
            return false;
        }
        i += 1;
    }
    assert(a@.subrange(a_start as int, a_end as int) =~= b@);
    true
}

/// A value has the length that its type code asks for.
pub open spec fn value_fits(code: u8, value: Seq<u8>) -> bool {
    &&& code == KIND_ID ==> value.len() == 16
    &&& code == KIND_COORD ==> value.len() == 4
    &&& code == KIND_COUNT ==> value.len() == 2
    &&& code == KIND_TEXT ==> value.len() >= 4
}

/// Finds the first field called `name` at or after `start`.
pub(crate) fn find(body: &[u8], start: usize, name: &[u8]) -> (r: Option<FieldSpan>)
    requires
        start <= body@.len(),
    ensures
        match find_field(body@.skip(start as int), name@) {
            Some((code, value)) => r is Some && r.unwrap().code == code && r.unwrap().value_start
                <= r.unwrap().value_end <= body@.len() && value == body@.subrange(
                r.unwrap().value_start as int,
                r.unwrap().value_end as int,
            ) && value_fits(code, value),
            None => r is None,
        },
{
    let mut pos = start;
    loop
        invariant
            start <= pos <= body@.len(),
            find_field(body@.skip(start as int), name@) == find_field(
                body@.skip(pos as int),
                name@,
            ),
        decreases body@.len() - pos,
    {
        match field_at(body, pos) {
            None => {
                return None;
            },
            Some(span) => {
                proof {
                    lemma_parse_field_bounds(body@.skip(pos as int));
                    let f = parse_field(body@.skip(pos as int)).unwrap();
                    assert(body@.skip(pos as int).skip(f.len) =~= body@.skip(span.value_end as int));
                }
                if same_bytes(body, span.name_start, span.name_end, name) {
                    return Some(span);
                }
                pos = span.value_end;
            },
        }
    }
}

/// Reads the identity field called `name`.
pub(crate) fn read_id(body: &[u8], start: usize, name: &[u8]) -> (r: Option<u128>)
    requires
        start <= body@.len(),
    ensures
        r == id_field(body@.skip(start as int), name@),
{
    match find(body, start, name) {
        Some(span) => {
            if span.code == KIND_ID {
                Some(u128_from_le_bytes(slice_subrange(body, span.value_start, span.value_end)))
            } else {
                None
            }
        },
        None => None,
    }
}

/// Reads the coordinate field called `name`.
pub(crate) fn read_coord(body: &[u8], start: usize, name: &[u8]) -> (r: Option<i32>)
    requires
        start <= body@.len(),
    ensures
        r == coord_field(body@.skip(start as int), name@),
{
    match find(body, start, name) {
        Some(span) => {
            if span.code == KIND_COORD {
                Some(
                    u32_from_le_bytes(
                        slice_subrange(body, span.value_start, span.value_end),
                    ) as i32,
                )
            } else {
                None
            }
        },
        None => None,
    }
}

/// Reads the counter field called `name`.
pub(crate) fn read_count(body: &[u8], start: usize, name: &[u8]) -> (r: Option<i16>)
    requires
        start <= body@.len(),
    ensures
        r == count_field(body@.skip(start as int), name@),
{
    match find(body, start, name) {
        Some(span) => {
            if span.code == KIND_COUNT {
                Some(
                    u16_from_le_bytes(
                        slice_subrange(body, span.value_start, span.value_end),
                    ) as i16,
                )
            } else {
                None
            }
        },
        None => None,
    }
}

/// Reads the bytes of the text field called `name`.
pub(crate) fn read_text(body: &[u8], start: usize, name: &[u8]) -> (r: Option<Vec<u8>>)
    requires
        start <= body@.len(),
    ensures
        match text_field(body@.skip(start as int), name@) {
            Some(text) => r is Some && r.unwrap()@ == text,
            None => r is None,
        },
{
    match find(body, start, name) {
        Some(span) => {
            if span.code == KIND_TEXT {
                let text = slice_subrange(body, span.value_start + 4, span.value_end);
                assert(text@ =~= body@.subrange(
                    span.value_start as int,
                    span.value_end as int,
                ).skip(4));
                Some(slice_to_vec(text))
            } else {
                None
            }
        },
        None => None,
    }
}

/// Appends a byte string behind its length byte.
pub(crate) fn put_short_str(out: &mut Vec<u8>, s: &[u8])
    requires
        s@.len() <= 255,
    ensures
        final(out)@ == old(out)@ + short_str(s@),
{
    out.push(s.len() as u8);
    let mut copy = slice_to_vec(s);
    out.append(&mut copy);
    assert(out@ =~= old(out)@ + short_str(s@));
}

/// Appends an identity field.
pub(crate) fn put_id(out: &mut Vec<u8>, name: &[u8], id: u128)
    requires
        name@.len() <= 255,
    ensures
        final(out)@ == old(out)@ + field(name@, KIND_ID, id_value(id)),
{
    put_short_str(out, name);
    out.push(KIND_ID);
    let mut value = u128_to_le_bytes(id);
    out.append(&mut value);
    assert(out@ =~= old(out)@ + field(name@, KIND_ID, id_value(id)));
}

/// Appends a coordinate field.
pub(crate) fn put_coord(out: &mut Vec<u8>, name: &[u8], c: i32)
    requires
        name@.len() <= 255,
    ensures
        final(out)@ == old(out)@ + field(name@, KIND_COORD, coord_value(c)),
{
    put_short_str(out, name);
    out.push(KIND_COORD);
    let mut value = u32_to_le_bytes(c as u32);
    out.append(&mut value);
    assert(out@ =~= old(out)@ + field(name@, KIND_COORD, coord_value(c)));
}

/// Appends a counter field.
pub(crate) fn put_count(out: &mut Vec<u8>, name: &[u8], c: i16)
    requires
        name@.len() <= 255,
    ensures
        final(out)@ == old(out)@ + field(name@, KIND_COUNT, count_value(c)),
{
    put_short_str(out, name);
    out.push(KIND_COUNT);
    let mut value = u16_to_le_bytes(c as u16);
    out.append(&mut value);
    assert(out@ =~= old(out)@ + field(name@, KIND_COUNT, count_value(c)));
}

/// Appends a text field.
pub(crate) fn put_text(out: &mut Vec<u8>, name: &[u8], text: &[u8])
    requires
        name@.len() <= 255,
        text@.len() <= u32::MAX,
    ensures
        final(out)@ == old(out)@ + field(name@, KIND_TEXT, text_value(text@)),
{
    put_short_str(out, name);
    out.push(KIND_TEXT);
    let mut len = u32_to_le_bytes(text.len() as u32);
    out.append(&mut len);
    let mut copy = slice_to_vec(text);
    out.append(&mut copy);
    assert(out@ =~= old(out)@ + field(name@, KIND_TEXT, text_value(text@)));
}

} // verus!
