//! Strings out of bytes.

use vstd::prelude::*;
use vstd::utf8::*;

verus! {

/// `String::from_utf8` of std: the bytes become a string exactly when they
/// are well-formed UTF-8, and the string then holds these very bytes.
#[verifier::external_body]
pub(crate) fn string_from_utf8(bytes: Vec<u8>) -> (r: Option<String>)
    ensures
        r is Some <==> valid_utf8(bytes@),
        r is Some ==> encode_utf8(r.unwrap()@) == bytes@,
{
    String::from_utf8(bytes).ok()
}

/// The characters whose codes are the given bytes.
pub open spec fn chars_of(bytes: Seq<u8>) -> Seq<char> {
    bytes.map_values(|b: u8| b as char)
}

/// The string whose characters are the given ASCII bytes.
pub(crate) fn string_of_ascii(bytes: Vec<u8>) -> (s: String)
    requires
        forall|i: int| 0 <= i < bytes@.len() ==> bytes@[i] < 128,
    ensures
        s@ == chars_of(bytes@),
{
    let ghost chars = chars_of(bytes@);
    proof {
        assert(is_ascii_chars(chars)) by {
            assert forall|i: int| 0 <= i < chars.len() implies '\0' <= #[trigger] chars[i]
                <= '\u{7f}' by {
                assert(chars[i] == bytes@[i] as char);
            }
        }
        is_ascii_chars_encode_utf8(chars);
        assert(encode_utf8(chars) =~= bytes@) by {
            assert forall|i: int| 0 <= i < chars.len() implies encode_utf8(chars)[i]
                == bytes@[i] by {
                assert(chars[i] as u8 == encode_utf8(chars)[i]);
                assert(chars[i] == bytes@[i] as char);
            }
        }
        encode_utf8_valid_utf8(chars);
        encode_utf8_decode_utf8(chars);
    }
    match string_from_utf8(bytes) {
        Some(s) => {
            proof {
                encode_utf8_decode_utf8(s@);
            }
            s
        },
        None => String::new(),
    }
}

} // verus!
