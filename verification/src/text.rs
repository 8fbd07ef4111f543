//! Bytes of ASCII as text.

use vstd::prelude::*;
use vstd::string::*;
use vstd::utf8::*;

verus! {

/// Every byte of `b` is below 128.
pub open spec fn ascii_bytes(b: Seq<u8>) -> bool {
    forall|k: int| 0 <= k < b.len() ==> b[k] < 128
}

/// The text whose characters have the bytes of `b` as their codes.
pub open spec fn ascii_text(b: Seq<u8>) -> Seq<char> {
    Seq::new(b.len(), |k: int| b[k] as char)
}

/// `std::str::from_utf8`: it succeeds on the byte strings that are valid
/// UTF-8 and on no others, and the string slice it then gives has exactly
/// these bytes.
#[verifier::external_body]
pub(crate) fn utf8_str<'a>(bytes: &'a [u8]) -> (r: Option<&'a str>)
    ensures
        r is Some <==> valid_utf8(bytes@),
        r matches Some(s) ==> s.spec_bytes() == bytes@,
{
    std::str::from_utf8(bytes).ok()
}

/// Bytes of ASCII are valid UTF-8, and are the encoding of their text and of
/// no other text.
pub proof fn lemma_ascii_text(b: Seq<u8>)
    requires
        ascii_bytes(b),
    ensures
        valid_utf8(b),
        encode_utf8(ascii_text(b)) == b,
        forall|t: Seq<char>| encode_utf8(t) == b ==> t == ascii_text(b),
{
    let text = ascii_text(b);
    assert(is_ascii_chars(text));
    is_ascii_chars_encode_utf8(text);
    assert(encode_utf8(text) =~= b);
    encode_utf8_valid_utf8(text);
    assert forall|t: Seq<char>| encode_utf8(t) == b implies t == text by {
        encode_utf8_decode_utf8(t);
        encode_utf8_decode_utf8(text);
    }
}

/// The text of a byte string of ASCII, as an owned string.
pub(crate) fn ascii_string(bytes: &[u8]) -> (s: String)
    requires
        ascii_bytes(bytes@),
    ensures
        s@ == ascii_text(bytes@),
{
    proof {
        lemma_ascii_text(bytes@);
    }
    utf8_str(bytes).unwrap().to_owned()
}

} // verus!
