//! The identifier scanner: the longest run of identifier bytes at the start
//! of the input, unless a reserved word stands there.

use crate::errors::ParseError;
use crate::keywords::{keyword, keyword_at};
use crate::matching::{
    is_run, lemma_run_len_is_run, lemma_run_len_unique, run_len, splits,
};
use vstd::prelude::*;

verus! {

/// The letters and digits of ASCII.
pub open spec fn alphanumeric_byte(b: u8) -> bool {
    (0x41 <= b <= 0x5A) || (0x61 <= b <= 0x7A) || (0x30 <= b <= 0x39)
}

/// `nom::character::is_alphanumeric` holds of the ASCII letters and digits,
/// and of no other byte.
pub assume_specification[ nom::character::is_alphanumeric ](chr: u8) -> (r: bool)
    ensures
        r == alphanumeric_byte(chr),
;

/// The bytes an identifier is made of: ASCII letters, digits, `_` and `@`.
pub open spec fn identifier_byte(b: u8) -> bool {
    alphanumeric_byte(b) || b == '_' as u8 || b == '@' as u8
}

/// The class of the bytes that `identifier_byte` holds of.
pub open spec fn identifier_bytes() -> spec_fn(u8) -> bool {
    |b: u8| identifier_byte(b)
}

/// Whether `chr` may stand in an identifier.
#[verifier::when_used_as_spec(identifier_byte)]
pub fn is_valid_identifier(chr: u8) -> (r: bool)
    ensures
        r == identifier_byte(chr),
{
    nom::character::is_alphanumeric(chr) || chr == '_' as u8 || chr == '@' as u8
}

/// `nom::bytes::complete::take_while1` with `is_valid_identifier` as its
/// condition, on a byte slice: it fails when the input is empty or begins
/// with a byte that is not of an identifier; else it splits the input behind
/// its leading identifier bytes and hands back what is behind them, then
/// them.
#[verifier::external_body]
pub(crate) fn match_identifier_bytes<'a>(i: &'a [u8]) -> (r: Option<(&'a [u8], &'a [u8])>)
    ensures
        r is Some <==> (i@.len() > 0 && identifier_byte(i@[0])),
        r matches Some((rest, found)) ==> is_run(i@, found@.len() as int, identifier_bytes()),
        r matches Some((rest, found)) ==> splits(i@, found@, rest@),
{
    nom::bytes::complete::take_while1::<_, &'a [u8], nom::error::Error<&'a [u8]>>(
        is_valid_identifier,
    )(i).ok()
}

/// The length of the identifier at the start of `s`, or why none stands
/// there: a reserved word does, or no identifier byte does.
pub open spec fn identifier_at(s: Seq<u8>) -> Result<nat, ParseError> {
    if keyword_at(s) is Some {
        Err(ParseError::KeywordCollision)
    } else if run_len(s, identifier_bytes()) == 0 {
        Err(ParseError::EmptyInput)
    } else {
        Ok(run_len(s, identifier_bytes()))
    }
}

/// Recognises an identifier at the start of the input. On success the result
/// holds the input behind the identifier, then the identifier, which is never
/// empty and keeps the case of the input.
pub fn identifier<'a>(i: &'a [u8]) -> (r: Result<(&'a [u8], &'a [u8]), ParseError>)
    ensures
        r matches Ok((rest, name)) ==> identifier_at(i@) == Ok::<nat, ParseError>(name@.len()),
        r matches Ok((rest, name)) ==> name@.len() > 0,
        r matches Ok((rest, name)) ==> forall|k: int|
            0 <= k < name@.len() ==> identifier_byte(#[trigger] name@[k]),
        r matches Ok((rest, name)) ==> splits(i@, name@, rest@),
        r matches Err(e) ==> identifier_at(i@) == Err::<nat, ParseError>(e),
{
    if keyword(i).is_ok() {
        return Err(ParseError::KeywordCollision);
    }
    match match_identifier_bytes(i) {
        Some((rest, name)) => {
            proof {
                lemma_run_len_unique(i@, name@.len() as int, identifier_bytes());
            }
            Ok((rest, name))
        },
        None => Err(ParseError::EmptyInput),
    }
}

/// An identifier is not empty, lies within the input, and is made of
/// identifier bytes alone.
pub proof fn lemma_identifier_bounds(s: Seq<u8>)
    ensures
        identifier_at(s) matches Ok(n) ==> 0 < n <= s.len() && forall|k: int|
            0 <= k < n ==> identifier_byte(#[trigger] s[k]),
{
    lemma_run_len_is_run(s, identifier_bytes());
}

} // verus!
