//! Reserved words, recognised at the start of the input without regard to
//! case, and only where a boundary follows.

use crate::errors::ParseError;
use crate::matching::{match_tag_no_case, splits, starts_with_no_case};
use vstd::prelude::*;
use vstd::string::*;

verus! {

/// The bytes that end a reserved word: space, line feed, tab, `;`, `(`, `)`,
/// `,` and `=`.
pub open spec fn boundary_byte(b: u8) -> bool {
    ||| b == ' ' as u8
    ||| b == '\n' as u8
    ||| b == ';' as u8
    ||| b == '(' as u8
    ||| b == ')' as u8
    ||| b == '\t' as u8
    ||| b == ',' as u8
    ||| b == '=' as u8
}

/// `s` is empty or begins with a boundary byte.
pub open spec fn at_boundary(s: Seq<u8>) -> bool {
    s.len() == 0 || boundary_byte(s[0])
}

/// The reserved words, in the order in which they are tried.
pub open spec fn reserved_words() -> Seq<Seq<u8>> {
    seq![
        "SELECT".spec_bytes(),
        "FROM".spec_bytes(),
        "WHERE".spec_bytes(),
        "GROUP BY".spec_bytes(),
        "ORDER BY".spec_bytes(),
        "LIMIT".spec_bytes(),
        "OFFSET".spec_bytes(),
        "CASE".spec_bytes(),
        "AND".spec_bytes(),
        "OR".spec_bytes(),
        "ASC".spec_bytes(),
        "DESC".spec_bytes(),
    ]
}

/// The word `w` stands at the start of `s`, in any mix of cases, and a
/// boundary follows it.
pub open spec fn word_at(s: Seq<u8>, w: Seq<u8>) -> bool {
    starts_with_no_case(s, w) && at_boundary(s.skip(w.len() as int))
}

/// The length of the first of `words` that stands at the start of `s`.
pub open spec fn first_word_at(s: Seq<u8>, words: Seq<Seq<u8>>) -> Option<nat>
    decreases words.len(),
{
    if words.len() == 0 {
        None
    } else if word_at(s, words[0]) {
        Some(words[0].len())
    } else {
        first_word_at(s, words.drop_first())
    }
}

/// The length of the reserved word at the start of `s`, if one stands there.
pub open spec fn keyword_at(s: Seq<u8>) -> Option<nat> {
    first_word_at(s, reserved_words())
}

/// Whether the input ends here or goes on with a boundary byte. Nothing is
/// consumed.
fn keyword_following_char(i: &[u8]) -> (r: bool)
    ensures
        r == at_boundary(i@),
{
    if i.len() == 0 {
        true
    } else {
        let b: u8 = i[0];
        b == ' ' as u8 || b == '\n' as u8 || b == ';' as u8 || b == '(' as u8 || b == ')' as u8
            || b == '\t' as u8 || b == ',' as u8 || b == '=' as u8
    }
}

/// The `k`-th reserved word.
fn reserved_word(k: usize) -> (w: &'static str)
    requires
        k < 12,
    ensures
        w.spec_bytes() == reserved_words()[k as int],
{
    if k == 0 {
        "SELECT"
    } else if k == 1 {
        "FROM"
    } else if k == 2 {
        "WHERE"
    } else if k == 3 {
        "GROUP BY"
    } else if k == 4 {
        "ORDER BY"
    } else if k == 5 {
        "LIMIT"
    } else if k == 6 {
        "OFFSET"
    } else if k == 7 {
        "CASE"
    } else if k == 8 {
        "AND"
    } else if k == 9 {
        "OR"
    } else if k == 10 {
        "ASC"
    } else {
        "DESC"
    }
}

/// Recognises a reserved word at the start of the input. On success the
/// result holds the input behind the word, then the word as the input spells
/// it.
pub fn keyword<'a>(i: &'a [u8]) -> (r: Result<(&'a [u8], &'a [u8]), ParseError>)
    ensures
        r matches Ok((rest, word)) ==> keyword_at(i@) == Some(word@.len()),
        r matches Ok((rest, word)) ==> splits(i@, word@, rest@),
        r matches Err(e) ==> keyword_at(i@) is None && e == ParseError::NoKeyword,
{
    let mut k: usize = 0;
    assert(reserved_words().skip(0) == reserved_words());
    while k < 12
        invariant
            k <= 12,
            keyword_at(i@) == first_word_at(i@, reserved_words().skip(k as int)),
        decreases 12 - k,
    {
        let word = reserved_word(k);
        proof {
            let tail = reserved_words().skip(k as int);
            assert(tail[0] == reserved_words()[k as int]);
            assert(tail.drop_first() == reserved_words().skip(k + 1));
        }
        match match_tag_no_case(i, word) {
            Some((rest, found)) => {
                if keyword_following_char(rest) {
                    return Ok((rest, found));
                }
            },
            None => {},
        }
        k += 1;
    }
    Err(ParseError::NoKeyword)
}

} // verus!
