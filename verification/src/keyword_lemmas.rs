//! What holds of the reserved words and of every input they are looked for
//! in.

use crate::errors::ParseError;
use crate::identifiers::{identifier_at, identifier_byte, identifier_bytes};
use crate::keywords::{boundary_byte, first_word_at, keyword_at, reserved_words, word_at};
use crate::matching::{lowercase_byte, run_len};
use vstd::prelude::*;
use vstd::string::*;

verus! {

/// A capital letter of ASCII.
pub open spec fn capital_byte(b: u8) -> bool {
    0x41 <= b <= 0x5A
}

/// Every reserved word begins with a capital letter and is made of capital
/// letters and spaces.
pub proof fn lemma_reserved_word_bytes(k: int)
    requires
        0 <= k < reserved_words().len(),
    ensures
        reserved_words()[k].len() > 0,
        capital_byte(reserved_words()[k][0]),
        forall|j: int|
            0 <= j < reserved_words()[k].len() ==> capital_byte(#[trigger] reserved_words()[k][j])
                || reserved_words()[k][j] == ' ' as u8,
{
    broadcast use is_ascii_spec_bytes;

    reveal_strlit("SELECT");
    reveal_strlit("FROM");
    reveal_strlit("WHERE");
    reveal_strlit("GROUP BY");
    reveal_strlit("ORDER BY");
    reveal_strlit("LIMIT");
    reveal_strlit("OFFSET");
    reveal_strlit("CASE");
    reveal_strlit("AND");
    reveal_strlit("OR");
    reveal_strlit("ASC");
    reveal_strlit("DESC");
    assert(is_ascii("SELECT"));
    assert(is_ascii("FROM"));
    assert(is_ascii("WHERE"));
    assert(is_ascii("GROUP BY"));
    assert(is_ascii("ORDER BY"));
    assert(is_ascii("LIMIT"));
    assert(is_ascii("OFFSET"));
    assert(is_ascii("CASE"));
    assert(is_ascii("AND"));
    assert(is_ascii("OR"));
    assert(is_ascii("ASC"));
    assert(is_ascii("DESC"));
}

/// The reserved words, spelt out.
proof fn lemma_reserved_words_spelt()
    ensures
        reserved_words().len() == 12,
        reserved_words()[0] == seq![0x53u8, 0x45, 0x4C, 0x45, 0x43, 0x54],
        reserved_words()[1] == seq![0x46u8, 0x52, 0x4F, 0x4D],
        reserved_words()[2] == seq![0x57u8, 0x48, 0x45, 0x52, 0x45],
        reserved_words()[3] == seq![0x47u8, 0x52, 0x4F, 0x55, 0x50, 0x20, 0x42, 0x59],
        reserved_words()[4] == seq![0x4Fu8, 0x52, 0x44, 0x45, 0x52, 0x20, 0x42, 0x59],
        reserved_words()[5] == seq![0x4Cu8, 0x49, 0x4D, 0x49, 0x54],
        reserved_words()[6] == seq![0x4Fu8, 0x46, 0x46, 0x53, 0x45, 0x54],
        reserved_words()[7] == seq![0x43u8, 0x41, 0x53, 0x45],
        reserved_words()[8] == seq![0x41u8, 0x4E, 0x44],
        reserved_words()[9] == seq![0x4Fu8, 0x52],
        reserved_words()[10] == seq![0x41u8, 0x53, 0x43],
        reserved_words()[11] == seq![0x44u8, 0x45, 0x53, 0x43],
{
    broadcast use is_ascii_spec_bytes;

    reveal_strlit("SELECT");
    reveal_strlit("FROM");
    reveal_strlit("WHERE");
    reveal_strlit("GROUP BY");
    reveal_strlit("ORDER BY");
    reveal_strlit("LIMIT");
    reveal_strlit("OFFSET");
    reveal_strlit("CASE");
    reveal_strlit("AND");
    reveal_strlit("OR");
    reveal_strlit("ASC");
    reveal_strlit("DESC");
    assert(is_ascii("SELECT"));
    assert(is_ascii("FROM"));
    assert(is_ascii("WHERE"));
    assert(is_ascii("GROUP BY"));
    assert(is_ascii("ORDER BY"));
    assert(is_ascii("LIMIT"));
    assert(is_ascii("OFFSET"));
    assert(is_ascii("CASE"));
    assert(is_ascii("AND"));
    assert(is_ascii("OR"));
    assert(is_ascii("ASC"));
    assert(is_ascii("DESC"));
    assert(reserved_words()[0] =~= seq![0x53u8, 0x45, 0x4C, 0x45, 0x43, 0x54]);
    assert(reserved_words()[1] =~= seq![0x46u8, 0x52, 0x4F, 0x4D]);
    assert(reserved_words()[2] =~= seq![0x57u8, 0x48, 0x45, 0x52, 0x45]);
    assert(reserved_words()[3] =~= seq![0x47u8, 0x52, 0x4F, 0x55, 0x50, 0x20, 0x42, 0x59]);
    assert(reserved_words()[4] =~= seq![0x4Fu8, 0x52, 0x44, 0x45, 0x52, 0x20, 0x42, 0x59]);
    assert(reserved_words()[5] =~= seq![0x4Cu8, 0x49, 0x4D, 0x49, 0x54]);
    assert(reserved_words()[6] =~= seq![0x4Fu8, 0x46, 0x46, 0x53, 0x45, 0x54]);
    assert(reserved_words()[7] =~= seq![0x43u8, 0x41, 0x53, 0x45]);
    assert(reserved_words()[8] =~= seq![0x41u8, 0x4E, 0x44]);
    assert(reserved_words()[9] =~= seq![0x4Fu8, 0x52]);
    assert(reserved_words()[10] =~= seq![0x41u8, 0x53, 0x43]);
    assert(reserved_words()[11] =~= seq![0x44u8, 0x45, 0x53, 0x43]);
}

/// What the first three bytes of an input are, as small letters, when the
/// `k`-th reserved word stands at its start.
proof fn lemma_word_at_start(s: Seq<u8>, k: int)
    requires
        0 <= k < reserved_words().len(),
        word_at(s, reserved_words()[k]),
    ensures
        s.len() >= 2,
        lowercase_byte(s[0]) == lowercase_byte(reserved_words()[k][0]),
        lowercase_byte(s[1]) == lowercase_byte(reserved_words()[k][1]),
        reserved_words()[k].len() == 2 ==> s.len() == 2 || boundary_byte(s[2]),
        reserved_words()[k].len() > 2 ==> s.len() > 2 && lowercase_byte(s[2]) == lowercase_byte(
            reserved_words()[k][2],
        ),
{
    lemma_reserved_words_spelt();
    let w = reserved_words()[k];
    assert(w.len() >= 2);
    if w.len() == 2 {
        if s.len() > 2 {
            assert(s.skip(2)[0] == s[2]);
        }
    }
}

/// At most one reserved word stands at the start of an input, so the order
/// in which they are tried does not show in the result.
pub proof fn lemma_reserved_word_unique(s: Seq<u8>, j: int, k: int)
    requires
        0 <= j < reserved_words().len(),
        0 <= k < reserved_words().len(),
        word_at(s, reserved_words()[j]),
        word_at(s, reserved_words()[k]),
    ensures
        j == k,
{
    lemma_reserved_words_spelt();
    lemma_word_at_start(s, j);
    lemma_word_at_start(s, k);
}

/// `first_word_at` gives the length of the first of `words` that stands at
/// the start of `s`, and nothing exactly when none of them stands there.
pub proof fn lemma_first_word_at(s: Seq<u8>, words: Seq<Seq<u8>>)
    ensures
        first_word_at(s, words) matches Some(n) ==> exists|j: int|
            0 <= j < words.len() && #[trigger] word_at(s, words[j]) && words[j].len() == n,
        first_word_at(s, words) is None <==> forall|j: int|
            0 <= j < words.len() ==> !#[trigger] word_at(s, words[j]),
    decreases words.len(),
{
    if words.len() > 0 {
        let tail = words.drop_first();
        lemma_first_word_at(s, tail);
        assert forall|j: int| 0 <= j < tail.len() implies tail[j] == words[j + 1] by {}
        if word_at(s, words[0]) {
        } else if let Some(n) = first_word_at(s, tail) {
            let j = choose|j: int|
                0 <= j < tail.len() && #[trigger] word_at(s, tail[j]) && tail[j].len() == n;
            assert(word_at(s, words[j + 1]));
        } else {
            assert forall|j: int| 0 <= j < words.len() implies !#[trigger] word_at(
                s,
                words[j],
            ) by {
                if j > 0 {
                    assert(!word_at(s, tail[j - 1]));
                }
            }
        }
    }
}

/// Where a reserved word stands at the start of `s`, `keyword_at` gives its
/// length, whichever place the word has among the reserved words.
pub proof fn lemma_keyword_at_word(s: Seq<u8>, k: int)
    requires
        0 <= k < reserved_words().len(),
        word_at(s, reserved_words()[k]),
    ensures
        keyword_at(s) == Some(reserved_words()[k].len()),
{
    lemma_first_word_at(s, reserved_words());
    let n = keyword_at(s)->0;
    let j = choose|j: int|
        0 <= j < reserved_words().len() && #[trigger] word_at(s, reserved_words()[j])
            && reserved_words()[j].len() == n;
    lemma_reserved_word_unique(s, j, k);
}

/// `keyword_at` finds nothing exactly when no reserved word stands at the
/// start of `s`.
pub proof fn lemma_keyword_at_none(s: Seq<u8>)
    ensures
        keyword_at(s) is None <==> forall|k: int|
            0 <= k < reserved_words().len() ==> !#[trigger] word_at(s, reserved_words()[k]),
{
    lemma_first_word_at(s, reserved_words());
}

/// A reserved word that is found lies within the input, is not empty, and
/// has the end of the input or a boundary byte right behind it: inside a
/// longer run of letters no reserved word is found.
pub proof fn lemma_keyword_bounds(s: Seq<u8>)
    ensures
        keyword_at(s) matches Some(n) ==> 0 < n <= s.len() && (n == s.len() || boundary_byte(
            s[n as int],
        )),
{
    lemma_first_word_at(s, reserved_words());
    if let Some(n) = keyword_at(s) {
        let j = choose|j: int|
            0 <= j < reserved_words().len() && #[trigger] word_at(s, reserved_words()[j])
                && reserved_words()[j].len() == n;
        lemma_reserved_word_bytes(j);
        if n < s.len() {
            assert(s.skip(n as int)[0] == s[n as int]);
        }
    }
}

/// A reserved word is never an identifier: the identifier scanner fails
/// with a keyword collision exactly where a reserved word stands, whatever
/// follows the boundary behind it; and where it succeeds, no reserved word
/// stands there.
pub proof fn lemma_identifier_excludes_keyword(s: Seq<u8>)
    ensures
        keyword_at(s) is Some <==> identifier_at(s) == Err::<nat, ParseError>(
            ParseError::KeywordCollision,
        ),
        identifier_at(s) is Ok ==> keyword_at(s) is None,
        identifier_at(s) matches Err(e) ==> e == ParseError::KeywordCollision || e
            == ParseError::EmptyInput,
{
}

/// Where a reserved word stands, identifier bytes do too: a keyword
/// collision is never mistaken for an empty match.
pub proof fn lemma_keyword_is_identifier_shaped(s: Seq<u8>)
    requires
        keyword_at(s) is Some,
    ensures
        run_len(s, identifier_bytes()) > 0,
{
    lemma_first_word_at(s, reserved_words());
    let n = keyword_at(s)->0;
    let j = choose|j: int|
        0 <= j < reserved_words().len() && #[trigger] word_at(s, reserved_words()[j])
            && reserved_words()[j].len() == n;
    lemma_reserved_word_bytes(j);
    let w = reserved_words()[j];
    assert(lowercase_byte(s[0]) == lowercase_byte(w[0]));
    assert(identifier_byte(s[0]));
}

} // verus!
