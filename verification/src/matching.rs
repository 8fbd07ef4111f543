//! Matching at the start of a byte string: literal text, with or without
//! regard to case, and runs of bytes of one class.

use vstd::prelude::*;
use vstd::string::*;

verus! {

/// An ASCII capital letter as its small letter; any other byte as itself.
pub open spec fn lowercase_byte(b: u8) -> u8 {
    if 0x41 <= b <= 0x5A {
        (b + 0x20) as u8
    } else {
        b
    }
}

/// `s` begins with the bytes of `t`.
pub open spec fn starts_with(s: Seq<u8>, t: Seq<u8>) -> bool {
    &&& t.len() <= s.len()
    &&& forall|k: int| 0 <= k < t.len() ==> s[k] == t[k]
}

/// `s` begins with the bytes of `t`, where two ASCII letters that differ only
/// in case count as the same byte.
pub open spec fn starts_with_no_case(s: Seq<u8>, t: Seq<u8>) -> bool {
    &&& t.len() <= s.len()
    &&& forall|k: int| 0 <= k < t.len() ==> lowercase_byte(s[k]) == lowercase_byte(t[k])
}

/// `input` is `found` with `rest` behind it.
pub open spec fn splits(input: Seq<u8>, found: Seq<u8>, rest: Seq<u8>) -> bool {
    &&& found.len() <= input.len()
    &&& found == input.take(found.len() as int)
    &&& rest == input.skip(found.len() as int)
}

/// `rest` is `input` without its first `n` bytes.
pub open spec fn follows(input: Seq<u8>, n: nat, rest: Seq<u8>) -> bool {
    &&& n <= input.len()
    &&& rest == input.skip(n as int)
}

/// `nom::bytes::complete::tag` with a string as the tag and a byte slice as
/// the input: it succeeds exactly when the input begins with the UTF-8 bytes
/// of the tag, then hands back the input behind the tag and the part of the
/// input that is the tag, in that order.
#[verifier::external_body]
pub(crate) fn match_tag<'a>(i: &'a [u8], t: &str) -> (r: Option<(&'a [u8], &'a [u8])>)
    ensures
        r is Some <==> starts_with(i@, t.spec_bytes()),
        r matches Some((rest, found)) ==> found@.len() == t.spec_bytes().len(),
        r matches Some((rest, found)) ==> splits(i@, found@, rest@),
{
    nom::bytes::complete::tag::<&str, &'a [u8], nom::error::Error<&'a [u8]>>(t)(i).ok()
}

/// `nom::bytes::complete::tag_no_case` with a string as the tag and a byte
/// slice as the input: as `match_tag`, but each byte of the input and of the
/// tag is compared after an ASCII capital letter is made small.
#[verifier::external_body]
pub(crate) fn match_tag_no_case<'a>(i: &'a [u8], t: &str) -> (r: Option<(&'a [u8], &'a [u8])>)
    ensures
        r is Some <==> starts_with_no_case(i@, t.spec_bytes()),
        r matches Some((rest, found)) ==> found@.len() == t.spec_bytes().len(),
        r matches Some((rest, found)) ==> splits(i@, found@, rest@),
{
    nom::bytes::complete::tag_no_case::<&str, &'a [u8], nom::error::Error<&'a [u8]>>(t)(i).ok()
}

/// The length of the longest run of bytes of `class` at the start of `s`.
pub open spec fn run_len(s: Seq<u8>, class: spec_fn(u8) -> bool) -> nat
    decreases s.len(),
{
    if s.len() > 0 && class(s[0]) {
        1 + run_len(s.skip(1), class)
    } else {
        0
    }
}

/// The first `n` bytes of `s` are of `class`, and the byte behind them, if
/// there is one, is not.
pub open spec fn is_run(s: Seq<u8>, n: int, class: spec_fn(u8) -> bool) -> bool {
    &&& 0 <= n <= s.len()
    &&& forall|k: int| 0 <= k < n ==> class(#[trigger] s[k])
    &&& n < s.len() ==> !class(s[n])
}

/// A run has the length that `run_len` gives, and no other.
pub proof fn lemma_run_len_unique(s: Seq<u8>, n: int, class: spec_fn(u8) -> bool)
    requires
        is_run(s, n, class),
    ensures
        run_len(s, class) == n,
    decreases s.len(),
{
    if n > 0 {
        let t = s.skip(1);
        assert(class(s[0]));
        assert forall|k: int| 0 <= k < n - 1 implies class(#[trigger] t[k]) by {
            assert(t[k] == s[k + 1]);
        }
        lemma_run_len_unique(t, n - 1, class);
    }
}

/// What `run_len` gives is a run.
pub proof fn lemma_run_len_is_run(s: Seq<u8>, class: spec_fn(u8) -> bool)
    ensures
        is_run(s, run_len(s, class) as int, class),
    decreases s.len(),
{
    if s.len() > 0 && class(s[0]) {
        let t = s.skip(1);
        let m = run_len(t, class) as int;
        lemma_run_len_is_run(t, class);
        assert forall|k: int| 0 <= k < m + 1 implies class(#[trigger] s[k]) by {
            if k > 0 {
                assert(s[k] == t[k - 1]);
            }
        }
        if m + 1 < s.len() {
            assert(s[m + 1] == t[m]);
        }
    }
}

/// Space, tab, carriage return and line feed.
pub open spec fn space_byte(b: u8) -> bool {
    b == 0x20 || b == 0x09 || b == 0x0D || b == 0x0A
}

/// The class of the bytes that `space_byte` holds of.
pub open spec fn spaces() -> spec_fn(u8) -> bool {
    |b: u8| space_byte(b)
}

/// `nom::character::complete::multispace0` on a byte slice: it always
/// succeeds, and splits the input behind its leading spaces, tabs, carriage
/// returns and line feeds. It hands back what is behind them, then them.
#[verifier::external_body]
pub(crate) fn match_spaces<'a>(i: &'a [u8]) -> (r: Option<(&'a [u8], &'a [u8])>)
    ensures
        r is Some,
        r matches Some((rest, found)) ==> is_run(i@, found@.len() as int, spaces()),
        r matches Some((rest, found)) ==> splits(i@, found@, rest@),
{
    nom::character::complete::multispace0::<&'a [u8], nom::error::Error<&'a [u8]>>(i).ok()
}

} // verus!
