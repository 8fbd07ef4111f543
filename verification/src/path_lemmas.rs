//! What holds of every field path.

use crate::errors::ParseError;
use crate::fields::{
    dot, field_at, lemma_field_behind_qualifier, lemma_qualifiers_bounds, qualifier_at,
    qualifiers_at, FieldView,
};
use crate::identifiers::{
    identifier_at, identifier_byte, identifier_bytes, lemma_identifier_bounds,
};
use crate::keyword_lemmas::{capital_byte, lemma_keyword_at_none, lemma_reserved_word_bytes};
use crate::keywords::{reserved_words, word_at};
use crate::matching::{lemma_run_len_unique, starts_with};
use crate::text::ascii_text;
use vstd::prelude::*;
use vstd::string::*;

verus! {

/// `a` is not empty and is made of identifier bytes alone.
pub open spec fn identifier_shaped(a: Seq<u8>) -> bool {
    &&& a.len() > 0
    &&& forall|k: int| 0 <= k < a.len() ==> identifier_byte(#[trigger] a[k])
}

/// The dot is the one byte `.`.
pub proof fn lemma_dot()
    ensures
        dot() == seq!['.' as u8],
{
    broadcast use is_ascii_spec_bytes;

    reveal_strlit(".");
    assert(is_ascii("."));
    assert(dot() =~= seq!['.' as u8]);
}

/// A run of identifier bytes with a dot right behind it is a qualifier,
/// whatever it spells: in front of a dot even a reserved word is an
/// identifier.
pub proof fn lemma_identifier_before_dot(s: Seq<u8>, n: nat)
    requires
        0 < n < s.len(),
        forall|k: int| 0 <= k < n ==> identifier_byte(#[trigger] s[k]),
        s[n as int] == '.' as u8,
    ensures
        identifier_at(s) == Ok::<nat, ParseError>(n),
        qualifier_at(s) == Some(n),
{
    lemma_run_len_unique(s, n as int, identifier_bytes());
    assert forall|k: int| 0 <= k < reserved_words().len() implies !#[trigger] word_at(
        s,
        reserved_words()[k],
    ) by {
        let w = reserved_words()[k];
        lemma_reserved_word_bytes(k);
        if word_at(s, w) {
            if w.len() <= n {
                assert(s.skip(w.len() as int)[0] == s[w.len() as int]);
            } else {
                assert(capital_byte(w[n as int]) || w[n as int] == ' ' as u8);
            }
        }
    }
    lemma_keyword_at_none(s);
    lemma_dot();
    assert(s.skip(n as int)[0] == s[n as int]);
}

/// A path without a dot: an identifier with no dot right behind it is a
/// field of no object, and the path ends where the identifier ends.
pub proof fn lemma_unqualified_path(s: Seq<u8>)
    requires
        identifier_at(s) is Ok,
        !starts_with(s.skip(identifier_at(s)->Ok_0 as int), dot()),
    ensures
        field_at(s) == Ok::<(nat, FieldView), ParseError>(
            (
                identifier_at(s)->Ok_0,
                FieldView {
                    name: ascii_text(s.take(identifier_at(s)->Ok_0 as int)),
                    object: None,
                },
            ),
        ),
{
    let n = identifier_at(s)->Ok_0;
    assert(s.skip(0) =~= s);
    assert(s.subrange(0, n as int) =~= s.take(n as int));
}

/// A path with one dot: `object`, a dot and `name` name the field `name` of
/// the object `object`, and the path ends where `name` ends. `object` may be
/// any run of identifier bytes; `name` has to be an identifier where it
/// stands, with no dot behind it.
pub proof fn lemma_qualified_path(object: Seq<u8>, name: Seq<u8>, rest: Seq<u8>)
    requires
        identifier_shaped(object),
        identifier_at(name + rest) == Ok::<nat, ParseError>(name.len()),
        !starts_with(rest, dot()),
    ensures
        field_at(object + dot() + name + rest) == Ok::<(nat, FieldView), ParseError>(
            (
                object.len() + dot().len() + name.len(),
                FieldView { name: ascii_text(name), object: Some(ascii_text(object)) },
            ),
        ),
{
    let s = object + dot() + name + rest;
    let t = name + rest;
    lemma_dot();
    lemma_identifier_before_dot(s, object.len());
    assert(s.skip((object.len() + dot().len()) as int) =~= t);
    assert(s.take(object.len() as int) =~= object);
    assert(t.skip(name.len() as int) =~= rest);
    assert(t.take(name.len() as int) =~= name);
    lemma_unqualified_path(t);
    lemma_field_behind_qualifier(s);
}

/// A path with two dots or more: a qualifier in front of a path that has an
/// object of its own leaves no trace in the field. Only the last qualifier is
/// kept.
pub proof fn lemma_leading_qualifier_dropped(first: Seq<u8>, s: Seq<u8>)
    requires
        identifier_shaped(first),
        field_at(s) matches Ok((n, field)) && field.object is Some,
    ensures
        field_at(first + dot() + s) == Ok::<(nat, FieldView), ParseError>(
            (first.len() + dot().len() + field_at(s)->Ok_0.0, field_at(s)->Ok_0.1),
        ),
{
    let whole = first + dot() + s;
    lemma_dot();
    lemma_identifier_before_dot(whole, first.len());
    assert(whole.skip((first.len() + dot().len()) as int) =~= s);
    lemma_field_behind_qualifier(whole);
}

/// Nothing is skipped behind a dot: where a qualifier and its dot are not
/// followed by an identifier byte, be it that a space or a line feed stands
/// there, another dot, or nothing at all, there is no path.
pub proof fn lemma_no_identifier_behind_dot(object: Seq<u8>, rest: Seq<u8>)
    requires
        identifier_shaped(object),
        rest.len() == 0 || !identifier_byte(rest[0]),
    ensures
        field_at(object + dot() + rest) == Err::<(nat, FieldView), ParseError>(
            ParseError::MalformedPath,
        ),
{
    let whole = object + dot() + rest;
    lemma_dot();
    lemma_identifier_before_dot(whole, object.len());
    assert(whole.skip((object.len() + dot().len()) as int) =~= rest);
    lemma_identifier_bounds(rest);
    assert(rest.skip(0) =~= rest);
    lemma_field_behind_qualifier(whole);
}

/// A failure behind a dot fails the whole path.
pub proof fn lemma_failure_behind_dot(s: Seq<u8>)
    requires
        qualifier_at(s) is Some,
        field_at(s.skip((qualifier_at(s)->0 + dot().len()) as int)) is Err,
    ensures
        field_at(s) == Err::<(nat, FieldView), ParseError>(ParseError::MalformedPath),
{
    lemma_field_behind_qualifier(s);
}

/// A path lies within the input, and the field it names is well formed: its
/// name is not empty, nor is its object.
pub proof fn lemma_field_bounds(s: Seq<u8>)
    ensures
        field_at(s) matches Ok((n, field)) ==> 0 < n <= s.len() && field.well_formed(),
{
    let q = qualifiers_at(s);
    lemma_qualifiers_bounds(s);
    lemma_identifier_bounds(s.skip(q.length as int));
}

} // verus!
