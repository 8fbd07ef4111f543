//! What holds of every call of an aggregate function and of every selector.

use crate::errors::ParseError;
use crate::fields::{
    aggregates, arguments_at, call_at, call_value, closing, first_call_at, function_at, opening,
    selector_at, Aggregate, ArgumentList, FunctionExpressionView,
};
use crate::identifiers::{identifier_at, identifier_byte, lemma_identifier_bounds};
use crate::matching::{
    lemma_run_len_is_run, lemma_run_len_unique, lowercase_byte, run_len, space_byte, spaces,
    starts_with, starts_with_no_case,
};
use vstd::prelude::*;
use vstd::string::*;

verus! {

/// The brackets are the bytes `(` and `)`.
pub proof fn lemma_brackets()
    ensures
        opening() == seq!['(' as u8],
        closing() == seq![')' as u8],
{
    broadcast use is_ascii_spec_bytes;

    reveal_strlit("(");
    reveal_strlit(")");
    assert(is_ascii("("));
    assert(is_ascii(")"));
    assert(opening() =~= seq!['(' as u8]);
    assert(closing() =~= seq![')' as u8]);
}

/// The names of the aggregate functions, spelt out.
proof fn lemma_names_spelt()
    ensures
        Aggregate::Count.name() == seq![0x63u8, 0x6F, 0x75, 0x6E, 0x74],
        Aggregate::Avg.name() == seq![0x61u8, 0x76, 0x67],
        Aggregate::Min.name() == seq![0x6Du8, 0x69, 0x6E],
        Aggregate::Max.name() == seq![0x6Du8, 0x61, 0x78],
        Aggregate::Sum.name() == seq![0x73u8, 0x75, 0x6D],
        Aggregate::CountDistinct.name() == seq![
            0x63u8,
            0x6F,
            0x75,
            0x6E,
            0x74,
            0x5F,
            0x64,
            0x69,
            0x73,
            0x74,
            0x69,
            0x6E,
            0x63,
            0x74,
        ],
{
    broadcast use is_ascii_spec_bytes;

    reveal_strlit("count");
    reveal_strlit("avg");
    reveal_strlit("min");
    reveal_strlit("max");
    reveal_strlit("sum");
    reveal_strlit("count_distinct");
    assert(is_ascii("count"));
    assert(is_ascii("avg"));
    assert(is_ascii("min"));
    assert(is_ascii("max"));
    assert(is_ascii("sum"));
    assert(is_ascii("count_distinct"));
    assert(Aggregate::Count.name() =~= seq![0x63u8, 0x6F, 0x75, 0x6E, 0x74]);
    assert(Aggregate::Avg.name() =~= seq![0x61u8, 0x76, 0x67]);
    assert(Aggregate::Min.name() =~= seq![0x6Du8, 0x69, 0x6E]);
    assert(Aggregate::Max.name() =~= seq![0x6Du8, 0x61, 0x78]);
    assert(Aggregate::Sum.name() =~= seq![0x73u8, 0x75, 0x6D]);
    assert(Aggregate::CountDistinct.name() =~= seq![
        0x63u8,
        0x6F,
        0x75,
        0x6E,
        0x74,
        0x5F,
        0x64,
        0x69,
        0x73,
        0x74,
        0x69,
        0x6E,
        0x63,
        0x74,
    ]);
}

/// What the first bytes of an input are, as small letters, when a call of
/// `a` stands at its start.
proof fn lemma_call_at_start(s: Seq<u8>, a: Aggregate)
    requires
        call_at(s, a) is Some,
    ensures
        s.len() > 3,
        lowercase_byte(s[0]) == a.name()[0],
        lowercase_byte(s[1]) == a.name()[1],
        lowercase_byte(s[2]) == a.name()[2],
        a is Count ==> s.len() > 5 && s[5] == '(' as u8,
        a is CountDistinct ==> s.len() > 5 && s[5] == '_' as u8,
{
    lemma_names_spelt();
    lemma_brackets();
    let n = a.name().len() as int;
    let t = s.skip(n);
    assert(t[0] == s[n]);
    if a is CountDistinct {
        assert(lowercase_byte(s[5]) == lowercase_byte(a.name()[5]));
    }
}

/// At most one aggregate function has its name and an argument list at the
/// start of an input, so the order in which they are tried does not show in
/// the result.
pub proof fn lemma_call_unique(s: Seq<u8>, a: Aggregate, b: Aggregate)
    requires
        call_at(s, a) is Some,
        call_at(s, b) is Some,
    ensures
        a == b,
{
    lemma_names_spelt();
    lemma_call_at_start(s, a);
    lemma_call_at_start(s, b);
}

/// `first_call_at` fails where none of `functions` has a call at the start
/// of `s`, and else gives the value of the call of one of them.
proof fn lemma_first_call_at(s: Seq<u8>, functions: Seq<Aggregate>)
    ensures
        (forall|j: int| 0 <= j < functions.len() ==> #[trigger] call_at(s, functions[j]) is None)
            ==> first_call_at(s, functions) == Err::<(nat, FunctionExpressionView), ParseError>(
            ParseError::MalformedFunctionCall,
        ),
        (exists|j: int| 0 <= j < functions.len() && #[trigger] call_at(s, functions[j]) is Some)
            ==> exists|j: int|
            0 <= j < functions.len() && #[trigger] call_at(s, functions[j]) is Some
                && first_call_at(s, functions) == call_value(
                functions[j],
                call_at(s, functions[j])->0,
            ),
    decreases functions.len(),
{
    if functions.len() > 0 {
        let tail = functions.drop_first();
        lemma_first_call_at(s, tail);
        assert forall|j: int| 0 <= j < tail.len() implies tail[j] == functions[j + 1] by {}
        if call_at(s, functions[0]) is Some {
        } else {
            if exists|j: int|
                0 <= j < functions.len() && #[trigger] call_at(s, functions[j]) is Some {
                let j = choose|j: int|
                    0 <= j < functions.len() && #[trigger] call_at(s, functions[j]) is Some;
                assert(call_at(s, tail[j - 1]) is Some);
                let i = choose|i: int|
                    0 <= i < tail.len() && #[trigger] call_at(s, tail[i]) is Some
                        && first_call_at(s, tail) == call_value(tail[i], call_at(s, tail[i])->0);
                assert(call_at(s, functions[i + 1]) is Some);
            } else {
                assert forall|j: int| 0 <= j < tail.len() implies #[trigger] call_at(
                    s,
                    tail[j],
                ) is None by {
                    assert(call_at(s, functions[j + 1]) is None);
                }
            }
        }
    }
}

/// Every aggregate function is among those that are tried.
proof fn lemma_aggregates_complete(a: Aggregate)
    ensures
        exists|j: int| 0 <= j < aggregates().len() && #[trigger] aggregates()[j] == a,
{
    match a {
        Aggregate::Count => assert(aggregates()[0] == a),
        Aggregate::Avg => assert(aggregates()[1] == a),
        Aggregate::Min => assert(aggregates()[2] == a),
        Aggregate::Max => assert(aggregates()[3] == a),
        Aggregate::Sum => assert(aggregates()[4] == a),
        Aggregate::CountDistinct => assert(aggregates()[5] == a),
    }
}

/// Where the name of `a` and an argument list stand at the start of `s`, the
/// call is that of `a`: the function applied to the argument, `count()`
/// where `a` is `count` and there is no argument, and an error where another
/// function is called without one.
pub proof fn lemma_function_at_call(s: Seq<u8>, a: Aggregate)
    requires
        call_at(s, a) is Some,
    ensures
        function_at(s) == call_value(a, call_at(s, a)->0),
{
    lemma_aggregates_complete(a);
    let k = choose|j: int| 0 <= j < aggregates().len() && #[trigger] aggregates()[j] == a;
    assert(call_at(s, aggregates()[k]) is Some);
    lemma_first_call_at(s, aggregates());
    let j = choose|j: int|
        0 <= j < aggregates().len() && #[trigger] call_at(s, aggregates()[j]) is Some
            && function_at(s) == call_value(aggregates()[j], call_at(s, aggregates()[j])->0);
    lemma_call_unique(s, a, aggregates()[j]);
}

/// Where no aggregate function has its name and an argument list at the
/// start of `s`, there is no call.
pub proof fn lemma_function_at_none(s: Seq<u8>)
    requires
        forall|a: Aggregate| #[trigger] call_at(s, a) is None,
    ensures
        function_at(s) == Err::<(nat, FunctionExpressionView), ParseError>(
            ParseError::MalformedFunctionCall,
        ),
{
    lemma_first_call_at(s, aggregates());
}

/// `s` is made of spaces, tabs, carriage returns and line feeds alone; it may
/// be empty.
pub open spec fn blank(s: Seq<u8>) -> bool {
    forall|k: int| 0 <= k < s.len() ==> space_byte(#[trigger] s[k])
}

/// `spelling` is `name` in some mix of cases.
pub open spec fn spells(spelling: Seq<u8>, name: Seq<u8>) -> bool {
    spelling.len() == name.len() && starts_with_no_case(spelling, name)
}

/// Spaces around the argument are ignored: a bracket, blanks, an identifier,
/// blanks and a bracket are an argument list with that identifier as the
/// argument, however many blanks there are.
pub proof fn lemma_arguments_with_name(
    before: Seq<u8>,
    name: Seq<u8>,
    after: Seq<u8>,
    rest: Seq<u8>,
)
    requires
        blank(before),
        blank(after),
        identifier_at(name + after + closing() + rest) == Ok::<nat, ParseError>(name.len()),
    ensures
        arguments_at(opening() + before + name + after + closing() + rest) == Some(
            ArgumentList {
                length: opening().len() + before.len() + name.len() + after.len()
                    + closing().len(),
                argument: Some(name),
            },
        ),
{
    lemma_brackets();
    let s = opening() + before + name + after + closing() + rest;
    let b = 1 + before.len();
    let c = b + name.len();
    let d = c + after.len();
    let t = name + after + closing() + rest;
    lemma_identifier_bounds(t);
    assert(identifier_byte(t[0]));
    assert(s.skip(b as int) =~= t);
    lemma_run_len_unique(s.skip(1), before.len() as int, spaces());
    lemma_run_len_unique(s.skip(c as int), after.len() as int, spaces());
    assert(s.skip(d as int) =~= closing() + rest);
    assert(s.subrange(b as int, c as int) =~= name);
}

/// An argument list may be empty: a bracket, blanks and a bracket are an
/// argument list without an argument.
pub proof fn lemma_arguments_empty(between: Seq<u8>, rest: Seq<u8>)
    requires
        blank(between),
    ensures
        arguments_at(opening() + between + closing() + rest) == Some(
            ArgumentList {
                length: opening().len() + between.len() + closing().len(),
                argument: None,
            },
        ),
{
    lemma_brackets();
    let s = opening() + between + closing() + rest;
    let b = 1 + between.len();
    let t = closing() + rest;
    assert(s.skip(b as int) =~= t);
    lemma_run_len_unique(s.skip(1), between.len() as int, spaces());
    lemma_run_len_unique(t, 0, spaces());
    lemma_identifier_bounds(t);
}

/// The name of `a` in some mix of cases with an argument list right behind
/// it is a call of `a`.
pub proof fn lemma_call_at_spelling(a: Aggregate, spelling: Seq<u8>, behind: Seq<u8>)
    requires
        spells(spelling, a.name()),
        arguments_at(behind) is Some,
    ensures
        call_at(spelling + behind, a) == Some(
            ArgumentList {
                length: spelling.len() + arguments_at(behind)->0.length,
                argument: arguments_at(behind)->0.argument,
            },
        ),
{
    let s = spelling + behind;
    assert(s.skip(spelling.len() as int) =~= behind);
    assert forall|k: int| 0 <= k < spelling.len() implies s[k] == spelling[k] by {}
}

/// A call with an argument: the name of an aggregate function in any mix of
/// cases, with an identifier between brackets right behind it, is that
/// function applied to the field of that name and of no object. Blanks
/// around the identifier change nothing.
pub proof fn lemma_call_with_argument(
    a: Aggregate,
    spelling: Seq<u8>,
    before: Seq<u8>,
    name: Seq<u8>,
    after: Seq<u8>,
    rest: Seq<u8>,
)
    requires
        spells(spelling, a.name()),
        blank(before),
        blank(after),
        identifier_at(name + after + closing() + rest) == Ok::<nat, ParseError>(name.len()),
    ensures
        function_at(spelling + opening() + before + name + after + closing() + rest) == Ok::<
            (nat, FunctionExpressionView),
            ParseError,
        >(
            (
                spelling.len() + opening().len() + before.len() + name.len() + after.len()
                    + closing().len(),
                a.of_column(name),
            ),
        ),
{
    let behind = opening() + before + name + after + closing() + rest;
    let s = spelling + opening() + before + name + after + closing() + rest;
    assert(s =~= spelling + behind);
    lemma_arguments_with_name(before, name, after, rest);
    lemma_call_at_spelling(a, spelling, behind);
    lemma_function_at_call(s, a);
}

/// A call without an argument: `count()` is the count of all rows, and no
/// other aggregate function can be called so. Blanks between the brackets
/// change nothing.
pub proof fn lemma_call_without_argument(
    a: Aggregate,
    spelling: Seq<u8>,
    between: Seq<u8>,
    rest: Seq<u8>,
)
    requires
        spells(spelling, a.name()),
        blank(between),
    ensures
        a is Count ==> function_at(spelling + opening() + between + closing() + rest) == Ok::<
            (nat, FunctionExpressionView),
            ParseError,
        >(
            (
                spelling.len() + opening().len() + between.len() + closing().len(),
                FunctionExpressionView::CountAll,
            ),
        ),
        !(a is Count) ==> function_at(spelling + opening() + between + closing() + rest) == Err::<
            (nat, FunctionExpressionView),
            ParseError,
        >(ParseError::MalformedFunctionCall),
{
    let behind = opening() + between + closing() + rest;
    let s = spelling + opening() + between + closing() + rest;
    assert(s =~= spelling + behind);
    lemma_arguments_empty(between, rest);
    lemma_call_at_spelling(a, spelling, behind);
    lemma_function_at_call(s, a);
}

/// A call lies within the input and is never a selector; the field it is
/// applied to has a name that is not empty, and no object.
pub proof fn lemma_function_bounds(s: Seq<u8>)
    ensures
        function_at(s) matches Ok((n, e)) ==> 0 < n <= s.len() && e.is_aggregate(),
        function_at(s) matches Ok((n, e)) ==> (e.field() matches Some(f) ==> f.well_formed()
            && f.object is None),
        function_at(s) matches Err(e) ==> e == ParseError::MalformedFunctionCall,
{
    lemma_first_call_at(s, aggregates());
    if exists|j: int| 0 <= j < aggregates().len() && #[trigger] call_at(s, aggregates()[j]) is Some {
        let j = choose|j: int|
            0 <= j < aggregates().len() && #[trigger] call_at(s, aggregates()[j]) is Some
                && function_at(s) == call_value(aggregates()[j], call_at(s, aggregates()[j])->0);
        lemma_arguments_bounds(s.skip(aggregates()[j].name().len() as int));
    }
}

/// An argument list lies within the input, and its argument, where it has
/// one, is an identifier.
pub proof fn lemma_arguments_bounds(s: Seq<u8>)
    ensures
        arguments_at(s) matches Some(list) ==> 0 < list.length <= s.len() && (
        list.argument matches Some(name) ==> name.len() > 0 && forall|k: int|
            0 <= k < name.len() ==> identifier_byte(#[trigger] name[k])),
{
    lemma_brackets();
    if starts_with(s, opening()) {
        let a = opening().len();
        let t = s.skip(a as int);
        lemma_run_len_is_run(t, spaces());
        let b = a + run_len(t, spaces());
        let u = s.skip(b as int);
        lemma_identifier_bounds(u);
        let n = match identifier_at(u) {
            Ok(n) => n,
            Err(_) => 0,
        };
        let c = b + n;
        let v = s.skip(c as int);
        lemma_run_len_is_run(v, spaces());
        let d = c + run_len(v, spaces());
        if starts_with(s.skip(d as int), closing()) && n > 0 {
            let name = s.subrange(b as int, c as int);
            assert forall|k: int| 0 <= k < name.len() implies identifier_byte(
                #[trigger] name[k],
            ) by {
                assert(name[k] == u[k]);
            }
        }
    }
}

/// The three selectors, spelt out as far as they differ: each has `FIELDS(`
/// in front, and `A`, `C` or `S` behind it.
proof fn lemma_selectors_spelt()
    ensures
        "FIELDS(ALL)".spec_bytes().len() == 11,
        "FIELDS(CUSTOM)".spec_bytes().len() == 14,
        "FIELDS(STANDARD)".spec_bytes().len() == 16,
        "FIELDS(ALL)".spec_bytes()[7] == 'A' as u8,
        "FIELDS(CUSTOM)".spec_bytes()[7] == 'C' as u8,
        "FIELDS(STANDARD)".spec_bytes()[7] == 'S' as u8,
{
    broadcast use is_ascii_spec_bytes;

    reveal_strlit("FIELDS(ALL)");
    reveal_strlit("FIELDS(CUSTOM)");
    reveal_strlit("FIELDS(STANDARD)");
    assert(is_ascii("FIELDS(ALL)"));
    assert(is_ascii("FIELDS(CUSTOM)"));
    assert(is_ascii("FIELDS(STANDARD)"));
}

/// The three selectors exclude one another, so the order in which they are
/// tried does not show in the result: whichever of them stands at the start
/// of `s`, in any mix of cases, is the selector found there, and where none
/// does there is no selector.
pub proof fn lemma_selector_at(s: Seq<u8>)
    ensures
        starts_with_no_case(s, "FIELDS(ALL)".spec_bytes()) <==> selector_at(s) == Ok::<
            (nat, FunctionExpressionView),
            ParseError,
        >((11, FunctionExpressionView::FieldsAll)),
        starts_with_no_case(s, "FIELDS(CUSTOM)".spec_bytes()) <==> selector_at(s) == Ok::<
            (nat, FunctionExpressionView),
            ParseError,
        >((14, FunctionExpressionView::FieldsCustom)),
        starts_with_no_case(s, "FIELDS(STANDARD)".spec_bytes()) <==> selector_at(s) == Ok::<
            (nat, FunctionExpressionView),
            ParseError,
        >((16, FunctionExpressionView::FieldsStandard)),
        selector_at(s) matches Ok((n, e)) ==> 0 < n <= s.len() && e.is_selector(),
        selector_at(s) matches Err(e) ==> e == ParseError::UnrecognizedSelector,
{
    lemma_selectors_spelt();
    let all = "FIELDS(ALL)".spec_bytes();
    let custom = "FIELDS(CUSTOM)".spec_bytes();
    let standard = "FIELDS(STANDARD)".spec_bytes();
    if starts_with_no_case(s, all) {
        assert(lowercase_byte(s[7]) == lowercase_byte(all[7]));
    }
    if starts_with_no_case(s, custom) {
        assert(lowercase_byte(s[7]) == lowercase_byte(custom[7]));
    }
    if starts_with_no_case(s, standard) {
        assert(lowercase_byte(s[7]) == lowercase_byte(standard[7]));
    }
}

} // verus!
