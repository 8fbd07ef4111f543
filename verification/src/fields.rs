//! The items of a field list: field paths, calls of aggregate functions and
//! the `FIELDS(...)` selectors.

use crate::errors::ParseError;
use crate::identifiers::{identifier, identifier_at, identifier_byte, lemma_identifier_bounds};
use crate::matching::{
    follows, lemma_run_len_unique, match_spaces, match_tag, match_tag_no_case, run_len, spaces,
    starts_with, starts_with_no_case,
};
use crate::text::{ascii_bytes, ascii_string, ascii_text};
use vstd::prelude::*;
use vstd::string::*;

verus! {

/// A reference to one column: its name, and the object it is reached through
/// where the reference names one.
#[derive(Debug, Clone, PartialEq, Eq)]
pub struct Field {
    pub name: String,
    pub object: Option<String>,
}

/// A `Field` as plain text.
pub struct FieldView {
    pub name: Seq<char>,
    pub object: Option<Seq<char>>,
}

impl View for Field {
    type V = FieldView;

    open spec fn view(&self) -> FieldView {
        FieldView {
            name: self.name@,
            object: match self.object {
                Some(o) => Some(o@),
                None => None,
            },
        }
    }
}

impl FieldView {
    /// The name is not empty, nor is the object where there is one.
    pub open spec fn well_formed(self) -> bool {
        &&& self.name.len() > 0
        &&& self.object matches Some(o) ==> o.len() > 0
    }
}

/// A function of the field list: a `FIELDS(...)` selector, or an aggregate
/// function with the field it is applied to.
#[allow(non_camel_case_types)]
#[derive(Clone, Debug, Eq, PartialEq)]
pub enum FunctionExpression {
    FieldsAll,
    FieldsStandard,
    FieldsCustom,
    CountAll,
    Avg(Field),
    Count(Field),
    Count_Distinct(Field),
    Max(Field),
    Min(Field),
    Sum(Field),
}

/// A `FunctionExpression` as plain text.
#[allow(non_camel_case_types)]
pub enum FunctionExpressionView {
    FieldsAll,
    FieldsStandard,
    FieldsCustom,
    CountAll,
    Avg(FieldView),
    Count(FieldView),
    Count_Distinct(FieldView),
    Max(FieldView),
    Min(FieldView),
    Sum(FieldView),
}

impl View for FunctionExpression {
    type V = FunctionExpressionView;

    open spec fn view(&self) -> FunctionExpressionView {
        match self {
            FunctionExpression::FieldsAll => FunctionExpressionView::FieldsAll,
            FunctionExpression::FieldsStandard => FunctionExpressionView::FieldsStandard,
            FunctionExpression::FieldsCustom => FunctionExpressionView::FieldsCustom,
            FunctionExpression::CountAll => FunctionExpressionView::CountAll,
            FunctionExpression::Avg(f) => FunctionExpressionView::Avg(f@),
            FunctionExpression::Count(f) => FunctionExpressionView::Count(f@),
            FunctionExpression::Count_Distinct(f) => FunctionExpressionView::Count_Distinct(f@),
            FunctionExpression::Max(f) => FunctionExpressionView::Max(f@),
            FunctionExpression::Min(f) => FunctionExpressionView::Min(f@),
            FunctionExpression::Sum(f) => FunctionExpressionView::Sum(f@),
        }
    }
}

impl FunctionExpressionView {
    /// One of the three `FIELDS(...)` selectors.
    pub open spec fn is_selector(self) -> bool {
        self is FieldsAll || self is FieldsStandard || self is FieldsCustom
    }

    /// An aggregate function: `count()`, or a function applied to a field.
    pub open spec fn is_aggregate(self) -> bool {
        !self.is_selector()
    }

    /// The field that the function is applied to, where it is applied to one.
    pub open spec fn field(self) -> Option<FieldView> {
        match self {
            FunctionExpressionView::Avg(f) => Some(f),
            FunctionExpressionView::Count(f) => Some(f),
            FunctionExpressionView::Count_Distinct(f) => Some(f),
            FunctionExpressionView::Max(f) => Some(f),
            FunctionExpressionView::Min(f) => Some(f),
            FunctionExpressionView::Sum(f) => Some(f),
            _ => None,
        }
    }
}

/// An item of the field list. A column is the one kind there is so far.
#[derive(Debug, Clone, PartialEq, Eq)]
pub enum FieldExpression {
    Col(Field),
}

/// A `FieldExpression` as plain text.
pub enum FieldExpressionView {
    Col(FieldView),
}

impl View for FieldExpression {
    type V = FieldExpressionView;

    open spec fn view(&self) -> FieldExpressionView {
        match self {
            FieldExpression::Col(f) => FieldExpressionView::Col(f@),
        }
    }
}

/// The dot between the segments of a path.
pub open spec fn dot() -> Seq<u8> {
    ".".spec_bytes()
}

/// The length of the identifier at the start of `s` that has a dot right
/// behind it.
pub open spec fn qualifier_at(s: Seq<u8>) -> Option<nat> {
    match identifier_at(s) {
        Ok(n) => if starts_with(s.skip(n as int), dot()) {
            Some(n)
        } else {
            None
        },
        Err(_) => None,
    }
}

/// The qualifiers at the start of a path: how many bytes they take, dots
/// included, and the last of them.
pub struct Qualifiers {
    pub length: nat,
    pub last: Option<Seq<u8>>,
}

/// The qualifiers at the start of `s`, as many as stand there.
pub open spec fn qualifiers_at(s: Seq<u8>) -> Qualifiers
    decreases s.len(),
    via qualifiers_at_decreases
{
    match qualifier_at(s) {
        Some(n) => {
            let more = qualifiers_at(s.skip((n + dot().len()) as int));
            Qualifiers {
                length: n + dot().len() + more.length,
                last: if more.last is Some {
                    more.last
                } else {
                    Some(s.take(n as int))
                },
            }
        },
        None => Qualifiers { length: 0, last: None },
    }
}

#[via_fn]
proof fn qualifiers_at_decreases(s: Seq<u8>) {
    lemma_identifier_bounds(s);
}

/// The text of an optional byte string of ASCII.
pub open spec fn optional_text(b: Option<Seq<u8>>) -> Option<Seq<char>> {
    match b {
        Some(x) => Some(ascii_text(x)),
        None => None,
    }
}

/// The field path at the start of `s`: its length and the field it names. The
/// object of the field is the last qualifier of the path; the qualifiers
/// before it are dropped.
pub open spec fn field_at(s: Seq<u8>) -> Result<(nat, FieldView), ParseError> {
    let q = qualifiers_at(s);
    match identifier_at(s.skip(q.length as int)) {
        Ok(n) => Ok(
            (
                q.length + n,
                FieldView {
                    name: ascii_text(s.subrange(q.length as int, (q.length + n) as int)),
                    object: optional_text(q.last),
                },
            ),
        ),
        Err(e) => Err(
            if q.length > 0 {
                ParseError::MalformedPath
            } else {
                e
            },
        ),
    }
}

/// What the path at the start of an input is, given that the input begins
/// with `length` bytes of qualifiers, the last of which is `last`, and that
/// `behind` is the path behind them.
pub open spec fn behind_qualifiers(
    length: nat,
    last: Option<Seq<u8>>,
    behind: Result<(nat, FieldView), ParseError>,
) -> Result<(nat, FieldView), ParseError> {
    match behind {
        Ok((n, field)) => Ok(
            (
                length + n,
                FieldView {
                    name: field.name,
                    object: if field.object is Some {
                        field.object
                    } else {
                        optional_text(last)
                    },
                },
            ),
        ),
        Err(e) => Err(
            if length > 0 {
                ParseError::MalformedPath
            } else {
                e
            },
        ),
    }
}

/// A path that begins with a qualifier is the path behind that qualifier and
/// its dot, with the qualifier as its object where that path has none.
pub proof fn lemma_field_behind_qualifier(s: Seq<u8>)
    requires
        qualifier_at(s) is Some,
    ensures
        qualifier_at(s)->0 + dot().len() <= s.len(),
        field_at(s) == behind_qualifiers(
            qualifier_at(s)->0 + dot().len(),
            Some(s.take(qualifier_at(s)->0 as int)),
            field_at(s.skip((qualifier_at(s)->0 + dot().len()) as int)),
        ),
{
    let step = qualifier_at(s)->0 + dot().len();
    let t = s.skip(step as int);
    let q = qualifiers_at(t);
    lemma_identifier_bounds(s);
    lemma_qualifiers_bounds(t);
    assert(qualifiers_at(s).length == step + q.length);
    assert(t.skip(q.length as int) =~= s.skip((step + q.length) as int));
    match identifier_at(t.skip(q.length as int)) {
        Ok(n) => {
            lemma_identifier_bounds(t.skip(q.length as int));
            assert(t.subrange(q.length as int, (q.length + n) as int) =~= s.subrange(
                (step + q.length) as int,
                (step + q.length + n) as int,
            ));
        },
        Err(_) => {},
    }
}

/// The qualifiers at the start of an input lie within it, and there is a
/// last one exactly when there is one at all.
pub proof fn lemma_qualifiers_bounds(s: Seq<u8>)
    ensures
        qualifiers_at(s).length <= s.len(),
        qualifiers_at(s).length > 0 <==> qualifiers_at(s).last is Some,
        qualifiers_at(s).last matches Some(o) ==> o.len() > 0 && forall|k: int|
            0 <= k < o.len() ==> identifier_byte(#[trigger] o[k]),
    decreases s.len(),
{
    lemma_identifier_bounds(s);
    if let Some(n) = qualifier_at(s) {
        lemma_qualifiers_bounds(s.skip((n + dot().len()) as int));
    }
}

/// Recognises a field path at the start of the input: qualifiers, each with
/// its dot, as many as stand there, then an identifier. On success the result
/// holds the input behind the path, then the field.
pub fn field_parser<'a>(i: &'a [u8]) -> (r: Result<(&'a [u8], Field), ParseError>)
    ensures
        r matches Ok((rest, field)) ==> field_at(i@) matches Ok((n, v)) && v == field@ && follows(
            i@,
            n,
            rest@,
        ),
        r matches Ok((rest, field)) ==> field@.well_formed(),
        r matches Err(e) ==> field_at(i@) == Err::<(nat, FieldView), ParseError>(e),
{
    let mut rest: &'a [u8] = i;
    let mut object: Option<&'a [u8]> = None;
    let ghost mut length: nat = 0;
    assert(i@.skip(0) =~= i@);
    loop
        invariant
            follows(i@, length, rest@),
            length > 0 <==> object is Some,
            object matches Some(o) ==> o@.len() > 0 && forall|k: int|
                0 <= k < o@.len() ==> identifier_byte(#[trigger] o@[k]),
            field_at(i@) == behind_qualifiers(length, optional_bytes(object), field_at(rest@)),
        decreases rest@.len(),
    {
        match identifier(rest) {
            Ok((after, name)) => match match_tag(after, ".") {
                Some((after_dot, _)) => {
                    proof {
                        lemma_field_behind_qualifier(rest@);
                        let step = (name@.len() + dot().len()) as nat;
                        assert(after_dot@ =~= rest@.skip(step as int));
                        assert(after_dot@ =~= i@.skip((length + step) as int));
                        length = length + step;
                    }
                    object = Some(name);
                    rest = after_dot;
                },
                None => {
                    proof {
                        assert(after@ =~= i@.skip((length + name@.len()) as int));
                        assert(rest@.skip(0) =~= rest@);
                        assert(rest@.subrange(0, name@.len() as int) =~= name@);
                    }
                    let field = Field {
                        name: ascii_string(name),
                        object: match object {
                            Some(o) => Some(ascii_string(o)),
                            None => None,
                        },
                    };
                    return Ok((after, field));
                },
            },
            Err(e) => {
                proof {
                    assert(rest@.skip(0) =~= rest@);
                }
                return Err(
                    if object.is_some() {
                        ParseError::MalformedPath
                    } else {
                        e
                    },
                );
            },
        }
    }
}

/// A bracketed argument list: how many bytes it takes, and the identifier
/// between the brackets where there is one.
pub struct ArgumentList {
    pub length: nat,
    pub argument: Option<Seq<u8>>,
}

/// The bracket that opens an argument list.
pub open spec fn opening() -> Seq<u8> {
    "(".spec_bytes()
}

/// The bracket that closes an argument list.
pub open spec fn closing() -> Seq<u8> {
    ")".spec_bytes()
}

/// The argument list at the start of `s`: `(`, spaces, an identifier or
/// nothing, spaces, `)`.
pub open spec fn arguments_at(s: Seq<u8>) -> Option<ArgumentList> {
    if starts_with(s, opening()) {
        let a = opening().len();
        let b = a + run_len(s.skip(a as int), spaces());
        let n = match identifier_at(s.skip(b as int)) {
            Ok(n) => n,
            Err(_) => 0,
        };
        let c = b + n;
        let d = c + run_len(s.skip(c as int), spaces());
        if starts_with(s.skip(d as int), closing()) {
            Some(
                ArgumentList {
                    length: d + closing().len(),
                    argument: if n > 0 {
                        Some(s.subrange(b as int, c as int))
                    } else {
                        None
                    },
                },
            )
        } else {
            None
        }
    } else {
        None
    }
}

/// The bytes behind an optional slice.
pub open spec fn optional_bytes(a: Option<&[u8]>) -> Option<Seq<u8>> {
    match a {
        Some(x) => Some(x@),
        None => None,
    }
}

/// Recognises a bracketed argument list at the start of the input. On success
/// the result holds the input behind the closing bracket, then the argument
/// where there is one.
fn function_args_parser<'a>(i: &'a [u8]) -> (r: Option<(&'a [u8], Option<&'a [u8]>)>)
    ensures
        r is Some <==> arguments_at(i@) is Some,
        r matches Some((rest, argument)) ==> arguments_at(i@) matches Some(list)
            && list.argument == optional_bytes(argument) && follows(i@, list.length, rest@),
        r matches Some((rest, Some(name))) ==> name@.len() > 0 && forall|k: int|
            0 <= k < name@.len() ==> identifier_byte(#[trigger] name@[k]),
{
    let after_open = match match_tag(i, "(") {
        Some((rest, _)) => rest,
        None => { return None; },
    };
    let ghost a = opening().len() as int;
    let after_spaces = match_spaces(after_open).unwrap().0;
    let ghost b = i@.len() - after_spaces@.len();
    proof {
        lemma_run_len_unique(after_open@, b - a, spaces());
        assert(after_spaces@ == i@.skip(b));
    }
    let (after_name, argument) = match identifier(after_spaces) {
        Ok((rest, name)) => {
            proof {
                assert(rest@ == i@.skip(b + name@.len()));
                assert(name@ == i@.subrange(b, b + name@.len()));
            }
            (rest, Some(name))
        },
        Err(_) => (after_spaces, None),
    };
    let ghost c = i@.len() - after_name@.len();
    let before_close = match_spaces(after_name).unwrap().0;
    let ghost d = i@.len() - before_close@.len();
    proof {
        lemma_run_len_unique(after_name@, d - c, spaces());
        assert(before_close@ == i@.skip(d));
    }
    match match_tag(before_close, ")") {
        Some((rest, _)) => {
            assert(rest@ == i@.skip(d + closing().len()));
            Some((rest, argument))
        },
        None => None,
    }
}

/// The aggregate functions.
#[derive(Clone, Copy, Debug, PartialEq, Eq)]
pub enum Aggregate {
    Count,
    Avg,
    Min,
    Max,
    Sum,
    CountDistinct,
}

impl Aggregate {
    /// The name under which the function is called.
    pub open spec fn name(self) -> Seq<u8> {
        match self {
            Aggregate::Count => "count".spec_bytes(),
            Aggregate::Avg => "avg".spec_bytes(),
            Aggregate::Min => "min".spec_bytes(),
            Aggregate::Max => "max".spec_bytes(),
            Aggregate::Sum => "sum".spec_bytes(),
            Aggregate::CountDistinct => "count_distinct".spec_bytes(),
        }
    }

    /// The function applied to the column `name` of no object.
    pub open spec fn of_column(self, name: Seq<u8>) -> FunctionExpressionView {
        let field = FieldView { name: ascii_text(name), object: None };
        match self {
            Aggregate::Count => FunctionExpressionView::Count(field),
            Aggregate::Avg => FunctionExpressionView::Avg(field),
            Aggregate::Min => FunctionExpressionView::Min(field),
            Aggregate::Max => FunctionExpressionView::Max(field),
            Aggregate::Sum => FunctionExpressionView::Sum(field),
            Aggregate::CountDistinct => FunctionExpressionView::Count_Distinct(field),
        }
    }

    /// What a call of the function with this argument list is. Only `count`
    /// may be called without an argument.
    pub open spec fn applied(self, argument: Option<Seq<u8>>) -> Option<FunctionExpressionView> {
        match argument {
            Some(name) => Some(self.of_column(name)),
            None => if self is Count {
                Some(FunctionExpressionView::CountAll)
            } else {
                None
            },
        }
    }

    /// The name under which the function is called.
    fn literal(self) -> (w: &'static str)
        ensures
            w.spec_bytes() == self.name(),
    {
        match self {
            Aggregate::Count => "count",
            Aggregate::Avg => "avg",
            Aggregate::Min => "min",
            Aggregate::Max => "max",
            Aggregate::Sum => "sum",
            Aggregate::CountDistinct => "count_distinct",
        }
    }

    /// The call of the function with this argument list, where the function
    /// takes it.
    fn apply(self, argument: Option<&[u8]>) -> (r: Option<FunctionExpression>)
        requires
            argument matches Some(name) ==> ascii_bytes(name@),
        ensures
            r is Some <==> self.applied(optional_bytes(argument)) is Some,
            r matches Some(e) ==> self.applied(optional_bytes(argument)) == Some(e@),
    {
        match argument {
            Some(name) => {
                let field = Field { name: ascii_string(name), object: None };
                Some(
                    match self {
                        Aggregate::Count => FunctionExpression::Count(field),
                        Aggregate::Avg => FunctionExpression::Avg(field),
                        Aggregate::Min => FunctionExpression::Min(field),
                        Aggregate::Max => FunctionExpression::Max(field),
                        Aggregate::Sum => FunctionExpression::Sum(field),
                        Aggregate::CountDistinct => FunctionExpression::Count_Distinct(field),
                    },
                )
            },
            None => match self {
                Aggregate::Count => Some(FunctionExpression::CountAll),
                _ => None,
            },
        }
    }
}

/// The aggregate functions, in the order in which they are tried.
pub open spec fn aggregates() -> Seq<Aggregate> {
    seq![
        Aggregate::Count,
        Aggregate::Avg,
        Aggregate::Min,
        Aggregate::Max,
        Aggregate::Sum,
        Aggregate::CountDistinct,
    ]
}

/// The `k`-th aggregate function.
fn aggregate(k: usize) -> (a: Aggregate)
    requires
        k < 6,
    ensures
        a == aggregates()[k as int],
{
    if k == 0 {
        Aggregate::Count
    } else if k == 1 {
        Aggregate::Avg
    } else if k == 2 {
        Aggregate::Min
    } else if k == 3 {
        Aggregate::Max
    } else if k == 4 {
        Aggregate::Sum
    } else {
        Aggregate::CountDistinct
    }
}

/// The name of `a` at the start of `s`, in any mix of cases, with an argument
/// list right behind it: the length of both, and the argument.
pub open spec fn call_at(s: Seq<u8>, a: Aggregate) -> Option<ArgumentList> {
    if starts_with_no_case(s, a.name()) {
        match arguments_at(s.skip(a.name().len() as int)) {
            Some(list) => Some(
                ArgumentList { length: a.name().len() + list.length, argument: list.argument },
            ),
            None => None,
        }
    } else {
        None
    }
}

/// What the call of `a` with the argument list `list` is, and its length;
/// an error where the call lacks an argument that `a` asks for.
pub open spec fn call_value(a: Aggregate, list: ArgumentList) -> Result<
    (nat, FunctionExpressionView),
    ParseError,
> {
    match a.applied(list.argument) {
        Some(e) => Ok((list.length, e)),
        None => Err(ParseError::MalformedFunctionCall),
    }
}

/// The call at the start of `s` of the first of `functions` whose name and
/// argument list stand there: its length and what it is. A call that lacks an
/// argument the function asks for ends the search.
pub open spec fn first_call_at(s: Seq<u8>, functions: Seq<Aggregate>) -> Result<
    (nat, FunctionExpressionView),
    ParseError,
>
    decreases functions.len(),
{
    if functions.len() == 0 {
        Err(ParseError::MalformedFunctionCall)
    } else {
        match call_at(s, functions[0]) {
            Some(list) => call_value(functions[0], list),
            None => first_call_at(s, functions.drop_first()),
        }
    }
}

/// The call of an aggregate function at the start of `s`: its length and what
/// it is.
pub open spec fn function_at(s: Seq<u8>) -> Result<(nat, FunctionExpressionView), ParseError> {
    first_call_at(s, aggregates())
}

/// Recognises a call of an aggregate function at the start of the input. On
/// success the result holds the input behind the call, then the call.
pub fn field_function_parser<'a>(i: &'a [u8]) -> (r: Result<
    (&'a [u8], FunctionExpression),
    ParseError,
>)
    ensures
        r matches Ok((rest, e)) ==> function_at(i@) matches Ok((n, v)) && v == e@ && follows(
            i@,
            n,
            rest@,
        ),
        r matches Ok((rest, e)) ==> e@.is_aggregate(),
        r matches Err(e) ==> function_at(i@) == Err::<(nat, FunctionExpressionView), ParseError>(
            e,
        ),
{
    let mut k: usize = 0;
    assert(aggregates().skip(0) == aggregates());
    while k < 6
        invariant
            k <= 6,
            function_at(i@) == first_call_at(i@, aggregates().skip(k as int)),
        decreases 6 - k,
    {
        let a = aggregate(k);
        proof {
            let tail = aggregates().skip(k as int);
            assert(tail[0] == a);
            assert(tail.drop_first() == aggregates().skip(k + 1));
        }
        match match_tag_no_case(i, a.literal()) {
            Some((after_name, _)) => match function_args_parser(after_name) {
                Some((rest, argument)) => {
                    proof {
                        let n = a.name().len() as int;
                        let list = arguments_at(i@.skip(n))->0;
                        assert(after_name@ == i@.skip(n));
                        assert(rest@ =~= i@.skip(n + list.length));
                    }
                    return match a.apply(argument) {
                        Some(e) => Ok((rest, e)),
                        None => Err(ParseError::MalformedFunctionCall),
                    };
                },
                None => {},
            },
            None => {},
        }
        k += 1;
    }
    Err(ParseError::MalformedFunctionCall)
}

/// The selector at the start of `s`, in any mix of cases: its length and
/// which of the three it is. Nothing may stand between its bytes.
pub open spec fn selector_at(s: Seq<u8>) -> Result<(nat, FunctionExpressionView), ParseError> {
    if starts_with_no_case(s, "FIELDS(ALL)".spec_bytes()) {
        Ok(("FIELDS(ALL)".spec_bytes().len(), FunctionExpressionView::FieldsAll))
    } else if starts_with_no_case(s, "FIELDS(CUSTOM)".spec_bytes()) {
        Ok(("FIELDS(CUSTOM)".spec_bytes().len(), FunctionExpressionView::FieldsCustom))
    } else if starts_with_no_case(s, "FIELDS(STANDARD)".spec_bytes()) {
        Ok(("FIELDS(STANDARD)".spec_bytes().len(), FunctionExpressionView::FieldsStandard))
    } else {
        Err(ParseError::UnrecognizedSelector)
    }
}

/// Recognises `FIELDS(ALL)`, `FIELDS(CUSTOM)` or `FIELDS(STANDARD)` at the
/// start of the input. On success the result holds the input behind the
/// selector, then the selector.
pub fn field_fields_parser<'a>(i: &'a [u8]) -> (r: Result<
    (&'a [u8], FunctionExpression),
    ParseError,
>)
    ensures
        r matches Ok((rest, e)) ==> selector_at(i@) matches Ok((n, v)) && v == e@ && follows(
            i@,
            n,
            rest@,
        ),
        r matches Ok((rest, e)) ==> e@.is_selector(),
        r matches Err(e) ==> selector_at(i@) == Err::<(nat, FunctionExpressionView), ParseError>(
            e,
        ),
{
    if let Some((rest, _)) = match_tag_no_case(i, "FIELDS(ALL)") {
        return Ok((rest, FunctionExpression::FieldsAll));
    }
    if let Some((rest, _)) = match_tag_no_case(i, "FIELDS(CUSTOM)") {
        return Ok((rest, FunctionExpression::FieldsCustom));
    }
    if let Some((rest, _)) = match_tag_no_case(i, "FIELDS(STANDARD)") {
        return Ok((rest, FunctionExpression::FieldsStandard));
    }
    Err(ParseError::UnrecognizedSelector)
}

} // verus!
