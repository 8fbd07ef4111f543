use soql_fields::errors::ParseError;
use soql_fields::fields::{
    field_fields_parser, field_function_parser, field_parser, Field, FieldExpression,
    FunctionExpression,
};
use soql_fields::identifiers::{identifier, is_valid_identifier};
use soql_fields::keywords::keyword;

fn field(name: &str, object: Option<&str>) -> Field {
    Field {
        name: name.to_owned(),
        object: object.map(|o| o.to_owned()),
    }
}

#[test]
fn identifier_bytes_are_letters_digits_underscore_and_at() {
    for b in 0u8..=255 {
        let expected = b.is_ascii_alphanumeric() || b == b'_' || b == b'@';
        assert_eq!(is_valid_identifier(b), expected, "byte {}", b);
    }
    assert!(is_valid_identifier(b'a'));
    assert!(is_valid_identifier(b'Z'));
    assert!(is_valid_identifier(b'0'));
    assert!(!is_valid_identifier(b'-'));
    assert!(!is_valid_identifier(b'.'));
    assert!(!is_valid_identifier(b' '));
}

#[test]
fn every_reserved_word_is_recognised_before_every_boundary() {
    let words = [
        "SELECT", "FROM", "WHERE", "GROUP BY", "ORDER BY", "LIMIT", "OFFSET", "CASE", "AND",
        "OR", "ASC", "DESC",
    ];
    let boundaries = [" ", "\n", "\t", ";", "(", ")", ",", "="];
    for w in words {
        assert_eq!(keyword(w.as_bytes()), Ok((&b""[..], w.as_bytes())));
        for b in boundaries {
            let input = format!("{}{}x", w, b);
            let rest = format!("{}x", b);
            assert_eq!(
                keyword(input.as_bytes()),
                Ok((rest.as_bytes(), w.as_bytes()))
            );
        }
    }
}

#[test]
fn reserved_words_match_in_any_case_and_keep_their_spelling() {
    assert_eq!(keyword(b"select;"), Ok((&b";"[..], &b"select"[..])));
    assert_eq!(keyword(b"SeLeCt x"), Ok((&b" x"[..], &b"SeLeCt"[..])));
    assert_eq!(keyword(b"group by,"), Ok((&b","[..], &b"group by"[..])));
    assert_eq!(keyword(b"or("), Ok((&b"("[..], &b"or"[..])));
    assert_eq!(
        keyword(b"order by Name"),
        Ok((&b" Name"[..], &b"order by"[..]))
    );
}

#[test]
fn a_reserved_word_needs_a_boundary_behind_it() {
    assert_eq!(keyword(b"SELECTX"), Err(ParseError::NoKeyword));
    assert_eq!(keyword(b"SelectCustom"), Err(ParseError::NoKeyword));
    assert_eq!(keyword(b"select.x"), Err(ParseError::NoKeyword));
    assert_eq!(keyword(b"select\r"), Err(ParseError::NoKeyword));
    assert_eq!(keyword(b"ORDER"), Err(ParseError::NoKeyword));
    assert_eq!(keyword(b"GROUP  BY "), Err(ParseError::NoKeyword));
    assert_eq!(keyword(b"INVALID_KEYWORD"), Err(ParseError::NoKeyword));
    assert_eq!(keyword(b""), Err(ParseError::NoKeyword));
    assert_eq!(keyword(b" select"), Err(ParseError::NoKeyword));
}

#[test]
fn identifier_is_the_longest_run_and_keeps_its_case() {
    assert_eq!(
        identifier(b"Name \t"),
        Ok((&b" \t"[..], &b"Name"[..]))
    );
    assert_eq!(identifier(b"NaMe"), Ok((&b""[..], &b"NaMe"[..])));
    assert_eq!(identifier(b"a-b"), Ok((&b"-b"[..], &b"a"[..])));
    assert_eq!(
        identifier(b"Contact__r.Lastname"),
        Ok((&b".Lastname"[..], &b"Contact__r"[..]))
    );
    assert_eq!(identifier(b"x@1_y)"), Ok((&b")"[..], &b"x@1_y"[..])));
    assert_eq!(
        identifier(b"SelectCustom "),
        Ok((&b" "[..], &b"SelectCustom"[..]))
    );
}

#[test]
fn identifier_fails_on_a_reserved_word_and_on_an_empty_match() {
    assert_eq!(identifier(b"select "), Err(ParseError::KeywordCollision));
    assert_eq!(identifier(b"FROM"), Err(ParseError::KeywordCollision));
    assert_eq!(identifier(b"limit,"), Err(ParseError::KeywordCollision));
    assert_eq!(identifier(b""), Err(ParseError::EmptyInput));
    assert_eq!(identifier(b" x"), Err(ParseError::EmptyInput));
    assert_eq!(identifier(b".x"), Err(ParseError::EmptyInput));
}

#[test]
fn a_reserved_word_in_front_of_a_dot_is_an_identifier() {
    assert_eq!(identifier(b"select.x"), Ok((&b".x"[..], &b"select"[..])));
    assert_eq!(
        field_parser(b"select.Name"),
        Ok((&b""[..], field("Name", Some("select"))))
    );
}

#[test]
fn path_keeps_only_the_last_qualifier() {
    assert_eq!(
        field_parser(b"A.B.C.D rest"),
        Ok((&b" rest"[..], field("D", Some("C"))))
    );
    assert_eq!(
        field_parser(b"Contact.Account.Name,"),
        Ok((&b","[..], field("Name", Some("Account"))))
    );
    assert_eq!(field_parser(b"a.b "), Ok((&b" "[..], field("b", Some("a")))));
    assert_eq!(field_parser(b"Id,Name"), Ok((&b",Name"[..], field("Id", None))));
}

#[test]
fn path_errors() {
    assert_eq!(field_parser(b""), Err(ParseError::EmptyInput));
    assert_eq!(field_parser(b" Name"), Err(ParseError::EmptyInput));
    assert_eq!(field_parser(b"select "), Err(ParseError::KeywordCollision));
    assert_eq!(field_parser(b"Contact."), Err(ParseError::MalformedPath));
    assert_eq!(field_parser(b"A..B"), Err(ParseError::MalformedPath));
    assert_eq!(field_parser(b"A.B. C"), Err(ParseError::MalformedPath));
    assert_eq!(
        field_parser(b"Contact.  Account.Name"),
        Err(ParseError::MalformedPath)
    );
    assert_eq!(
        field_parser(b"Contact.\nAccount.Name"),
        Err(ParseError::MalformedPath)
    );
    assert_eq!(
        field_parser(b"Contact.select "),
        Err(ParseError::MalformedPath)
    );
}

#[test]
fn function_names_match_in_any_case() {
    assert_eq!(
        field_function_parser(b"COUNT()"),
        Ok((&b""[..], FunctionExpression::CountAll))
    );
    assert_eq!(
        field_function_parser(b"AVG(Amount) FROM"),
        Ok((
            &b" FROM"[..],
            FunctionExpression::Avg(field("Amount", None))
        ))
    );
    assert_eq!(
        field_function_parser(b"Count_Distinct(Id)"),
        Ok((
            &b""[..],
            FunctionExpression::Count_Distinct(field("Id", None))
        ))
    );
    assert_eq!(
        field_function_parser(b"avg(Total)").unwrap().1,
        FunctionExpression::Avg(field("Total", None))
    );
}

#[test]
fn blanks_around_the_argument_are_ignored() {
    assert_eq!(
        field_function_parser(b"count(\t\n Name \r\n)x"),
        Ok((
            &b"x"[..],
            FunctionExpression::Count(field("Name", None))
        ))
    );
    assert_eq!(
        field_function_parser(b"count(  \t )"),
        Ok((&b""[..], FunctionExpression::CountAll))
    );
    assert_eq!(
        field_function_parser(b"sum( Total)"),
        Ok((&b""[..], FunctionExpression::Sum(field("Total", None))))
    );
}

#[test]
fn only_count_may_lack_its_argument() {
    assert_eq!(
        field_function_parser(b"avg()"),
        Err(ParseError::MalformedFunctionCall)
    );
    assert_eq!(
        field_function_parser(b"min( )"),
        Err(ParseError::MalformedFunctionCall)
    );
    assert_eq!(
        field_function_parser(b"max()"),
        Err(ParseError::MalformedFunctionCall)
    );
    assert_eq!(
        field_function_parser(b"sum()"),
        Err(ParseError::MalformedFunctionCall)
    );
    assert_eq!(
        field_function_parser(b"count_distinct()"),
        Err(ParseError::MalformedFunctionCall)
    );
}

#[test]
fn malformed_function_calls() {
    let inputs: [&[u8]; 10] = [
        b"",
        b"count",
        b"count(Name",
        b"count Name)",
        b"count (Name)",
        b"count(A.B)",
        b"count(a b)",
        b"count( select )",
        b"total(Name)",
        b"(Name)",
    ];
    for i in inputs {
        assert_eq!(
            field_function_parser(i),
            Err(ParseError::MalformedFunctionCall)
        );
    }
}

#[test]
fn selectors_match_in_any_case_and_leave_the_rest() {
    assert_eq!(
        field_fields_parser(b"FIELDS(standard)"),
        Ok((&b""[..], FunctionExpression::FieldsStandard))
    );
    assert_eq!(
        field_fields_parser(b"fields(all) FROM"),
        Ok((&b" FROM"[..], FunctionExpression::FieldsAll))
    );
    assert_eq!(
        field_fields_parser(b"Fields(Custom),"),
        Ok((&b","[..], FunctionExpression::FieldsCustom))
    );
}

#[test]
fn selectors_are_closed_tokens() {
    let inputs: [&[u8]; 8] = [
        b"",
        b"FIELDS(Xyz)",
        b"FIELDS( ALL)",
        b"FIELDS(ALL )",
        b"FIELDS (ALL)",
        b"FIELDS(ALL",
        b"FIELDS()",
        b"FIELD(ALL)",
    ];
    for i in inputs {
        assert_eq!(
            field_fields_parser(i),
            Err(ParseError::UnrecognizedSelector)
        );
    }
}

#[test]
fn values_are_owned_and_comparable() {
    let (_, a) = field_parser(b"Account.Name").unwrap();
    let b = a.clone();
    assert_eq!(a, b);
    assert_eq!(a.name.len(), 4);
    assert_eq!(a.object.as_deref(), Some("Account"));
    let col = FieldExpression::Col(a);
    assert_eq!(col, FieldExpression::Col(b));
    assert_ne!(
        FunctionExpression::Count(field("Name", None)),
        FunctionExpression::Count_Distinct(field("Name", None))
    );
    assert_ne!(ParseError::MalformedPath, ParseError::EmptyInput);
}
