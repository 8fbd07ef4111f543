use nom::bytes::complete::tag;
use nom::error::{Error, ErrorKind};
use nom::multi::many0;
use nom::sequence::terminated;
use nom::IResult;
use soql_fields::errors::ParseError;
use soql_fields::fields::{
    field_fields_parser, field_function_parser, field_parser, Field, FunctionExpression,
};
use soql_fields::identifiers::identifier;
use soql_fields::keywords::keyword;
use std::str;

fn check_field_parser() {
    assert_eq!(
        field_parser(b"Account.Name").unwrap(),
        (
            &b""[..],
            Field {
                name: "Name".to_owned(),
                object: Some("Account".to_owned())
            }
        )
    );

    assert_eq!(
        field_parser(b"Contact__r.Lastname").unwrap(),
        (
            &b""[..],
            Field {
                name: "Lastname".to_owned(),
                object: Some("Contact__r".to_owned())
            }
        )
    );

    assert_eq!(
        field_parser(b"FirstName ").unwrap(),
        (
            &b" "[..],
            Field {
                name: "FirstName".to_owned(),
                object: None
            }
        )
    );

    println!("{:?}", field_parser(b"Contact.Account.Name"));
    assert_eq!(
        field_parser(b"Contact.Account.Name").unwrap(),
        (
            &b""[..],
            Field {
                name: "Name".to_owned(),
                object: Some("Account".to_owned())
            }
        )
    );

    assert!(field_parser(b"Contact.  Account.Name").is_err());
    assert!(field_parser(b"Contact.\nAccount.Name").is_err());
}

fn check_keyword() {
    // a reserved word in front of a boundary
    assert_eq!(
        keyword("GROUP BY \t".as_bytes()),
        Ok((&b" \t"[..], &b"GROUP BY"[..]))
    );
    // no reserved word
    assert!(keyword(&b"INVALID_KEYWORD"[..]).is_err());
}

#[test]
fn fields_test_field_parser() {
    check_field_parser();
}

#[test]
fn soql_test_field_parser() {
    check_field_parser();
}

#[test]
fn keywords_test_keyword() {
    check_keyword();
}

#[test]
fn soql_test_keyword() {
    check_keyword();
}

#[test]
fn test_function_parser() {
    assert_eq!(
        field_function_parser(b"count()").unwrap().1,
        FunctionExpression::CountAll
    );

    assert_eq!(
        field_function_parser(b"count( Name )").unwrap().1,
        FunctionExpression::Count(Field {
            name: "Name".to_owned(),
            object: None
        })
    );

    assert_eq!(
        field_function_parser(b"max(Total)").unwrap().1,
        FunctionExpression::Max(Field {
            name: "Total".to_owned(),
            object: None
        })
    );

    assert_eq!(
        field_function_parser(b"min(Total)").unwrap().1,
        FunctionExpression::Min(Field {
            name: "Total".to_owned(),
            object: None
        })
    );

    assert_eq!(
        field_function_parser(b"sum(Total)").unwrap().1,
        FunctionExpression::Sum(Field {
            name: "Total".to_owned(),
            object: None
        })
    );

    assert_eq!(
        field_function_parser(b"count_distinct(Total)").unwrap().1,
        FunctionExpression::Count_Distinct(Field {
            name: "Total".to_owned(),
            object: None
        })
    );
}

#[test]
fn test_field_fields_function() {
    assert_eq!(
        field_fields_parser(b"FIELDS(STANDARD)").unwrap().1,
        FunctionExpression::FieldsStandard
    );
    assert_eq!(
        field_fields_parser(b"FIELDS(ALL)").unwrap().1,
        FunctionExpression::FieldsAll
    );
    assert_eq!(
        field_fields_parser(b"FIELDS(CUSTOM)").unwrap().1,
        FunctionExpression::FieldsCustom
    );
}

#[test]
fn test_identifier() {
    // an identifier in front of a space
    assert!(identifier("Name \t".as_bytes()).is_ok());

    // no identifier, because it is a reserved word
    assert!(identifier("select ".as_bytes()).is_err());
}

fn nom_identifier(i: &[u8]) -> IResult<&[u8], &[u8]> {
    match identifier(i) {
        Ok(found) => Ok(found),
        Err(ParseError::KeywordCollision) => Err(nom::Err::Error(Error::new(i, ErrorKind::Not))),
        Err(_) => Err(nom::Err::Error(Error::new(i, ErrorKind::TakeWhile1))),
    }
}

#[test]
fn test() {
    let res = many0(terminated(nom_identifier, tag(".")))("Contact.Account.Name".as_bytes())
        .unwrap();
    println!("{:?}", str::from_utf8(res.1[0]).unwrap().to_string());
    println!("{:?}", str::from_utf8(res.0).unwrap().to_string());
    assert_eq!(res.1, vec![&b"Contact"[..], &b"Account"[..]]);
    assert_eq!(res.0, &b"Name"[..]);
}
