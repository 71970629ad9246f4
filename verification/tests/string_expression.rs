use boreal::expr_parser::{
    string_count_expression, string_length_expression, string_offset_expression,
};
use boreal::expression::{Expression, ParsedExpr, Type};
use boreal::lexer::Error;

type Parser = fn(&[u8], usize) -> Result<(usize, ParsedExpr), Error>;

fn parse(f: Parser, input: &str, rest: &str, expected: ParsedExpr) {
    let (pos, expr) = f(input.as_bytes(), 0).unwrap();
    assert_eq!(&input[pos..], rest);
    assert_eq!(expr, expected);
}

fn parse_err(f: Parser, input: &str) {
    assert!(f(input.as_bytes(), 0).is_err());
}

#[test]
fn test_string_count_expression() {
    parse(
        string_count_expression,
        "#foo bar",
        "bar",
        ParsedExpr {
            expr: Expression::Count("foo".to_owned()),
            ty: Type::Integer,
            span: 0..4,
        },
    );
    parse(
        string_count_expression,
        "#foo in (0 ..filesize ) c",
        "c",
        ParsedExpr {
            expr: Expression::CountInRange {
                variable_name: "foo".to_owned(),
                from: Box::new(ParsedExpr {
                    expr: Expression::Number(0),
                    ty: Type::Integer,
                    span: 9..10,
                }),
                to: Box::new(ParsedExpr {
                    expr: Expression::Filesize,
                    ty: Type::Integer,
                    span: 13..21,
                }),
            },
            ty: Type::Integer,
            span: 0..23,
        },
    );

    parse_err(string_count_expression, "");
    parse_err(string_count_expression, "foo");
}

#[test]
fn test_string_offset_expression() {
    parse(
        string_offset_expression,
        "@a c",
        "c",
        ParsedExpr {
            expr: Expression::Offset {
                variable_name: "a".to_owned(),
                occurence_number: Box::new(ParsedExpr {
                    expr: Expression::Number(1),
                    ty: Type::Integer,
                    span: 0..2,
                }),
            },
            ty: Type::Integer,
            span: 0..2,
        },
    );
    parse(
        string_offset_expression,
        "@a [ 2] c",
        "c",
        ParsedExpr {
            expr: Expression::Offset {
                variable_name: "a".to_owned(),
                occurence_number: Box::new(ParsedExpr {
                    expr: Expression::Number(2),
                    ty: Type::Integer,
                    span: 5..6,
                }),
            },
            ty: Type::Integer,
            span: 0..7,
        },
    );
}

#[test]
fn test_string_length_expression() {
    parse(
        string_length_expression,
        "!a c",
        "c",
        ParsedExpr {
            expr: Expression::Length {
                variable_name: "a".to_owned(),
                occurence_number: Box::new(ParsedExpr {
                    expr: Expression::Number(2),
                    ty: Type::Integer,
                    span: 0..2,
                }),
            },
            ty: Type::Integer,
            span: 0..2,
        },
    );
    parse(
        string_length_expression,
        "!a [ 2] c",
        "c",
        ParsedExpr {
            expr: Expression::Length {
                variable_name: "a".to_owned(),
                occurence_number: Box::new(ParsedExpr {
                    expr: Expression::Number(2),
                    ty: Type::Integer,
                    span: 0..2,
                }),
            },
            ty: Type::Integer,
            span: 0..7,
        },
    );

    parse_err(string_length_expression, "");
    parse_err(string_length_expression, "foo");
}
