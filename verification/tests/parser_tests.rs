use std::sync::Arc;

use cadlisp::expr::Expr;
use cadlisp::parser::{parse_expr, parse_file, tokenize, Token};
use cadlisp::strings::str_to_chars;

#[test]
fn test_newline() {
    let chars = str_to_chars("\n");
    let result = tokenize(&chars).unwrap();
    assert_eq!(result, vec![Token::Newline { pos: 0 }]);
}

#[test]
fn test_comment() {
    // Comments should be removed from the token stream
    let chars = str_to_chars("; This is a comment\n(+ 1 2)");
    let result = tokenize(&chars).unwrap();

    // The comment should be stripped, leaving only the expression tokens
    assert_eq!(result.len(), 6); // Newline, LParen, Symbol(+), Integer(1), Integer(2), RParen
    assert!(matches!(result[1], Token::LParen { .. }));

    // Test inline comments
    let chars = str_to_chars("(+ 1 2) ; This is an inline comment\n(- 3 4)");
    let result = tokenize(&chars).unwrap();

    // Should have tokens for both expressions, but no comment
    assert_eq!(result.len(), 11); // 5 for first expr, newline, 5 for second expr
}

#[test]
fn test_symbol() {
    let result = parse_expr("hello\n");
    assert_eq!(
        result,
        Ok(Expr::Symbol {
            name: "hello".to_string(),
            location: Some(0),
            trailing_newline: true,
        })
    );
}

#[test]
fn test_integer() {
    let result = parse_expr("123\n");
    assert_eq!(
        result,
        Ok(Expr::Integer {
            value: 123,
            location: Some(0),
            trailing_newline: true,
        })
    );
}

#[test]
fn test_boolean() {
    let result = parse_expr("#t\n");
    assert_eq!(
        result,
        Ok(Expr::Symbol {
            name: "#t".to_string(),
            location: Some(0),
            trailing_newline: true,
        })
    );
}

#[test]
fn test_string1() {
    let result = parse_expr("\"hello\"\n");
    assert_eq!(
        result,
        Ok(Expr::String {
            value: "hello".to_string(),
            location: Some(1),
            trailing_newline: true,
        })
    );
}

#[test]
fn test_string2() {
    let result = parse_expr("(load_expr \"hello\")\n");
    assert_eq!(
        result,
        Ok(Expr::List {
            elements: vec![
                Arc::new(Expr::Symbol {
                    name: "load_expr".to_string(),
                    location: Some(1),
                    trailing_newline: false,
                }),
                Arc::new(Expr::String {
                    value: "hello".to_string(),
                    location: Some(12),
                    trailing_newline: false,
                }),
            ],
            location: Some(0),
            trailing_newline: true,
        })
    );
}

#[test]
fn test_double() {
    let result = parse_expr("123.456\n");
    assert_eq!(
        result,
        Ok(Expr::Double {
            text: "123.456".to_string(),
            location: Some(0),
            trailing_newline: true,
        })
    );
}

#[test]
fn test_expr() {
    let result = parse_expr("(+ 1 2)\n");
    assert_eq!(
        result,
        Ok(Expr::List {
            elements: vec![
                Expr::Symbol {
                    name: "+".to_string(),
                    location: Some(1),
                    trailing_newline: false,
                },
                Expr::Integer {
                    value: 1,
                    location: Some(3),
                    trailing_newline: false,
                },
                Expr::Integer {
                    value: 2,
                    location: Some(5),
                    trailing_newline: false,
                },
            ]
            .into_iter()
            .map(Arc::new)
            .collect(),
            location: Some(0),
            trailing_newline: true,
        })
    );
}

#[test]
fn test_quote() {
    let result = parse_expr("'(1 2 3)\n");
    assert_eq!(
        result,
        Ok(Expr::Quote {
            expr: Arc::new(Expr::List {
                elements: vec![
                    Expr::Integer {
                        value: 1,
                        location: Some(2),
                        trailing_newline: false,
                    },
                    Expr::Integer {
                        value: 2,
                        location: Some(4),
                        trailing_newline: false,
                    },
                    Expr::Integer {
                        value: 3,
                        location: Some(6),
                        trailing_newline: false,
                    },
                ]
                .into_iter()
                .map(Arc::new)
                .collect(),
                location: Some(1),
                trailing_newline: true,
            }),
            location: Some(0),
            trailing_newline: false,
        })
    );
}

#[test]
fn test_negative_integer() {
    let result = parse_expr("-123\n");
    assert_eq!(
        result,
        Ok(Expr::Integer {
            value: -123,
            location: Some(0),
            trailing_newline: true,
        })
    );
}

#[test]
fn test_multiple_exprs() {
    let result = parse_file("1\n2 3\n");
    assert_eq!(
        result,
        Ok(vec![
            Expr::Integer {
                value: 1,
                location: Some(0),
                trailing_newline: true,
            },
            Expr::Integer {
                value: 2,
                location: Some(2),
                trailing_newline: false,
            },
            Expr::Integer {
                value: 3,
                location: Some(4),
                trailing_newline: true,
            },
        ])
    );
}
