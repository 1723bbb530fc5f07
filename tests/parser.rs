use wepl::parser::{ident, Expr, Line, Literal, ParseError, Record};

#[test]
fn function_call() {
    let input = r#"my-func(my-other-func("arg"))"#;
    let result = Line::parse(input);
    assert_eq!(
        result,
        Ok((
            "",
            Line::Expr(Expr::FunctionCall(
                "my-func",
                vec![Expr::FunctionCall(
                    "my-other-func",
                    vec![Expr::Literal(Literal::String("arg"))]
                )]
            ))
        ))
    );
}

#[test]
fn function_call_bad_args() {
    let input = r#"my-func(%^&)"#;
    let result = Line::parse(input);
    assert!(matches!(result, Err(ParseError::Failure)));
}

#[test]
fn function_call_with_record() {
    let input = r#"my-func({n: 1})"#;
    let result = Line::parse(input);
    assert_eq!(
        result,
        Ok((
            "",
            Line::Expr(Expr::FunctionCall(
                "my-func",
                vec![Expr::Literal(Literal::Record(Record {
                    fields: vec![("n", Expr::Literal(Literal::Num(1)))]
                }))]
            ))
        ))
    );
}

#[test]
fn builtin() {
    let input = r#".foo bar baz"#;
    let result = Line::parse(input);
    assert_eq!(result, Ok(("", Line::Builtin("foo", vec!["bar", "baz",]))));
}

#[test]
fn builtin_no_args() {
    let input = r#".foo"#;
    let result = Line::parse(input);
    assert_eq!(result, Ok(("", Line::Builtin("foo", vec![]))));
}

#[test]
fn assignment() {
    let input = r#"x = "wow""#;
    let result = Line::parse(input);
    assert_eq!(
        result,
        Ok((
            "",
            Line::Assignment("x", Expr::Literal(Literal::String("wow")))
        ))
    );
}

#[test]
fn nonsense_assignment() {
    let input = r#"x = %&*"#;
    let result = Line::parse(input);
    assert!(matches!(result, Err(ParseError::Failure)));
}

#[test]
fn help_builtin_drops_arguments_that_reach_the_end() {
    assert_eq!(Line::parse("?"), Ok(("", Line::Builtin("help", vec![]))));
    assert_eq!(Line::parse("? foo"), Ok(("", Line::Builtin("help", vec![]))));
    assert_eq!(wepl::parser::builtin("?foo\u{a0}x"), Ok(("\u{a0}x", ("help", vec!["foo"]))));
}

#[test]
fn builtin_quoted_and_spaced_arguments() {
    assert_eq!(
        Line::parse(r#".stub "a b" c"#),
        Ok(("", Line::Builtin("stub", vec!["a b", "c"])))
    );
    assert_eq!(wepl::parser::builtin("foo"), Err(ParseError::Error));
}

#[test]
fn numbers_and_overflow() {
    assert_eq!(Literal::parse("  42  "), Ok(("", Literal::Num(42))));
    assert_eq!(Literal::parse("007"), Ok(("", Literal::Num(7))));
    assert_eq!(
        Literal::parse("99999999999999999999999"),
        Err(ParseError::Error)
    );
    assert_eq!(Literal::parse(""), Err(ParseError::Error));
}

#[test]
fn record_with_several_fields_and_unclosed_record() {
    assert_eq!(
        Expr::parse("{a: 1, b: x}"),
        Ok((
            "",
            Expr::Literal(Literal::Record(Record {
                fields: vec![
                    ("a", Expr::Literal(Literal::Num(1))),
                    ("b", Expr::Literal(Literal::Ident("x")))
                ]
            }))
        ))
    );
    assert_eq!(Expr::parse("{a: 1"), Err(ParseError::Failure));
}

#[test]
fn identifiers_and_calls() {
    assert_eq!(ident("  wasi:cli"), Ok((":cli", "wasi")));
    assert_eq!(ident("my/pkg-name rest"), Ok(("rest", "my/pkg-name")));
    assert_eq!(ident("9lives"), Err(ParseError::Error));
    assert_eq!(wepl::parser::function_call("f()"), Ok(("", ("f", vec![]))));
    assert_eq!(
        wepl::parser::function_call("add(1, 2) tail"),
        Ok((" tail", ("add", vec![Expr::Literal(Literal::Num(1)), Expr::Literal(Literal::Num(2))])))
    );
    assert_eq!(wepl::parser::function_call("f(1"), Err(ParseError::Failure));
    assert_eq!(wepl::parser::function_call("f"), Err(ParseError::Error));
}

#[test]
fn expression_alternatives() {
    assert_eq!(Line::parse("counter"), Ok(("", Line::Expr(Expr::Literal(Literal::Ident("counter"))))));
    assert_eq!(Line::parse("\"hi\""), Ok(("", Line::Expr(Expr::Literal(Literal::String("hi"))))));
    assert_eq!(Line::parse("%"), Err(ParseError::Error));
}
