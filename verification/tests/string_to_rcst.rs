use candy::rcst::{Rcst, RcstError};
use candy::string_to_rcst::{
    assignment, body, call, expression, identifier, integer, is_parsable, lambda,
    leading_indentation, literal, parenthesized, rcst, struct_, symbol, text, try_rcst,
    whitespaces_and_newlines, word,
};

fn chars(s: &str) -> Vec<char> {
    s.chars().collect()
}

fn rest(r: &[char]) -> String {
    r.iter().collect()
}

fn parsed(r: Option<(&[char], Rcst)>) -> Option<(String, Rcst)> {
    r.map(|(i, x)| (rest(i), x))
}

fn identifier_node(s: &str) -> Rcst {
    Rcst::Identifier(s.to_string())
}

#[test]
fn test_literal() {
    let input = chars("hello, world");
    assert_eq!(literal(&input, &chars("hello")).map(rest), Some(", world".to_string()));
    assert_eq!(literal(&input, &chars("hi")).map(rest), None);
}

#[test]
fn test_word() {
    let w = |s: &str| {
        let input = chars(s);
        word(&input).map(|(i, w)| (rest(i), w))
    };
    assert_eq!(w("hello, world"), Some((", world".to_string(), "hello".to_string())));
    assert_eq!(w("I💖Candy blub"), Some((" blub".to_string(), "I💖Candy".to_string())));
    assert_eq!(w("012🔥hi"), Some(("".to_string(), "012🔥hi".to_string())));
    assert_eq!(w("foo(blub)"), Some(("(blub)".to_string(), "foo".to_string())));
}

#[test]
fn test_identifier() {
    let p = |s: &str| parsed(identifier(&chars(s)));
    assert_eq!(p("foo bar"), Some((" bar".to_string(), identifier_node("foo"))));
    assert_eq!(p("Foo bar"), None);
    assert_eq!(p("012 bar"), None);
    assert_eq!(
        p("f12🔥 bar"),
        Some((
            " bar".to_string(),
            Rcst::Error {
                unparsable_input: "f12🔥".to_string(),
                error: RcstError::IdentifierContainsNonAlphanumericAscii,
            }
        ))
    );
}

#[test]
fn test_symbol() {
    let p = |s: &str| parsed(symbol(&chars(s)));
    assert_eq!(p("Foo b"), Some((" b".to_string(), Rcst::Symbol("Foo".to_string()))));
    assert_eq!(p("foo bar"), None);
    assert_eq!(p("012 bar"), None);
    assert_eq!(
        p("F12🔥 bar"),
        Some((
            " bar".to_string(),
            Rcst::Error {
                unparsable_input: "F12🔥".to_string(),
                error: RcstError::SymbolContainsNonAlphanumericAscii,
            }
        ))
    );
}

#[test]
fn test_int() {
    let p = |s: &str| parsed(integer(&chars(s)));
    assert_eq!(p("42 "), Some((" ".to_string(), Rcst::Int(42))));
    assert_eq!(p("123 years"), Some((" years".to_string(), Rcst::Int(123))));
    assert_eq!(p("foo"), None);
    assert_eq!(
        p("3D"),
        Some((
            "".to_string(),
            Rcst::Error {
                unparsable_input: "3D".to_string(),
                error: RcstError::IntContainsNonDigits,
            }
        ))
    );
}

#[test]
fn test_leading_indentation() {
    let p = |s: &str, indentation: usize| parsed(leading_indentation(&chars(s), indentation));
    assert_eq!(p("foo", 0), Some(("foo".to_string(), Rcst::Whitespace("".to_string()))));
    assert_eq!(p("  foo", 1), Some(("foo".to_string(), Rcst::Whitespace("  ".to_string()))));
    assert_eq!(p("  foo", 2), None);
}

#[test]
fn test_whitespaces_and_newlines() {
    let p = |s: &str, indentation: usize| {
        let input = chars(s);
        let (i, parts) = whitespaces_and_newlines(&input, indentation, true);
        (rest(i), parts)
    };
    assert_eq!(p("foo", 0), ("foo".to_string(), vec![]));
    assert_eq!(p("\nfoo", 0), ("foo".to_string(), vec![Rcst::Newline]));
    assert_eq!(
        p("\n  foo", 1),
        ("foo".to_string(), vec![Rcst::Newline, Rcst::Whitespace("  ".to_string())])
    );
    assert_eq!(p("\n  foo", 0), ("  foo".to_string(), vec![Rcst::Newline]));
    assert_eq!(
        p(" \n  foo", 0),
        ("  foo".to_string(), vec![Rcst::Whitespace(" ".to_string()), Rcst::Newline])
    );
    assert_eq!(p("\n  foo", 2), ("\n  foo".to_string(), vec![]));
    assert_eq!(
        p("\tfoo", 1),
        (
            "foo".to_string(),
            vec![Rcst::Error {
                unparsable_input: "\t".to_string(),
                error: RcstError::WeirdWhitespace,
            }]
        )
    );
    assert_eq!(
        p("# hey\n  foo", 1),
        (
            "foo".to_string(),
            vec![
                Rcst::Comment {
                    octothorpe: Box::new(Rcst::Octothorpe),
                    comment: " hey".to_string(),
                },
                Rcst::Newline,
                Rcst::Whitespace("  ".to_string()),
            ],
        )
    );
}

#[test]
fn test_text() {
    let p = |s: &str, indentation: usize| parsed(text(&chars(s), indentation));
    assert_eq!(p("foo", 0), None);
    assert_eq!(
        p("\"foo\" bar", 0),
        Some((
            " bar".to_string(),
            Rcst::Text {
                opening_quote: Box::new(Rcst::DoubleQuote),
                parts: vec![Rcst::TextPart("foo".to_string())],
                closing_quote: Box::new(Rcst::DoubleQuote),
            }
        ))
    );
    // "foo
    //   bar"2
    assert_eq!(
        p("\"foo\n  bar\"2", 0),
        Some((
            "2".to_string(),
            Rcst::Text {
                opening_quote: Box::new(Rcst::DoubleQuote),
                parts: vec![
                    Rcst::TextPart("foo".to_string()),
                    Rcst::Newline,
                    Rcst::Whitespace("  ".to_string()),
                    Rcst::TextPart("bar".to_string()),
                ],
                closing_quote: Box::new(Rcst::DoubleQuote),
            }
        ))
    );
    //   "foo
    //   bar"
    assert_eq!(
        p("\"foo\n  bar\"2", 1),
        Some((
            "\n  bar\"2".to_string(),
            Rcst::Text {
                opening_quote: Box::new(Rcst::DoubleQuote),
                parts: vec![Rcst::TextPart("foo".to_string())],
                closing_quote: Box::new(Rcst::Error {
                    unparsable_input: "".to_string(),
                    error: RcstError::TextNotSufficientlyIndented,
                }),
            }
        ))
    );
    assert_eq!(
        p("\"foo", 0),
        Some((
            "".to_string(),
            Rcst::Text {
                opening_quote: Box::new(Rcst::DoubleQuote),
                parts: vec![Rcst::TextPart("foo".to_string())],
                closing_quote: Box::new(Rcst::Error {
                    unparsable_input: "".to_string(),
                    error: RcstError::TextDoesNotEndUntilInputEnds,
                }),
            }
        ))
    );
}

#[test]
fn test_call() {
    let p = |s: &str| parsed(call(&chars(s), 0));
    assert_eq!(p("print"), None);
    assert_eq!(
        p("foo bar"),
        Some((
            "".to_string(),
            Rcst::Call {
                name: Box::new(identifier_node("foo")),
                arguments: vec![identifier_node("bar")],
            }
        ))
    );
    assert_eq!(
        p("Foo 4 bar"),
        Some((
            "".to_string(),
            Rcst::Call {
                name: Box::new(Rcst::Symbol("Foo".to_string())),
                arguments: vec![Rcst::Int(4), identifier_node("bar")],
            }
        ))
    );
    // foo
    //   bar
    //   baz
    // 2
    assert_eq!(
        p("foo\n  bar\n  baz\n2"),
        Some((
            "\n2".to_string(),
            Rcst::Call {
                name: Box::new(identifier_node("foo")),
                arguments: vec![identifier_node("bar"), identifier_node("baz")],
            }
        ))
    );
    // foo 1 2
    //   3
    //   4
    // bar
    assert_eq!(
        p("foo 1 2\n  3\n  4\nbar"),
        Some((
            "\nbar".to_string(),
            Rcst::Call {
                name: Box::new(identifier_node("foo")),
                arguments: vec![Rcst::Int(1), Rcst::Int(2), Rcst::Int(3), Rcst::Int(4)],
            }
        ))
    );
}

#[test]
fn test_struct() {
    let p = |s: &str| parsed(struct_(&chars(s), 0));
    assert_eq!(p("hello"), None);
    assert_eq!(
        p("[]"),
        Some((
            "".to_string(),
            Rcst::Struct {
                opening_bracket: Box::new(Rcst::OpeningBracket),
                fields: vec![],
                closing_bracket: Box::new(Rcst::ClosingBracket),
            }
        ))
    );
    assert_eq!(
        p("[foo:bar]"),
        Some((
            "".to_string(),
            Rcst::Struct {
                opening_bracket: Box::new(Rcst::OpeningBracket),
                fields: vec![Rcst::StructField {
                    key: Box::new(identifier_node("foo")),
                    colon: Box::new(Rcst::Colon),
                    value: Box::new(identifier_node("bar")),
                    comma: None,
                }],
                closing_bracket: Box::new(Rcst::ClosingBracket),
            }
        ))
    );
    // [
    //   foo: bar,
    //   4: "Hi",
    // ]
    assert_eq!(
        p("[\n  foo: bar,\n  4: \"Hi\",\n]"),
        Some((
            "".to_string(),
            Rcst::Struct {
                opening_bracket: Box::new(Rcst::TrailingWhitespace {
                    child: Box::new(Rcst::OpeningBracket),
                    whitespace: vec![Rcst::Newline, Rcst::Whitespace("  ".to_string())],
                }),
                fields: vec![
                    Rcst::TrailingWhitespace {
                        child: Box::new(Rcst::StructField {
                            key: Box::new(identifier_node("foo")),
                            colon: Box::new(Rcst::TrailingWhitespace {
                                child: Box::new(Rcst::Colon),
                                whitespace: vec![Rcst::Whitespace(" ".to_string())],
                            }),
                            value: Box::new(identifier_node("bar")),
                            comma: Some(Box::new(Rcst::Comma)),
                        }),
                        whitespace: vec![Rcst::Newline, Rcst::Whitespace("  ".to_string())],
                    },
                    Rcst::TrailingWhitespace {
                        child: Box::new(Rcst::StructField {
                            key: Box::new(Rcst::Int(4)),
                            colon: Box::new(Rcst::TrailingWhitespace {
                                child: Box::new(Rcst::Colon),
                                whitespace: vec![Rcst::Whitespace(" ".to_string())],
                            }),
                            value: Box::new(Rcst::Text {
                                opening_quote: Box::new(Rcst::DoubleQuote),
                                parts: vec![Rcst::TextPart("Hi".to_string())],
                                closing_quote: Box::new(Rcst::DoubleQuote),
                            }),
                            comma: Some(Box::new(Rcst::Comma)),
                        }),
                        whitespace: vec![Rcst::Newline],
                    },
                ],
                closing_bracket: Box::new(Rcst::ClosingBracket),
            }
        ))
    );
}

#[test]
fn test_parenthesized() {
    let p = |s: &str| parsed(parenthesized(&chars(s), 0));
    assert_eq!(
        p("(foo)"),
        Some((
            "".to_string(),
            Rcst::Parenthesized {
                opening_parenthesis: Box::new(Rcst::OpeningParenthesis),
                inner: Box::new(identifier_node("foo")),
                closing_parenthesis: Box::new(Rcst::ClosingParenthesis),
            }
        ))
    );
    assert_eq!(p("foo"), None);
    assert_eq!(
        p("(foo"),
        Some((
            "".to_string(),
            Rcst::Parenthesized {
                opening_parenthesis: Box::new(Rcst::OpeningParenthesis),
                inner: Box::new(identifier_node("foo")),
                closing_parenthesis: Box::new(Rcst::Error {
                    unparsable_input: "".to_string(),
                    error: RcstError::ParenthesisNotClosed,
                }),
            }
        ))
    );
}

#[test]
fn test_lambda() {
    let p = |s: &str, indentation: usize| parsed(lambda(&chars(s), indentation));
    assert_eq!(p("2", 0), None);
    assert_eq!(
        p("{ 2 }", 0),
        Some((
            "".to_string(),
            Rcst::Lambda {
                opening_curly_brace: Box::new(Rcst::OpeningCurlyBrace),
                parameters_and_arrow: None,
                body: vec![Rcst::Int(2)],
                closing_curly_brace: Box::new(Rcst::ClosingCurlyBrace),
            }
        ))
    );
    // { a ->
    //   foo
    // }
    assert_eq!(
        p("{ a ->\n  foo\n}", 0),
        Some((
            "".to_string(),
            Rcst::Lambda {
                opening_curly_brace: Box::new(Rcst::OpeningCurlyBrace),
                parameters_and_arrow: Some((vec![identifier_node("a")], Box::new(Rcst::Arrow))),
                body: vec![identifier_node("foo")],
                closing_curly_brace: Box::new(Rcst::ClosingCurlyBrace),
            }
        ))
    );
    // {
    // foo
    assert_eq!(
        p("{\nfoo", 0),
        Some((
            "\nfoo".to_string(),
            Rcst::Lambda {
                opening_curly_brace: Box::new(Rcst::OpeningCurlyBrace),
                parameters_and_arrow: None,
                body: vec![],
                closing_curly_brace: Box::new(Rcst::Error {
                    unparsable_input: "".to_string(),
                    error: RcstError::CurlyBraceNotClosed,
                }),
            }
        ))
    );
    // {->
    // }
    assert_eq!(
        p("{->\n}", 1),
        Some((
            "\n}".to_string(),
            Rcst::Lambda {
                opening_curly_brace: Box::new(Rcst::OpeningCurlyBrace),
                parameters_and_arrow: Some((vec![], Box::new(Rcst::Arrow))),
                body: vec![],
                closing_curly_brace: Box::new(Rcst::Error {
                    unparsable_input: "".to_string(),
                    error: RcstError::CurlyBraceNotClosed,
                }),
            }
        ))
    );
}

#[test]
fn test_assignment() {
    let p = |s: &str| parsed(assignment(&chars(s), 0));
    assert_eq!(
        p("foo = 42"),
        Some((
            "".to_string(),
            Rcst::Assignment {
                name: Box::new(identifier_node("foo")),
                parameters: vec![],
                equals_sign: Box::new(Rcst::EqualsSign),
                body: vec![Rcst::Int(42)],
            }
        ))
    );
    assert_eq!(p("foo 42"), None);
    // foo bar =
    //   3
    // 2
    assert_eq!(
        p("foo bar =\n  3\n2"),
        Some((
            "\n2".to_string(),
            Rcst::Assignment {
                name: Box::new(identifier_node("foo")),
                parameters: vec![identifier_node("bar")],
                equals_sign: Box::new(Rcst::EqualsSign),
                body: vec![Rcst::Int(3)],
            }
        ))
    );
    // foo
    //   bar
    //   = 3
    assert_eq!(
        p("foo bar\n  = 3"),
        Some((
            "".to_string(),
            Rcst::Assignment {
                name: Box::new(identifier_node("foo")),
                parameters: vec![identifier_node("bar")],
                equals_sign: Box::new(Rcst::EqualsSign),
                body: vec![Rcst::Int(3)],
            }
        ))
    );
}

#[test]
fn rcst_of_a_small_program() {
    assert_eq!(
        rcst(&chars("foo = 42\nbar")),
        vec![
            Rcst::Assignment {
                name: Box::new(identifier_node("foo")),
                parameters: vec![],
                equals_sign: Box::new(Rcst::EqualsSign),
                body: vec![Rcst::Int(42)],
            },
            Rcst::Newline,
            identifier_node("bar"),
        ]
    );
    assert_eq!(rcst(&chars("foo)")), vec![identifier_node("foo"), Rcst::ClosingParenthesis]);
    assert_eq!(rcst(&chars("")), vec![]);
}

#[test]
fn rcst_reports_the_unparsed_rest() {
    assert_eq!(
        rcst(&chars("}")),
        vec![Rcst::Error {
            unparsable_input: "}".to_string(),
            error: RcstError::UnparsedRest,
        }]
    );
}

#[test]
fn body_reports_too_much_whitespace() {
    let input = chars("foo\n    bar");
    let (rest_of_input, parsed) = body(&input, 0);
    assert_eq!(rest(rest_of_input), "");
    assert_eq!(
        parsed,
        vec![
            identifier_node("foo"),
            Rcst::Newline,
            Rcst::Error {
                unparsable_input: "    ".to_string(),
                error: RcstError::TooMuchWhitespace,
            },
            identifier_node("bar"),
        ]
    );
}

#[test]
fn expression_reports_unexpected_punctuation_and_non_ascii_words() {
    let p = |s: &str| parsed(expression(&chars(s), 0, true));
    assert_eq!(
        p("é1"),
        Some((
            "".to_string(),
            Rcst::Error {
                unparsable_input: "é1".to_string(),
                error: RcstError::IdentifierContainsNonAlphanumericAscii,
            }
        ))
    );
    assert_eq!(
        p("💖"),
        Some((
            "".to_string(),
            Rcst::Error {
                unparsable_input: "💖".to_string(),
                error: RcstError::UnexpectedPunctuation,
            }
        ))
    );
    assert_eq!(p("= 3"), None);
    assert_eq!(p("Ábc"), Some(("".to_string(), Rcst::Error {
        unparsable_input: "Ábc".to_string(),
        error: RcstError::SymbolContainsNonAlphanumericAscii,
    })));
}

#[test]
fn sources_with_too_large_ints_are_not_parsable() {
    assert!(is_parsable(&chars("x = 18446744073709551615")));
    assert!(!is_parsable(&chars("x = 18446744073709551616")));
    // A word that is not all digits is not an int, however long.
    assert!(is_parsable(&chars("x = 99999999999999999999a")));
    assert_eq!(try_rcst(&chars("foo = 99999999999999999999")), None);
    assert_eq!(try_rcst(&chars("42")), Some(vec![Rcst::Int(42)]));
}

fn trivia_text(parts: &[Rcst]) -> String {
    let mut text = String::new();
    for part in parts {
        match part {
            Rcst::Whitespace(w) => text.push_str(w),
            Rcst::Newline => text.push('\n'),
            Rcst::Comment { comment, .. } => {
                text.push('#');
                text.push_str(comment);
            },
            Rcst::Error { unparsable_input, .. } => text.push_str(unparsable_input),
            other => panic!("not whitespace: {other:?}"),
        }
    }
    text
}

#[test]
fn whitespace_and_comments_keep_all_of_the_source() {
    for source in [
        "  \n  # hey\n  foo",
        " \t \n\n  bar",
        "# only a comment",
        "\n\n\n",
        "  \n foo",
        "",
    ] {
        let input: Vec<char> = source.chars().collect();
        let (rest, parts) = whitespaces_and_newlines(&input, 1, true);
        let rest: String = rest.iter().collect();
        assert_eq!(trivia_text(&parts) + &rest, source);
    }
}

#[test]
fn a_long_run_of_digits_in_a_comment_is_no_int() {
    let source = chars("# 123456789012345678901234567890\nfoo");
    assert!(!is_parsable(&source));
    let rcsts = rcst(&source);
    assert!(rcsts.iter().any(|r| matches!(r, Rcst::Comment { comment, .. } if comment == " 123456789012345678901234567890")));
    assert!(rcsts.iter().any(|r| matches!(r, Rcst::Identifier(name) if name == "foo")));
}

#[test]
fn test_expression() {
    // The parser of a whole expression reads a lone identifier; the text
    // parser refuses it (see `test_text`).
    assert_eq!(
        parsed(expression(&chars("foo"), 0, false)),
        Some(("".to_string(), Rcst::Identifier("foo".to_string())))
    );
    assert_eq!(parsed(text(&chars("foo"), 0)), None);
}
