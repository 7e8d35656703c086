use partiql_frontend::ast::Expr;
use partiql_frontend::location::{
    ByteOffset, BytePosition, CharOffset, LineAndCharPosition, LineOffset,
};
use partiql_frontend::parser::{
    combine, lex_items, lex_partiql, parse_expr_term, parse_literal, parse_partiql, GrammarError,
};
use partiql_frontend::render::{decimal_string, message_string, tag_with_string, token_string};
use partiql_frontend::result::{
    LexError, Located, ParserError, UnexpectedToken, UnexpectedTokenData, Unsupported,
};
use partiql_frontend::text::{checked_slice, slice_str, unquote};
use partiql_frontend::token::Token;

fn at(line: usize, char: usize) -> LineAndCharPosition {
    LineAndCharPosition { line: LineOffset(line), char: CharOffset(char) }
}

fn bytes(start: usize, end: usize) -> std::ops::Range<BytePosition> {
    BytePosition(ByteOffset(start))..BytePosition(ByteOffset(end))
}

#[test]
fn text_that_ends_too_early() {
    let errors = parse_partiql("SELECT").unwrap_err();
    assert_eq!(
        vec![ParserError::Unsupported(Located {
            inner: Unsupported::UnexpectedEndOfInput,
            location: at(0, 6)..at(0, 6),
        })],
        errors
    );
    assert_eq!(
        "Unsupported [UnexpectedEndOfInput] at [LineAndCharPosition { line: LineOffset(0), char: CharOffset(6) }..LineAndCharPosition { line: LineOffset(0), char: CharOffset(6) }]",
        errors[0].to_string()
    );
    assert_eq!(1, parse_partiql("").unwrap_err().len());
    assert_eq!(1, parse_partiql("(1 + 2").unwrap_err().len());
}

#[test]
fn a_token_that_is_not_accepted() {
    let errors = parse_partiql("SELECT a FROM t WHERE )").unwrap_err();
    assert_eq!(
        vec![ParserError::UnexpectedToken(UnexpectedToken {
            inner: UnexpectedTokenData { token: Token::CloseParen },
            location: at(0, 22)..at(0, 23),
        })],
        errors
    );
    let errors = parse_partiql("1 2").unwrap_err();
    assert_eq!(1, errors.len());
    assert_eq!(
        "Unexpected token [Int(\"2\")] at [LineAndCharPosition { line: LineOffset(0), char: CharOffset(2) }..LineAndCharPosition { line: LineOffset(0), char: CharOffset(3) }]",
        errors[0].to_string()
    );
}

#[test]
fn errors_got_over_come_first_and_in_order() {
    let errors = parse_partiql("SELECT * FROM a AS a AT b WHERE").unwrap_err();
    assert_eq!(
        vec![
            ParserError::UnexpectedToken(UnexpectedToken {
                inner: UnexpectedTokenData { token: Token::At },
                location: at(0, 21)..at(0, 23),
            }),
            ParserError::Unsupported(Located {
                inner: Unsupported::UnexpectedEndOfInput,
                location: at(0, 31)..at(0, 31),
            }),
        ],
        errors
    );
    let errors = parse_partiql("SELECT # FROM a AT x, 'b").unwrap_err();
    assert_eq!(
        vec![
            ParserError::LexicalError(Located {
                inner: LexError::InvalidInput,
                location: at(0, 7)..at(0, 8),
            }),
            ParserError::LexicalError(Located {
                inner: LexError::UnterminatedString,
                location: at(0, 22)..at(0, 24),
            }),
            ParserError::UnexpectedToken(UnexpectedToken {
                inner: UnexpectedTokenData { token: Token::From },
                location: at(0, 9)..at(0, 13),
            }),
        ],
        errors
    );
    let errors = parse_partiql("SELECT * FROM a AT x, 'b").unwrap_err();
    assert_eq!(
        vec![
            ParserError::UnexpectedToken(UnexpectedToken {
                inner: UnexpectedTokenData { token: Token::At },
                location: at(0, 16)..at(0, 18),
            }),
            ParserError::LexicalError(Located {
                inner: LexError::UnterminatedString,
                location: at(0, 22)..at(0, 24),
            }),
            ParserError::Unsupported(Located {
                inner: Unsupported::UnexpectedEndOfInput,
                location: at(0, 24)..at(0, 24),
            }),
        ],
        errors
    );
}

#[test]
fn a_tree_does_not_hide_an_error() {
    let errors = parse_partiql("1 #").unwrap_err();
    assert_eq!(
        vec![ParserError::LexicalError(Located {
            inner: LexError::InvalidInput,
            location: at(0, 2)..at(0, 3),
        })],
        errors
    );
    assert_eq!(
        "Lexical error [InvalidInput] at [LineAndCharPosition { line: LineOffset(0), char: CharOffset(2) }..LineAndCharPosition { line: LineOffset(0), char: CharOffset(3) }]",
        errors[0].to_string()
    );
    assert!(parse_partiql("1 ").is_ok());
}

#[test]
fn errors_are_in_lines_and_characters() {
    let errors = parse_partiql("SELECT *\nFROM \u{e9} a\n  AS a AT b\n").unwrap_err();
    assert_eq!(
        vec![
            ParserError::LexicalError(Located {
                inner: LexError::InvalidInput,
                location: at(1, 5)..at(1, 6),
            }),
            ParserError::UnexpectedToken(UnexpectedToken {
                inner: UnexpectedTokenData { token: Token::At },
                location: at(2, 7)..at(2, 9),
            }),
        ],
        errors
    );
    let errors = parse_partiql("'a\nb").unwrap_err();
    assert_eq!(
        "Lexical error [UnterminatedString] at [LineAndCharPosition { line: LineOffset(0), char: CharOffset(0) }..LineAndCharPosition { line: LineOffset(1), char: CharOffset(1) }]",
        errors[0].to_string()
    );
}

#[test]
fn at_without_a_name_is_dropped_alone() {
    let errors = parse_partiql("SELECT * FROM a AT , b").unwrap_err();
    assert_eq!(
        vec![ParserError::UnexpectedToken(UnexpectedToken {
            inner: UnexpectedTokenData { token: Token::At },
            location: at(0, 16)..at(0, 18),
        })],
        errors
    );
    assert!(parse_partiql("SELECT * FROM UNPIVOT a AS v AT k").is_ok());
    assert!(parse_partiql("SELECT * FROM UNPIVOT a AT").is_err());
}

#[test]
fn errors_by_byte_offset_are_shown() {
    let error = lex_partiql("ab #").unwrap_err();
    assert_eq!(
        ParserError::LexicalError(Located { inner: LexError::InvalidInput, location: bytes(3, 4) }),
        error
    );
    assert_eq!(
        "Lexical error [InvalidInput] at [BytePosition(ByteOffset(3))..BytePosition(ByteOffset(4))]",
        error.to_string()
    );
    let unexpected: ParserError<&str, BytePosition> =
        ParserError::from(GrammarError::UnrecognizedToken {
            token: (ByteOffset(10), Token::String("it's"), ByteOffset(120)),
        });
    assert_eq!(
        "Unexpected token [String(\"it's\")] at [BytePosition(ByteOffset(10))..BytePosition(ByteOffset(120))]",
        unexpected.to_string()
    );
}

#[test]
fn each_kind_of_lexical_error_is_shown() {
    let shown = |text: &str| parse_partiql(text).unwrap_err()[0].to_string();
    assert!(shown("'a").starts_with("Lexical error [UnterminatedString] at ["));
    assert!(shown("`a").starts_with("Lexical error [UnterminatedIonLiteral] at ["));
    assert!(shown("/* a").starts_with("Lexical error [UnterminatedComment] at ["));
    assert!(shown("1e").starts_with("Lexical error [InvalidNumber] at ["));
    assert!(shown("#").starts_with("Lexical error [InvalidInput] at ["));
}

#[test]
fn what_a_grammar_reports_becomes_a_parser_error() {
    let token = (ByteOffset(3), Token::Identifier("x"), ByteOffset(4));
    assert_eq!(
        ParserError::UnexpectedToken(UnexpectedToken {
            inner: UnexpectedTokenData { token: Token::Identifier("x") },
            location: bytes(3, 4),
        }),
        ParserError::from(GrammarError::UnrecognizedToken { token })
    );
    let lexical: ParserError<&str, BytePosition> =
        ParserError::LexicalError(Located { inner: LexError::InvalidNumber, location: bytes(1, 2) });
    assert_eq!(lexical.clone(), ParserError::from(GrammarError::User { error: lexical }));
    assert_eq!(
        ParserError::Unsupported(Located {
            inner: Unsupported::UnexpectedEndOfInput,
            location: bytes(9, 9),
        }),
        ParserError::<&str, BytePosition>::from(GrammarError::UnrecognizedEof {
            location: ByteOffset(9)
        })
    );
    assert_eq!(
        ParserError::Unsupported(Located { inner: Unsupported::InvalidToken, location: bytes(2, 2) }),
        ParserError::<&str, BytePosition>::from(GrammarError::InvalidToken {
            location: ByteOffset(2)
        })
    );
    assert_eq!(
        ParserError::Unsupported(Located { inner: Unsupported::ExtraToken, location: bytes(3, 4) }),
        ParserError::from(GrammarError::ExtraToken { token })
    );
}

#[test]
fn an_error_is_resolved_against_its_text() {
    let source = "a\n\u{e9}b c";
    let (_, _, tracker) = lex_items(source);
    let error: ParserError<&str, BytePosition> =
        ParserError::LexicalError(Located { inner: LexError::InvalidInput, location: bytes(4, 7) });
    assert_eq!(
        ParserError::LexicalError(Located {
            inner: LexError::InvalidInput,
            location: at(1, 1)..at(1, 4),
        }),
        error.resolve(source, &tracker)
    );
}

#[test]
fn what_a_parse_returns_is_put_together_from_its_parts() {
    let source = "a\nb c";
    let (_, _, tracker) = lex_items(source);
    let tree = || match parse_partiql("1") {
        Ok(tree) => tree,
        Err(e) => panic!("{:?}", e),
    };
    let got_over = || GrammarError::UnrecognizedToken {
        token: (ByteOffset(2), Token::Identifier("b"), ByteOffset(3)),
    };
    let lexical = || GrammarError::User {
        error: ParserError::LexicalError(Located {
            inner: LexError::InvalidInput,
            location: bytes(0, 1),
        }),
    };
    let fatal = || GrammarError::UnrecognizedEof { location: ByteOffset(5) };
    let shown_got_over = ParserError::UnexpectedToken(UnexpectedToken {
        inner: UnexpectedTokenData { token: Token::Identifier("b") },
        location: at(1, 0)..at(1, 1),
    });
    let shown_lexical = ParserError::LexicalError(Located {
        inner: LexError::InvalidInput,
        location: at(0, 0)..at(0, 1),
    });
    let shown_fatal = ParserError::Unsupported(Located {
        inner: Unsupported::UnexpectedEndOfInput,
        location: at(1, 3)..at(1, 3),
    });

    let r = combine(source, &tracker, Ok(tree()), vec![]);
    assert!(matches!(r, Ok(t) if matches!(*t, Expr::Lit(_, _))));
    let r = combine(source, &tracker, Ok(tree()), vec![got_over(), lexical()]);
    assert_eq!(vec![shown_got_over.clone(), shown_lexical.clone()], r.unwrap_err());
    let r = combine(source, &tracker, Err(fatal()), vec![]);
    assert_eq!(vec![shown_fatal.clone()], r.unwrap_err());
    let r = combine(source, &tracker, Err(fatal()), vec![lexical(), got_over()]);
    assert_eq!(vec![shown_lexical, shown_got_over, shown_fatal], r.unwrap_err());
}

#[test]
fn numbers_are_shown_in_decimal() {
    assert_eq!("0", decimal_string(0));
    assert_eq!("7", decimal_string(7));
    assert_eq!("10", decimal_string(10));
    assert_eq!("39", decimal_string(39));
    assert_eq!("1234567890", decimal_string(1234567890));
    assert_eq!(usize::MAX.to_string(), decimal_string(usize::MAX));
}

#[test]
fn tokens_are_shown_as_their_tag_and_text() {
    let tokens = [
        Token::At,
        Token::OpenDblAngle,
        Token::Select,
        Token::Identifier("a"),
        Token::QuotedIdentifier("a \"b\""),
        Token::String("it's\n\ttabbed \\ \u{e9}"),
        Token::Int("10"),
        Token::Real("1."),
        Token::ExpReal("1e5"),
        Token::Ion("{a: \"b\"}"),
    ];
    for token in tokens {
        assert_eq!(format!("{:?}", token), token_string(&token));
    }
    assert_eq!("At", token_string(&Token::At));
    assert_eq!("String(\"it's\")", token_string(&Token::String("it's")));
    assert_eq!("Identifier(\"a\\\"b\")", token_string(&Token::Identifier("a\"b")));
    assert_eq!("Tag(shown)", tag_with_string("Tag", "shown"));
}

#[test]
fn a_message_has_kind_subject_and_location() {
    assert_eq!("Kind [about] at [start..end]", message_string("Kind", "about", "start", "end"));
    assert_eq!(" [] at [..]", message_string("", "", "", ""));
}

#[test]
fn a_literal_alone_and_a_term_alone() {
    assert!(parse_literal("1").is_ok());
    assert!(parse_literal("`ion`").is_ok());
    assert!(parse_literal("a").is_err());
    assert!(parse_literal("1 + 1").is_err());
    assert!(parse_literal("").is_err());
    assert!(parse_expr_term("f(1, 2)").is_ok());
    assert!(parse_expr_term("(1 + 2)").is_ok());
    assert!(parse_expr_term("1 + 2").is_err());
    assert!(parse_expr_term("a.b").is_err());
    assert!(parse_partiql("a.b").is_ok());
}

#[test]
fn a_pair_of_quotes_stands_for_one() {
    assert_eq!("embe'ded", unquote("embe''ded", b'\''));
    assert_eq!("", unquote("", b'\''));
    assert_eq!("'", unquote("''", b'\''));
    assert_eq!("''", unquote("''''", b'\''));
    assert_eq!("a'", unquote("a'", b'\''));
    assert_eq!("'a'b'", unquote("''a''b''", b'\''));
    assert_eq!("'''a", unquote("'''''a", b'\''));
    assert_eq!("a\"b''", unquote("a\"\"b''", b'"'));
    assert_eq!("h\u{e9}'\u{20ac}", unquote("h\u{e9}''\u{20ac}", b'\''));
    match lex_partiql("'it''s'").unwrap()[0].1 {
        Token::String(raw) => assert_eq!("it's", unquote(raw, b'\'')),
        other => panic!("{:?}", other),
    }
}

#[test]
fn a_span_is_cut_from_its_text_between_characters() {
    let text = "a\u{e9}b";
    assert_eq!(Some("a\u{e9}b"), checked_slice(text, 0, 4));
    assert_eq!(Some("\u{e9}"), checked_slice(text, 1, 3));
    assert_eq!(Some(""), checked_slice(text, 4, 4));
    assert_eq!(Some(""), checked_slice(text, 0, 0));
    assert_eq!(None, checked_slice(text, 1, 2));
    assert_eq!(None, checked_slice(text, 2, 3));
    assert_eq!(None, checked_slice(text, 3, 1));
    assert_eq!(None, checked_slice(text, 0, 5));
    assert_eq!(None, checked_slice(text, 5, 5));
    assert_eq!("\u{e9}b", slice_str(text, 1, 4));
    assert_eq!("a", slice_str(text, 0, 1));
}
