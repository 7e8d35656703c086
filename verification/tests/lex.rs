use partiql_frontend::lexer::PartiqlLexer;
use partiql_frontend::location::{ByteOffset, BytePosition};
use partiql_frontend::parser::lex_partiql;
use partiql_frontend::result::{LexError, Located, ParserError};
use partiql_frontend::token::Token;

fn tokens(text: &str) -> Vec<Token<&str>> {
    lex_partiql(text).unwrap().into_iter().map(|(_, t, _)| t).collect()
}

fn spans(text: &str) -> Vec<(usize, usize)> {
    lex_partiql(text).unwrap().into_iter().map(|(s, _, e)| (s.0, e.0)).collect()
}

fn lex_error(text: &str) -> (LexError, usize, usize) {
    match lex_partiql(text) {
        Err(ParserError::LexicalError(Located { inner, location })) => {
            (inner, location.start.0 .0, location.end.0 .0)
        }
        other => panic!("{:?}", other),
    }
}

#[test]
fn select_from_offset_spans() {
    assert_eq!(
        vec![(0, 6), (7, 8), (9, 13), (14, 15), (16, 22), (23, 25)],
        spans("SELECT * FROM a OFFSET 10")
    );
}

#[test]
fn keywords_in_any_case() {
    assert_eq!(vec![Token::Select, Token::Select, Token::Select], tokens("select SeLeCt SELECT"));
    assert_eq!(vec![Token::Unpivot, Token::Nulls, Token::Null], tokens("unPivot NULLS null"));
    assert_eq!(vec![Token::Identifier("selects")], tokens("selects"));
    assert_eq!(vec![Token::Identifier("sel")], tokens("sel"));
}

#[test]
fn identifiers_keep_their_case() {
    assert_eq!(
        vec![Token::Identifier("Foo_1"), Token::Identifier("$x"), Token::Identifier("_y9")],
        tokens("Foo_1 $x _y9")
    );
}

#[test]
fn punctuation() {
    assert_eq!(
        vec![
            Token::OpenSquare,
            Token::CloseSquare,
            Token::OpenCurly,
            Token::CloseCurly,
            Token::OpenParen,
            Token::CloseParen,
            Token::OpenDblAngle,
            Token::CloseDblAngle,
            Token::Comma,
            Token::Semicolon,
            Token::Colon,
            Token::EqualEqual,
            Token::BangEqual,
            Token::LessGreater,
            Token::LessEqual,
            Token::GreaterEqual,
            Token::Equal,
            Token::LessThan,
            Token::GreaterThan,
            Token::Minus,
            Token::Plus,
            Token::Star,
            Token::Percent,
            Token::Slash,
            Token::Caret,
            Token::Period,
            Token::DblPipe,
        ],
        tokens("[ ] { } ( ) << >> , ; : == != <> <= >= = < > - + * % / ^ . ||")
    );
    assert_eq!(vec![Token::LessEqual, Token::GreaterThan], tokens("<=>"));
    assert_eq!(vec![Token::OpenDblAngle, Token::LessThan], tokens("<<<"));
}

#[test]
fn quoted_texts() {
    assert_eq!(vec![Token::String("foo")], tokens("'foo'"));
    assert_eq!(vec![Token::String("embe''ded")], tokens("'embe''ded'"));
    assert_eq!(vec![(0, 11)], spans("'embe''ded'"));
    assert_eq!(vec![Token::String("")], tokens("''"));
    assert_eq!(vec![Token::String("''")], tokens("''''"));
    assert_eq!(vec![Token::String("a\\"), Token::Identifier("b")], tokens("'a\\'b"));
    assert_eq!(vec![Token::QuotedIdentifier("a b")], tokens("\"a b\""));
    assert_eq!(vec![Token::QuotedIdentifier("a\"\"b")], tokens("\"a\"\"b\""));
    assert_eq!(vec![Token::String("SELECT // x")], tokens("'SELECT // x'"));
    assert_eq!(vec![Token::String("h\u{e9}llo")], tokens("'h\u{e9}llo'"));
    assert_eq!(vec![(0, 8)], spans("'h\u{e9}llo'"));
}

#[test]
fn numbers() {
    assert_eq!(vec![Token::Int("42")], tokens("42"));
    assert_eq!(vec![Token::Real("7.")], tokens("7."));
    assert_eq!(vec![Token::Real(".00125")], tokens(".00125"));
    assert_eq!(vec![Token::Real("5.5")], tokens("5.5"));
    assert_eq!(vec![Token::ExpReal("17e2")], tokens("17e2"));
    assert_eq!(vec![Token::ExpReal("1.317e-3")], tokens("1.317e-3"));
    assert_eq!(vec![Token::ExpReal("3141.59265e-03")], tokens("3141.59265e-03"));
    assert_eq!(vec![Token::ExpReal("7.E+1")], tokens("7.E+1"));
    assert_eq!(vec![Token::Int("10"), Token::Identifier("abc")], tokens("10abc"));
    assert_eq!(vec![Token::Period, Token::Identifier("a")], tokens(".a"));
    assert_eq!(vec![Token::Int("1"), Token::Plus, Token::Int("2")], tokens("1+2"));
}

#[test]
fn an_exponent_needs_digits() {
    assert_eq!((LexError::InvalidNumber, 0, 2), lex_error("1e"));
    assert_eq!((LexError::InvalidNumber, 0, 3), lex_error("1e+"));
    assert_eq!((LexError::InvalidNumber, 2, 7), lex_error("a 2.5E-x"));
}

#[test]
fn comments_and_whitespace_are_skipped() {
    let text = "a // c ' \" `\n b /* x\n ' */ c\t\r\n";
    assert_eq!(
        vec![Token::Identifier("a"), Token::Identifier("b"), Token::Identifier("c")],
        tokens(text)
    );
    assert_eq!(vec![(0, 1), (14, 15), (27, 28)], spans(text));
    assert_eq!(Vec::<Token<&str>>::new(), tokens(""));
    assert_eq!(Vec::<Token<&str>>::new(), tokens("  // only a comment"));
    assert_eq!(Vec::<Token<&str>>::new(), tokens("/**/"));
    assert_eq!(vec![Token::Int("1"), Token::Slash, Token::Int("2")], tokens("1 / 2"));
}

#[test]
fn embedded_literal_is_passed_through() {
    assert_eq!(vec![Token::Ion("'a//b'")], tokens("`'a//b'`"));
    assert_eq!(vec![Token::Ion("")], tokens("``"));
    assert_eq!(vec![Token::Ion("{a: 1}"), Token::Identifier("x")], tokens("`{a: 1}` x"));
    assert_eq!(vec![Token::Ion("\"a`b\"")], tokens("`\"a`b\"`"));
    assert_eq!(vec![Token::Ion(" // a ` b\n 1")], tokens("` // a ` b\n 1`"));
    assert_eq!(vec![Token::Ion("/* ` */")], tokens("`/* ` */`"));
    assert_eq!(vec![Token::Ion("1 / 2")], tokens("`1 / 2`"));
    assert_eq!(
        vec![Token::Ion("[{'a':1, 'b':1}, {'a':2}, \"foo\", 'a`b', \"a`b\", '''`s''', {{\"a`b\"}}]")],
        tokens(" `[{'a':1, 'b':1}, {'a':2}, \"foo\", 'a`b', \"a`b\", '''`s''', {{\"a`b\"}}]` ")
    );
}

#[test]
fn what_is_never_closed() {
    assert_eq!((LexError::UnterminatedString, 0, 4), lex_error("'abc"));
    assert_eq!((LexError::UnterminatedString, 2, 7), lex_error("a \"b''c"));
    assert_eq!((LexError::UnterminatedString, 0, 5), lex_error("'ab''"));
    assert_eq!((LexError::UnterminatedIonLiteral, 0, 4), lex_error("`abc"));
    assert_eq!((LexError::UnterminatedIonLiteral, 0, 6), lex_error("`'a`b "));
    assert_eq!((LexError::UnterminatedIonLiteral, 0, 7), lex_error("`//a`\nb"));
    assert_eq!((LexError::UnterminatedIonLiteral, 0, 5), lex_error("`/*`x"));
    assert_eq!((LexError::UnterminatedComment, 2, 8), lex_error("a /* abc"));
    assert_eq!((LexError::UnterminatedComment, 0, 3), lex_error("/*/"));
}

#[test]
fn what_starts_no_token() {
    assert_eq!((LexError::InvalidInput, 0, 1), lex_error("#"));
    assert_eq!((LexError::InvalidInput, 2, 3), lex_error("a ! b"));
    assert_eq!((LexError::InvalidInput, 0, 1), lex_error("|"));
    assert_eq!((LexError::InvalidInput, 0, 2), lex_error("\u{e9}"));
    assert_eq!((LexError::InvalidInput, 2, 5), lex_error("a \u{20ac} b"));
    assert_eq!((LexError::InvalidInput, 0, 4), lex_error("\u{1f600}x"));
}

#[test]
fn the_lexer_reads_on_after_an_error() {
    let mut lexer = PartiqlLexer::new("a # 'b' \u{e9} 1e c");
    assert_eq!(Some(Ok((ByteOffset(0), Token::Identifier("a"), ByteOffset(1)))), lexer.next());
    assert_eq!(
        Some(Err(ParserError::LexicalError(Located {
            inner: LexError::InvalidInput,
            location: BytePosition(ByteOffset(2))..BytePosition(ByteOffset(3)),
        }))),
        lexer.next()
    );
    assert_eq!(Some(Ok((ByteOffset(4), Token::String("b"), ByteOffset(7)))), lexer.next());
    assert_eq!(
        Some(Err(ParserError::LexicalError(Located {
            inner: LexError::InvalidInput,
            location: BytePosition(ByteOffset(8))..BytePosition(ByteOffset(10)),
        }))),
        lexer.next()
    );
    assert_eq!(
        Some(Err(ParserError::LexicalError(Located {
            inner: LexError::InvalidNumber,
            location: BytePosition(ByteOffset(11))..BytePosition(ByteOffset(13)),
        }))),
        lexer.next()
    );
    assert_eq!(Some(Ok((ByteOffset(14), Token::Identifier("c"), ByteOffset(15)))), lexer.next());
    assert_eq!(None, lexer.next());
    assert_eq!(None, lexer.next());
}

#[test]
fn lexing_twice_gives_the_same() {
    let texts = [
        "SELECT * FROM a OFFSET 10",
        "a // c\n b /* x */ 'q''r' `ion` 1.5e3 <<>>",
        "'never closed",
        "",
    ];
    for text in texts {
        assert_eq!(lex_partiql(text), lex_partiql(text));
        let mut first = PartiqlLexer::new(text);
        let mut second = PartiqlLexer::new(text);
        loop {
            let item = first.next();
            assert_eq!(item, second.next());
            if item.is_none() {
                break;
            }
        }
    }
}

#[test]
fn token_spans_lie_in_order() {
    let text = "SELECT a.b, 'x' /* c */ FROM `i` AS t -- 1.5e3\n WHERE t.\"q\" >= .5";
    let lexed = lex_partiql(text).unwrap();
    assert_eq!(19, lexed.len());
    let mut end_before = 0;
    for (start, _, end) in &lexed {
        assert!(end_before <= start.0);
        assert!(start.0 < end.0);
        assert!(end.0 <= text.len());
        assert!(text.is_char_boundary(start.0) && text.is_char_boundary(end.0));
        end_before = end.0;
    }
    assert_eq!(Some(&(ByteOffset(0), Token::Select, ByteOffset(6))), lexed.first());
    assert_eq!(Some(&(ByteOffset(63), Token::Real(".5"), ByteOffset(65))), lexed.last());
}

#[test]
fn text_of_a_token_is_a_slice_of_the_source() {
    let text = String::from("Sel \"Q\" 'str' 12 `i`");
    let lexed = lex_partiql(&text).unwrap();
    for (start, token, end) in lexed {
        let whole = &text[start.0..end.0];
        match token {
            Token::Identifier(s) | Token::Int(s) => assert_eq!(whole, s),
            Token::QuotedIdentifier(s) | Token::String(s) | Token::Ion(s) => {
                assert_eq!(&whole[1..whole.len() - 1], s)
            }
            other => panic!("{:?}", other),
        }
    }
}
