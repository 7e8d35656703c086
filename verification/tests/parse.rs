use partiql_frontend::location::{CharOffset, LineAndCharPosition, LineOffset};
use partiql_frontend::parser::{lex_partiql, parse_expr_term, parse_literal, parse_partiql};
use partiql_frontend::result::{ParserError, UnexpectedToken, UnexpectedTokenData};
use partiql_frontend::token::Token;

fn parse(q: &str) {
    let res = parse_partiql(q);
    println!("{:#?}", res);
    match res {
        Ok(_) => (),
        _ => assert!(false, "{:?}", res),
    }
}

fn literal(q: &str) {
    let res = parse_literal(q);
    println!("{:#?}", res);
    match res {
        Ok(_) => (),
        _ => assert!(false, "{:?}", res),
    }
}

fn lit_and_parse(q: &str) {
    literal(q);
    parse(q);
}

fn value(q: &str) {
    let res = parse_expr_term(q);
    println!("{:#?}", res);
    match res {
        Ok(_) => (),
        _ => assert!(false, "{:?}", res),
    }
}

fn value_and_parse(q: &str) {
    value(q);
    parse(q);
}

#[test]
fn mod_offset() {
    let lexed = lex_partiql(r#"SELECT * FROM a OFFSET 10"#);
    assert!(lexed.is_ok());
    let lexed = lexed.unwrap();

    assert_eq!(
        vec![
            Token::Select,
            Token::Star,
            Token::From,
            Token::Identifier("a"),
            Token::Offset,
            Token::Int("10"),
        ],
        lexed.into_iter().map(|(_s, t, _e)| t).collect::<Vec<_>>()
    );
}

#[test]
fn null() {
    lit_and_parse("NULL")
}

#[test]
fn missing() {
    lit_and_parse("MISSING")
}

#[test]
fn true_() {
    lit_and_parse("TRUE")
}

#[test]
fn false_() {
    lit_and_parse("FALSE")
}

#[test]
fn string() {
    lit_and_parse("'foo'");
    lit_and_parse("'embe''ded'");
}

#[test]
fn numeric() {
    lit_and_parse("42");
    lit_and_parse("7.");
    lit_and_parse(".00125");
    lit_and_parse("5.5");
    lit_and_parse("17e2");
    lit_and_parse("1.317e-3");
    lit_and_parse("3141.59265e-03");
}

#[test]
fn ion() {
    lit_and_parse(r#" `[{'a':1, 'b':1}, {'a':2}, "foo"]` "#);
    lit_and_parse(r#" `[{'a':1, 'b':1}, {'a':2}, "foo", 'a`b', "a`b", '''`s''', {{"a`b"}}]` "#);
    lit_and_parse(
        r#" `{'a':1, // comment ' "
                      'b':1} ` "#,
    );
    lit_and_parse(
        r#" `{'a' // comment ' "
                       :1, /* 
                               comment 
                              */
                      'b':1} ` "#,
    );
}

#[test]
fn identifier() {
    value_and_parse("id");
    value_and_parse(r#""quoted_id""#);
}

#[test]
fn array() {
    value_and_parse(r#"[]"#);
    value_and_parse(r#"[1, 'moo', "some variable", [], 'a', MISSING]"#);
}

#[test]
fn bag() {
    value_and_parse(r#"<<>>"#);
    value_and_parse(r#"<<1>>"#);
    value_and_parse(r#"<<1,2>>"#);
    value_and_parse(r#"<<1, <<>>, 'boo', some_variable, 'a'>>"#);
}

#[test]
fn tuple() {
    value_and_parse(r#"{}"#);
    value_and_parse(r#"{a_variable: 1, 'cow': 'moo', 'a': NULL}"#);
}

#[test]
fn or_simple() {
    parse(r#"TRUE OR FALSE"#)
}

#[test]
fn or() {
    parse(r#"t1.super OR test(t2.name, t1.name)"#)
}

#[test]
fn and_simple() {
    parse(r#"TRUE and FALSE"#)
}

#[test]
fn and() {
    parse(r#"test(t2.name, t1.name) AND t1.id = t2.id"#)
}

#[test]
fn or_and() {
    parse(r#"t1.super OR test(t2.name, t1.name) AND t1.id = t2.id"#)
}

#[test]
fn selectstar() {
    parse("SELECT *")
}

#[test]
fn select1() {
    parse("SELECT g")
}

#[test]
fn select_list() {
    parse("SELECT g, k as ck, h")
}

#[test]
fn fun_call() {
    parse(r#"fun_call('bar', 1,2,3,4,5,'foo')"#)
}

#[test]
fn select3() {
    parse("SELECT g, k, function('2') as fn_result")
}

#[test]
fn group() {
    parse("SELECT g FROM data GROUP BY a")
}

#[test]
fn group_complex() {
    parse("SELECT g FROM data GROUP BY a AS x, b + c AS y, foo(d) AS z GROUP AS g")
}

#[test]
fn order_by() {
    parse(r#"SELECT a FROM tb ORDER BY PRESERVE"#);
    parse(r#"SELECT a FROM tb ORDER BY rk1"#);
    parse(r#"SELECT a FROM tb ORDER BY rk1 ASC, rk2 DESC"#);
}

#[test]
fn where_simple() {
    parse(r#"SELECT a FROM tb WHERE hk = 1"#)
}

#[test]
fn where_boolean() {
    parse(r#"SELECT a FROM tb WHERE t1.super OR test(t2.name, t1.name) AND t1.id = t2.id"#)
}

#[test]
fn limit() {
    parse(r#"SELECT * FROM a LIMIT 10"#)
}

#[test]
fn offset() {
    parse(r#"SELECT * FROM a OFFSET 10"#)
}

#[test]
fn limit_offset() {
    parse(r#"SELECT * FROM a LIMIT 10 OFFSET 2"#)
}

#[test]
fn complex() {
    let q = r#"
            SELECT (
                SELECT numRec, data
                FROM delta_full_transactions.deltas delta0,
                (
                    SELECT u.id, review, rindex
                    FROM delta1.data as u CROSS JOIN UNPIVOT u.reviews as review AT rindex
                ) as data,
                delta2.numRec as numRec
            )
            AS deltas FROM SOURCE_VIEW_DELTA_FULL_TRANSACTIONS delta_full_transactions
            "#;
    parse(q)
}

#[test]
fn improper_at() {
    let res = parse_partiql(r#"SELECT * FROM a AS a CROSS JOIN c AS c AT q"#);
    assert!(res.is_err());
    let errors = res.unwrap_err();
    assert_eq!(1, errors.len());
    assert_eq!("Unexpected token [At] at [LineAndCharPosition { line: LineOffset(0), char: CharOffset(39) }..LineAndCharPosition { line: LineOffset(0), char: CharOffset(41) }]", errors[0].to_string());
}

#[test]
fn improper_at_multi() {
    let res = parse_partiql(r#"SELECT * FROM a AS a AT b CROSS JOIN c AS c AT q"#);
    assert!(res.is_err());
    let errors = res.unwrap_err();
    assert_eq!(2, errors.len());
    assert_eq!("Unexpected token [At] at [LineAndCharPosition { line: LineOffset(0), char: CharOffset(21) }..LineAndCharPosition { line: LineOffset(0), char: CharOffset(23) }]", errors[0].to_string());
    assert_eq!("Unexpected token [At] at [LineAndCharPosition { line: LineOffset(0), char: CharOffset(44) }..LineAndCharPosition { line: LineOffset(0), char: CharOffset(46) }]", errors[1].to_string());
    assert!(matches!(
        errors[0],
        ParserError::UnexpectedToken(UnexpectedToken {
            inner: UnexpectedTokenData { token: Token::At },
            location: std::ops::Range {
                start: LineAndCharPosition { line: LineOffset(0), char: CharOffset(21) },
                end: LineAndCharPosition { line: LineOffset(0), char: CharOffset(23) },
            },
        })
    ));
    assert!(matches!(
        errors[1],
        ParserError::UnexpectedToken(UnexpectedToken {
            inner: UnexpectedTokenData { token: Token::At },
            location: std::ops::Range {
                start: LineAndCharPosition { line: LineOffset(0), char: CharOffset(44) },
                end: LineAndCharPosition { line: LineOffset(0), char: CharOffset(46) },
            },
        })
    ));
}
