use partiql_frontend::ast::{
    AliasedList, BinaryOperator, CaseSensitivity, Expr, ExprList, GroupBy, JoinKind, LitKind,
    NullsPlacement, OrderBy, PairList, Projection, Query, SetQuantifier, SortDirection, SortList,
    Span, TableRef, UnaryOperator,
};
use partiql_frontend::parser::parse_partiql;

fn tree(text: &str) -> Expr {
    match parse_partiql(text) {
        Ok(tree) => *tree,
        Err(errors) => panic!("{:?}", errors),
    }
}

fn query(text: &str) -> Query {
    match tree(text) {
        Expr::Query(query) => *query,
        other => panic!("{:?}", other),
    }
}

fn shown(text: &str) -> String {
    format!("{:?}", tree(text))
}

#[test]
fn literals_keep_the_span_of_their_token() {
    assert!(matches!(tree(" 42 "), Expr::Lit(LitKind::Int, Span { start: 1, end: 3 })));
    assert!(matches!(tree("'a''b'"), Expr::Lit(LitKind::String, Span { start: 0, end: 6 })));
    assert!(matches!(tree("null"), Expr::Lit(LitKind::Null, Span { start: 0, end: 4 })));
    assert!(matches!(tree("Missing"), Expr::Lit(LitKind::Missing, _)));
    assert!(matches!(tree("true"), Expr::Lit(LitKind::True, _)));
    assert!(matches!(tree("FALSE"), Expr::Lit(LitKind::False, _)));
    assert!(matches!(tree("1.5"), Expr::Lit(LitKind::Real, _)));
    assert!(matches!(tree("1e5"), Expr::Lit(LitKind::ExpReal, _)));
    assert!(matches!(tree("`{a: 1}`"), Expr::Lit(LitKind::Ion, Span { start: 0, end: 8 })));
}

#[test]
fn names_are_looked_up_by_how_they_are_written() {
    assert!(matches!(
        tree("abc"),
        Expr::VarRef(Span { start: 0, end: 3 }, CaseSensitivity::CaseInsensitive)
    ));
    assert!(matches!(
        tree("\"abc\""),
        Expr::VarRef(Span { start: 0, end: 5 }, CaseSensitivity::CaseSensitive)
    ));
}

#[test]
fn tighter_operators_group_first() {
    assert_eq!(
        "Binary(Add, Lit(Int, Span { start: 0, end: 1 }), Binary(Mul, Lit(Int, Span { start: 4, end: 5 }), Lit(Int, Span { start: 8, end: 9 })))",
        shown("1 + 2 * 3")
    );
    assert_eq!(
        "Binary(Add, Binary(Mul, Lit(Int, Span { start: 0, end: 1 }), Lit(Int, Span { start: 4, end: 5 })), Lit(Int, Span { start: 8, end: 9 }))",
        shown("1 * 2 + 3")
    );
    assert!(matches!(tree("a OR b AND c"), Expr::Binary(BinaryOperator::Or, _, r)
        if matches!(*r, Expr::Binary(BinaryOperator::And, _, _))));
    assert!(matches!(tree("a AND b OR c"), Expr::Binary(BinaryOperator::Or, l, _)
        if matches!(*l, Expr::Binary(BinaryOperator::And, _, _))));
    assert!(matches!(tree("a = b || c"), Expr::Binary(BinaryOperator::Eq, _, r)
        if matches!(*r, Expr::Binary(BinaryOperator::Concat, _, _))));
    assert!(matches!(tree("a || b + c"), Expr::Binary(BinaryOperator::Concat, _, r)
        if matches!(*r, Expr::Binary(BinaryOperator::Add, _, _))));
    assert!(matches!(tree("a * b ^ c"), Expr::Binary(BinaryOperator::Mul, _, r)
        if matches!(*r, Expr::Binary(BinaryOperator::Exp, _, _))));
    assert!(matches!(tree("(1 + 2) * 3"), Expr::Binary(BinaryOperator::Mul, l, _)
        if matches!(*l, Expr::Binary(BinaryOperator::Add, _, _))));
}

#[test]
fn equal_operators_group_to_the_left() {
    assert!(matches!(tree("1 - 2 - 3"), Expr::Binary(BinaryOperator::Sub, l, r)
        if matches!(*l, Expr::Binary(BinaryOperator::Sub, _, _))
            && matches!(*r, Expr::Lit(LitKind::Int, Span { start: 8, end: 9 }))));
    assert!(matches!(tree("8 / 4 % 2"), Expr::Binary(BinaryOperator::Mod, l, _)
        if matches!(*l, Expr::Binary(BinaryOperator::Div, _, _))));
}

#[test]
fn every_operator_has_its_token() {
    let operator = |text: &str| match tree(text) {
        Expr::Binary(op, _, _) => op,
        other => panic!("{:?}", other),
    };
    assert_eq!(BinaryOperator::Or, operator("a or b"));
    assert_eq!(BinaryOperator::And, operator("a and b"));
    assert_eq!(BinaryOperator::Eq, operator("a = b"));
    assert_eq!(BinaryOperator::Eq, operator("a == b"));
    assert_eq!(BinaryOperator::Ne, operator("a != b"));
    assert_eq!(BinaryOperator::Ne, operator("a <> b"));
    assert_eq!(BinaryOperator::Lt, operator("a < b"));
    assert_eq!(BinaryOperator::Le, operator("a <= b"));
    assert_eq!(BinaryOperator::Gt, operator("a > b"));
    assert_eq!(BinaryOperator::Ge, operator("a >= b"));
    assert_eq!(BinaryOperator::Is, operator("a IS NULL"));
    assert_eq!(BinaryOperator::Like, operator("a LIKE 'x'"));
    assert_eq!(BinaryOperator::In, operator("a IN [1, 2]"));
    assert_eq!(BinaryOperator::Concat, operator("a || b"));
    assert_eq!(BinaryOperator::Add, operator("a + b"));
    assert_eq!(BinaryOperator::Sub, operator("a - b"));
    assert_eq!(BinaryOperator::Mul, operator("a * b"));
    assert_eq!(BinaryOperator::Div, operator("a / b"));
    assert_eq!(BinaryOperator::Mod, operator("a % b"));
    assert_eq!(BinaryOperator::Exp, operator("a ^ b"));
}

#[test]
fn signs_bind_tightest_and_not_takes_a_comparison() {
    assert!(matches!(tree("-a + b"), Expr::Binary(BinaryOperator::Add, l, _)
        if matches!(*l, Expr::Unary(UnaryOperator::Neg, _))));
    assert!(matches!(tree("+-a"), Expr::Unary(UnaryOperator::Pos, x)
        if matches!(*x, Expr::Unary(UnaryOperator::Neg, _))));
    assert!(matches!(tree("NOT a = b"), Expr::Unary(UnaryOperator::Not, x)
        if matches!(*x, Expr::Binary(BinaryOperator::Eq, _, _))));
    assert!(matches!(tree("NOT a AND b"), Expr::Binary(BinaryOperator::And, l, _)
        if matches!(*l, Expr::Unary(UnaryOperator::Not, _))));
    assert!(matches!(tree("-a.b"), Expr::Unary(UnaryOperator::Neg, x)
        if matches!(*x, Expr::Field(_, _, _))));
}

#[test]
fn paths_nest_to_the_left() {
    assert_eq!(
        "Index(Field(VarRef(Span { start: 0, end: 1 }, CaseInsensitive), Span { start: 2, end: 5 }, CaseSensitive), Lit(Int, Span { start: 6, end: 7 }))",
        shown("a.\"b\"[0]")
    );
    assert!(matches!(tree("a.b.c"), Expr::Field(base, Span { start: 4, end: 5 }, CaseSensitivity::CaseInsensitive)
        if matches!(*base, Expr::Field(_, Span { start: 2, end: 3 }, _))));
    assert!(parse_partiql("a.").is_err());
    assert!(parse_partiql("a.1").is_err());
    assert!(parse_partiql("a[1").is_err());
}

#[test]
fn calls_and_collections_hold_their_items_in_order() {
    assert_eq!(
        "Call(Span { start: 0, end: 1 }, Cons(Lit(Int, Span { start: 2, end: 3 }), Cons(VarRef(Span { start: 5, end: 6 }, CaseInsensitive), Nil)))",
        shown("f(1, x)")
    );
    assert!(matches!(tree("f()"), Expr::Call(_, args) if matches!(*args, ExprList::Nil)));
    assert!(matches!(tree("[]"), Expr::List(items) if matches!(*items, ExprList::Nil)));
    assert!(matches!(tree("<<1>>"), Expr::Bag(items)
        if matches!(&*items, ExprList::Cons(Expr::Lit(LitKind::Int, _), rest) if matches!(**rest, ExprList::Nil))));
    assert!(matches!(tree("{}"), Expr::Tuple(pairs) if matches!(*pairs, PairList::Nil)));
    assert_eq!(
        "Tuple(Cons(VarRef(Span { start: 1, end: 2 }, CaseInsensitive), Lit(Int, Span { start: 4, end: 5 }), Cons(Lit(String, Span { start: 7, end: 10 }), Lit(Null, Span { start: 12, end: 16 }), Nil)))",
        shown("{a: 1, 'b': NULL}")
    );
    assert!(parse_partiql("[1,]").is_err());
    assert!(parse_partiql("[1 2]").is_err());
    assert!(parse_partiql("{a 1}").is_err());
    assert!(parse_partiql("<<1]").is_err());
}

#[test]
fn a_bare_select() {
    let q = query("SELECT *");
    assert!(q.quantifier.is_none());
    assert!(matches!(q.projection, Projection::Star));
    assert!(q.from.is_none() && q.where_clause.is_none() && q.group_by.is_none());
    assert!(q.having.is_none() && q.order_by.is_none() && q.limit.is_none());
    assert!(q.offset.is_none());
    assert!(matches!(query("SELECT ALL *").quantifier, Some(SetQuantifier::All)));
    assert!(matches!(query("SELECT DISTINCT a").quantifier, Some(SetQuantifier::Distinct)));
    assert!(matches!(
        query("SELECT VALUE a + 1").projection,
        Projection::Value(Expr::Binary(BinaryOperator::Add, _, _))
    ));
}

#[test]
fn select_items_have_their_aliases() {
    let q = query("SELECT g, k as ck, h hh");
    match q.projection {
        Projection::Items(AliasedList::Cons(_, None, rest)) => match *rest {
            AliasedList::Cons(_, Some(Span { start: 15, end: 17 }), rest) => match *rest {
                AliasedList::Cons(_, Some(Span { start: 21, end: 23 }), rest) => {
                    assert!(matches!(*rest, AliasedList::Nil))
                }
                other => panic!("{:?}", other),
            },
            other => panic!("{:?}", other),
        },
        other => panic!("{:?}", other),
    }
    assert!(parse_partiql("SELECT a AS").is_err());
    assert!(parse_partiql("SELECT a AS 1").is_err());
    assert!(parse_partiql("SELECT a,").is_err());
}

#[test]
fn every_clause_in_its_place() {
    let q = query(
        "SELECT a FROM t WHERE a > 1 GROUP PARTIAL BY a AS k, b GROUP AS g HAVING k < 2 \
         ORDER BY a DESC NULLS LAST, b NULLS FIRST, c ASC, d LIMIT 10 OFFSET 2",
    );
    assert!(matches!(
        q.from,
        Some(TableRef::Source { unpivot: false, as_alias: None, at_alias: None, .. })
    ));
    assert!(matches!(q.where_clause, Some(Expr::Binary(BinaryOperator::Gt, _, _))));
    match q.group_by {
        Some(GroupBy { partial: true, keys: AliasedList::Cons(_, Some(_), rest), group_as: Some(_) }) => {
            assert!(matches!(*rest, AliasedList::Cons(_, None, _)))
        }
        other => panic!("{:?}", other),
    }
    assert!(matches!(q.having, Some(Expr::Binary(BinaryOperator::Lt, _, _))));
    match q.order_by {
        Some(OrderBy::Keys(SortList::Cons(
            _,
            Some(SortDirection::Desc),
            Some(NullsPlacement::Last),
            rest,
        ))) => match *rest {
            SortList::Cons(_, None, Some(NullsPlacement::First), rest) => match *rest {
                SortList::Cons(_, Some(SortDirection::Asc), None, rest) => match *rest {
                    SortList::Cons(_, None, None, rest) => assert!(matches!(*rest, SortList::Nil)),
                    other => panic!("{:?}", other),
                },
                other => panic!("{:?}", other),
            },
            other => panic!("{:?}", other),
        },
        other => panic!("{:?}", other),
    }
    assert!(matches!(q.limit, Some(Expr::Lit(LitKind::Int, _))));
    assert!(matches!(q.offset, Some(Expr::Lit(LitKind::Int, _))));
    assert!(matches!(query("SELECT a FROM t ORDER BY PRESERVE").order_by, Some(OrderBy::Preserve)));
    assert!(matches!(
        query("SELECT a FROM t GROUP BY a").group_by,
        Some(GroupBy { partial: false, group_as: None, .. })
    ));
}

#[test]
fn clauses_out_of_order_are_refused() {
    assert!(parse_partiql("SELECT a WHERE b FROM t").is_err());
    assert!(parse_partiql("SELECT a FROM t LIMIT 1 WHERE b").is_err());
    assert!(parse_partiql("SELECT a FROM t OFFSET 1 LIMIT 1").is_err());
    assert!(parse_partiql("SELECT a FROM t GROUP a").is_err());
    assert!(parse_partiql("SELECT a FROM t GROUP BY a GROUP g").is_err());
    assert!(parse_partiql("SELECT a FROM t GROUP BY a GROUP AS").is_err());
    assert!(parse_partiql("SELECT a FROM t ORDER a").is_err());
    assert!(parse_partiql("SELECT a FROM t ORDER BY a NULLS").is_err());
    assert!(parse_partiql("SELECT FROM t").is_err());
    assert!(parse_partiql("FROM t").is_err());
}

#[test]
fn joins_group_to_the_left() {
    let q = query("SELECT * FROM a, b AS x CROSS JOIN UNPIVOT c AS v AT k");
    match q.from {
        Some(TableRef::Join { kind: JoinKind::Cross, left, right, on: None }) => {
            assert!(matches!(
                *right,
                TableRef::Source { unpivot: true, as_alias: Some(_), at_alias: Some(_), .. }
            ));
            match *left {
                TableRef::Join { kind: JoinKind::Cross, left, right, on: None } => {
                    assert!(matches!(*left, TableRef::Source { as_alias: None, .. }));
                    assert!(matches!(
                        *right,
                        TableRef::Source {
                            unpivot: false,
                            as_alias: Some(Span { start: 22, end: 23 }),
                            at_alias: None,
                            ..
                        }
                    ));
                }
                other => panic!("{:?}", other),
            }
        }
        other => panic!("{:?}", other),
    }
}

#[test]
fn every_kind_of_join() {
    let kind = |text: &str| match query(text).from {
        Some(TableRef::Join { kind, on, .. }) => (kind, on.is_some()),
        other => panic!("{:?}", other),
    };
    assert_eq!((JoinKind::Cross, false), kind("SELECT * FROM a, b"));
    assert_eq!((JoinKind::Cross, false), kind("SELECT * FROM a CROSS JOIN b"));
    assert_eq!((JoinKind::Inner, true), kind("SELECT * FROM a JOIN b ON a.x = b.x"));
    assert_eq!((JoinKind::Inner, true), kind("SELECT * FROM a INNER JOIN b ON TRUE"));
    assert_eq!((JoinKind::Left, true), kind("SELECT * FROM a LEFT JOIN b ON TRUE"));
    assert_eq!((JoinKind::Left, false), kind("SELECT * FROM a LEFT OUTER JOIN b"));
    assert_eq!((JoinKind::Right, true), kind("SELECT * FROM a RIGHT JOIN b ON TRUE"));
    assert_eq!((JoinKind::Right, false), kind("SELECT * FROM a RIGHT OUTER JOIN b"));
    assert_eq!((JoinKind::Full, false), kind("SELECT * FROM a FULL JOIN b"));
    assert_eq!((JoinKind::Full, true), kind("SELECT * FROM a FULL OUTER JOIN b ON TRUE"));
    assert!(parse_partiql("SELECT * FROM a CROSS b").is_err());
    assert!(parse_partiql("SELECT * FROM a INNER b").is_err());
    assert!(parse_partiql("SELECT * FROM a LEFT OUTER b").is_err());
    assert!(parse_partiql("SELECT * FROM a JOIN").is_err());
}

#[test]
fn a_query_in_brackets_is_an_expression() {
    assert!(matches!(tree("(SELECT a FROM t)"), Expr::Query(_)));
    assert!(matches!(tree("1 + (SELECT VALUE a FROM t)"), Expr::Binary(BinaryOperator::Add, _, r)
        if matches!(*r, Expr::Query(_))));
    assert!(matches!(
        query("SELECT * FROM (SELECT a FROM t) AS s").from,
        Some(TableRef::Source { expr: Expr::Query(_), as_alias: Some(_), .. })
    ));
    assert!(parse_partiql("(SELECT a FROM t").is_err());
    assert!(parse_partiql("1 + SELECT a").is_err());
}
