//! What every rule of the grammar keeps. A rule that gives a tree has gone
//! forward among the tokens, and a rule that fails names a place from where
//! it started on. What a rule notes are places of `AT` tokens that it has
//! passed, in rising order, after the places noted before.

use crate::ast::{Expr, Query, TableRef};
use crate::grammar::{
    alias_rule, aliased_list_rule, binary_operator, binary_rest_rule, binary_rule,
    closed_list_rule, closed_pairs_rule, closes_at, direction_rule, expr_list_rule, expr_rule,
    from_clause_rule, from_rest_rule, from_rule, group_by_rule, join_kind_rule, kind_at, leads_at,
    led_expr_rule, literal_kind, name_at, nulls_rule, order_by_rule,
    pair_list_rule, path_rest_rule, path_rule, projection_rule, quantifier_rule, query_rule,
    query_tail_rule, sort_list_rule, table_source_rule, term_rule, top_rule,
    unary_rule, Closer, Entry, Lead, Parsed, Tok, NOT_BINDS,
};
use crate::token::Token;
use vstd::prelude::*;

verus! {

/// The places in `after` are those in `before` and then places of `AT`
/// tokens from `lo` up to `hi`, in rising order.
pub open spec fn notes_extend(
    toks: Seq<Tok>,
    before: Seq<usize>,
    after: Seq<usize>,
    lo: int,
    hi: int,
) -> bool {
    &&& before.is_prefix_of(after)
    &&& forall|k: int|
        before.len() <= k < after.len() ==> lo <= #[trigger] after[k] < hi && kind_at(
            toks,
            after[k] as int,
        ) == Some(Token::<Seq<char>>::At)
    &&& forall|j: int, k: int|
        before.len() <= j < k < after.len() ==> #[trigger] after[j] < #[trigger] after[k]
}

/// Where a rule ended: whether it gave a tree, the place after the tree or
/// the place where it failed, and the places noted.
pub open spec fn outcome<T>(r: Parsed<T>) -> (bool, int, Seq<usize>) {
    match r {
        Parsed::Done(_, p, e) => (true, p, e),
        Parsed::Fatal(i, e) => (false, i, e),
    }
}

/// A rule that started at `pos` with `errs` noted ended in order: at a place
/// from `pos` on, with places noted that it has passed.
pub open spec fn in_order(
    toks: Seq<Tok>,
    pos: int,
    errs: Seq<usize>,
    end: (bool, int, Seq<usize>),
) -> bool {
    &&& pos <= end.1 <= toks.len()
    &&& notes_extend(
        toks,
        errs,
        end.2,
        pos,
        if end.0 {
            end.1
        } else {
            toks.len() as int
        },
    )
}

/// The rule ended in order, and went forward if it gave a tree.
pub open spec fn goes_forward<T>(toks: Seq<Tok>, pos: int, errs: Seq<usize>, r: Parsed<T>) -> bool {
    in_order(toks, pos, errs, outcome(r)) && (r is Done ==> pos < outcome(r).1)
}

/// The rule ended in order.
pub open spec fn goes_on<T>(toks: Seq<Tok>, pos: int, errs: Seq<usize>, r: Parsed<T>) -> bool {
    in_order(toks, pos, errs, outcome(r))
}

/// What ends in order after something that ended in order, ends in order
/// from where the first started.
proof fn lemma_after(
    toks: Seq<Tok>,
    pos: int,
    errs: Seq<usize>,
    mid: int,
    noted: Seq<usize>,
    from: int,
    end: (bool, int, Seq<usize>),
)
    requires
        pos <= mid <= from <= toks.len(),
        notes_extend(toks, errs, noted, pos, mid),
        in_order(toks, from, noted, end),
    ensures
        in_order(toks, pos, errs, end),
{
    let hi = if end.0 {
        end.1
    } else {
        toks.len() as int
    };
    assert forall|k: int| errs.len() <= k < end.2.len() implies pos <= #[trigger] end.2[k] < hi
        && kind_at(toks, end.2[k] as int) == Some(Token::<Seq<char>>::At) by {
        if k < noted.len() {
            assert(end.2[k] == noted[k]);
        }
    }
    assert forall|j: int, k: int| errs.len() <= j < k < end.2.len() implies #[trigger] end.2[j]
        < #[trigger] end.2[k] by {
        if j < noted.len() {
            assert(end.2[j] == noted[j]);
        }
        if k < noted.len() {
            assert(end.2[k] == noted[k]);
        }
    }
}

/// Noting the place of an `AT` token that lies after all that was passed
/// keeps the notes in order.
proof fn lemma_note(
    toks: Seq<Tok>,
    errs: Seq<usize>,
    noted: Seq<usize>,
    pos: int,
    mid: int,
    place: int,
    hi: int,
)
    requires
        toks.len() <= usize::MAX,
        notes_extend(toks, errs, noted, pos, mid),
        pos <= mid <= place < hi <= toks.len(),
        kind_at(toks, place) == Some(Token::<Seq<char>>::At),
    ensures
        notes_extend(toks, errs, noted.push(place as usize), pos, hi),
{
    let after = noted.push(place as usize);
    assert forall|j: int, k: int| errs.len() <= j < k < after.len() implies #[trigger] after[j]
        < #[trigger] after[k] by {
        assert(after[j] == noted[j]);
        if k < noted.len() {
            assert(after[k] == noted[k]);
        }
    }
}

pub proof fn lemma_term(toks: Seq<Tok>, pos: int, errs: Seq<usize>)
    requires
        0 <= pos <= toks.len() <= usize::MAX,
    ensures
        goes_forward(toks, pos, errs, term_rule(toks, pos, errs)),
    decreases toks.len() - pos, 0int,
{
    match kind_at(toks, pos) {
        None => {},
        Some(t) => if literal_kind(t) is None {
            match t {
                Token::Identifier(_) => if kind_at(toks, pos + 1) == Some(
                    Token::<Seq<char>>::OpenParen,
                ) {
                    lemma_closed_list(toks, pos + 2, Closer::Paren, errs);
                },
                Token::OpenParen => if kind_at(toks, pos + 1) == Some(
                    Token::<Seq<char>>::Select,
                ) {
                    lemma_query(toks, pos + 1, errs);
                } else {
                    lemma_expr(toks, pos + 1, errs);
                },
                Token::OpenSquare => lemma_closed_list(toks, pos + 1, Closer::Square, errs),
                Token::OpenDblAngle => lemma_closed_list(toks, pos + 1, Closer::DblAngle, errs),
                Token::OpenCurly => lemma_closed_pairs(toks, pos + 1, errs),
                _ => {},
            }
        },
    }
}

pub proof fn lemma_path_rest(toks: Seq<Tok>, base: Expr, pos: int, errs: Seq<usize>)
    requires
        0 <= pos <= toks.len() <= usize::MAX,
    ensures
        goes_on(toks, pos, errs, path_rest_rule(toks, base, pos, errs)),
    decreases toks.len() - pos, 0int,
{
    match kind_at(toks, pos) {
        Some(Token::Period) => match kind_at(toks, pos + 1) {
            Some(Token::Identifier(_)) => {
                let field = Expr::Field(
                    Box::new(base),
                    crate::grammar::span_at(toks, pos + 1),
                    crate::ast::CaseSensitivity::CaseInsensitive,
                );
                lemma_path_rest(toks, field, pos + 2, errs);
            },
            Some(Token::QuotedIdentifier(_)) => {
                let field = Expr::Field(
                    Box::new(base),
                    crate::grammar::span_at(toks, pos + 1),
                    crate::ast::CaseSensitivity::CaseSensitive,
                );
                lemma_path_rest(toks, field, pos + 2, errs);
            },
            _ => {},
        },
        Some(Token::OpenSquare) => {
            lemma_expr(toks, pos + 1, errs);
            match expr_rule(toks, pos + 1, errs) {
                Parsed::Done(index, p, e) => if closes_at(toks, p, Closer::Square) {
                    let step = Expr::Index(Box::new(base), Box::new(index));
                    lemma_path_rest(toks, step, p + 1, e);
                    lemma_after(
                        toks,
                        pos,
                        errs,
                        p,
                        e,
                        p + 1,
                        outcome(path_rest_rule(toks, step, p + 1, e)),
                    );
                },
                Parsed::Fatal(_, _) => {},
            }
        },
        _ => {},
    }
}

pub proof fn lemma_path(toks: Seq<Tok>, pos: int, errs: Seq<usize>)
    requires
        0 <= pos <= toks.len() <= usize::MAX,
    ensures
        goes_forward(toks, pos, errs, path_rule(toks, pos, errs)),
    decreases toks.len() - pos, 1int,
{
    lemma_term(toks, pos, errs);
    match term_rule(toks, pos, errs) {
        Parsed::Done(base, p, e) => {
            lemma_path_rest(toks, base, p, e);
            lemma_after(toks, pos, errs, p, e, p, outcome(path_rest_rule(toks, base, p, e)));
        },
        Parsed::Fatal(_, _) => {},
    }
}

pub proof fn lemma_unary(toks: Seq<Tok>, pos: int, errs: Seq<usize>)
    requires
        0 <= pos <= toks.len() <= usize::MAX,
    ensures
        goes_forward(toks, pos, errs, unary_rule(toks, pos, errs)),
    decreases toks.len() - pos, 2int,
{
    match kind_at(toks, pos) {
        Some(Token::Minus) => lemma_unary(toks, pos + 1, errs),
        Some(Token::Plus) => lemma_unary(toks, pos + 1, errs),
        Some(Token::Not) => lemma_binary(toks, pos + 1, (NOT_BINDS + 1) as u8, errs),
        _ => lemma_path(toks, pos, errs),
    }
}

pub proof fn lemma_binary_rest(toks: Seq<Tok>, lhs: Expr, pos: int, min: u8, errs: Seq<usize>)
    requires
        0 <= pos <= toks.len() <= usize::MAX,
    ensures
        goes_on(toks, pos, errs, binary_rest_rule(toks, lhs, pos, min, errs)),
    decreases toks.len() - pos, 0int,
{
    match kind_at(toks, pos) {
        None => {},
        Some(t) => match binary_operator(t) {
            Some((op, binds)) => if binds >= min {
                lemma_binary(toks, pos + 1, (binds + 1) as u8, errs);
                match binary_rule(toks, pos + 1, (binds + 1) as u8, errs) {
                    Parsed::Done(rhs, p, e) => {
                        let joined = Expr::Binary(op, Box::new(lhs), Box::new(rhs));
                        lemma_binary_rest(toks, joined, p, min, e);
                        lemma_after(
                            toks,
                            pos,
                            errs,
                            p,
                            e,
                            p,
                            outcome(binary_rest_rule(toks, joined, p, min, e)),
                        );
                    },
                    Parsed::Fatal(_, _) => {},
                }
            },
            None => {},
        },
    }
}

pub proof fn lemma_binary(toks: Seq<Tok>, pos: int, min: u8, errs: Seq<usize>)
    requires
        0 <= pos <= toks.len() <= usize::MAX,
    ensures
        goes_forward(toks, pos, errs, binary_rule(toks, pos, min, errs)),
    decreases toks.len() - pos, 3int,
{
    lemma_unary(toks, pos, errs);
    match unary_rule(toks, pos, errs) {
        Parsed::Done(lhs, p, e) => {
            lemma_binary_rest(toks, lhs, p, min, e);
            lemma_after(toks, pos, errs, p, e, p, outcome(binary_rest_rule(toks, lhs, p, min, e)));
        },
        Parsed::Fatal(_, _) => {},
    }
}

pub proof fn lemma_expr(toks: Seq<Tok>, pos: int, errs: Seq<usize>)
    requires
        0 <= pos <= toks.len() <= usize::MAX,
    ensures
        goes_forward(toks, pos, errs, expr_rule(toks, pos, errs)),
    decreases toks.len() - pos, 4int,
{
    lemma_binary(toks, pos, 1u8, errs);
}

pub proof fn lemma_expr_list(toks: Seq<Tok>, pos: int, errs: Seq<usize>)
    requires
        0 <= pos <= toks.len() <= usize::MAX,
    ensures
        goes_forward(toks, pos, errs, expr_list_rule(toks, pos, errs)),
    decreases toks.len() - pos, 5int,
{
    lemma_expr(toks, pos, errs);
    match expr_rule(toks, pos, errs) {
        Parsed::Done(_, p, e) => if kind_at(toks, p) == Some(Token::<Seq<char>>::Comma) {
            lemma_expr_list(toks, p + 1, e);
            lemma_after(toks, pos, errs, p, e, p + 1, outcome(expr_list_rule(toks, p + 1, e)));
        },
        Parsed::Fatal(_, _) => {},
    }
}

pub proof fn lemma_closed_list(toks: Seq<Tok>, pos: int, closer: Closer, errs: Seq<usize>)
    requires
        0 <= pos <= toks.len() <= usize::MAX,
    ensures
        goes_forward(toks, pos, errs, closed_list_rule(toks, pos, closer, errs)),
    decreases toks.len() - pos, 6int,
{
    if !closes_at(toks, pos, closer) {
        lemma_expr_list(toks, pos, errs);
    }
}

pub proof fn lemma_pair_list(toks: Seq<Tok>, pos: int, errs: Seq<usize>)
    requires
        0 <= pos <= toks.len() <= usize::MAX,
    ensures
        goes_forward(toks, pos, errs, pair_list_rule(toks, pos, errs)),
    decreases toks.len() - pos, 5int,
{
    lemma_expr(toks, pos, errs);
    match expr_rule(toks, pos, errs) {
        Parsed::Done(_, p, e) => if kind_at(toks, p) == Some(Token::<Seq<char>>::Colon) {
            lemma_expr(toks, p + 1, e);
            lemma_after(toks, pos, errs, p, e, p + 1, outcome(expr_rule(toks, p + 1, e)));
            match expr_rule(toks, p + 1, e) {
                Parsed::Done(_, p2, e2) => if kind_at(toks, p2) == Some(
                    Token::<Seq<char>>::Comma,
                ) {
                    lemma_pair_list(toks, p2 + 1, e2);
                    lemma_after(
                        toks,
                        pos,
                        errs,
                        p2,
                        e2,
                        p2 + 1,
                        outcome(pair_list_rule(toks, p2 + 1, e2)),
                    );
                },
                Parsed::Fatal(_, _) => {},
            }
        },
        Parsed::Fatal(_, _) => {},
    }
}

pub proof fn lemma_closed_pairs(toks: Seq<Tok>, pos: int, errs: Seq<usize>)
    requires
        0 <= pos <= toks.len() <= usize::MAX,
    ensures
        goes_forward(toks, pos, errs, closed_pairs_rule(toks, pos, errs)),
    decreases toks.len() - pos, 6int,
{
    if kind_at(toks, pos) != Some(Token::<Seq<char>>::CloseCurly) {
        lemma_pair_list(toks, pos, errs);
    }
}

pub proof fn lemma_table_source(toks: Seq<Tok>, pos: int, errs: Seq<usize>)
    requires
        0 <= pos <= toks.len() <= usize::MAX,
    ensures
        goes_forward(toks, pos, errs, table_source_rule(toks, pos, errs)),
    decreases toks.len() - pos, 5int,
{
    if kind_at(toks, pos) == Some(Token::<Seq<char>>::Unpivot) {
        lemma_expr(toks, pos + 1, errs);
    } else {
        lemma_expr(toks, pos, errs);
        match expr_rule(toks, pos, errs) {
            Parsed::Done(_, p, e) => match alias_rule(toks, p) {
                Ok((_, p2)) => if leads_at(toks, p2, Lead::At) {
                    let end = if name_at(toks, p2 + 1) {
                        p2 + 2
                    } else {
                        p2 + 1
                    };
                    lemma_note(toks, errs, e, pos, p, p2, end);
                },
                Err(_) => {},
            },
            Parsed::Fatal(_, _) => {},
        }
    }
}

pub proof fn lemma_led_expr(toks: Seq<Tok>, pos: int, lead: Lead, errs: Seq<usize>)
    requires
        0 <= pos <= toks.len() <= usize::MAX,
    ensures
        goes_on(toks, pos, errs, led_expr_rule(toks, pos, lead, errs)),
    decreases toks.len() - pos, 0int,
{
    if leads_at(toks, pos, lead) {
        lemma_expr(toks, pos + 1, errs);
    }
}

pub proof fn lemma_from_rest(toks: Seq<Tok>, left: TableRef, pos: int, errs: Seq<usize>)
    requires
        0 <= pos <= toks.len() <= usize::MAX,
    ensures
        goes_on(toks, pos, errs, from_rest_rule(toks, left, pos, errs)),
    decreases toks.len() - pos, 0int,
{
    match join_kind_rule(toks, pos) {
        None => {},
        Some((kind, p)) => {
            lemma_table_source(toks, p, errs);
            match table_source_rule(toks, p, errs) {
                Parsed::Done(right, p2, e) => {
                    lemma_led_expr(toks, p2, Lead::On, e);
                    lemma_after(
                        toks,
                        pos,
                        errs,
                        p2,
                        e,
                        p2,
                        outcome(led_expr_rule(toks, p2, Lead::On, e)),
                    );
                    match led_expr_rule(toks, p2, Lead::On, e) {
                        Parsed::Done(on, p3, e3) => {
                            let joined = TableRef::Join {
                                kind,
                                left: Box::new(left),
                                right: Box::new(right),
                                on,
                            };
                            lemma_from_rest(toks, joined, p3, e3);
                            lemma_after(
                                toks,
                                pos,
                                errs,
                                p3,
                                e3,
                                p3,
                                outcome(from_rest_rule(toks, joined, p3, e3)),
                            );
                        },
                        Parsed::Fatal(_, _) => {},
                    }
                },
                Parsed::Fatal(_, _) => {},
            }
        },
    }
}

pub proof fn lemma_from(toks: Seq<Tok>, pos: int, errs: Seq<usize>)
    requires
        0 <= pos <= toks.len() <= usize::MAX,
    ensures
        goes_forward(toks, pos, errs, from_rule(toks, pos, errs)),
    decreases toks.len() - pos, 6int,
{
    lemma_table_source(toks, pos, errs);
    match table_source_rule(toks, pos, errs) {
        Parsed::Done(first, p, e) => {
            lemma_from_rest(toks, first, p, e);
            lemma_after(toks, pos, errs, p, e, p, outcome(from_rest_rule(toks, first, p, e)));
        },
        Parsed::Fatal(_, _) => {},
    }
}

pub proof fn lemma_aliased_list(toks: Seq<Tok>, pos: int, errs: Seq<usize>)
    requires
        0 <= pos <= toks.len() <= usize::MAX,
    ensures
        goes_forward(toks, pos, errs, aliased_list_rule(toks, pos, errs)),
    decreases toks.len() - pos, 5int,
{
    lemma_expr(toks, pos, errs);
    match expr_rule(toks, pos, errs) {
        Parsed::Done(_, p, e) => match alias_rule(toks, p) {
            Ok((_, p2)) => if kind_at(toks, p2) == Some(Token::<Seq<char>>::Comma) {
                lemma_aliased_list(toks, p2 + 1, e);
                lemma_after(
                    toks,
                    pos,
                    errs,
                    p,
                    e,
                    p2 + 1,
                    outcome(aliased_list_rule(toks, p2 + 1, e)),
                );
            },
            Err(_) => {},
        },
        Parsed::Fatal(_, _) => {},
    }
}

pub proof fn lemma_sort_list(toks: Seq<Tok>, pos: int, errs: Seq<usize>)
    requires
        0 <= pos <= toks.len() <= usize::MAX,
    ensures
        goes_forward(toks, pos, errs, sort_list_rule(toks, pos, errs)),
    decreases toks.len() - pos, 5int,
{
    lemma_expr(toks, pos, errs);
    match expr_rule(toks, pos, errs) {
        Parsed::Done(_, p, e) => {
            let (_, p2) = direction_rule(toks, p);
            match nulls_rule(toks, p2) {
                Ok((_, p3)) => if kind_at(toks, p3) == Some(Token::<Seq<char>>::Comma) {
                    lemma_sort_list(toks, p3 + 1, e);
                    lemma_after(
                        toks,
                        pos,
                        errs,
                        p,
                        e,
                        p3 + 1,
                        outcome(sort_list_rule(toks, p3 + 1, e)),
                    );
                },
                Err(_) => {},
            }
        },
        Parsed::Fatal(_, _) => {},
    }
}

pub proof fn lemma_projection(toks: Seq<Tok>, pos: int, errs: Seq<usize>)
    requires
        0 <= pos <= toks.len() <= usize::MAX,
    ensures
        goes_forward(toks, pos, errs, projection_rule(toks, pos, errs)),
    decreases toks.len() - pos, 6int,
{
    match kind_at(toks, pos) {
        Some(Token::Star) => {},
        Some(Token::Value) => lemma_expr(toks, pos + 1, errs),
        _ => lemma_aliased_list(toks, pos, errs),
    }
}

pub proof fn lemma_from_clause(toks: Seq<Tok>, pos: int, errs: Seq<usize>)
    requires
        0 <= pos <= toks.len() <= usize::MAX,
    ensures
        goes_on(toks, pos, errs, from_clause_rule(toks, pos, errs)),
    decreases toks.len() - pos, 0int,
{
    if kind_at(toks, pos) == Some(Token::<Seq<char>>::From) {
        lemma_from(toks, pos + 1, errs);
    }
}

pub proof fn lemma_group_by(toks: Seq<Tok>, pos: int, errs: Seq<usize>)
    requires
        0 <= pos <= toks.len() <= usize::MAX,
    ensures
        goes_on(toks, pos, errs, group_by_rule(toks, pos, errs)),
    decreases toks.len() - pos, 0int,
{
    if kind_at(toks, pos) == Some(Token::<Seq<char>>::Group) {
        let by = if kind_at(toks, pos + 1) == Some(Token::<Seq<char>>::Partial) {
            pos + 2
        } else {
            pos + 1
        };
        if kind_at(toks, by) == Some(Token::<Seq<char>>::By) {
            lemma_aliased_list(toks, by + 1, errs);
        }
    }
}

pub proof fn lemma_order_by(toks: Seq<Tok>, pos: int, errs: Seq<usize>)
    requires
        0 <= pos <= toks.len() <= usize::MAX,
    ensures
        goes_on(toks, pos, errs, order_by_rule(toks, pos, errs)),
    decreases toks.len() - pos, 0int,
{
    if kind_at(toks, pos) == Some(Token::<Seq<char>>::Order) && kind_at(toks, pos + 1) == Some(
        Token::<Seq<char>>::By,
    ) && kind_at(toks, pos + 2) != Some(Token::<Seq<char>>::Preserve) {
        lemma_sort_list(toks, pos + 2, errs);
    }
}

pub proof fn lemma_query_tail(toks: Seq<Tok>, head: Query, start: int, pos: int, errs: Seq<usize>)
    requires
        0 <= start < pos <= toks.len() <= usize::MAX,
    ensures
        goes_on(toks, pos, errs, query_tail_rule(toks, head, start, pos, errs)),
    decreases toks.len() - start, 1int,
{
    lemma_led_expr(toks, pos, Lead::Having, errs);
    match led_expr_rule(toks, pos, Lead::Having, errs) {
        Parsed::Done(_, p1, e1) => {
            lemma_order_by(toks, p1, e1);
            lemma_after(toks, pos, errs, p1, e1, p1, outcome(order_by_rule(toks, p1, e1)));
            match order_by_rule(toks, p1, e1) {
                Parsed::Done(_, p2, e2) => {
                    lemma_led_expr(toks, p2, Lead::Limit, e2);
                    lemma_after(
                        toks,
                        pos,
                        errs,
                        p2,
                        e2,
                        p2,
                        outcome(led_expr_rule(toks, p2, Lead::Limit, e2)),
                    );
                    match led_expr_rule(toks, p2, Lead::Limit, e2) {
                        Parsed::Done(_, p3, e3) => {
                            lemma_led_expr(toks, p3, Lead::Offset, e3);
                            lemma_after(
                                toks,
                                pos,
                                errs,
                                p3,
                                e3,
                                p3,
                                outcome(led_expr_rule(toks, p3, Lead::Offset, e3)),
                            );
                        },
                        Parsed::Fatal(_, _) => {},
                    }
                },
                Parsed::Fatal(_, _) => {},
            }
        },
        Parsed::Fatal(_, _) => {},
    }
}

pub proof fn lemma_query(toks: Seq<Tok>, pos: int, errs: Seq<usize>)
    requires
        0 <= pos <= toks.len() <= usize::MAX,
    ensures
        goes_forward(toks, pos, errs, query_rule(toks, pos, errs)),
    decreases toks.len() - pos, 2int,
{
    if kind_at(toks, pos) == Some(Token::<Seq<char>>::Select) {
        let (quantifier, p0) = quantifier_rule(toks, pos + 1);
        lemma_projection(toks, p0, errs);
        match projection_rule(toks, p0, errs) {
            Parsed::Done(projection, p1, e1) => {
                lemma_from_clause(toks, p1, e1);
                lemma_after(toks, pos, errs, p1, e1, p1, outcome(from_clause_rule(toks, p1, e1)));
                match from_clause_rule(toks, p1, e1) {
                    Parsed::Done(from, p2, e2) => {
                        lemma_led_expr(toks, p2, Lead::Where, e2);
                        lemma_after(
                            toks,
                            pos,
                            errs,
                            p2,
                            e2,
                            p2,
                            outcome(led_expr_rule(toks, p2, Lead::Where, e2)),
                        );
                        match led_expr_rule(toks, p2, Lead::Where, e2) {
                            Parsed::Done(where_clause, p3, e3) => {
                                lemma_group_by(toks, p3, e3);
                                lemma_after(
                                    toks,
                                    pos,
                                    errs,
                                    p3,
                                    e3,
                                    p3,
                                    outcome(group_by_rule(toks, p3, e3)),
                                );
                                match group_by_rule(toks, p3, e3) {
                                    Parsed::Done(group_by, p4, e4) => {
                                        let head = Query {
                                            quantifier,
                                            projection,
                                            from,
                                            where_clause,
                                            group_by,
                                            having: None,
                                            order_by: None,
                                            limit: None,
                                            offset: None,
                                        };
                                        lemma_query_tail(toks, head, pos, p4, e4);
                                        lemma_after(
                                            toks,
                                            pos,
                                            errs,
                                            p4,
                                            e4,
                                            p4,
                                            outcome(query_tail_rule(toks, head, pos, p4, e4)),
                                        );
                                    },
                                    Parsed::Fatal(_, _) => {},
                                }
                            },
                            Parsed::Fatal(_, _) => {},
                        }
                    },
                    Parsed::Fatal(_, _) => {},
                }
            },
            Parsed::Fatal(_, _) => {},
        }
    }
}

/// Parsing all the tokens ends in order. What is noted are places of `AT`
/// tokens, each the place of a token, in rising order; and a tree is given
/// only when all the tokens have been passed.
pub proof fn lemma_top(toks: Seq<Tok>, entry: Entry)
    requires
        toks.len() <= usize::MAX,
    ensures
        in_order(toks, 0, Seq::empty(), outcome(top_rule(toks, entry, Seq::empty()))),
        top_rule(toks, entry, Seq::empty()) matches Parsed::Done(_, p, _) ==> p == toks.len(),
{
    reveal(top_rule);
    let errs = Seq::<usize>::empty();
    match entry {
        Entry::Query => if kind_at(toks, 0) == Some(Token::<Seq<char>>::Select) {
            lemma_query(toks, 0, errs);
        } else {
            lemma_expr(toks, 0, errs);
        },
        Entry::ExprTerm => lemma_term(toks, 0, errs),
        Entry::Literal => {},
    }
}

} // verus!
