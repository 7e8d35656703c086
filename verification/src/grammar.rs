//! The grammar: a recursive-descent parser over the tokens of a text. Each
//! rule is stated as a function from the tokens and a place among them to a
//! tree and the place after it, and has a parser that computes it. A rule
//! that fails names the token it could not accept. Errors that parsing gets
//! over are noted, by the place of their token, and parsing goes on.

use crate::ast::{
    AliasedList, BinaryOperator, CaseSensitivity, Expr, ExprList, GroupBy, JoinKind, LitKind,
    NullsPlacement, OrderBy, PairList, Projection, Query, SetQuantifier, SortDirection, SortList,
    Span, TableRef, UnaryOperator,
};
use crate::lexer::{spanned_seq_view, Spanned};
use crate::location::ByteOffset;
use crate::token::Token;
use vstd::prelude::*;

verus! {

/// A token as the lexer hands it out.
pub type SpannedToken<'a> = Spanned<Token<&'a str>, ByteOffset>;

/// A token as the rules see it.
pub type Tok = Spanned<Token<Seq<char>>, ByteOffset>;

/// What a rule gives at a place among the tokens, with the errors noted so
/// far: a tree and the place after it, or the place of the token that it
/// could not accept (the number of tokens, where the text ends too early).
pub ghost enum Parsed<T> {
    Done(T, int, Seq<usize>),
    Fatal(int, Seq<usize>),
}

/// What a parser returned is what its rule gives.
pub open spec fn agrees<T>(r: Result<(T, usize), usize>, errs: Seq<usize>, m: Parsed<T>) -> bool {
    match r {
        Ok((tree, p)) => m == Parsed::Done(tree, p as int, errs),
        Err(i) => m == Parsed::<T>::Fatal(i as int, errs),
    }
}

/// A rule went forward from `pos` to `p` among the tokens.
pub open spec fn advanced(toks: Seq<Tok>, pos: int, p: int) -> bool {
    pos < p <= toks.len()
}

/// The token at `pos`, if there is one.
pub open spec fn kind_at(toks: Seq<Tok>, pos: int) -> Option<Token<Seq<char>>> {
    if 0 <= pos < toks.len() {
        Some(toks[pos].1)
    } else {
        None
    }
}

/// The span of the token at `pos`.
pub open spec fn span_at(toks: Seq<Tok>, pos: int) -> Span {
    Span { start: toks[pos].0.0, end: toks[pos].2.0 }
}

/// The kind of literal that a token is, if it is one.
pub open spec fn literal_kind<S>(t: Token<S>) -> Option<LitKind> {
    match t {
        Token::Null => Some(LitKind::Null),
        Token::Missing => Some(LitKind::Missing),
        Token::True => Some(LitKind::True),
        Token::False => Some(LitKind::False),
        Token::Int(_) => Some(LitKind::Int),
        Token::Real(_) => Some(LitKind::Real),
        Token::ExpReal(_) => Some(LitKind::ExpReal),
        Token::String(_) => Some(LitKind::String),
        Token::Ion(_) => Some(LitKind::Ion),
        _ => None,
    }
}

/// The binary operator that a token is, if it is one, and how tightly it
/// binds: a higher number binds tighter.
pub open spec fn binary_operator<S>(t: Token<S>) -> Option<(BinaryOperator, u8)> {
    match t {
        Token::Or => Some((BinaryOperator::Or, 1u8)),
        Token::And => Some((BinaryOperator::And, 2u8)),
        Token::Equal => Some((BinaryOperator::Eq, 4u8)),
        Token::EqualEqual => Some((BinaryOperator::Eq, 4u8)),
        Token::BangEqual => Some((BinaryOperator::Ne, 4u8)),
        Token::LessGreater => Some((BinaryOperator::Ne, 4u8)),
        Token::LessThan => Some((BinaryOperator::Lt, 4u8)),
        Token::LessEqual => Some((BinaryOperator::Le, 4u8)),
        Token::GreaterThan => Some((BinaryOperator::Gt, 4u8)),
        Token::GreaterEqual => Some((BinaryOperator::Ge, 4u8)),
        Token::Is => Some((BinaryOperator::Is, 4u8)),
        Token::Like => Some((BinaryOperator::Like, 4u8)),
        Token::In => Some((BinaryOperator::In, 4u8)),
        Token::DblPipe => Some((BinaryOperator::Concat, 5u8)),
        Token::Plus => Some((BinaryOperator::Add, 6u8)),
        Token::Minus => Some((BinaryOperator::Sub, 6u8)),
        Token::Star => Some((BinaryOperator::Mul, 7u8)),
        Token::Slash => Some((BinaryOperator::Div, 7u8)),
        Token::Percent => Some((BinaryOperator::Mod, 7u8)),
        Token::Caret => Some((BinaryOperator::Exp, 8u8)),
        _ => None,
    }
}

/// How tightly `NOT` binds: tighter than `AND`, looser than a comparison.
pub const NOT_BINDS: u8 = 3;

/// The brackets that close a list.
#[derive(Debug, Clone, Copy, PartialEq, Eq, Structural)]
pub enum Closer {
    Paren,
    Square,
    DblAngle,
}

/// The token is the closing bracket.
pub open spec fn closes<S>(closer: Closer, t: Token<S>) -> bool {
    match closer {
        Closer::Paren => t is CloseParen,
        Closer::Square => t is CloseSquare,
        Closer::DblAngle => t is CloseDblAngle,
    }
}

/// The closing bracket stands at `pos`.
pub open spec fn closes_at(toks: Seq<Tok>, pos: int, closer: Closer) -> bool {
    kind_at(toks, pos) matches Some(t) && closes(closer, t)
}

/// A term: a literal, a name, a call, or something in brackets.
pub open spec fn term_rule(toks: Seq<Tok>, pos: int, errs: Seq<usize>) -> Parsed<Expr>
    decreases toks.len() - pos, 0int,
{
    match kind_at(toks, pos) {
        None => Parsed::Fatal(pos, errs),
        Some(t) => match literal_kind(t) {
            Some(kind) => Parsed::Done(Expr::Lit(kind, span_at(toks, pos)), pos + 1, errs),
            None => match t {
                Token::Identifier(_) => if kind_at(toks, pos + 1) == Some(
                    Token::<Seq<char>>::OpenParen,
                ) {
                    match closed_list_rule(toks, pos + 2, Closer::Paren, errs) {
                        Parsed::Done(args, p, e) => Parsed::Done(
                            Expr::Call(span_at(toks, pos), Box::new(args)),
                            p,
                            e,
                        ),
                        Parsed::Fatal(i, e) => Parsed::Fatal(i, e),
                    }
                } else {
                    Parsed::Done(
                        Expr::VarRef(span_at(toks, pos), CaseSensitivity::CaseInsensitive),
                        pos + 1,
                        errs,
                    )
                },
                Token::QuotedIdentifier(_) => Parsed::Done(
                    Expr::VarRef(span_at(toks, pos), CaseSensitivity::CaseSensitive),
                    pos + 1,
                    errs,
                ),
                Token::OpenParen => if kind_at(toks, pos + 1) == Some(
                    Token::<Seq<char>>::Select,
                ) {
                    match query_rule(toks, pos + 1, errs) {
                        Parsed::Done(query, p, e) => if closes_at(toks, p, Closer::Paren) {
                            Parsed::Done(Expr::Query(Box::new(query)), p + 1, e)
                        } else {
                            Parsed::Fatal(p, e)
                        },
                        Parsed::Fatal(i, e) => Parsed::Fatal(i, e),
                    }
                } else {
                    match expr_rule(toks, pos + 1, errs) {
                        Parsed::Done(inner, p, e) => if closes_at(toks, p, Closer::Paren) {
                            Parsed::Done(inner, p + 1, e)
                        } else {
                            Parsed::Fatal(p, e)
                        },
                        Parsed::Fatal(i, e) => Parsed::Fatal(i, e),
                    }
                },
                Token::OpenSquare => match closed_list_rule(toks, pos + 1, Closer::Square, errs) {
                    Parsed::Done(items, p, e) => Parsed::Done(Expr::List(Box::new(items)), p, e),
                    Parsed::Fatal(i, e) => Parsed::Fatal(i, e),
                },
                Token::OpenDblAngle => match closed_list_rule(toks, pos + 1, Closer::DblAngle, errs) {
                    Parsed::Done(items, p, e) => Parsed::Done(Expr::Bag(Box::new(items)), p, e),
                    Parsed::Fatal(i, e) => Parsed::Fatal(i, e),
                },
                Token::OpenCurly => match closed_pairs_rule(toks, pos + 1, errs) {
                    Parsed::Done(pairs, p, e) => Parsed::Done(Expr::Tuple(Box::new(pairs)), p, e),
                    Parsed::Fatal(i, e) => Parsed::Fatal(i, e),
                },
                _ => Parsed::Fatal(pos, errs),
            },
        },
    }
}

/// The steps of a path after its base: `.name`, `."name"` and `[index]`, as
/// many as follow.
pub open spec fn path_rest_rule(toks: Seq<Tok>, base: Expr, pos: int, errs: Seq<usize>) -> Parsed<
    Expr,
>
    decreases toks.len() - pos, 0int,
{
    match kind_at(toks, pos) {
        Some(Token::Period) => match kind_at(toks, pos + 1) {
            Some(Token::Identifier(_)) => path_rest_rule(
                toks,
                Expr::Field(
                    Box::new(base),
                    span_at(toks, pos + 1),
                    CaseSensitivity::CaseInsensitive,
                ),
                pos + 2,
                errs,
            ),
            Some(Token::QuotedIdentifier(_)) => path_rest_rule(
                toks,
                Expr::Field(Box::new(base), span_at(toks, pos + 1), CaseSensitivity::CaseSensitive),
                pos + 2,
                errs,
            ),
            _ => Parsed::Fatal(pos + 1, errs),
        },
        Some(Token::OpenSquare) => match expr_rule(toks, pos + 1, errs) {
            Parsed::Done(index, p, e) => if advanced(toks, pos, p) && closes_at(
                toks,
                p,
                Closer::Square,
            ) {
                path_rest_rule(toks, Expr::Index(Box::new(base), Box::new(index)), p + 1, e)
            } else {
                Parsed::Fatal(p, e)
            },
            Parsed::Fatal(i, e) => Parsed::Fatal(i, e),
        },
        _ => Parsed::Done(base, pos, errs),
    }
}

/// A term and the path steps after it.
pub open spec fn path_rule(toks: Seq<Tok>, pos: int, errs: Seq<usize>) -> Parsed<Expr>
    decreases toks.len() - pos, 1int,
{
    match term_rule(toks, pos, errs) {
        Parsed::Done(base, p, e) => if advanced(toks, pos, p) {
            path_rest_rule(toks, base, p, e)
        } else {
            Parsed::Fatal(p, e)
        },
        Parsed::Fatal(i, e) => Parsed::Fatal(i, e),
    }
}

/// A path with the signs and `NOT`s before it. A sign binds tightest; `NOT`
/// takes all that binds tighter than it.
pub open spec fn unary_rule(toks: Seq<Tok>, pos: int, errs: Seq<usize>) -> Parsed<Expr>
    decreases toks.len() - pos, 2int,
{
    match kind_at(toks, pos) {
        Some(Token::Minus) => match unary_rule(toks, pos + 1, errs) {
            Parsed::Done(x, p, e) => Parsed::Done(Expr::Unary(UnaryOperator::Neg, Box::new(x)), p, e),
            Parsed::Fatal(i, e) => Parsed::Fatal(i, e),
        },
        Some(Token::Plus) => match unary_rule(toks, pos + 1, errs) {
            Parsed::Done(x, p, e) => Parsed::Done(Expr::Unary(UnaryOperator::Pos, Box::new(x)), p, e),
            Parsed::Fatal(i, e) => Parsed::Fatal(i, e),
        },
        Some(Token::Not) => match binary_rule(toks, pos + 1, (NOT_BINDS + 1) as u8, errs) {
            Parsed::Done(x, p, e) => Parsed::Done(Expr::Unary(UnaryOperator::Not, Box::new(x)), p, e),
            Parsed::Fatal(i, e) => Parsed::Fatal(i, e),
        },
        _ => path_rule(toks, pos, errs),
    }
}

/// The operators that bind at least as tightly as `min`, with their right
/// sides, after the left side `lhs`. Operators of one strength group to the
/// left.
pub open spec fn binary_rest_rule(
    toks: Seq<Tok>,
    lhs: Expr,
    pos: int,
    min: u8,
    errs: Seq<usize>,
) -> Parsed<Expr>
    decreases toks.len() - pos, 0int,
{
    match kind_at(toks, pos) {
        None => Parsed::Done(lhs, pos, errs),
        Some(t) => match binary_operator(t) {
            Some((op, binds)) => if binds >= min {
                match binary_rule(toks, pos + 1, (binds + 1) as u8, errs) {
                    Parsed::Done(rhs, p, e) => if advanced(toks, pos, p) {
                        binary_rest_rule(
                            toks,
                            Expr::Binary(op, Box::new(lhs), Box::new(rhs)),
                            p,
                            min,
                            e,
                        )
                    } else {
                        Parsed::Fatal(p, e)
                    },
                    Parsed::Fatal(i, e) => Parsed::Fatal(i, e),
                }
            } else {
                Parsed::Done(lhs, pos, errs)
            },
            None => Parsed::Done(lhs, pos, errs),
        },
    }
}

/// An expression of the operators that bind at least as tightly as `min`.
pub open spec fn binary_rule(toks: Seq<Tok>, pos: int, min: u8, errs: Seq<usize>) -> Parsed<Expr>
    decreases toks.len() - pos, 3int,
{
    match unary_rule(toks, pos, errs) {
        Parsed::Done(lhs, p, e) => if advanced(toks, pos, p) {
            binary_rest_rule(toks, lhs, p, min, e)
        } else {
            Parsed::Fatal(p, e)
        },
        Parsed::Fatal(i, e) => Parsed::Fatal(i, e),
    }
}

/// An expression.
pub open spec fn expr_rule(toks: Seq<Tok>, pos: int, errs: Seq<usize>) -> Parsed<Expr>
    decreases toks.len() - pos, 4int,
{
    binary_rule(toks, pos, 1u8, errs)
}

/// One expression or more, with commas between them.
pub open spec fn expr_list_rule(toks: Seq<Tok>, pos: int, errs: Seq<usize>) -> Parsed<ExprList>
    decreases toks.len() - pos, 5int,
{
    match expr_rule(toks, pos, errs) {
        Parsed::Done(first, p, e) => if advanced(toks, pos, p) && kind_at(toks, p) == Some(
            Token::<Seq<char>>::Comma,
        ) {
            match expr_list_rule(toks, p + 1, e) {
                Parsed::Done(rest, p2, e2) => Parsed::Done(
                    ExprList::Cons(first, Box::new(rest)),
                    p2,
                    e2,
                ),
                Parsed::Fatal(i, e2) => Parsed::Fatal(i, e2),
            }
        } else {
            Parsed::Done(ExprList::Cons(first, Box::new(ExprList::Nil)), p, e)
        },
        Parsed::Fatal(i, e) => Parsed::Fatal(i, e),
    }
}

/// Expressions with commas between them, or none, and the closing bracket.
pub open spec fn closed_list_rule(toks: Seq<Tok>, pos: int, closer: Closer, errs: Seq<usize>) -> Parsed<
    ExprList,
>
    decreases toks.len() - pos, 6int,
{
    if closes_at(toks, pos, closer) {
        Parsed::Done(ExprList::Nil, pos + 1, errs)
    } else {
        match expr_list_rule(toks, pos, errs) {
            Parsed::Done(items, p, e) => if closes_at(toks, p, closer) {
                Parsed::Done(items, p + 1, e)
            } else {
                Parsed::Fatal(p, e)
            },
            Parsed::Fatal(i, e) => Parsed::Fatal(i, e),
        }
    }
}

/// One pair `name: value` or more, with commas between them.
pub open spec fn pair_list_rule(toks: Seq<Tok>, pos: int, errs: Seq<usize>) -> Parsed<PairList>
    decreases toks.len() - pos, 5int,
{
    match expr_rule(toks, pos, errs) {
        Parsed::Done(name, p, e) => if advanced(toks, pos, p) && kind_at(toks, p) == Some(
            Token::<Seq<char>>::Colon,
        ) {
            match expr_rule(toks, p + 1, e) {
                Parsed::Done(value, p2, e2) => if advanced(toks, p, p2) && kind_at(toks, p2)
                    == Some(Token::<Seq<char>>::Comma) {
                    match pair_list_rule(toks, p2 + 1, e2) {
                        Parsed::Done(rest, p3, e3) => Parsed::Done(
                            PairList::Cons(name, value, Box::new(rest)),
                            p3,
                            e3,
                        ),
                        Parsed::Fatal(i, e3) => Parsed::Fatal(i, e3),
                    }
                } else {
                    Parsed::Done(PairList::Cons(name, value, Box::new(PairList::Nil)), p2, e2)
                },
                Parsed::Fatal(i, e2) => Parsed::Fatal(i, e2),
            }
        } else {
            Parsed::Fatal(p, e)
        },
        Parsed::Fatal(i, e) => Parsed::Fatal(i, e),
    }
}

/// Pairs with commas between them, or none, and the closing brace.
pub open spec fn closed_pairs_rule(toks: Seq<Tok>, pos: int, errs: Seq<usize>) -> Parsed<PairList>
    decreases toks.len() - pos, 6int,
{
    if kind_at(toks, pos) == Some(Token::<Seq<char>>::CloseCurly) {
        Parsed::Done(PairList::Nil, pos + 1, errs)
    } else {
        match pair_list_rule(toks, pos, errs) {
            Parsed::Done(pairs, p, e) => if kind_at(toks, p) == Some(
                Token::<Seq<char>>::CloseCurly,
            ) {
                Parsed::Done(pairs, p + 1, e)
            } else {
                Parsed::Fatal(p, e)
            },
            Parsed::Fatal(i, e) => Parsed::Fatal(i, e),
        }
    }
}

/// The token at `pos`, if there is one.
pub fn peek<'a>(tokens: &Vec<SpannedToken<'a>>, pos: usize) -> (r: Option<Token<&'a str>>)
    ensures
        (match r {
            Some(t) => pos < tokens@.len() && t == tokens@[pos as int].1 && kind_at(
                spanned_seq_view(tokens@),
                pos as int,
            ) == Some(t@) && literal_kind(t@) == literal_kind(t) && binary_operator(t@)
                == binary_operator(t),
            None => pos >= tokens@.len() && kind_at(spanned_seq_view(tokens@), pos as int) is None,
        }),
        tokens@.len() <= usize::MAX,
{
    if pos < tokens.len() {
        Some(tokens[pos].1)
    } else {
        None
    }
}

/// The span of the token at `pos`.
pub fn span_of<'a>(tokens: &Vec<SpannedToken<'a>>, pos: usize) -> (r: Span)
    requires
        pos < tokens@.len(),
    ensures
        r == span_at(spanned_seq_view(tokens@), pos as int),
{
    Span { start: tokens[pos].0.0, end: tokens[pos].2.0 }
}

pub fn literal_kind_of<S>(t: &Token<S>) -> (r: Option<LitKind>)
    ensures
        r == literal_kind(*t),
{
    match t {
        Token::Null => Some(LitKind::Null),
        Token::Missing => Some(LitKind::Missing),
        Token::True => Some(LitKind::True),
        Token::False => Some(LitKind::False),
        Token::Int(_) => Some(LitKind::Int),
        Token::Real(_) => Some(LitKind::Real),
        Token::ExpReal(_) => Some(LitKind::ExpReal),
        Token::String(_) => Some(LitKind::String),
        Token::Ion(_) => Some(LitKind::Ion),
        _ => None,
    }
}

pub fn binary_operator_of<S>(t: &Token<S>) -> (r: Option<(BinaryOperator, u8)>)
    ensures
        r == binary_operator(*t),
        r matches Some((_, binds)) ==> 1 <= binds <= 8,
{
    match t {
        Token::Or => Some((BinaryOperator::Or, 1u8)),
        Token::And => Some((BinaryOperator::And, 2u8)),
        Token::Equal => Some((BinaryOperator::Eq, 4u8)),
        Token::EqualEqual => Some((BinaryOperator::Eq, 4u8)),
        Token::BangEqual => Some((BinaryOperator::Ne, 4u8)),
        Token::LessGreater => Some((BinaryOperator::Ne, 4u8)),
        Token::LessThan => Some((BinaryOperator::Lt, 4u8)),
        Token::LessEqual => Some((BinaryOperator::Le, 4u8)),
        Token::GreaterThan => Some((BinaryOperator::Gt, 4u8)),
        Token::GreaterEqual => Some((BinaryOperator::Ge, 4u8)),
        Token::Is => Some((BinaryOperator::Is, 4u8)),
        Token::Like => Some((BinaryOperator::Like, 4u8)),
        Token::In => Some((BinaryOperator::In, 4u8)),
        Token::DblPipe => Some((BinaryOperator::Concat, 5u8)),
        Token::Plus => Some((BinaryOperator::Add, 6u8)),
        Token::Minus => Some((BinaryOperator::Sub, 6u8)),
        Token::Star => Some((BinaryOperator::Mul, 7u8)),
        Token::Slash => Some((BinaryOperator::Div, 7u8)),
        Token::Percent => Some((BinaryOperator::Mod, 7u8)),
        Token::Caret => Some((BinaryOperator::Exp, 8u8)),
        _ => None,
    }
}

/// The closing bracket stands at `pos`.
pub fn at_closer<'a>(tokens: &Vec<SpannedToken<'a>>, pos: usize, closer: Closer) -> (r: bool)
    ensures
        r == closes_at(spanned_seq_view(tokens@), pos as int, closer),
        r ==> pos < tokens@.len(),
        tokens@.len() <= usize::MAX,
{
    match peek(tokens, pos) {
        Some(t) => match closer {
            Closer::Paren => matches!(t, Token::CloseParen),
            Closer::Square => matches!(t, Token::CloseSquare),
            Closer::DblAngle => matches!(t, Token::CloseDblAngle),
        },
        None => false,
    }
}

pub fn parse_term<'a>(tokens: &Vec<SpannedToken<'a>>, pos: usize, errs: &mut Vec<usize>) -> (r:
    Result<(Expr, usize), usize>)
    requires
        pos <= tokens@.len(),
    ensures
        agrees(r, final(errs)@, term_rule(spanned_seq_view(tokens@), pos as int, old(errs)@)),
        r matches Ok((_, p)) ==> pos < p <= tokens@.len(),
        r matches Err(i) ==> i <= tokens@.len(),
    decreases tokens@.len() - pos, 0int,
{
    let t = match peek(tokens, pos) {
        None => {
            return Err(pos);
        },
        Some(t) => t,
    };
    let span = span_of(tokens, pos);
    if let Some(kind) = literal_kind_of(&t) {
        return Ok((Expr::Lit(kind, span), pos + 1));
    }
    match t {
        Token::Identifier(_) => {
            if matches!(peek(tokens, pos + 1), Some(Token::OpenParen)) {
                let (args, p) = parse_closed_list(tokens, pos + 2, Closer::Paren, errs)?;
                Ok((Expr::Call(span, Box::new(args)), p))
            } else {
                Ok((Expr::VarRef(span, CaseSensitivity::CaseInsensitive), pos + 1))
            }
        },
        Token::QuotedIdentifier(_) => Ok(
            (Expr::VarRef(span, CaseSensitivity::CaseSensitive), pos + 1),
        ),
        Token::OpenParen => {
            if matches!(peek(tokens, pos + 1), Some(Token::Select)) {
                let (query, p) = parse_query(tokens, pos + 1, errs)?;
                if at_closer(tokens, p, Closer::Paren) {
                    Ok((Expr::Query(Box::new(query)), p + 1))
                } else {
                    Err(p)
                }
            } else {
                let (inner, p) = parse_expr(tokens, pos + 1, errs)?;
                if at_closer(tokens, p, Closer::Paren) {
                    Ok((inner, p + 1))
                } else {
                    Err(p)
                }
            }
        },
        Token::OpenSquare => {
            let (items, p) = parse_closed_list(tokens, pos + 1, Closer::Square, errs)?;
            Ok((Expr::List(Box::new(items)), p))
        },
        Token::OpenDblAngle => {
            let (items, p) = parse_closed_list(tokens, pos + 1, Closer::DblAngle, errs)?;
            Ok((Expr::Bag(Box::new(items)), p))
        },
        Token::OpenCurly => {
            let (pairs, p) = parse_closed_pairs(tokens, pos + 1, errs)?;
            Ok((Expr::Tuple(Box::new(pairs)), p))
        },
        _ => Err(pos),
    }
}

pub fn parse_path_rest<'a>(
    tokens: &Vec<SpannedToken<'a>>,
    base: Expr,
    pos: usize,
    errs: &mut Vec<usize>,
) -> (r: Result<(Expr, usize), usize>)
    requires
        pos <= tokens@.len(),
    ensures
        agrees(
            r,
            final(errs)@,
            path_rest_rule(spanned_seq_view(tokens@), base, pos as int, old(errs)@),
        ),
        r matches Ok((_, p)) ==> pos <= p <= tokens@.len(),
        r matches Err(i) ==> i <= tokens@.len(),
    decreases tokens@.len() - pos, 0int,
{
    match peek(tokens, pos) {
        Some(Token::Period) => match peek(tokens, pos + 1) {
            Some(Token::Identifier(_)) => {
                let name = span_of(tokens, pos + 1);
                parse_path_rest(
                    tokens,
                    Expr::Field(Box::new(base), name, CaseSensitivity::CaseInsensitive),
                    pos + 2,
                    errs,
                )
            },
            Some(Token::QuotedIdentifier(_)) => {
                let name = span_of(tokens, pos + 1);
                parse_path_rest(
                    tokens,
                    Expr::Field(Box::new(base), name, CaseSensitivity::CaseSensitive),
                    pos + 2,
                    errs,
                )
            },
            _ => Err(pos + 1),
        },
        Some(Token::OpenSquare) => {
            let (index, p) = parse_expr(tokens, pos + 1, errs)?;
            if at_closer(tokens, p, Closer::Square) {
                parse_path_rest(tokens, Expr::Index(Box::new(base), Box::new(index)), p + 1, errs)
            } else {
                Err(p)
            }
        },
        _ => Ok((base, pos)),
    }
}

pub fn parse_path<'a>(tokens: &Vec<SpannedToken<'a>>, pos: usize, errs: &mut Vec<usize>) -> (r:
    Result<(Expr, usize), usize>)
    requires
        pos <= tokens@.len(),
    ensures
        agrees(r, final(errs)@, path_rule(spanned_seq_view(tokens@), pos as int, old(errs)@)),
        r matches Ok((_, p)) ==> pos < p <= tokens@.len(),
        r matches Err(i) ==> i <= tokens@.len(),
    decreases tokens@.len() - pos, 1int,
{
    let (base, p) = parse_term(tokens, pos, errs)?;
    parse_path_rest(tokens, base, p, errs)
}

pub fn parse_unary<'a>(tokens: &Vec<SpannedToken<'a>>, pos: usize, errs: &mut Vec<usize>) -> (r:
    Result<(Expr, usize), usize>)
    requires
        pos <= tokens@.len(),
    ensures
        agrees(r, final(errs)@, unary_rule(spanned_seq_view(tokens@), pos as int, old(errs)@)),
        r matches Ok((_, p)) ==> pos < p <= tokens@.len(),
        r matches Err(i) ==> i <= tokens@.len(),
    decreases tokens@.len() - pos, 2int,
{
    match peek(tokens, pos) {
        Some(Token::Minus) => {
            let (x, p) = parse_unary(tokens, pos + 1, errs)?;
            Ok((Expr::Unary(UnaryOperator::Neg, Box::new(x)), p))
        },
        Some(Token::Plus) => {
            let (x, p) = parse_unary(tokens, pos + 1, errs)?;
            Ok((Expr::Unary(UnaryOperator::Pos, Box::new(x)), p))
        },
        Some(Token::Not) => {
            let (x, p) = parse_binary(tokens, pos + 1, NOT_BINDS + 1, errs)?;
            Ok((Expr::Unary(UnaryOperator::Not, Box::new(x)), p))
        },
        _ => parse_path(tokens, pos, errs),
    }
}

pub fn parse_binary_rest<'a>(
    tokens: &Vec<SpannedToken<'a>>,
    lhs: Expr,
    pos: usize,
    min: u8,
    errs: &mut Vec<usize>,
) -> (r: Result<(Expr, usize), usize>)
    requires
        pos <= tokens@.len(),
    ensures
        agrees(
            r,
            final(errs)@,
            binary_rest_rule(spanned_seq_view(tokens@), lhs, pos as int, min, old(errs)@),
        ),
        r matches Ok((_, p)) ==> pos <= p <= tokens@.len(),
        r matches Err(i) ==> i <= tokens@.len(),
    decreases tokens@.len() - pos, 0int,
{
    let t = match peek(tokens, pos) {
        None => {
            return Ok((lhs, pos));
        },
        Some(t) => t,
    };
    match binary_operator_of(&t) {
        Some((op, binds)) => {
            if binds >= min {
                let (rhs, p) = parse_binary(tokens, pos + 1, binds + 1, errs)?;
                parse_binary_rest(
                    tokens,
                    Expr::Binary(op, Box::new(lhs), Box::new(rhs)),
                    p,
                    min,
                    errs,
                )
            } else {
                Ok((lhs, pos))
            }
        },
        None => Ok((lhs, pos)),
    }
}

pub fn parse_binary<'a>(
    tokens: &Vec<SpannedToken<'a>>,
    pos: usize,
    min: u8,
    errs: &mut Vec<usize>,
) -> (r: Result<(Expr, usize), usize>)
    requires
        pos <= tokens@.len(),
    ensures
        agrees(r, final(errs)@, binary_rule(spanned_seq_view(tokens@), pos as int, min, old(errs)@)),
        r matches Ok((_, p)) ==> pos < p <= tokens@.len(),
        r matches Err(i) ==> i <= tokens@.len(),
    decreases tokens@.len() - pos, 3int,
{
    let (lhs, p) = parse_unary(tokens, pos, errs)?;
    parse_binary_rest(tokens, lhs, p, min, errs)
}

pub fn parse_expr<'a>(tokens: &Vec<SpannedToken<'a>>, pos: usize, errs: &mut Vec<usize>) -> (r:
    Result<(Expr, usize), usize>)
    requires
        pos <= tokens@.len(),
    ensures
        agrees(r, final(errs)@, expr_rule(spanned_seq_view(tokens@), pos as int, old(errs)@)),
        r matches Ok((_, p)) ==> pos < p <= tokens@.len(),
        r matches Err(i) ==> i <= tokens@.len(),
    decreases tokens@.len() - pos, 4int,
{
    parse_binary(tokens, pos, 1, errs)
}

pub fn parse_expr_list<'a>(tokens: &Vec<SpannedToken<'a>>, pos: usize, errs: &mut Vec<usize>) -> (r:
    Result<(ExprList, usize), usize>)
    requires
        pos <= tokens@.len(),
    ensures
        agrees(r, final(errs)@, expr_list_rule(spanned_seq_view(tokens@), pos as int, old(errs)@)),
        r matches Ok((_, p)) ==> pos < p <= tokens@.len(),
        r matches Err(i) ==> i <= tokens@.len(),
    decreases tokens@.len() - pos, 5int,
{
    let (first, p) = parse_expr(tokens, pos, errs)?;
    if matches!(peek(tokens, p), Some(Token::Comma)) {
        let (rest, p2) = parse_expr_list(tokens, p + 1, errs)?;
        Ok((ExprList::Cons(first, Box::new(rest)), p2))
    } else {
        Ok((ExprList::Cons(first, Box::new(ExprList::Nil)), p))
    }
}

pub fn parse_closed_list<'a>(
    tokens: &Vec<SpannedToken<'a>>,
    pos: usize,
    closer: Closer,
    errs: &mut Vec<usize>,
) -> (r: Result<(ExprList, usize), usize>)
    requires
        pos <= tokens@.len(),
    ensures
        agrees(
            r,
            final(errs)@,
            closed_list_rule(spanned_seq_view(tokens@), pos as int, closer, old(errs)@),
        ),
        r matches Ok((_, p)) ==> pos < p <= tokens@.len(),
        r matches Err(i) ==> i <= tokens@.len(),
    decreases tokens@.len() - pos, 6int,
{
    if at_closer(tokens, pos, closer) {
        return Ok((ExprList::Nil, pos + 1));
    }
    let (items, p) = parse_expr_list(tokens, pos, errs)?;
    if at_closer(tokens, p, closer) {
        Ok((items, p + 1))
    } else {
        Err(p)
    }
}

pub fn parse_pair_list<'a>(tokens: &Vec<SpannedToken<'a>>, pos: usize, errs: &mut Vec<usize>) -> (r:
    Result<(PairList, usize), usize>)
    requires
        pos <= tokens@.len(),
    ensures
        agrees(r, final(errs)@, pair_list_rule(spanned_seq_view(tokens@), pos as int, old(errs)@)),
        r matches Ok((_, p)) ==> pos < p <= tokens@.len(),
        r matches Err(i) ==> i <= tokens@.len(),
    decreases tokens@.len() - pos, 5int,
{
    let (name, p) = parse_expr(tokens, pos, errs)?;
    if !matches!(peek(tokens, p), Some(Token::Colon)) {
        return Err(p);
    }
    let (value, p2) = parse_expr(tokens, p + 1, errs)?;
    if matches!(peek(tokens, p2), Some(Token::Comma)) {
        let (rest, p3) = parse_pair_list(tokens, p2 + 1, errs)?;
        Ok((PairList::Cons(name, value, Box::new(rest)), p3))
    } else {
        Ok((PairList::Cons(name, value, Box::new(PairList::Nil)), p2))
    }
}

pub fn parse_closed_pairs<'a>(
    tokens: &Vec<SpannedToken<'a>>,
    pos: usize,
    errs: &mut Vec<usize>,
) -> (r: Result<(PairList, usize), usize>)
    requires
        pos <= tokens@.len(),
    ensures
        agrees(r, final(errs)@, closed_pairs_rule(spanned_seq_view(tokens@), pos as int, old(errs)@)),
        r matches Ok((_, p)) ==> pos < p <= tokens@.len(),
        r matches Err(i) ==> i <= tokens@.len(),
    decreases tokens@.len() - pos, 6int,
{
    if matches!(peek(tokens, pos), Some(Token::CloseCurly)) {
        return Ok((PairList::Nil, pos + 1));
    }
    let (pairs, p) = parse_pair_list(tokens, pos, errs)?;
    if matches!(peek(tokens, p), Some(Token::CloseCurly)) {
        Ok((pairs, p + 1))
    } else {
        Err(p)
    }
}

/// The token names something: an identifier, quoted or not.
pub open spec fn is_name<S>(t: Token<S>) -> bool {
    t is Identifier || t is QuotedIdentifier
}

/// A name stands at `pos`.
pub open spec fn name_at(toks: Seq<Tok>, pos: int) -> bool {
    kind_at(toks, pos) matches Some(t) && is_name(t)
}

/// What a rule without trees below it gives: a value and the place after it,
/// or the place of the token that it could not accept.
pub open spec fn same_place<T>(r: Result<(T, usize), usize>, m: Result<(T, int), int>) -> bool {
    match r {
        Ok((v, p)) => m == Ok::<(T, int), int>((v, p as int)),
        Err(i) => m == Err::<(T, int), int>(i as int),
    }
}

/// An alias, if one follows: `AS name`, or a name alone.
pub open spec fn alias_rule(toks: Seq<Tok>, pos: int) -> Result<(Option<Span>, int), int> {
    if kind_at(toks, pos) == Some(Token::<Seq<char>>::As) {
        if name_at(toks, pos + 1) {
            Ok((Some(span_at(toks, pos + 1)), pos + 2))
        } else {
            Err(pos + 1)
        }
    } else if name_at(toks, pos) {
        Ok((Some(span_at(toks, pos)), pos + 1))
    } else {
        Ok((None, pos))
    }
}

/// A name after the keyword `lead`, if the keyword stands at `pos`.
pub open spec fn led_name_rule(toks: Seq<Tok>, pos: int, lead: Lead) -> Result<
    (Option<Span>, int),
    int,
> {
    if leads_at(toks, pos, lead) {
        if name_at(toks, pos + 1) {
            Ok((Some(span_at(toks, pos + 1)), pos + 2))
        } else {
            Err(pos + 1)
        }
    } else {
        Ok((None, pos))
    }
}

/// The keywords that lead a clause of one expression or one name.
#[derive(Debug, Clone, Copy, PartialEq, Eq, Structural)]
pub enum Lead {
    Where,
    Having,
    Limit,
    Offset,
    On,
    At,
}

/// The token is the keyword.
pub open spec fn leads<S>(lead: Lead, t: Token<S>) -> bool {
    match lead {
        Lead::Where => t is Where,
        Lead::Having => t is Having,
        Lead::Limit => t is Limit,
        Lead::Offset => t is Offset,
        Lead::On => t is On,
        Lead::At => t is At,
    }
}

/// The keyword stands at `pos`.
pub open spec fn leads_at(toks: Seq<Tok>, pos: int, lead: Lead) -> bool {
    kind_at(toks, pos) matches Some(t) && leads(lead, t)
}

/// `ALL` or `DISTINCT`, if one stands at `pos`, and the place after it.
pub open spec fn quantifier_rule(toks: Seq<Tok>, pos: int) -> (Option<SetQuantifier>, int) {
    match kind_at(toks, pos) {
        Some(Token::All) => (Some(SetQuantifier::All), pos + 1),
        Some(Token::Distinct) => (Some(SetQuantifier::Distinct), pos + 1),
        _ => (None, pos),
    }
}

/// The join that the tokens at `pos` ask for, if they ask for one, and the
/// place after them: a comma or `CROSS JOIN`, or `JOIN` after `INNER`, `LEFT`,
/// `RIGHT` or `FULL` or alone, with `OUTER` allowed after the last three.
pub open spec fn join_kind_rule(toks: Seq<Tok>, pos: int) -> Option<(JoinKind, int)> {
    match kind_at(toks, pos) {
        Some(Token::Comma) => Some((JoinKind::Cross, pos + 1)),
        Some(Token::Cross) => if kind_at(toks, pos + 1) == Some(Token::<Seq<char>>::Join) {
            Some((JoinKind::Cross, pos + 2))
        } else {
            None
        },
        Some(Token::Join) => Some((JoinKind::Inner, pos + 1)),
        Some(Token::Inner) => if kind_at(toks, pos + 1) == Some(Token::<Seq<char>>::Join) {
            Some((JoinKind::Inner, pos + 2))
        } else {
            None
        },
        Some(Token::Left) => outer_join_rule(toks, pos + 1, JoinKind::Left),
        Some(Token::Right) => outer_join_rule(toks, pos + 1, JoinKind::Right),
        Some(Token::Full) => outer_join_rule(toks, pos + 1, JoinKind::Full),
        _ => None,
    }
}

/// `JOIN` or `OUTER JOIN` at `pos`, for a join of the kind given.
pub open spec fn outer_join_rule(toks: Seq<Tok>, pos: int, kind: JoinKind) -> Option<(JoinKind, int)> {
    if kind_at(toks, pos) == Some(Token::<Seq<char>>::Join) {
        Some((kind, pos + 1))
    } else if kind_at(toks, pos) == Some(Token::<Seq<char>>::Outer) && kind_at(toks, pos + 1)
        == Some(Token::<Seq<char>>::Join) {
        Some((kind, pos + 2))
    } else {
        None
    }
}

/// The direction of a sort key, if one is given, and the place after it.
pub open spec fn direction_rule(toks: Seq<Tok>, pos: int) -> (Option<SortDirection>, int) {
    match kind_at(toks, pos) {
        Some(Token::Asc) => (Some(SortDirection::Asc), pos + 1),
        Some(Token::Desc) => (Some(SortDirection::Desc), pos + 1),
        _ => (None, pos),
    }
}

/// `NULLS FIRST` or `NULLS LAST`, if `NULLS` stands at `pos`.
pub open spec fn nulls_rule(toks: Seq<Tok>, pos: int) -> Result<(Option<NullsPlacement>, int), int> {
    if kind_at(toks, pos) == Some(Token::<Seq<char>>::Nulls) {
        match kind_at(toks, pos + 1) {
            Some(Token::First) => Ok((Some(NullsPlacement::First), pos + 2)),
            Some(Token::Last) => Ok((Some(NullsPlacement::Last), pos + 2)),
            _ => Err(pos + 1),
        }
    } else {
        Ok((None, pos))
    }
}

/// One source of a `FROM` clause. After `UNPIVOT`, the source may have an
/// `AT` alias. Elsewhere `AT` is an error that parsing gets over: the place
/// of the `AT` is noted, and it is dropped with the name after it.
pub open spec fn table_source_rule(toks: Seq<Tok>, pos: int, errs: Seq<usize>) -> Parsed<TableRef>
    decreases toks.len() - pos, 5int,
{
    if kind_at(toks, pos) == Some(Token::<Seq<char>>::Unpivot) {
        match expr_rule(toks, pos + 1, errs) {
            Parsed::Done(expr, p, e) => match alias_rule(toks, p) {
                Ok((as_alias, p2)) => match led_name_rule(toks, p2, Lead::At) {
                    Ok((at_alias, p3)) => Parsed::Done(
                        TableRef::Source { expr, unpivot: true, as_alias, at_alias },
                        p3,
                        e,
                    ),
                    Err(i) => Parsed::Fatal(i, e),
                },
                Err(i) => Parsed::Fatal(i, e),
            },
            Parsed::Fatal(i, e) => Parsed::Fatal(i, e),
        }
    } else {
        match expr_rule(toks, pos, errs) {
            Parsed::Done(expr, p, e) => match alias_rule(toks, p) {
                Ok((as_alias, p2)) => {
                    let source = TableRef::Source {
                        expr,
                        unpivot: false,
                        as_alias,
                        at_alias: None,
                    };
                    if leads_at(toks, p2, Lead::At) {
                        Parsed::Done(
                            source,
                            if name_at(toks, p2 + 1) {
                                p2 + 2
                            } else {
                                p2 + 1
                            },
                            e.push(p2 as usize),
                        )
                    } else {
                        Parsed::Done(source, p2, e)
                    }
                },
                Err(i) => Parsed::Fatal(i, e),
            },
            Parsed::Fatal(i, e) => Parsed::Fatal(i, e),
        }
    }
}

/// The joins after the source `left`, as many as follow. Joins group to the
/// left.
pub open spec fn from_rest_rule(toks: Seq<Tok>, left: TableRef, pos: int, errs: Seq<usize>) -> Parsed<
    TableRef,
>
    decreases toks.len() - pos, 0int,
{
    match join_kind_rule(toks, pos) {
        None => Parsed::Done(left, pos, errs),
        Some((kind, p)) => if advanced(toks, pos, p) {
            match table_source_rule(toks, p, errs) {
                Parsed::Done(right, p2, e) => if advanced(toks, p, p2) {
                    match led_expr_rule(toks, p2, Lead::On, e) {
                        Parsed::Done(on, p3, e3) => if advanced(toks, pos, p3) {
                            from_rest_rule(
                                toks,
                                TableRef::Join {
                                    kind,
                                    left: Box::new(left),
                                    right: Box::new(right),
                                    on,
                                },
                                p3,
                                e3,
                            )
                        } else {
                            Parsed::Fatal(p3, e3)
                        },
                        Parsed::Fatal(i, e3) => Parsed::Fatal(i, e3),
                    }
                } else {
                    Parsed::Fatal(p2, e)
                },
                Parsed::Fatal(i, e) => Parsed::Fatal(i, e),
            }
        } else {
            Parsed::Fatal(pos, errs)
        },
    }
}

/// The sources of a `FROM` clause.
pub open spec fn from_rule(toks: Seq<Tok>, pos: int, errs: Seq<usize>) -> Parsed<TableRef>
    decreases toks.len() - pos, 6int,
{
    match table_source_rule(toks, pos, errs) {
        Parsed::Done(first, p, e) => if advanced(toks, pos, p) {
            from_rest_rule(toks, first, p, e)
        } else {
            Parsed::Fatal(p, e)
        },
        Parsed::Fatal(i, e) => Parsed::Fatal(i, e),
    }
}

/// The expression after the keyword `lead`, if the keyword stands at `pos`.
pub open spec fn led_expr_rule(toks: Seq<Tok>, pos: int, lead: Lead, errs: Seq<usize>) -> Parsed<
    Option<Expr>,
>
    decreases toks.len() - pos, 0int,
{
    if leads_at(toks, pos, lead) {
        match expr_rule(toks, pos + 1, errs) {
            Parsed::Done(expr, p, e) => Parsed::Done(Some(expr), p, e),
            Parsed::Fatal(i, e) => Parsed::Fatal(i, e),
        }
    } else {
        Parsed::Done(None, pos, errs)
    }
}

/// One expression or more, each with an alias or none, with commas between
/// them.
pub open spec fn aliased_list_rule(toks: Seq<Tok>, pos: int, errs: Seq<usize>) -> Parsed<AliasedList>
    decreases toks.len() - pos, 5int,
{
    match expr_rule(toks, pos, errs) {
        Parsed::Done(first, p, e) => match alias_rule(toks, p) {
            Ok((alias, p2)) => if advanced(toks, pos, p2) && kind_at(toks, p2) == Some(
                Token::<Seq<char>>::Comma,
            ) {
                match aliased_list_rule(toks, p2 + 1, e) {
                    Parsed::Done(rest, p3, e3) => Parsed::Done(
                        AliasedList::Cons(first, alias, Box::new(rest)),
                        p3,
                        e3,
                    ),
                    Parsed::Fatal(i, e3) => Parsed::Fatal(i, e3),
                }
            } else {
                Parsed::Done(AliasedList::Cons(first, alias, Box::new(AliasedList::Nil)), p2, e)
            },
            Err(i) => Parsed::Fatal(i, e),
        },
        Parsed::Fatal(i, e) => Parsed::Fatal(i, e),
    }
}

/// One sort key or more, with commas between them.
pub open spec fn sort_list_rule(toks: Seq<Tok>, pos: int, errs: Seq<usize>) -> Parsed<SortList>
    decreases toks.len() - pos, 5int,
{
    match expr_rule(toks, pos, errs) {
        Parsed::Done(key, p, e) => {
            let (direction, p2) = direction_rule(toks, p);
            match nulls_rule(toks, p2) {
                Ok((nulls, p3)) => if advanced(toks, pos, p3) && kind_at(toks, p3) == Some(
                    Token::<Seq<char>>::Comma,
                ) {
                    match sort_list_rule(toks, p3 + 1, e) {
                        Parsed::Done(rest, p4, e4) => Parsed::Done(
                            SortList::Cons(key, direction, nulls, Box::new(rest)),
                            p4,
                            e4,
                        ),
                        Parsed::Fatal(i, e4) => Parsed::Fatal(i, e4),
                    }
                } else {
                    Parsed::Done(
                        SortList::Cons(key, direction, nulls, Box::new(SortList::Nil)),
                        p3,
                        e,
                    )
                },
                Err(i) => Parsed::Fatal(i, e),
            }
        },
        Parsed::Fatal(i, e) => Parsed::Fatal(i, e),
    }
}

/// What is selected: `*`, `VALUE` and an expression, or a list of
/// expressions with their aliases.
pub open spec fn projection_rule(toks: Seq<Tok>, pos: int, errs: Seq<usize>) -> Parsed<Projection>
    decreases toks.len() - pos, 6int,
{
    match kind_at(toks, pos) {
        Some(Token::Star) => Parsed::Done(Projection::Star, pos + 1, errs),
        Some(Token::Value) => match expr_rule(toks, pos + 1, errs) {
            Parsed::Done(expr, p, e) => Parsed::Done(Projection::Value(expr), p, e),
            Parsed::Fatal(i, e) => Parsed::Fatal(i, e),
        },
        _ => match aliased_list_rule(toks, pos, errs) {
            Parsed::Done(items, p, e) => Parsed::Done(Projection::Items(items), p, e),
            Parsed::Fatal(i, e) => Parsed::Fatal(i, e),
        },
    }
}

/// The `FROM` clause, if `FROM` stands at `pos`.
pub open spec fn from_clause_rule(toks: Seq<Tok>, pos: int, errs: Seq<usize>) -> Parsed<
    Option<TableRef>,
>
    decreases toks.len() - pos, 0int,
{
    if kind_at(toks, pos) == Some(Token::<Seq<char>>::From) {
        match from_rule(toks, pos + 1, errs) {
            Parsed::Done(from, p, e) => Parsed::Done(Some(from), p, e),
            Parsed::Fatal(i, e) => Parsed::Fatal(i, e),
        }
    } else {
        Parsed::Done(None, pos, errs)
    }
}

/// The `GROUP BY` clause, if `GROUP` stands at `pos`: `GROUP BY` or `GROUP
/// PARTIAL BY`, the keys, and `GROUP AS` with a name, if it follows.
pub open spec fn group_by_rule(toks: Seq<Tok>, pos: int, errs: Seq<usize>) -> Parsed<Option<GroupBy>>
    decreases toks.len() - pos, 0int,
{
    if kind_at(toks, pos) == Some(Token::<Seq<char>>::Group) {
        let partial = kind_at(toks, pos + 1) == Some(Token::<Seq<char>>::Partial);
        let by = if partial {
            pos + 2
        } else {
            pos + 1
        };
        if kind_at(toks, by) == Some(Token::<Seq<char>>::By) {
            match aliased_list_rule(toks, by + 1, errs) {
                Parsed::Done(keys, p, e) => if kind_at(toks, p) == Some(
                    Token::<Seq<char>>::Group,
                ) {
                    if kind_at(toks, p + 1) == Some(Token::<Seq<char>>::As) && name_at(
                        toks,
                        p + 2,
                    ) {
                        Parsed::Done(
                            Some(GroupBy { partial, keys, group_as: Some(span_at(toks, p + 2)) }),
                            p + 3,
                            e,
                        )
                    } else if kind_at(toks, p + 1) == Some(Token::<Seq<char>>::As) {
                        Parsed::Fatal(p + 2, e)
                    } else {
                        Parsed::Fatal(p + 1, e)
                    }
                } else {
                    Parsed::Done(Some(GroupBy { partial, keys, group_as: None }), p, e)
                },
                Parsed::Fatal(i, e) => Parsed::Fatal(i, e),
            }
        } else {
            Parsed::Fatal(by, errs)
        }
    } else {
        Parsed::Done(None, pos, errs)
    }
}

/// The `ORDER BY` clause, if `ORDER` stands at `pos`: `ORDER BY PRESERVE`, or
/// `ORDER BY` and the sort keys.
pub open spec fn order_by_rule(toks: Seq<Tok>, pos: int, errs: Seq<usize>) -> Parsed<Option<OrderBy>>
    decreases toks.len() - pos, 0int,
{
    if kind_at(toks, pos) == Some(Token::<Seq<char>>::Order) {
        if kind_at(toks, pos + 1) == Some(Token::<Seq<char>>::By) {
            if kind_at(toks, pos + 2) == Some(Token::<Seq<char>>::Preserve) {
                Parsed::Done(Some(OrderBy::Preserve), pos + 3, errs)
            } else {
                match sort_list_rule(toks, pos + 2, errs) {
                    Parsed::Done(keys, p, e) => Parsed::Done(Some(OrderBy::Keys(keys)), p, e),
                    Parsed::Fatal(i, e) => Parsed::Fatal(i, e),
                }
            }
        } else {
            Parsed::Fatal(pos + 1, errs)
        }
    } else {
        Parsed::Done(None, pos, errs)
    }
}

/// The clauses of a query after `FROM`, `WHERE` and `GROUP BY`: `HAVING`,
/// `ORDER BY`, `LIMIT` and `OFFSET`, each if it is there, in this order.
pub open spec fn query_tail_rule(
    toks: Seq<Tok>,
    head: Query,
    start: int,
    pos: int,
    errs: Seq<usize>,
) -> Parsed<Query>
    decreases toks.len() - start, 1int,
{
    if !advanced(toks, start, pos) {
        Parsed::Fatal(pos, errs)
    } else {
        match led_expr_rule(toks, pos, Lead::Having, errs) {
            Parsed::Done(having, p1, e1) => if !advanced(toks, start, p1) {
                Parsed::Fatal(p1, e1)
            } else {
                match order_by_rule(toks, p1, e1) {
                    Parsed::Done(order_by, p2, e2) => if !advanced(toks, start, p2) {
                        Parsed::Fatal(p2, e2)
                    } else {
                        match led_expr_rule(toks, p2, Lead::Limit, e2) {
                            Parsed::Done(limit, p3, e3) => if !advanced(toks, start, p3) {
                                Parsed::Fatal(p3, e3)
                            } else {
                                match led_expr_rule(toks, p3, Lead::Offset, e3) {
                                    Parsed::Done(offset, p4, e4) => Parsed::Done(
                                        Query {
                                            quantifier: head.quantifier,
                                            projection: head.projection,
                                            from: head.from,
                                            where_clause: head.where_clause,
                                            group_by: head.group_by,
                                            having,
                                            order_by,
                                            limit,
                                            offset,
                                        },
                                        p4,
                                        e4,
                                    ),
                                    Parsed::Fatal(i, e4) => Parsed::Fatal(i, e4),
                                }
                            },
                            Parsed::Fatal(i, e3) => Parsed::Fatal(i, e3),
                        }
                    },
                    Parsed::Fatal(i, e2) => Parsed::Fatal(i, e2),
                }
            },
            Parsed::Fatal(i, e1) => Parsed::Fatal(i, e1),
        }
    }
}

/// A query: `SELECT`, `ALL` or `DISTINCT` if given, what is selected, and the
/// clauses `FROM`, `WHERE`, `GROUP BY`, `HAVING`, `ORDER BY`, `LIMIT` and
/// `OFFSET`, each if it is there, in this order.
pub open spec fn query_rule(toks: Seq<Tok>, pos: int, errs: Seq<usize>) -> Parsed<Query>
    decreases toks.len() - pos, 2int,
{
    if kind_at(toks, pos) == Some(Token::<Seq<char>>::Select) {
        let (quantifier, p0) = quantifier_rule(toks, pos + 1);
        match projection_rule(toks, p0, errs) {
            Parsed::Done(projection, p1, e1) => if !advanced(toks, pos, p1) {
                Parsed::Fatal(p1, e1)
            } else {
                match from_clause_rule(toks, p1, e1) {
                    Parsed::Done(from, p2, e2) => if !advanced(toks, pos, p2) {
                        Parsed::Fatal(p2, e2)
                    } else {
                        match led_expr_rule(toks, p2, Lead::Where, e2) {
                            Parsed::Done(where_clause, p3, e3) => if !advanced(toks, pos, p3) {
                                Parsed::Fatal(p3, e3)
                            } else {
                                match group_by_rule(toks, p3, e3) {
                                    Parsed::Done(group_by, p4, e4) => query_tail_rule(
                                        toks,
                                        Query {
                                            quantifier,
                                            projection,
                                            from,
                                            where_clause,
                                            group_by,
                                            having: None,
                                            order_by: None,
                                            limit: None,
                                            offset: None,
                                        },
                                        pos,
                                        p4,
                                        e4,
                                    ),
                                    Parsed::Fatal(i, e4) => Parsed::Fatal(i, e4),
                                }
                            },
                            Parsed::Fatal(i, e3) => Parsed::Fatal(i, e3),
                        }
                    },
                    Parsed::Fatal(i, e2) => Parsed::Fatal(i, e2),
                }
            },
            Parsed::Fatal(i, e1) => Parsed::Fatal(i, e1),
        }
    } else {
        Parsed::Fatal(pos, errs)
    }
}

/// What a text is parsed as.
#[derive(Debug, Clone, Copy, PartialEq, Eq, Structural)]
pub enum Entry {
    /// A query or an expression.
    Query,
    /// A term: a literal, a name, a call, or something in brackets.
    ExprTerm,
    /// A literal.
    Literal,
}

/// A literal alone.
pub open spec fn literal_rule(toks: Seq<Tok>, pos: int, errs: Seq<usize>) -> Parsed<Expr> {
    match kind_at(toks, pos) {
        None => Parsed::Fatal(pos, errs),
        Some(t) => match literal_kind(t) {
            Some(kind) => Parsed::Done(Expr::Lit(kind, span_at(toks, pos)), pos + 1, errs),
            None => Parsed::Fatal(pos, errs),
        },
    }
}

/// A query where the tokens start with `SELECT`, an expression elsewhere.
pub open spec fn statement_rule(toks: Seq<Tok>, errs: Seq<usize>) -> Parsed<Expr> {
    if kind_at(toks, 0) == Some(Token::<Seq<char>>::Select) {
        match query_rule(toks, 0, errs) {
            Parsed::Done(query, p, e) => Parsed::Done(Expr::Query(Box::new(query)), p, e),
            Parsed::Fatal(i, e) => Parsed::Fatal(i, e),
        }
    } else {
        expr_rule(toks, 0, errs)
    }
}

/// All the tokens as what `entry` says: nothing may follow it.
#[verifier::opaque]
pub open spec fn top_rule(toks: Seq<Tok>, entry: Entry, errs: Seq<usize>) -> Parsed<Expr> {
    let parsed = match entry {
        Entry::Query => statement_rule(toks, errs),
        Entry::ExprTerm => term_rule(toks, 0, errs),
        Entry::Literal => literal_rule(toks, 0, errs),
    };
    match parsed {
        Parsed::Done(tree, p, e) => if p == toks.len() {
            Parsed::Done(tree, p, e)
        } else {
            Parsed::Fatal(p, e)
        },
        Parsed::Fatal(i, e) => Parsed::Fatal(i, e),
    }
}

/// A name stands at `pos`.
pub fn at_name<'a>(tokens: &Vec<SpannedToken<'a>>, pos: usize) -> (r: bool)
    ensures
        r == name_at(spanned_seq_view(tokens@), pos as int),
        r ==> pos < tokens@.len(),
        tokens@.len() <= usize::MAX,
{
    matches!(peek(tokens, pos), Some(Token::Identifier(_)) | Some(Token::QuotedIdentifier(_)))
}

/// The keyword stands at `pos`.
pub fn at_lead<'a>(tokens: &Vec<SpannedToken<'a>>, pos: usize, lead: Lead) -> (r: bool)
    ensures
        r == leads_at(spanned_seq_view(tokens@), pos as int, lead),
        r ==> pos < tokens@.len(),
        tokens@.len() <= usize::MAX,
{
    match peek(tokens, pos) {
        Some(t) => match lead {
            Lead::Where => matches!(t, Token::Where),
            Lead::Having => matches!(t, Token::Having),
            Lead::Limit => matches!(t, Token::Limit),
            Lead::Offset => matches!(t, Token::Offset),
            Lead::On => matches!(t, Token::On),
            Lead::At => matches!(t, Token::At),
        },
        None => false,
    }
}

pub fn parse_alias<'a>(tokens: &Vec<SpannedToken<'a>>, pos: usize) -> (r: Result<
    (Option<Span>, usize),
    usize,
>)
    requires
        pos <= tokens@.len(),
    ensures
        same_place(r, alias_rule(spanned_seq_view(tokens@), pos as int)),
        r matches Ok((_, p)) ==> pos <= p <= tokens@.len(),
        r matches Err(i) ==> i <= tokens@.len(),
{
    if matches!(peek(tokens, pos), Some(Token::As)) {
        if at_name(tokens, pos + 1) {
            Ok((Some(span_of(tokens, pos + 1)), pos + 2))
        } else {
            Err(pos + 1)
        }
    } else if at_name(tokens, pos) {
        Ok((Some(span_of(tokens, pos)), pos + 1))
    } else {
        Ok((None, pos))
    }
}

pub fn parse_led_name<'a>(tokens: &Vec<SpannedToken<'a>>, pos: usize, lead: Lead) -> (r: Result<
    (Option<Span>, usize),
    usize,
>)
    requires
        pos <= tokens@.len(),
    ensures
        same_place(r, led_name_rule(spanned_seq_view(tokens@), pos as int, lead)),
        r matches Ok((_, p)) ==> pos <= p <= tokens@.len(),
        r matches Err(i) ==> i <= tokens@.len(),
{
    if at_lead(tokens, pos, lead) {
        if at_name(tokens, pos + 1) {
            Ok((Some(span_of(tokens, pos + 1)), pos + 2))
        } else {
            Err(pos + 1)
        }
    } else {
        Ok((None, pos))
    }
}

pub fn parse_quantifier<'a>(tokens: &Vec<SpannedToken<'a>>, pos: usize) -> (r: (
    Option<SetQuantifier>,
    usize,
))
    requires
        pos <= tokens@.len(),
    ensures
        (r.0, r.1 as int) == quantifier_rule(spanned_seq_view(tokens@), pos as int),
        pos <= r.1 <= tokens@.len(),
{
    match peek(tokens, pos) {
        Some(Token::All) => (Some(SetQuantifier::All), pos + 1),
        Some(Token::Distinct) => (Some(SetQuantifier::Distinct), pos + 1),
        _ => (None, pos),
    }
}

pub fn parse_outer_join<'a>(tokens: &Vec<SpannedToken<'a>>, pos: usize, kind: JoinKind) -> (r:
    Option<(JoinKind, usize)>)
    requires
        pos <= tokens@.len(),
    ensures
        (match r {
            Some((k, p)) => outer_join_rule(spanned_seq_view(tokens@), pos as int, kind) == Some(
                (k, p as int),
            ) && pos < p <= tokens@.len(),
            None => outer_join_rule(spanned_seq_view(tokens@), pos as int, kind) is None,
        }),
{
    if matches!(peek(tokens, pos), Some(Token::Join)) {
        Some((kind, pos + 1))
    } else if matches!(peek(tokens, pos), Some(Token::Outer)) && matches!(
        peek(tokens, pos + 1),
        Some(Token::Join)
    ) {
        Some((kind, pos + 2))
    } else {
        None
    }
}

pub fn parse_join_kind<'a>(tokens: &Vec<SpannedToken<'a>>, pos: usize) -> (r: Option<
    (JoinKind, usize),
>)
    requires
        pos <= tokens@.len(),
    ensures
        (match r {
            Some((k, p)) => join_kind_rule(spanned_seq_view(tokens@), pos as int) == Some(
                (k, p as int),
            ) && pos < p <= tokens@.len(),
            None => join_kind_rule(spanned_seq_view(tokens@), pos as int) is None,
        }),
{
    match peek(tokens, pos) {
        Some(Token::Comma) => Some((JoinKind::Cross, pos + 1)),
        Some(Token::Cross) => {
            if matches!(peek(tokens, pos + 1), Some(Token::Join)) {
                Some((JoinKind::Cross, pos + 2))
            } else {
                None
            }
        },
        Some(Token::Join) => Some((JoinKind::Inner, pos + 1)),
        Some(Token::Inner) => {
            if matches!(peek(tokens, pos + 1), Some(Token::Join)) {
                Some((JoinKind::Inner, pos + 2))
            } else {
                None
            }
        },
        Some(Token::Left) => parse_outer_join(tokens, pos + 1, JoinKind::Left),
        Some(Token::Right) => parse_outer_join(tokens, pos + 1, JoinKind::Right),
        Some(Token::Full) => parse_outer_join(tokens, pos + 1, JoinKind::Full),
        _ => None,
    }
}

pub fn parse_direction<'a>(tokens: &Vec<SpannedToken<'a>>, pos: usize) -> (r: (
    Option<SortDirection>,
    usize,
))
    requires
        pos <= tokens@.len(),
    ensures
        (r.0, r.1 as int) == direction_rule(spanned_seq_view(tokens@), pos as int),
        pos <= r.1 <= tokens@.len(),
{
    match peek(tokens, pos) {
        Some(Token::Asc) => (Some(SortDirection::Asc), pos + 1),
        Some(Token::Desc) => (Some(SortDirection::Desc), pos + 1),
        _ => (None, pos),
    }
}

pub fn parse_nulls<'a>(tokens: &Vec<SpannedToken<'a>>, pos: usize) -> (r: Result<
    (Option<NullsPlacement>, usize),
    usize,
>)
    requires
        pos <= tokens@.len(),
    ensures
        same_place(r, nulls_rule(spanned_seq_view(tokens@), pos as int)),
        r matches Ok((_, p)) ==> pos <= p <= tokens@.len(),
        r matches Err(i) ==> i <= tokens@.len(),
{
    if matches!(peek(tokens, pos), Some(Token::Nulls)) {
        match peek(tokens, pos + 1) {
            Some(Token::First) => Ok((Some(NullsPlacement::First), pos + 2)),
            Some(Token::Last) => Ok((Some(NullsPlacement::Last), pos + 2)),
            _ => Err(pos + 1),
        }
    } else {
        Ok((None, pos))
    }
}

pub fn parse_table_source<'a>(
    tokens: &Vec<SpannedToken<'a>>,
    pos: usize,
    errs: &mut Vec<usize>,
) -> (r: Result<(TableRef, usize), usize>)
    requires
        pos <= tokens@.len(),
    ensures
        agrees(r, final(errs)@, table_source_rule(spanned_seq_view(tokens@), pos as int, old(errs)@)),
        r matches Ok((_, p)) ==> pos < p <= tokens@.len(),
        r matches Err(i) ==> i <= tokens@.len(),
    decreases tokens@.len() - pos, 5int,
{
    if matches!(peek(tokens, pos), Some(Token::Unpivot)) {
        let (expr, p) = parse_expr(tokens, pos + 1, errs)?;
        let (as_alias, p2) = parse_alias(tokens, p)?;
        let (at_alias, p3) = parse_led_name(tokens, p2, Lead::At)?;
        Ok((TableRef::Source { expr, unpivot: true, as_alias, at_alias }, p3))
    } else {
        let (expr, p) = parse_expr(tokens, pos, errs)?;
        let (as_alias, p2) = parse_alias(tokens, p)?;
        let source = TableRef::Source { expr, unpivot: false, as_alias, at_alias: None };
        if at_lead(tokens, p2, Lead::At) {
            errs.push(p2);
            if at_name(tokens, p2 + 1) {
                Ok((source, p2 + 2))
            } else {
                Ok((source, p2 + 1))
            }
        } else {
            Ok((source, p2))
        }
    }
}

pub fn parse_from_rest<'a>(
    tokens: &Vec<SpannedToken<'a>>,
    left: TableRef,
    pos: usize,
    errs: &mut Vec<usize>,
) -> (r: Result<(TableRef, usize), usize>)
    requires
        pos <= tokens@.len(),
    ensures
        agrees(
            r,
            final(errs)@,
            from_rest_rule(spanned_seq_view(tokens@), left, pos as int, old(errs)@),
        ),
        r matches Ok((_, p)) ==> pos <= p <= tokens@.len(),
        r matches Err(i) ==> i <= tokens@.len(),
    decreases tokens@.len() - pos, 0int,
{
    match parse_join_kind(tokens, pos) {
        None => Ok((left, pos)),
        Some((kind, p)) => {
            let (right, p2) = parse_table_source(tokens, p, errs)?;
            let (on, p3) = parse_led_expr(tokens, p2, Lead::On, errs)?;
            parse_from_rest(
                tokens,
                TableRef::Join { kind, left: Box::new(left), right: Box::new(right), on },
                p3,
                errs,
            )
        },
    }
}

pub fn parse_from<'a>(tokens: &Vec<SpannedToken<'a>>, pos: usize, errs: &mut Vec<usize>) -> (r:
    Result<(TableRef, usize), usize>)
    requires
        pos <= tokens@.len(),
    ensures
        agrees(r, final(errs)@, from_rule(spanned_seq_view(tokens@), pos as int, old(errs)@)),
        r matches Ok((_, p)) ==> pos < p <= tokens@.len(),
        r matches Err(i) ==> i <= tokens@.len(),
    decreases tokens@.len() - pos, 6int,
{
    let (first, p) = parse_table_source(tokens, pos, errs)?;
    parse_from_rest(tokens, first, p, errs)
}

pub fn parse_led_expr<'a>(
    tokens: &Vec<SpannedToken<'a>>,
    pos: usize,
    lead: Lead,
    errs: &mut Vec<usize>,
) -> (r: Result<(Option<Expr>, usize), usize>)
    requires
        pos <= tokens@.len(),
    ensures
        agrees(
            r,
            final(errs)@,
            led_expr_rule(spanned_seq_view(tokens@), pos as int, lead, old(errs)@),
        ),
        r matches Ok((_, p)) ==> pos <= p <= tokens@.len(),
        r matches Err(i) ==> i <= tokens@.len(),
    decreases tokens@.len() - pos, 0int,
{
    if at_lead(tokens, pos, lead) {
        let (expr, p) = parse_expr(tokens, pos + 1, errs)?;
        Ok((Some(expr), p))
    } else {
        Ok((None, pos))
    }
}

pub fn parse_aliased_list<'a>(
    tokens: &Vec<SpannedToken<'a>>,
    pos: usize,
    errs: &mut Vec<usize>,
) -> (r: Result<(AliasedList, usize), usize>)
    requires
        pos <= tokens@.len(),
    ensures
        agrees(r, final(errs)@, aliased_list_rule(spanned_seq_view(tokens@), pos as int, old(errs)@)),
        r matches Ok((_, p)) ==> pos < p <= tokens@.len(),
        r matches Err(i) ==> i <= tokens@.len(),
    decreases tokens@.len() - pos, 5int,
{
    let (first, p) = parse_expr(tokens, pos, errs)?;
    let (alias, p2) = parse_alias(tokens, p)?;
    if matches!(peek(tokens, p2), Some(Token::Comma)) {
        let (rest, p3) = parse_aliased_list(tokens, p2 + 1, errs)?;
        Ok((AliasedList::Cons(first, alias, Box::new(rest)), p3))
    } else {
        Ok((AliasedList::Cons(first, alias, Box::new(AliasedList::Nil)), p2))
    }
}

pub fn parse_sort_list<'a>(tokens: &Vec<SpannedToken<'a>>, pos: usize, errs: &mut Vec<usize>) -> (r:
    Result<(SortList, usize), usize>)
    requires
        pos <= tokens@.len(),
    ensures
        agrees(r, final(errs)@, sort_list_rule(spanned_seq_view(tokens@), pos as int, old(errs)@)),
        r matches Ok((_, p)) ==> pos < p <= tokens@.len(),
        r matches Err(i) ==> i <= tokens@.len(),
    decreases tokens@.len() - pos, 5int,
{
    let (key, p) = parse_expr(tokens, pos, errs)?;
    let (direction, p2) = parse_direction(tokens, p);
    let (nulls, p3) = parse_nulls(tokens, p2)?;
    if matches!(peek(tokens, p3), Some(Token::Comma)) {
        let (rest, p4) = parse_sort_list(tokens, p3 + 1, errs)?;
        Ok((SortList::Cons(key, direction, nulls, Box::new(rest)), p4))
    } else {
        Ok((SortList::Cons(key, direction, nulls, Box::new(SortList::Nil)), p3))
    }
}

pub fn parse_projection<'a>(tokens: &Vec<SpannedToken<'a>>, pos: usize, errs: &mut Vec<usize>) -> (r:
    Result<(Projection, usize), usize>)
    requires
        pos <= tokens@.len(),
    ensures
        agrees(r, final(errs)@, projection_rule(spanned_seq_view(tokens@), pos as int, old(errs)@)),
        r matches Ok((_, p)) ==> pos < p <= tokens@.len(),
        r matches Err(i) ==> i <= tokens@.len(),
    decreases tokens@.len() - pos, 6int,
{
    match peek(tokens, pos) {
        Some(Token::Star) => Ok((Projection::Star, pos + 1)),
        Some(Token::Value) => {
            let (expr, p) = parse_expr(tokens, pos + 1, errs)?;
            Ok((Projection::Value(expr), p))
        },
        _ => {
            let (items, p) = parse_aliased_list(tokens, pos, errs)?;
            Ok((Projection::Items(items), p))
        },
    }
}

pub fn parse_from_clause<'a>(
    tokens: &Vec<SpannedToken<'a>>,
    pos: usize,
    errs: &mut Vec<usize>,
) -> (r: Result<(Option<TableRef>, usize), usize>)
    requires
        pos <= tokens@.len(),
    ensures
        agrees(r, final(errs)@, from_clause_rule(spanned_seq_view(tokens@), pos as int, old(errs)@)),
        r matches Ok((_, p)) ==> pos <= p <= tokens@.len(),
        r matches Err(i) ==> i <= tokens@.len(),
    decreases tokens@.len() - pos, 0int,
{
    if matches!(peek(tokens, pos), Some(Token::From)) {
        let (from, p) = parse_from(tokens, pos + 1, errs)?;
        Ok((Some(from), p))
    } else {
        Ok((None, pos))
    }
}

pub fn parse_group_by<'a>(tokens: &Vec<SpannedToken<'a>>, pos: usize, errs: &mut Vec<usize>) -> (r:
    Result<(Option<GroupBy>, usize), usize>)
    requires
        pos <= tokens@.len(),
    ensures
        agrees(r, final(errs)@, group_by_rule(spanned_seq_view(tokens@), pos as int, old(errs)@)),
        r matches Ok((_, p)) ==> pos <= p <= tokens@.len(),
        r matches Err(i) ==> i <= tokens@.len(),
    decreases tokens@.len() - pos, 0int,
{
    if !matches!(peek(tokens, pos), Some(Token::Group)) {
        return Ok((None, pos));
    }
    let partial = matches!(peek(tokens, pos + 1), Some(Token::Partial));
    let by = if partial {
        pos + 2
    } else {
        pos + 1
    };
    if !matches!(peek(tokens, by), Some(Token::By)) {
        return Err(by);
    }
    let (keys, p) = parse_aliased_list(tokens, by + 1, errs)?;
    if matches!(peek(tokens, p), Some(Token::Group)) {
        if !matches!(peek(tokens, p + 1), Some(Token::As)) {
            return Err(p + 1);
        }
        if !at_name(tokens, p + 2) {
            return Err(p + 2);
        }
        let name = span_of(tokens, p + 2);
        Ok((Some(GroupBy { partial, keys, group_as: Some(name) }), p + 3))
    } else {
        Ok((Some(GroupBy { partial, keys, group_as: None }), p))
    }
}

pub fn parse_order_by<'a>(tokens: &Vec<SpannedToken<'a>>, pos: usize, errs: &mut Vec<usize>) -> (r:
    Result<(Option<OrderBy>, usize), usize>)
    requires
        pos <= tokens@.len(),
    ensures
        agrees(r, final(errs)@, order_by_rule(spanned_seq_view(tokens@), pos as int, old(errs)@)),
        r matches Ok((_, p)) ==> pos <= p <= tokens@.len(),
        r matches Err(i) ==> i <= tokens@.len(),
    decreases tokens@.len() - pos, 0int,
{
    if !matches!(peek(tokens, pos), Some(Token::Order)) {
        return Ok((None, pos));
    }
    if !matches!(peek(tokens, pos + 1), Some(Token::By)) {
        return Err(pos + 1);
    }
    if matches!(peek(tokens, pos + 2), Some(Token::Preserve)) {
        return Ok((Some(OrderBy::Preserve), pos + 3));
    }
    let (keys, p) = parse_sort_list(tokens, pos + 2, errs)?;
    Ok((Some(OrderBy::Keys(keys)), p))
}

pub fn parse_query_tail<'a>(
    tokens: &Vec<SpannedToken<'a>>,
    head: Query,
    start: usize,
    pos: usize,
    errs: &mut Vec<usize>,
) -> (r: Result<(Query, usize), usize>)
    requires
        start < pos <= tokens@.len(),
    ensures
        agrees(
            r,
            final(errs)@,
            query_tail_rule(spanned_seq_view(tokens@), head, start as int, pos as int, old(errs)@),
        ),
        r matches Ok((_, p)) ==> pos <= p <= tokens@.len(),
        r matches Err(i) ==> i <= tokens@.len(),
    decreases tokens@.len() - start, 1int,
{
    let (having, p1) = parse_led_expr(tokens, pos, Lead::Having, errs)?;
    let (order_by, p2) = parse_order_by(tokens, p1, errs)?;
    let (limit, p3) = parse_led_expr(tokens, p2, Lead::Limit, errs)?;
    let (offset, p4) = parse_led_expr(tokens, p3, Lead::Offset, errs)?;
    Ok(
        (
            Query {
                quantifier: head.quantifier,
                projection: head.projection,
                from: head.from,
                where_clause: head.where_clause,
                group_by: head.group_by,
                having,
                order_by,
                limit,
                offset,
            },
            p4,
        ),
    )
}

pub fn parse_query<'a>(tokens: &Vec<SpannedToken<'a>>, pos: usize, errs: &mut Vec<usize>) -> (r:
    Result<(Query, usize), usize>)
    requires
        pos <= tokens@.len(),
    ensures
        agrees(r, final(errs)@, query_rule(spanned_seq_view(tokens@), pos as int, old(errs)@)),
        r matches Ok((_, p)) ==> pos < p <= tokens@.len(),
        r matches Err(i) ==> i <= tokens@.len(),
    decreases tokens@.len() - pos, 2int,
{
    if !matches!(peek(tokens, pos), Some(Token::Select)) {
        return Err(pos);
    }
    let (quantifier, p0) = parse_quantifier(tokens, pos + 1);
    let (projection, p1) = parse_projection(tokens, p0, errs)?;
    let (from, p2) = parse_from_clause(tokens, p1, errs)?;
    let (where_clause, p3) = parse_led_expr(tokens, p2, Lead::Where, errs)?;
    let (group_by, p4) = parse_group_by(tokens, p3, errs)?;
    let head = Query {
        quantifier,
        projection,
        from,
        where_clause,
        group_by,
        having: None,
        order_by: None,
        limit: None,
        offset: None,
    };
    parse_query_tail(tokens, head, pos, p4, errs)
}

pub fn parse_literal<'a>(tokens: &Vec<SpannedToken<'a>>, pos: usize) -> (r: Result<
    (Expr, usize),
    usize,
>)
    requires
        pos <= tokens@.len(),
    ensures
        forall|errs: Seq<usize>|
            agrees(r, errs, #[trigger] literal_rule(spanned_seq_view(tokens@), pos as int, errs)),
        r matches Ok((_, p)) ==> pos < p <= tokens@.len(),
        r matches Err(i) ==> i <= tokens@.len(),
{
    let t = match peek(tokens, pos) {
        None => {
            return Err(pos);
        },
        Some(t) => t,
    };
    match literal_kind_of(&t) {
        Some(kind) => Ok((Expr::Lit(kind, span_of(tokens, pos)), pos + 1)),
        None => Err(pos),
    }
}

pub fn parse_statement<'a>(tokens: &Vec<SpannedToken<'a>>, errs: &mut Vec<usize>) -> (r: Result<
    (Expr, usize),
    usize,
>)
    ensures
        agrees(r, final(errs)@, statement_rule(spanned_seq_view(tokens@), old(errs)@)),
        r matches Ok((_, p)) ==> 0 < p <= tokens@.len(),
        r matches Err(i) ==> i <= tokens@.len(),
{
    if matches!(peek(tokens, 0), Some(Token::Select)) {
        let (query, p) = parse_query(tokens, 0, errs)?;
        Ok((Expr::Query(Box::new(query)), p))
    } else {
        parse_expr(tokens, 0, errs)
    }
}

/// Parses all the tokens as what `entry` says.
pub fn parse_top<'a>(tokens: &Vec<SpannedToken<'a>>, entry: Entry, errs: &mut Vec<usize>) -> (r:
    Result<(Expr, usize), usize>)
    ensures
        agrees(r, final(errs)@, top_rule(spanned_seq_view(tokens@), entry, old(errs)@)),
        r matches Ok((_, p)) ==> p == tokens@.len(),
        r matches Err(i) ==> i <= tokens@.len(),
{
    reveal(top_rule);
    let (tree, p) = match entry {
        Entry::Query => parse_statement(tokens, errs)?,
        Entry::ExprTerm => parse_term(tokens, 0, errs)?,
        Entry::Literal => parse_literal(tokens, 0)?,
    };
    if p == tokens.len() {
        Ok((tree, p))
    } else {
        Err(p)
    }
}

} // verus!
