//! The syntax tree. Names and literals are kept as the byte span of the token
//! they were read from, so a tree is read together with its source text.

use vstd::prelude::*;

verus! {

/// The bytes of the source from `start` up to `end`.
#[derive(Debug, Clone, Copy, PartialEq, Eq, Hash, Structural)]
pub struct Span {
    pub start: usize,
    pub end: usize,
}

#[derive(Debug, Clone, Copy, PartialEq, Eq, Structural)]
pub enum LitKind {
    Null,
    Missing,
    True,
    False,
    Int,
    Real,
    ExpReal,
    String,
    Ion,
}

/// How a name is looked up: as written, if it was quoted, or without regard
/// to case.
#[derive(Debug, Clone, Copy, PartialEq, Eq, Structural)]
pub enum CaseSensitivity {
    CaseSensitive,
    CaseInsensitive,
}

#[derive(Debug, Clone, Copy, PartialEq, Eq, Structural)]
pub enum UnaryOperator {
    Pos,
    Neg,
    Not,
}

#[derive(Debug, Clone, Copy, PartialEq, Eq, Structural)]
pub enum BinaryOperator {
    Or,
    And,
    Eq,
    Ne,
    Lt,
    Le,
    Gt,
    Ge,
    Is,
    Like,
    In,
    Concat,
    Add,
    Sub,
    Mul,
    Div,
    Mod,
    Exp,
}

#[derive(Debug, Clone, Copy, PartialEq, Eq, Structural)]
pub enum SetQuantifier {
    All,
    Distinct,
}

#[derive(Debug, Clone, Copy, PartialEq, Eq, Structural)]
pub enum JoinKind {
    Cross,
    Inner,
    Left,
    Right,
    Full,
}

#[derive(Debug, Clone, Copy, PartialEq, Eq, Structural)]
pub enum SortDirection {
    Asc,
    Desc,
}

#[derive(Debug, Clone, Copy, PartialEq, Eq, Structural)]
pub enum NullsPlacement {
    First,
    Last,
}

#[derive(Debug)]
pub enum Expr {
    /// A literal, with the span of its token.
    Lit(LitKind, Span),
    /// A variable, with the span of its token.
    VarRef(Span, CaseSensitivity),
    Unary(UnaryOperator, Box<Expr>),
    Binary(BinaryOperator, Box<Expr>, Box<Expr>),
    /// `base.name`
    Field(Box<Expr>, Span, CaseSensitivity),
    /// `base[index]`
    Index(Box<Expr>, Box<Expr>),
    /// `name(arguments)`
    Call(Span, Box<ExprList>),
    /// `[items]`
    List(Box<ExprList>),
    /// `<<items>>`
    Bag(Box<ExprList>),
    /// `{name: value, ...}`
    Tuple(Box<PairList>),
    /// `SELECT ...`
    Query(Box<Query>),
}

/// Expressions in order.
#[derive(Debug)]
pub enum ExprList {
    Nil,
    Cons(Expr, Box<ExprList>),
}

/// Pairs of a name expression and a value expression, in order.
#[derive(Debug)]
pub enum PairList {
    Nil,
    Cons(Expr, Expr, Box<PairList>),
}

/// Expressions in order, each with the span of its alias if it has one.
#[derive(Debug)]
pub enum AliasedList {
    Nil,
    Cons(Expr, Option<Span>, Box<AliasedList>),
}

/// What a query selects.
#[derive(Debug)]
pub enum Projection {
    /// `SELECT *`
    Star,
    /// `SELECT VALUE expr`
    Value(Expr),
    /// `SELECT expr [AS alias], ...`
    Items(AliasedList),
}

/// What a query reads from.
#[derive(Debug)]
pub enum TableRef {
    /// An expression, ranged over or unpivoted, with its aliases.
    Source { expr: Expr, unpivot: bool, as_alias: Option<Span>, at_alias: Option<Span> },
    /// Two sources joined, with the condition if one is given.
    Join { kind: JoinKind, left: Box<TableRef>, right: Box<TableRef>, on: Option<Expr> },
}

#[derive(Debug)]
pub struct GroupBy {
    pub partial: bool,
    pub keys: AliasedList,
    pub group_as: Option<Span>,
}

/// Sort keys in order, each with its direction and the place of nulls where
/// they are given.
#[derive(Debug)]
pub enum SortList {
    Nil,
    Cons(Expr, Option<SortDirection>, Option<NullsPlacement>, Box<SortList>),
}

#[derive(Debug)]
pub enum OrderBy {
    /// `ORDER BY PRESERVE`
    Preserve,
    Keys(SortList),
}

/// A `SELECT` query and its clauses.
#[derive(Debug)]
pub struct Query {
    pub quantifier: Option<SetQuantifier>,
    pub projection: Projection,
    pub from: Option<TableRef>,
    pub where_clause: Option<Expr>,
    pub group_by: Option<GroupBy>,
    pub having: Option<Expr>,
    pub order_by: Option<OrderBy>,
    pub limit: Option<Expr>,
    pub offset: Option<Expr>,
}

} // verus!
