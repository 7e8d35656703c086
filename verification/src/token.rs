//! The tokens of the language. A token is a fixed tag (punctuation or a
//! keyword) or a tag with the text it was read from. The text type is a
//! parameter: the lexer hands out slices of the source, and contracts speak of
//! the same tokens over sequences of characters.

use vstd::prelude::*;

verus! {

#[derive(Debug, Clone, Copy, PartialEq, Eq)]
pub enum Token<S> {
    /// `[`
    OpenSquare,
    /// `]`
    CloseSquare,
    /// `{`
    OpenCurly,
    /// `}`
    CloseCurly,
    /// `(`
    OpenParen,
    /// `)`
    CloseParen,
    /// `<<`
    OpenDblAngle,
    /// `>>`
    CloseDblAngle,
    /// `,`
    Comma,
    /// `;`
    Semicolon,
    /// `:`
    Colon,
    /// `==`
    EqualEqual,
    /// `!=`
    BangEqual,
    /// `<>`
    LessGreater,
    /// `<=`
    LessEqual,
    /// `>=`
    GreaterEqual,
    /// `=`
    Equal,
    /// `<`
    LessThan,
    /// `>`
    GreaterThan,
    /// `-`
    Minus,
    /// `+`
    Plus,
    /// `*`
    Star,
    /// `%`
    Percent,
    /// `/`
    Slash,
    /// `^`
    Caret,
    /// `.`
    Period,
    /// `||`
    DblPipe,
    /// An identifier written bare, as it stands in the text.
    Identifier(S),
    /// An identifier in double quotes: the text between the quotes, as written.
    QuotedIdentifier(S),
    /// An integer literal, as written.
    Int(S),
    /// A literal with a decimal point, as written.
    Real(S),
    /// A literal with an exponent, as written.
    ExpReal(S),
    /// A string in single quotes: the text between the quotes, as written.
    String(S),
    /// An embedded literal in backticks: the text between the backticks, as written.
    Ion(S),
    /// The keyword `ALL`, in any case.
    All,
    /// The keyword `ASC`, in any case.
    Asc,
    /// The keyword `AND`, in any case.
    And,
    /// The keyword `AS`, in any case.
    As,
    /// The keyword `AT`, in any case.
    At,
    /// The keyword `BETWEEN`, in any case.
    Between,
    /// The keyword `BY`, in any case.
    By,
    /// The keyword `CROSS`, in any case.
    Cross,
    /// The keyword `DESC`, in any case.
    Desc,
    /// The keyword `DISTINCT`, in any case.
    Distinct,
    /// The keyword `ESCAPE`, in any case.
    Escape,
    /// The keyword `EXCEPT`, in any case.
    Except,
    /// The keyword `FALSE`, in any case.
    False,
    /// The keyword `FIRST`, in any case.
    First,
    /// The keyword `FULL`, in any case.
    Full,
    /// The keyword `FROM`, in any case.
    From,
    /// The keyword `GROUP`, in any case.
    Group,
    /// The keyword `HAVING`, in any case.
    Having,
    /// The keyword `IN`, in any case.
    In,
    /// The keyword `INNER`, in any case.
    Inner,
    /// The keyword `INTERSECT`, in any case.
    Intersect,
    /// The keyword `IS`, in any case.
    Is,
    /// The keyword `JOIN`, in any case.
    Join,
    /// The keyword `LAST`, in any case.
    Last,
    /// The keyword `LATERAL`, in any case.
    Lateral,
    /// The keyword `LEFT`, in any case.
    Left,
    /// The keyword `LIKE`, in any case.
    Like,
    /// The keyword `LIMIT`, in any case.
    Limit,
    /// The keyword `MISSING`, in any case.
    Missing,
    /// The keyword `NATURAL`, in any case.
    Natural,
    /// The keyword `NOT`, in any case.
    Not,
    /// The keyword `NULL`, in any case.
    Null,
    /// The keyword `NULLS`, in any case.
    Nulls,
    /// The keyword `OFFSET`, in any case.
    Offset,
    /// The keyword `ON`, in any case.
    On,
    /// The keyword `OR`, in any case.
    Or,
    /// The keyword `ORDER`, in any case.
    Order,
    /// The keyword `OUTER`, in any case.
    Outer,
    /// The keyword `PARTIAL`, in any case.
    Partial,
    /// The keyword `PIVOT`, in any case.
    Pivot,
    /// The keyword `PRESERVE`, in any case.
    Preserve,
    /// The keyword `RIGHT`, in any case.
    Right,
    /// The keyword `SELECT`, in any case.
    Select,
    /// The keyword `THEN`, in any case.
    Then,
    /// The keyword `TRUE`, in any case.
    True,
    /// The keyword `UNION`, in any case.
    Union,
    /// The keyword `UNPIVOT`, in any case.
    Unpivot,
    /// The keyword `USING`, in any case.
    Using,
    /// The keyword `VALUE`, in any case.
    Value,
    /// The keyword `VALUES`, in any case.
    Values,
    /// The keyword `WHERE`, in any case.
    Where,
    /// The keyword `WITH`, in any case.
    With,
}

impl<'a> View for Token<&'a str> {
    type V = Token<Seq<char>>;

    open spec fn view(&self) -> Token<Seq<char>> {
        match *self {
            Token::OpenSquare => Token::OpenSquare,
            Token::CloseSquare => Token::CloseSquare,
            Token::OpenCurly => Token::OpenCurly,
            Token::CloseCurly => Token::CloseCurly,
            Token::OpenParen => Token::OpenParen,
            Token::CloseParen => Token::CloseParen,
            Token::OpenDblAngle => Token::OpenDblAngle,
            Token::CloseDblAngle => Token::CloseDblAngle,
            Token::Comma => Token::Comma,
            Token::Semicolon => Token::Semicolon,
            Token::Colon => Token::Colon,
            Token::EqualEqual => Token::EqualEqual,
            Token::BangEqual => Token::BangEqual,
            Token::LessGreater => Token::LessGreater,
            Token::LessEqual => Token::LessEqual,
            Token::GreaterEqual => Token::GreaterEqual,
            Token::Equal => Token::Equal,
            Token::LessThan => Token::LessThan,
            Token::GreaterThan => Token::GreaterThan,
            Token::Minus => Token::Minus,
            Token::Plus => Token::Plus,
            Token::Star => Token::Star,
            Token::Percent => Token::Percent,
            Token::Slash => Token::Slash,
            Token::Caret => Token::Caret,
            Token::Period => Token::Period,
            Token::DblPipe => Token::DblPipe,
            Token::All => Token::All,
            Token::Asc => Token::Asc,
            Token::And => Token::And,
            Token::As => Token::As,
            Token::At => Token::At,
            Token::Between => Token::Between,
            Token::By => Token::By,
            Token::Cross => Token::Cross,
            Token::Desc => Token::Desc,
            Token::Distinct => Token::Distinct,
            Token::Escape => Token::Escape,
            Token::Except => Token::Except,
            Token::False => Token::False,
            Token::First => Token::First,
            Token::Full => Token::Full,
            Token::From => Token::From,
            Token::Group => Token::Group,
            Token::Having => Token::Having,
            Token::In => Token::In,
            Token::Inner => Token::Inner,
            Token::Intersect => Token::Intersect,
            Token::Is => Token::Is,
            Token::Join => Token::Join,
            Token::Last => Token::Last,
            Token::Lateral => Token::Lateral,
            Token::Left => Token::Left,
            Token::Like => Token::Like,
            Token::Limit => Token::Limit,
            Token::Missing => Token::Missing,
            Token::Natural => Token::Natural,
            Token::Not => Token::Not,
            Token::Null => Token::Null,
            Token::Nulls => Token::Nulls,
            Token::Offset => Token::Offset,
            Token::On => Token::On,
            Token::Or => Token::Or,
            Token::Order => Token::Order,
            Token::Outer => Token::Outer,
            Token::Partial => Token::Partial,
            Token::Pivot => Token::Pivot,
            Token::Preserve => Token::Preserve,
            Token::Right => Token::Right,
            Token::Select => Token::Select,
            Token::Then => Token::Then,
            Token::True => Token::True,
            Token::Union => Token::Union,
            Token::Unpivot => Token::Unpivot,
            Token::Using => Token::Using,
            Token::Value => Token::Value,
            Token::Values => Token::Values,
            Token::Where => Token::Where,
            Token::With => Token::With,
            Token::Identifier(s) => Token::Identifier(s@),
            Token::QuotedIdentifier(s) => Token::QuotedIdentifier(s@),
            Token::Int(s) => Token::Int(s@),
            Token::Real(s) => Token::Real(s@),
            Token::ExpReal(s) => Token::ExpReal(s@),
            Token::String(s) => Token::String(s@),
            Token::Ion(s) => Token::Ion(s@),
        }
    }
}

impl<S> Token<S> {
    /// The tag's name, as it is shown in messages.
    pub open spec fn name(self) -> Seq<char> {
        match self {
            Token::OpenSquare => "OpenSquare"@,
            Token::CloseSquare => "CloseSquare"@,
            Token::OpenCurly => "OpenCurly"@,
            Token::CloseCurly => "CloseCurly"@,
            Token::OpenParen => "OpenParen"@,
            Token::CloseParen => "CloseParen"@,
            Token::OpenDblAngle => "OpenDblAngle"@,
            Token::CloseDblAngle => "CloseDblAngle"@,
            Token::Comma => "Comma"@,
            Token::Semicolon => "Semicolon"@,
            Token::Colon => "Colon"@,
            Token::EqualEqual => "EqualEqual"@,
            Token::BangEqual => "BangEqual"@,
            Token::LessGreater => "LessGreater"@,
            Token::LessEqual => "LessEqual"@,
            Token::GreaterEqual => "GreaterEqual"@,
            Token::Equal => "Equal"@,
            Token::LessThan => "LessThan"@,
            Token::GreaterThan => "GreaterThan"@,
            Token::Minus => "Minus"@,
            Token::Plus => "Plus"@,
            Token::Star => "Star"@,
            Token::Percent => "Percent"@,
            Token::Slash => "Slash"@,
            Token::Caret => "Caret"@,
            Token::Period => "Period"@,
            Token::DblPipe => "DblPipe"@,
            Token::All => "All"@,
            Token::Asc => "Asc"@,
            Token::And => "And"@,
            Token::As => "As"@,
            Token::At => "At"@,
            Token::Between => "Between"@,
            Token::By => "By"@,
            Token::Cross => "Cross"@,
            Token::Desc => "Desc"@,
            Token::Distinct => "Distinct"@,
            Token::Escape => "Escape"@,
            Token::Except => "Except"@,
            Token::False => "False"@,
            Token::First => "First"@,
            Token::Full => "Full"@,
            Token::From => "From"@,
            Token::Group => "Group"@,
            Token::Having => "Having"@,
            Token::In => "In"@,
            Token::Inner => "Inner"@,
            Token::Intersect => "Intersect"@,
            Token::Is => "Is"@,
            Token::Join => "Join"@,
            Token::Last => "Last"@,
            Token::Lateral => "Lateral"@,
            Token::Left => "Left"@,
            Token::Like => "Like"@,
            Token::Limit => "Limit"@,
            Token::Missing => "Missing"@,
            Token::Natural => "Natural"@,
            Token::Not => "Not"@,
            Token::Null => "Null"@,
            Token::Nulls => "Nulls"@,
            Token::Offset => "Offset"@,
            Token::On => "On"@,
            Token::Or => "Or"@,
            Token::Order => "Order"@,
            Token::Outer => "Outer"@,
            Token::Partial => "Partial"@,
            Token::Pivot => "Pivot"@,
            Token::Preserve => "Preserve"@,
            Token::Right => "Right"@,
            Token::Select => "Select"@,
            Token::Then => "Then"@,
            Token::True => "True"@,
            Token::Union => "Union"@,
            Token::Unpivot => "Unpivot"@,
            Token::Using => "Using"@,
            Token::Value => "Value"@,
            Token::Values => "Values"@,
            Token::Where => "Where"@,
            Token::With => "With"@,
            Token::Identifier(_) => "Identifier"@,
            Token::QuotedIdentifier(_) => "QuotedIdentifier"@,
            Token::Int(_) => "Int"@,
            Token::Real(_) => "Real"@,
            Token::ExpReal(_) => "ExpReal"@,
            Token::String(_) => "String"@,
            Token::Ion(_) => "Ion"@,
        }
    }

    /// The tag carries text.
    pub open spec fn has_text(self) -> bool {
        match self {
            Token::Identifier(_) => true,
            Token::QuotedIdentifier(_) => true,
            Token::Int(_) => true,
            Token::Real(_) => true,
            Token::ExpReal(_) => true,
            Token::String(_) => true,
            Token::Ion(_) => true,
            _ => false,
        }
    }

    /// The text that the tag carries.
    pub open spec fn text(self) -> S
        recommends
            self.has_text(),
    {
        match self {
            Token::Identifier(s) => s,
            Token::QuotedIdentifier(s) => s,
            Token::Int(s) => s,
            Token::Real(s) => s,
            Token::ExpReal(s) => s,
            Token::String(s) => s,
            Token::Ion(s) => s,
            _ => arbitrary(),
        }
    }

    pub fn name_str(&self) -> (r: &'static str)
        ensures
            r@ == self.name(),
    {
        match self {
            Token::OpenSquare => "OpenSquare",
            Token::CloseSquare => "CloseSquare",
            Token::OpenCurly => "OpenCurly",
            Token::CloseCurly => "CloseCurly",
            Token::OpenParen => "OpenParen",
            Token::CloseParen => "CloseParen",
            Token::OpenDblAngle => "OpenDblAngle",
            Token::CloseDblAngle => "CloseDblAngle",
            Token::Comma => "Comma",
            Token::Semicolon => "Semicolon",
            Token::Colon => "Colon",
            Token::EqualEqual => "EqualEqual",
            Token::BangEqual => "BangEqual",
            Token::LessGreater => "LessGreater",
            Token::LessEqual => "LessEqual",
            Token::GreaterEqual => "GreaterEqual",
            Token::Equal => "Equal",
            Token::LessThan => "LessThan",
            Token::GreaterThan => "GreaterThan",
            Token::Minus => "Minus",
            Token::Plus => "Plus",
            Token::Star => "Star",
            Token::Percent => "Percent",
            Token::Slash => "Slash",
            Token::Caret => "Caret",
            Token::Period => "Period",
            Token::DblPipe => "DblPipe",
            Token::All => "All",
            Token::Asc => "Asc",
            Token::And => "And",
            Token::As => "As",
            Token::At => "At",
            Token::Between => "Between",
            Token::By => "By",
            Token::Cross => "Cross",
            Token::Desc => "Desc",
            Token::Distinct => "Distinct",
            Token::Escape => "Escape",
            Token::Except => "Except",
            Token::False => "False",
            Token::First => "First",
            Token::Full => "Full",
            Token::From => "From",
            Token::Group => "Group",
            Token::Having => "Having",
            Token::In => "In",
            Token::Inner => "Inner",
            Token::Intersect => "Intersect",
            Token::Is => "Is",
            Token::Join => "Join",
            Token::Last => "Last",
            Token::Lateral => "Lateral",
            Token::Left => "Left",
            Token::Like => "Like",
            Token::Limit => "Limit",
            Token::Missing => "Missing",
            Token::Natural => "Natural",
            Token::Not => "Not",
            Token::Null => "Null",
            Token::Nulls => "Nulls",
            Token::Offset => "Offset",
            Token::On => "On",
            Token::Or => "Or",
            Token::Order => "Order",
            Token::Outer => "Outer",
            Token::Partial => "Partial",
            Token::Pivot => "Pivot",
            Token::Preserve => "Preserve",
            Token::Right => "Right",
            Token::Select => "Select",
            Token::Then => "Then",
            Token::True => "True",
            Token::Union => "Union",
            Token::Unpivot => "Unpivot",
            Token::Using => "Using",
            Token::Value => "Value",
            Token::Values => "Values",
            Token::Where => "Where",
            Token::With => "With",
            Token::Identifier(_) => "Identifier",
            Token::QuotedIdentifier(_) => "QuotedIdentifier",
            Token::Int(_) => "Int",
            Token::Real(_) => "Real",
            Token::ExpReal(_) => "ExpReal",
            Token::String(_) => "String",
            Token::Ion(_) => "Ion",
        }
    }
}

impl<'a> Token<&'a str> {
    /// The text that the tag carries, if it carries any.
    pub fn text_str(&self) -> (r: Option<&'a str>)
        ensures
            r is Some == self.has_text(),
            r is Some ==> r->0 == self.text(),
            self@.has_text() == self.has_text(),
            self.has_text() ==> self@.text() == self.text()@,
            self@.name() == self.name(),
    {
        match *self {
            Token::Identifier(s) => Some(s),
            Token::QuotedIdentifier(s) => Some(s),
            Token::Int(s) => Some(s),
            Token::Real(s) => Some(s),
            Token::ExpReal(s) => Some(s),
            Token::String(s) => Some(s),
            Token::Ion(s) => Some(s),
            _ => None,
        }
    }
}

/// How many keywords the language has.
pub open spec fn keyword_count() -> int {
    52
}

/// The spelling of the `i`-th keyword, in lower case.
pub open spec fn keyword_text(i: int) -> Seq<char> {
    if i == 0 {
        "all"@
    } else if i == 1 {
        "asc"@
    } else if i == 2 {
        "and"@
    } else if i == 3 {
        "as"@
    } else if i == 4 {
        "at"@
    } else if i == 5 {
        "between"@
    } else if i == 6 {
        "by"@
    } else if i == 7 {
        "cross"@
    } else if i == 8 {
        "desc"@
    } else if i == 9 {
        "distinct"@
    } else if i == 10 {
        "escape"@
    } else if i == 11 {
        "except"@
    } else if i == 12 {
        "false"@
    } else if i == 13 {
        "first"@
    } else if i == 14 {
        "full"@
    } else if i == 15 {
        "from"@
    } else if i == 16 {
        "group"@
    } else if i == 17 {
        "having"@
    } else if i == 18 {
        "in"@
    } else if i == 19 {
        "inner"@
    } else if i == 20 {
        "intersect"@
    } else if i == 21 {
        "is"@
    } else if i == 22 {
        "join"@
    } else if i == 23 {
        "last"@
    } else if i == 24 {
        "lateral"@
    } else if i == 25 {
        "left"@
    } else if i == 26 {
        "like"@
    } else if i == 27 {
        "limit"@
    } else if i == 28 {
        "missing"@
    } else if i == 29 {
        "natural"@
    } else if i == 30 {
        "not"@
    } else if i == 31 {
        "null"@
    } else if i == 32 {
        "nulls"@
    } else if i == 33 {
        "offset"@
    } else if i == 34 {
        "on"@
    } else if i == 35 {
        "or"@
    } else if i == 36 {
        "order"@
    } else if i == 37 {
        "outer"@
    } else if i == 38 {
        "partial"@
    } else if i == 39 {
        "pivot"@
    } else if i == 40 {
        "preserve"@
    } else if i == 41 {
        "right"@
    } else if i == 42 {
        "select"@
    } else if i == 43 {
        "then"@
    } else if i == 44 {
        "true"@
    } else if i == 45 {
        "union"@
    } else if i == 46 {
        "unpivot"@
    } else if i == 47 {
        "using"@
    } else if i == 48 {
        "value"@
    } else if i == 49 {
        "values"@
    } else if i == 50 {
        "where"@
    } else if i == 51 {
        "with"@
    } else {
        Seq::empty()
    }
}

/// The token of the `i`-th keyword.
pub open spec fn keyword_token<S>(i: int) -> Token<S> {
    if i == 0 {
        Token::All
    } else if i == 1 {
        Token::Asc
    } else if i == 2 {
        Token::And
    } else if i == 3 {
        Token::As
    } else if i == 4 {
        Token::At
    } else if i == 5 {
        Token::Between
    } else if i == 6 {
        Token::By
    } else if i == 7 {
        Token::Cross
    } else if i == 8 {
        Token::Desc
    } else if i == 9 {
        Token::Distinct
    } else if i == 10 {
        Token::Escape
    } else if i == 11 {
        Token::Except
    } else if i == 12 {
        Token::False
    } else if i == 13 {
        Token::First
    } else if i == 14 {
        Token::Full
    } else if i == 15 {
        Token::From
    } else if i == 16 {
        Token::Group
    } else if i == 17 {
        Token::Having
    } else if i == 18 {
        Token::In
    } else if i == 19 {
        Token::Inner
    } else if i == 20 {
        Token::Intersect
    } else if i == 21 {
        Token::Is
    } else if i == 22 {
        Token::Join
    } else if i == 23 {
        Token::Last
    } else if i == 24 {
        Token::Lateral
    } else if i == 25 {
        Token::Left
    } else if i == 26 {
        Token::Like
    } else if i == 27 {
        Token::Limit
    } else if i == 28 {
        Token::Missing
    } else if i == 29 {
        Token::Natural
    } else if i == 30 {
        Token::Not
    } else if i == 31 {
        Token::Null
    } else if i == 32 {
        Token::Nulls
    } else if i == 33 {
        Token::Offset
    } else if i == 34 {
        Token::On
    } else if i == 35 {
        Token::Or
    } else if i == 36 {
        Token::Order
    } else if i == 37 {
        Token::Outer
    } else if i == 38 {
        Token::Partial
    } else if i == 39 {
        Token::Pivot
    } else if i == 40 {
        Token::Preserve
    } else if i == 41 {
        Token::Right
    } else if i == 42 {
        Token::Select
    } else if i == 43 {
        Token::Then
    } else if i == 44 {
        Token::True
    } else if i == 45 {
        Token::Union
    } else if i == 46 {
        Token::Unpivot
    } else if i == 47 {
        Token::Using
    } else if i == 48 {
        Token::Value
    } else if i == 49 {
        Token::Values
    } else if i == 50 {
        Token::Where
    } else {
        Token::With
    }
}

/// The `i`-th keyword: its spelling in lower case, and its token.
pub fn keyword<S>(i: usize) -> (r: (&'static str, Token<S>))
    requires
        i < keyword_count(),
    ensures
        r.0@ == keyword_text(i as int),
        r.1 == keyword_token::<S>(i as int),
{
    if i == 0 {
        ("all", Token::All)
    } else if i == 1 {
        ("asc", Token::Asc)
    } else if i == 2 {
        ("and", Token::And)
    } else if i == 3 {
        ("as", Token::As)
    } else if i == 4 {
        ("at", Token::At)
    } else if i == 5 {
        ("between", Token::Between)
    } else if i == 6 {
        ("by", Token::By)
    } else if i == 7 {
        ("cross", Token::Cross)
    } else if i == 8 {
        ("desc", Token::Desc)
    } else if i == 9 {
        ("distinct", Token::Distinct)
    } else if i == 10 {
        ("escape", Token::Escape)
    } else if i == 11 {
        ("except", Token::Except)
    } else if i == 12 {
        ("false", Token::False)
    } else if i == 13 {
        ("first", Token::First)
    } else if i == 14 {
        ("full", Token::Full)
    } else if i == 15 {
        ("from", Token::From)
    } else if i == 16 {
        ("group", Token::Group)
    } else if i == 17 {
        ("having", Token::Having)
    } else if i == 18 {
        ("in", Token::In)
    } else if i == 19 {
        ("inner", Token::Inner)
    } else if i == 20 {
        ("intersect", Token::Intersect)
    } else if i == 21 {
        ("is", Token::Is)
    } else if i == 22 {
        ("join", Token::Join)
    } else if i == 23 {
        ("last", Token::Last)
    } else if i == 24 {
        ("lateral", Token::Lateral)
    } else if i == 25 {
        ("left", Token::Left)
    } else if i == 26 {
        ("like", Token::Like)
    } else if i == 27 {
        ("limit", Token::Limit)
    } else if i == 28 {
        ("missing", Token::Missing)
    } else if i == 29 {
        ("natural", Token::Natural)
    } else if i == 30 {
        ("not", Token::Not)
    } else if i == 31 {
        ("null", Token::Null)
    } else if i == 32 {
        ("nulls", Token::Nulls)
    } else if i == 33 {
        ("offset", Token::Offset)
    } else if i == 34 {
        ("on", Token::On)
    } else if i == 35 {
        ("or", Token::Or)
    } else if i == 36 {
        ("order", Token::Order)
    } else if i == 37 {
        ("outer", Token::Outer)
    } else if i == 38 {
        ("partial", Token::Partial)
    } else if i == 39 {
        ("pivot", Token::Pivot)
    } else if i == 40 {
        ("preserve", Token::Preserve)
    } else if i == 41 {
        ("right", Token::Right)
    } else if i == 42 {
        ("select", Token::Select)
    } else if i == 43 {
        ("then", Token::Then)
    } else if i == 44 {
        ("true", Token::True)
    } else if i == 45 {
        ("union", Token::Union)
    } else if i == 46 {
        ("unpivot", Token::Unpivot)
    } else if i == 47 {
        ("using", Token::Using)
    } else if i == 48 {
        ("value", Token::Value)
    } else if i == 49 {
        ("values", Token::Values)
    } else if i == 50 {
        ("where", Token::Where)
    } else {
        ("with", Token::With)
    }
}

/// A keyword token carries no text, so it looks the same over any text type.
pub proof fn lemma_keyword_token_view<'a>(i: int)
    ensures
        keyword_token::<&'a str>(i)@ == keyword_token::<Seq<char>>(i),
        !keyword_token::<Seq<char>>(i).has_text(),
{
}

} // verus!
