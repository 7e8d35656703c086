//! How errors read when they are shown: the kind of error, what it is about
//! in square brackets, and the two ends of its location.

use crate::location::{BytePosition, LineAndCharPosition};
use crate::result::{LexError, ParserError, Unsupported};
use crate::token::Token;
use vstd::prelude::*;
use vstd::string::StringExecFns;

verus! {

/// The text of a string as the standard library's `Debug` shows it: in
/// double quotes, with the characters escaped that it escapes.
pub uninterp spec fn debug_text(s: Seq<char>) -> Seq<char>;

/// `<str as Debug>::fmt` of the standard library, through `format!`. The
/// result is named, not stated: it is the same for the same characters.
#[verifier::external_body]
fn debug_string(s: &str) -> (r: String)
    ensures
        r@ == debug_text(s@),
{
    format!("{:?}", s)
}

/// One decimal digit.
pub open spec fn digit_text(d: nat) -> Seq<char> {
    if d == 0 {
        "0"@
    } else if d == 1 {
        "1"@
    } else if d == 2 {
        "2"@
    } else if d == 3 {
        "3"@
    } else if d == 4 {
        "4"@
    } else if d == 5 {
        "5"@
    } else if d == 6 {
        "6"@
    } else if d == 7 {
        "7"@
    } else if d == 8 {
        "8"@
    } else {
        "9"@
    }
}

/// A number in decimal digits, without leading zeros.
pub open spec fn decimal_text(n: nat) -> Seq<char>
    decreases n,
{
    if n < 10 {
        digit_text(n)
    } else {
        decimal_text(n / 10) + digit_text(n % 10)
    }
}

/// A line and a character as they are shown.
pub open spec fn line_and_char_text(p: LineAndCharPosition) -> Seq<char> {
    "LineAndCharPosition { line: LineOffset("@ + decimal_text(p.line.0 as nat)
        + "), char: CharOffset("@ + decimal_text(p.char.0 as nat) + ") }"@
}

/// A byte position as it is shown.
pub open spec fn byte_position_text(p: BytePosition) -> Seq<char> {
    "BytePosition(ByteOffset("@ + decimal_text(p.0.0 as nat) + "))"@
}

/// A tag with its text, given the text as it is shown.
pub open spec fn tag_with_text(name: Seq<char>, shown: Seq<char>) -> Seq<char> {
    name + "("@ + shown + ")"@
}

/// A token as it is shown: its tag, and its text in brackets if it has one.
pub open spec fn token_text(t: Token<Seq<char>>) -> Seq<char> {
    if t.has_text() {
        tag_with_text(t.name(), debug_text(t.text()))
    } else {
        t.name()
    }
}

pub open spec fn lex_error_text(e: LexError) -> Seq<char> {
    match e {
        LexError::UnterminatedString => "UnterminatedString"@,
        LexError::UnterminatedIonLiteral => "UnterminatedIonLiteral"@,
        LexError::UnterminatedComment => "UnterminatedComment"@,
        LexError::InvalidNumber => "InvalidNumber"@,
        LexError::InvalidInput => "InvalidInput"@,
    }
}

pub open spec fn unsupported_text(u: Unsupported) -> Seq<char> {
    match u {
        Unsupported::UnexpectedEndOfInput => "UnexpectedEndOfInput"@,
        Unsupported::InvalidToken => "InvalidToken"@,
        Unsupported::ExtraToken => "ExtraToken"@,
    }
}

/// A message: the kind of error, what it is about, and where it lies.
pub open spec fn message_text(
    kind: Seq<char>,
    about: Seq<char>,
    start: Seq<char>,
    end: Seq<char>,
) -> Seq<char> {
    kind + " ["@ + about + "] at ["@ + start + ".."@ + end + "]"@
}

/// The kind of an error, as it is shown.
pub open spec fn kind_text<S, Loc>(e: ParserError<S, Loc>) -> Seq<char> {
    match e {
        ParserError::UnexpectedToken(_) => "Unexpected token"@,
        ParserError::LexicalError(_) => "Lexical error"@,
        ParserError::Unsupported(_) => "Unsupported"@,
    }
}

/// What an error is about, as it is shown.
pub open spec fn about_text<Loc>(e: ParserError<Seq<char>, Loc>) -> Seq<char> {
    match e {
        ParserError::UnexpectedToken(u) => token_text(u.inner.token),
        ParserError::LexicalError(l) => lex_error_text(l.inner),
        ParserError::Unsupported(u) => unsupported_text(u.inner),
    }
}

/// An error in lines and characters as it is shown.
pub open spec fn error_text(e: ParserError<Seq<char>, LineAndCharPosition>) -> Seq<char> {
    message_text(
        kind_text(e),
        about_text(e),
        line_and_char_text(e.location().start),
        line_and_char_text(e.location().end),
    )
}

/// An error in byte positions as it is shown.
pub open spec fn byte_error_text(e: ParserError<Seq<char>, BytePosition>) -> Seq<char> {
    message_text(
        kind_text(e),
        about_text(e),
        byte_position_text(e.location().start),
        byte_position_text(e.location().end),
    )
}

fn digit_str(d: usize) -> (r: &'static str)
    requires
        d < 10,
    ensures
        r@ == digit_text(d as nat),
{
    if d == 0 {
        "0"
    } else if d == 1 {
        "1"
    } else if d == 2 {
        "2"
    } else if d == 3 {
        "3"
    } else if d == 4 {
        "4"
    } else if d == 5 {
        "5"
    } else if d == 6 {
        "6"
    } else if d == 7 {
        "7"
    } else if d == 8 {
        "8"
    } else {
        "9"
    }
}

/// A number in decimal digits.
pub fn decimal_string(n: usize) -> (r: String)
    ensures
        r@ == decimal_text(n as nat),
    decreases n,
{
    if n < 10 {
        String::from_str(digit_str(n))
    } else {
        let mut r = decimal_string(n / 10);
        r.append(digit_str(n % 10));
        r
    }
}

pub fn line_and_char_string(p: &LineAndCharPosition) -> (r: String)
    ensures
        r@ == line_and_char_text(*p),
{
    let mut r = String::from_str("LineAndCharPosition { line: LineOffset(");
    r.append(decimal_string(p.line.0).as_str());
    r.append("), char: CharOffset(");
    r.append(decimal_string(p.char.0).as_str());
    r.append(") }");
    r
}

pub fn byte_position_string(p: &BytePosition) -> (r: String)
    ensures
        r@ == byte_position_text(*p),
{
    let mut r = String::from_str("BytePosition(ByteOffset(");
    r.append(decimal_string(p.0.0).as_str());
    r.append("))");
    r
}

/// A tag with its text, given the text as it is shown.
pub fn tag_with_string(name: &str, shown: &str) -> (r: String)
    ensures
        r@ == tag_with_text(name@, shown@),
{
    let mut r = String::from_str(name);
    r.append("(");
    r.append(shown);
    r.append(")");
    r
}

/// A token as it is shown.
pub fn token_string<'a>(t: &Token<&'a str>) -> (r: String)
    ensures
        r@ == token_text(t@),
{
    match t.text_str() {
        Some(text) => tag_with_string(t.name_str(), debug_string(text).as_str()),
        None => String::from_str(t.name_str()),
    }
}

fn lex_error_str(e: LexError) -> (r: &'static str)
    ensures
        r@ == lex_error_text(e),
{
    match e {
        LexError::UnterminatedString => "UnterminatedString",
        LexError::UnterminatedIonLiteral => "UnterminatedIonLiteral",
        LexError::UnterminatedComment => "UnterminatedComment",
        LexError::InvalidNumber => "InvalidNumber",
        LexError::InvalidInput => "InvalidInput",
    }
}

fn unsupported_str(u: Unsupported) -> (r: &'static str)
    ensures
        r@ == unsupported_text(u),
{
    match u {
        Unsupported::UnexpectedEndOfInput => "UnexpectedEndOfInput",
        Unsupported::InvalidToken => "InvalidToken",
        Unsupported::ExtraToken => "ExtraToken",
    }
}

/// A message: the kind of error, what it is about, and where it lies.
pub fn message_string(kind: &str, about: &str, start: &str, end: &str) -> (r: String)
    ensures
        r@ == message_text(kind@, about@, start@, end@),
{
    let mut r = String::from_str(kind);
    r.append(" [");
    r.append(about);
    r.append("] at [");
    r.append(start);
    r.append("..");
    r.append(end);
    r.append("]");
    r
}

fn kind_str<S, Loc>(e: &ParserError<S, Loc>) -> (r: &'static str)
    ensures
        r@ == kind_text(*e),
{
    match e {
        ParserError::UnexpectedToken(_) => "Unexpected token",
        ParserError::LexicalError(_) => "Lexical error",
        ParserError::Unsupported(_) => "Unsupported",
    }
}

fn about_string<'a, Loc>(e: &ParserError<&'a str, Loc>) -> (r: String)
    ensures
        r@ == about_text(e@),
{
    match e {
        ParserError::UnexpectedToken(u) => token_string(&u.inner.token),
        ParserError::LexicalError(l) => String::from_str(lex_error_str(l.inner)),
        ParserError::Unsupported(u) => String::from_str(unsupported_str(u.inner)),
    }
}

impl<'a> ParserError<&'a str, LineAndCharPosition> {
    /// The error as it is shown to a reader.
    pub fn to_string(&self) -> (r: String)
        ensures
            r@ == error_text(self@),
    {
        let (start, end) = match self {
            ParserError::UnexpectedToken(u) => (&u.location.start, &u.location.end),
            ParserError::LexicalError(l) => (&l.location.start, &l.location.end),
            ParserError::Unsupported(u) => (&u.location.start, &u.location.end),
        };
        message_string(
            kind_str(self),
            about_string(self).as_str(),
            line_and_char_string(start).as_str(),
            line_and_char_string(end).as_str(),
        )
    }
}

impl<'a> ParserError<&'a str, BytePosition> {
    /// The error as it is shown to a reader.
    pub fn to_string(&self) -> (r: String)
        ensures
            r@ == byte_error_text(self@),
    {
        let (start, end) = match self {
            ParserError::UnexpectedToken(u) => (&u.location.start, &u.location.end),
            ParserError::LexicalError(l) => (&l.location.start, &l.location.end),
            ParserError::Unsupported(u) => (&u.location.start, &u.location.end),
        };
        message_string(
            kind_str(self),
            about_string(self).as_str(),
            byte_position_string(start).as_str(),
            byte_position_string(end).as_str(),
        )
    }
}

} // verus!
