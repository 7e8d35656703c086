//! What lexing and parsing report when they fail. An error carries where it
//! lies; the position type is a parameter, so that one shape serves for byte
//! offsets inside the parser and for lines and characters in what is reported.

use crate::location::{ByteOffset, BytePosition};
use crate::token::Token;
use core::ops::Range;
use vstd::prelude::*;

verus! {

/// `Range::clone` of the standard library: the derived `Clone` of the error
/// types calls it. Nothing is claimed of the copy.
pub assume_specification<Idx>[ <Range<Idx> as Clone>::clone ](r: &Range<Idx>) -> Range<Idx>
    where Idx: Clone
;

/// Why a piece of text is no token.
#[derive(Debug, Clone, Copy, PartialEq, Eq, Structural)]
pub enum LexError {
    /// A single or double quote is never closed.
    UnterminatedString,
    /// A backtick is never closed.
    UnterminatedIonLiteral,
    /// A block comment is never closed.
    UnterminatedComment,
    /// A number has an exponent marker with no digits after it.
    InvalidNumber,
    /// A character that starts no token.
    InvalidInput,
}

/// What the grammar met that it does not model further.
#[derive(Debug, Clone, Copy, PartialEq, Eq, Structural)]
pub enum Unsupported {
    /// The text ends where more is needed.
    UnexpectedEndOfInput,
    /// A token that the lexer itself could not read.
    InvalidToken,
    /// A token after the end of a complete query.
    ExtraToken,
}

/// A value and the range of text it is about.
#[derive(Debug, Clone, PartialEq, Eq)]
pub struct Located<T, Loc> {
    pub inner: T,
    pub location: Range<Loc>,
}

/// The token that the grammar could not accept.
#[derive(Debug, Clone, PartialEq, Eq)]
pub struct UnexpectedTokenData<S> {
    pub token: Token<S>,
}

/// A token that the grammar could not accept, and where it stands.
#[derive(Debug, Clone, PartialEq, Eq)]
pub struct UnexpectedToken<S, Loc> {
    pub inner: UnexpectedTokenData<S>,
    pub location: Range<Loc>,
}

/// An error of the lexer or the parser.
#[derive(Debug, Clone, PartialEq, Eq)]
pub enum ParserError<S, Loc> {
    /// The grammar met a token that it cannot accept there.
    UnexpectedToken(UnexpectedToken<S, Loc>),
    /// The text at the location is no token.
    LexicalError(Located<LexError, Loc>),
    /// A condition of the grammar that is not modelled further.
    Unsupported(Located<Unsupported, Loc>),
}

impl<'a, Loc> View for ParserError<&'a str, Loc> {
    type V = ParserError<Seq<char>, Loc>;

    open spec fn view(&self) -> ParserError<Seq<char>, Loc> {
        match *self {
            ParserError::UnexpectedToken(u) => ParserError::UnexpectedToken(
                UnexpectedToken {
                    inner: UnexpectedTokenData { token: u.inner.token@ },
                    location: u.location,
                },
            ),
            ParserError::LexicalError(e) => ParserError::LexicalError(e),
            ParserError::Unsupported(e) => ParserError::Unsupported(e),
        }
    }
}

impl<S, Loc> ParserError<S, Loc> {
    /// The range of text that the error is about.
    pub open spec fn location(self) -> Range<Loc> {
        match self {
            ParserError::UnexpectedToken(u) => u.location,
            ParserError::LexicalError(e) => e.location,
            ParserError::Unsupported(e) => e.location,
        }
    }

    /// The same error with each end of its location replaced.
    pub open spec fn with_location<Loc2>(self, location: Range<Loc2>) -> ParserError<S, Loc2> {
        match self {
            ParserError::UnexpectedToken(u) => ParserError::UnexpectedToken(
                UnexpectedToken { inner: u.inner, location },
            ),
            ParserError::LexicalError(e) => ParserError::LexicalError(
                Located { inner: e.inner, location },
            ),
            ParserError::Unsupported(e) => ParserError::Unsupported(
                Located { inner: e.inner, location },
            ),
        }
    }
}

/// A byte range as a location.
pub open spec fn byte_range(start: usize, end: usize) -> Range<BytePosition> {
    Range { start: BytePosition(ByteOffset(start)), end: BytePosition(ByteOffset(end)) }
}

/// The lexical error for `text[start..end]`.
pub open spec fn lexical_error<S>(reason: LexError, start: usize, end: usize) -> ParserError<
    S,
    BytePosition,
> {
    ParserError::LexicalError(Located { inner: reason, location: byte_range(start, end) })
}

/// The error for a token at `text[start..end]` that the grammar cannot accept.
pub open spec fn unexpected_token<S>(token: Token<S>, start: usize, end: usize) -> ParserError<
    S,
    BytePosition,
> {
    ParserError::UnexpectedToken(
        UnexpectedToken { inner: UnexpectedTokenData { token }, location: byte_range(start, end) },
    )
}

} // verus!
