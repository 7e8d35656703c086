//! The lexer: from source text to tokens with their byte spans. Whitespace
//! and comments are skipped; keywords are read in any case; identifiers,
//! numbers, quoted texts and embedded literals carry the slice of the source
//! they were read from. What is no token is reported with its span and a
//! reason, and lexing goes on after it.

use crate::location::{ByteOffset, BytePosition};
use crate::result::{lexical_error, LexError, Located, ParserError};
use crate::scan::{
    at_block_comment, byte_is_digit, byte_is_ident_start, byte_to_lower, ion_end,
    is_digit, is_exponent_marker, is_ident_start, lemma_ion_end_bounds,
    lemma_quote_end_bounds, lemma_run_end_bounds, lemma_skip_trivia_bounds, quote_end, run_end,
    scan_ion, scan_quote, scan_run, scan_trivia, skip_trivia, starts_block_comment, to_lower,
    ByteClass, BACKTICK, DOT, DOUBLE_QUOTE, MINUS, NEWLINE, PLUS, SINGLE_QUOTE,
};
use crate::text::{lemma_boundary_after_ascii, lemma_str_is_utf8, slice_str, text_of};
use crate::token::{keyword, keyword_count, keyword_text, keyword_token, Token};
use crate::tracker::{lemma_line_starts_shape, line_starts_upto, LineOffsetTracker};
use core::ops::Range;
use vstd::prelude::*;
use vstd::string::StringSliceAdditionalSpecFns;
use vstd::utf8::encode_utf8;

verus! {

/// A token between the offsets of its first byte and of the byte after its
/// last.
pub type Spanned<Tok, Loc> = (Loc, Tok, Loc);

/// What the lexer reads at one place: a token or the reason why there is
/// none, and the span of text read.
pub ghost struct Lexeme {
    pub start: int,
    pub item: Result<Token<Seq<char>>, LexError>,
    pub end: int,
}

/// The word is the keyword, whatever the case of its letters.
pub open spec fn spells(word: Seq<u8>, kw: Seq<char>) -> bool {
    &&& word.len() == encode_utf8(kw).len()
    &&& forall|i: int| 0 <= i < word.len() ==> to_lower(#[trigger] word[i]) == encode_utf8(kw)[i]
}

/// The first keyword from the `i`-th on that the word spells.
pub open spec fn keyword_from(word: Seq<u8>, i: int) -> Option<int>
    decreases keyword_count() - i,
{
    if i < 0 || i >= keyword_count() {
        None
    } else if spells(word, keyword_text(i)) {
        Some(i)
    } else {
        keyword_from(word, i + 1)
    }
}

/// The keyword that the word spells, if it spells one.
pub open spec fn keyword_of(word: Seq<u8>) -> Option<int> {
    keyword_from(word, 0)
}

/// The punctuation token that two bytes spell together.
pub open spec fn punct2<S>(a: u8, b: u8) -> Option<Token<S>> {
    if a == 0x3c && b == 0x3c {
        Some(Token::OpenDblAngle)
    } else if a == 0x3e && b == 0x3e {
        Some(Token::CloseDblAngle)
    } else if a == 0x3c && b == 0x3e {
        Some(Token::LessGreater)
    } else if a == 0x3c && b == 0x3d {
        Some(Token::LessEqual)
    } else if a == 0x3e && b == 0x3d {
        Some(Token::GreaterEqual)
    } else if a == 0x3d && b == 0x3d {
        Some(Token::EqualEqual)
    } else if a == 0x21 && b == 0x3d {
        Some(Token::BangEqual)
    } else if a == 0x7c && b == 0x7c {
        Some(Token::DblPipe)
    } else {
        None
    }
}

/// The punctuation token that one byte spells.
pub open spec fn punct1<S>(a: u8) -> Option<Token<S>> {
    if a == 0x5b {
        Some(Token::OpenSquare)
    } else if a == 0x5d {
        Some(Token::CloseSquare)
    } else if a == 0x7b {
        Some(Token::OpenCurly)
    } else if a == 0x7d {
        Some(Token::CloseCurly)
    } else if a == 0x28 {
        Some(Token::OpenParen)
    } else if a == 0x29 {
        Some(Token::CloseParen)
    } else if a == 0x2c {
        Some(Token::Comma)
    } else if a == 0x3b {
        Some(Token::Semicolon)
    } else if a == 0x3a {
        Some(Token::Colon)
    } else if a == 0x3d {
        Some(Token::Equal)
    } else if a == 0x3c {
        Some(Token::LessThan)
    } else if a == 0x3e {
        Some(Token::GreaterThan)
    } else if a == 0x2d {
        Some(Token::Minus)
    } else if a == 0x2b {
        Some(Token::Plus)
    } else if a == 0x2a {
        Some(Token::Star)
    } else if a == 0x25 {
        Some(Token::Percent)
    } else if a == 0x2f {
        Some(Token::Slash)
    } else if a == 0x5e {
        Some(Token::Caret)
    } else if a == 0x2e {
        Some(Token::Period)
    } else {
        None
    }
}

/// The forms of a numeric literal, and the form that is none.
#[derive(Debug, Clone, Copy, PartialEq, Eq, Structural)]
pub enum NumberForm {
    /// Digits only.
    Int,
    /// Digits with a decimal point before, among or after them.
    Real,
    /// An `Int` or a `Real`, an exponent marker, a sign or none, and digits.
    ExpReal,
    /// An exponent marker with no digits after it.
    Invalid,
}

/// A number starts at `p`: a digit, or a point with a digit after it.
pub open spec fn starts_number(text: Seq<u8>, p: int) -> bool {
    is_digit(text[p]) || (text[p] == DOT && p + 1 < text.len() && is_digit(text[p + 1]))
}

/// The form of the number that starts at `p`, and where it ends.
pub open spec fn number_form(text: Seq<u8>, p: int) -> (NumberForm, int) {
    let int_end = run_end(text, p, ByteClass::Digit);
    let has_point = int_end < text.len() && text[int_end] == DOT;
    let mantissa_end = if has_point {
        run_end(text, int_end + 1, ByteClass::Digit)
    } else {
        int_end
    };
    if mantissa_end < text.len() && is_exponent_marker(text[mantissa_end]) {
        let sign_end = if mantissa_end + 1 < text.len() && (text[mantissa_end + 1] == PLUS
            || text[mantissa_end + 1] == MINUS) {
            mantissa_end + 2
        } else {
            mantissa_end + 1
        };
        let exponent_end = run_end(text, sign_end, ByteClass::Digit);
        if exponent_end > sign_end {
            (NumberForm::ExpReal, exponent_end)
        } else {
            (NumberForm::Invalid, sign_end)
        }
    } else if has_point {
        (NumberForm::Real, mantissa_end)
    } else {
        (NumberForm::Int, mantissa_end)
    }
}

/// What stands at `p`, where a token or an error starts: `p` is inside the
/// text, and nothing that is skipped stands there.
pub open spec fn scan_token(text: Seq<u8>, p: int) -> Lexeme {
    let c = text[p];
    if is_ident_start(c) {
        let e = run_end(text, p + 1, ByteClass::IdentPart);
        match keyword_of(text.subrange(p, e)) {
            Some(i) => Lexeme { start: p, item: Ok(keyword_token(i)), end: e },
            None => Lexeme { start: p, item: Ok(Token::Identifier(text_of(text, p, e))), end: e },
        }
    } else if starts_number(text, p) {
        let (form, e) = number_form(text, p);
        let item = match form {
            NumberForm::Int => Ok(Token::Int(text_of(text, p, e))),
            NumberForm::Real => Ok(Token::Real(text_of(text, p, e))),
            NumberForm::ExpReal => Ok(Token::ExpReal(text_of(text, p, e))),
            NumberForm::Invalid => Err(LexError::InvalidNumber),
        };
        Lexeme { start: p, item, end: e }
    } else if c == SINGLE_QUOTE {
        match quote_end(text, p + 1, c) {
            Some(q) => Lexeme {
                start: p,
                item: Ok(Token::String(text_of(text, p + 1, q))),
                end: q + 1,
            },
            None => Lexeme {
                start: p,
                item: Err(LexError::UnterminatedString),
                end: text.len() as int,
            },
        }
    } else if c == DOUBLE_QUOTE {
        match quote_end(text, p + 1, c) {
            Some(q) => Lexeme {
                start: p,
                item: Ok(Token::QuotedIdentifier(text_of(text, p + 1, q))),
                end: q + 1,
            },
            None => Lexeme {
                start: p,
                item: Err(LexError::UnterminatedString),
                end: text.len() as int,
            },
        }
    } else if c == BACKTICK {
        match ion_end(text, p + 1) {
            Some(q) => Lexeme { start: p, item: Ok(Token::Ion(text_of(text, p + 1, q))), end: q + 1 },
            None => Lexeme {
                start: p,
                item: Err(LexError::UnterminatedIonLiteral),
                end: text.len() as int,
            },
        }
    } else if starts_block_comment(text, p) {
        Lexeme { start: p, item: Err(LexError::UnterminatedComment), end: text.len() as int }
    } else if p + 1 < text.len() && punct2::<Seq<char>>(c, text[p + 1]) is Some {
        Lexeme { start: p, item: Ok(punct2::<Seq<char>>(c, text[p + 1])->0), end: p + 2 }
    } else if punct1::<Seq<char>>(c) is Some {
        Lexeme { start: p, item: Ok(punct1::<Seq<char>>(c)->0), end: p + 1 }
    } else {
        Lexeme {
            start: p,
            item: Err(LexError::InvalidInput),
            end: run_end(text, p + 1, ByteClass::Continuation),
        }
    }
}

/// What is read next from `pos` on, if the text does not end first.
pub open spec fn next_lexeme(text: Seq<u8>, pos: int) -> Option<Lexeme> {
    let p = skip_trivia(text, pos);
    if 0 <= p < text.len() {
        Some(scan_token(text, p))
    } else {
        None
    }
}

/// A lexeme starts where it is read and ends after that, inside the text.
pub proof fn lemma_scan_token_bounds(text: Seq<u8>, p: int)
    requires
        0 <= p < text.len(),
    ensures
        scan_token(text, p).start == p,
        p < scan_token(text, p).end <= text.len(),
{
    lemma_run_end_bounds(text, p + 1, ByteClass::IdentPart);
    lemma_run_end_bounds(text, p + 1, ByteClass::Continuation);
    lemma_quote_end_bounds(text, p + 1, SINGLE_QUOTE);
    lemma_quote_end_bounds(text, p + 1, DOUBLE_QUOTE);
    lemma_ion_end_bounds(text, p + 1);
    if starts_number(text, p) {
        lemma_number_form_bounds(text, p);
    }
}

pub proof fn lemma_number_form_bounds(text: Seq<u8>, p: int)
    requires
        0 <= p < text.len(),
        starts_number(text, p),
    ensures
        p < number_form(text, p).1 <= text.len(),
{
    let int_end = run_end(text, p, ByteClass::Digit);
    lemma_run_end_bounds(text, p, ByteClass::Digit);
    if is_digit(text[p]) {
        lemma_run_end_bounds(text, p + 1, ByteClass::Digit);
    }
    let has_point = int_end < text.len() && text[int_end] == DOT;
    let mantissa_end = if has_point {
        run_end(text, int_end + 1, ByteClass::Digit)
    } else {
        int_end
    };
    if has_point {
        lemma_run_end_bounds(text, int_end + 1, ByteClass::Digit);
    }
    if mantissa_end < text.len() && is_exponent_marker(text[mantissa_end]) {
        let sign_end = if mantissa_end + 1 < text.len() && (text[mantissa_end + 1] == PLUS
            || text[mantissa_end + 1] == MINUS) {
            mantissa_end + 2
        } else {
            mantissa_end + 1
        };
        lemma_run_end_bounds(text, sign_end, ByteClass::Digit);
    }
}

/// Everything that is read from `pos` to the end of the text, in order.
pub open spec fn lex_from(text: Seq<u8>, pos: int) -> Seq<Lexeme>
    decreases text.len() - pos,
{
    if pos < 0 || pos > text.len() {
        Seq::empty()
    } else {
        match next_lexeme(text, pos) {
            None => Seq::empty(),
            Some(lexeme) => {
                proof {
                    lemma_skip_trivia_bounds(text, pos);
                    lemma_scan_token_bounds(text, skip_trivia(text, pos));
                }
                seq![lexeme] + lex_from(text, lexeme.end)
            },
        }
    }
}

/// What is read lies in the text, in order, and covers it but for what is
/// skipped: every lexeme is a span of at least one byte from `pos` on; each
/// starts where the skipping from the end of the one before it (from `pos`,
/// for the first) stops; and from the end of the last (from `pos`, if there
/// is none) the skipping reaches the end of the text.
pub proof fn lemma_lexemes_in_order(text: Seq<u8>, pos: int)
    requires
        0 <= pos <= text.len(),
    ensures
        forall|i: int|
            0 <= i < lex_from(text, pos).len() ==> pos <= (#[trigger] lex_from(text, pos)[i]).start
                < lex_from(text, pos)[i].end <= text.len(),
        forall|i: int, j: int|
            0 <= i < j < lex_from(text, pos).len() ==> (#[trigger] lex_from(text, pos)[i]).end <= (
            #[trigger] lex_from(text, pos)[j]).start,
        lex_from(text, pos).len() > 0 ==> lex_from(text, pos)[0].start == skip_trivia(text, pos),
        forall|i: int, j: int|
            0 <= i && j == i + 1 && j < lex_from(text, pos).len() ==> (#[trigger] lex_from(
                text,
                pos,
            )[j]).start == skip_trivia(text, (#[trigger] lex_from(text, pos)[i]).end),
        skip_trivia(
            text,
            if lex_from(text, pos).len() == 0 {
                pos
            } else {
                lex_from(text, pos).last().end
            },
        ) == text.len(),
    decreases text.len() - pos,
{
    lemma_skip_trivia_bounds(text, pos);
    let p = skip_trivia(text, pos);
    if p < text.len() {
        lemma_scan_token_bounds(text, p);
        let first = scan_token(text, p);
        let rest = lex_from(text, first.end);
        lemma_lexemes_in_order(text, first.end);
        let all = lex_from(text, pos);
        assert(all == seq![first] + rest);
        assert forall|i: int| 0 < i < all.len() implies #[trigger] all[i] == rest[i - 1] by {}
        assert(all[0] == first);
        if rest.len() > 0 {
            assert(all.last() == rest.last());
        }
    }
}

/// There are no more lexemes than bytes to read, and no more tokens than
/// lexemes.
pub proof fn lemma_lexeme_count(text: Seq<u8>, pos: int)
    requires
        0 <= pos <= text.len(),
    ensures
        lex_from(text, pos).len() <= text.len() - pos,
        tokens_of(lex_from(text, pos)).len() <= lex_from(text, pos).len(),
    decreases text.len() - pos,
{
    lemma_skip_trivia_bounds(text, pos);
    let p = skip_trivia(text, pos);
    if p < text.len() {
        lemma_scan_token_bounds(text, p);
        lemma_lexeme_count(text, scan_token(text, p).end);
    }
    lemma_token_count(lex_from(text, pos));
}

proof fn lemma_token_count(items: Seq<Lexeme>)
    ensures
        tokens_of(items).len() <= items.len(),
    decreases items.len(),
{
    if items.len() > 0 {
        lemma_token_count(items.drop_last());
    }
}

/// Every lexeme of a text is a span of it.
pub proof fn lemma_lexemes_within(text: Seq<u8>)
    ensures
        forall|i: int|
            0 <= i < lex_from(text, 0).len() ==> 0 <= (#[trigger] lex_from(text, 0)[i]).start
                <= lex_from(text, 0)[i].end <= text.len(),
{
    lemma_lexemes_in_order(text, 0);
}

/// The tokens among what was read, each with its span, in order.
pub open spec fn tokens_of(items: Seq<Lexeme>) -> Seq<Spanned<Token<Seq<char>>, ByteOffset>>
    decreases items.len(),
{
    if items.len() == 0 {
        Seq::empty()
    } else {
        let before = tokens_of(items.drop_last());
        let last = items.last();
        match last.item {
            Ok(token) => before.push(
                (ByteOffset(last.start as usize), token, ByteOffset(last.end as usize)),
            ),
            Err(_) => before,
        }
    }
}

/// The error that reports a lexeme which is no token.
pub open spec fn failure_of(lexeme: Lexeme) -> ParserError<Seq<char>, BytePosition>
    recommends
        lexeme.item is Err,
{
    lexical_error(lexeme.item->Err_0, lexeme.start as usize, lexeme.end as usize)
}

/// A token with its span, its text as characters.
pub open spec fn spanned_view<'a>(s: Spanned<Token<&'a str>, ByteOffset>) -> Spanned<
    Token<Seq<char>>,
    ByteOffset,
> {
    (s.0, s.1@, s.2)
}

/// Tokens with their spans, their texts as characters.
pub open spec fn spanned_seq_view<'a>(v: Seq<Spanned<Token<&'a str>, ByteOffset>>) -> Seq<
    Spanned<Token<Seq<char>>, ByteOffset>,
> {
    Seq::new(v.len(), |i: int| spanned_view(v[i]))
}

/// Errors, the texts of their tokens as characters.
pub open spec fn errors_view<'a, Loc>(v: Seq<ParserError<&'a str, Loc>>) -> Seq<
    ParserError<Seq<char>, Loc>,
> {
    Seq::new(v.len(), |i: int| v[i]@)
}

fn word_spells(bytes: &[u8], p: usize, e: usize, kw: &str) -> (r: bool)
    requires
        p <= e <= bytes@.len(),
    ensures
        r == spells(bytes@.subrange(p as int, e as int), kw@),
{
    let k = kw.as_bytes();
    if k.len() != e - p {
        return false;
    }
    let ghost word = bytes@.subrange(p as int, e as int);
    let mut i: usize = 0;
    while i < k.len()
        invariant
            0 <= i <= k@.len(),
            k@ == encode_utf8(kw@),
            k@.len() == e - p,
            p <= e <= bytes@.len(),
            word == bytes@.subrange(p as int, e as int),
            forall|j: int| 0 <= j < i ==> to_lower(#[trigger] word[j]) == k@[j],
        decreases k@.len() - i,
    {
        if byte_to_lower(bytes[p + i]) != k[i] {
            assert(to_lower(word[i as int]) != k@[i as int]);
            return false;
        }
        i = i + 1;
    }
    true
}

fn lookup_keyword<S>(bytes: &[u8], p: usize, e: usize) -> (r: Option<Token<S>>)
    requires
        p <= e <= bytes@.len(),
    ensures
        (match keyword_of(bytes@.subrange(p as int, e as int)) {
            Some(i) => r == Some(keyword_token::<S>(i)),
            None => r is None,
        }),
{
    let ghost word = bytes@.subrange(p as int, e as int);
    let mut i: usize = 0;
    while i < 52
        invariant
            0 <= i <= 52,
            keyword_count() == 52,
            p <= e <= bytes@.len(),
            word == bytes@.subrange(p as int, e as int),
            keyword_of(word) == keyword_from(word, i as int),
        decreases 52 - i,
    {
        let (text, token) = keyword::<S>(i);
        if word_spells(bytes, p, e, text) {
            return Some(token);
        }
        i = i + 1;
    }
    None
}

fn punct2_token<S>(a: u8, b: u8) -> (r: Option<Token<S>>)
    ensures
        r == punct2::<S>(a, b),
{
    if a == 0x3c && b == 0x3c {
        Some(Token::OpenDblAngle)
    } else if a == 0x3e && b == 0x3e {
        Some(Token::CloseDblAngle)
    } else if a == 0x3c && b == 0x3e {
        Some(Token::LessGreater)
    } else if a == 0x3c && b == 0x3d {
        Some(Token::LessEqual)
    } else if a == 0x3e && b == 0x3d {
        Some(Token::GreaterEqual)
    } else if a == 0x3d && b == 0x3d {
        Some(Token::EqualEqual)
    } else if a == 0x21 && b == 0x3d {
        Some(Token::BangEqual)
    } else if a == 0x7c && b == 0x7c {
        Some(Token::DblPipe)
    } else {
        None
    }
}

fn punct1_token<S>(a: u8) -> (r: Option<Token<S>>)
    ensures
        r == punct1::<S>(a),
{
    if a == 0x5b {
        Some(Token::OpenSquare)
    } else if a == 0x5d {
        Some(Token::CloseSquare)
    } else if a == 0x7b {
        Some(Token::OpenCurly)
    } else if a == 0x7d {
        Some(Token::CloseCurly)
    } else if a == 0x28 {
        Some(Token::OpenParen)
    } else if a == 0x29 {
        Some(Token::CloseParen)
    } else if a == 0x2c {
        Some(Token::Comma)
    } else if a == 0x3b {
        Some(Token::Semicolon)
    } else if a == 0x3a {
        Some(Token::Colon)
    } else if a == 0x3d {
        Some(Token::Equal)
    } else if a == 0x3c {
        Some(Token::LessThan)
    } else if a == 0x3e {
        Some(Token::GreaterThan)
    } else if a == 0x2d {
        Some(Token::Minus)
    } else if a == 0x2b {
        Some(Token::Plus)
    } else if a == 0x2a {
        Some(Token::Star)
    } else if a == 0x25 {
        Some(Token::Percent)
    } else if a == 0x2f {
        Some(Token::Slash)
    } else if a == 0x5e {
        Some(Token::Caret)
    } else if a == 0x2e {
        Some(Token::Period)
    } else {
        None
    }
}

/// Punctuation carries no text, so it looks the same over any text type.
proof fn lemma_punct_view<'a>(a: u8, b: u8)
    ensures
        punct1::<&'a str>(a) is Some == punct1::<Seq<char>>(a) is Some,
        punct1::<&'a str>(a) is Some ==> punct1::<&'a str>(a)->0@ == punct1::<Seq<char>>(a)->0,
        punct2::<&'a str>(a, b) is Some == punct2::<Seq<char>>(a, b) is Some,
        punct2::<&'a str>(a, b) is Some ==> punct2::<&'a str>(a, b)->0@ == punct2::<Seq<char>>(
            a,
            b,
        )->0,
{
}

fn at_number(bytes: &[u8], p: usize) -> (r: bool)
    requires
        p < bytes@.len(),
    ensures
        r == starts_number(bytes@, p as int),
{
    byte_is_digit(bytes[p]) || (bytes[p] == DOT && p + 1 < bytes.len() && byte_is_digit(
        bytes[p + 1],
    ))
}

fn scan_number(bytes: &[u8], p: usize) -> (r: (NumberForm, usize))
    requires
        p < bytes@.len(),
        starts_number(bytes@, p as int),
    ensures
        (r.0, r.1 as int) == number_form(bytes@, p as int),
        p < r.1 <= bytes@.len(),
        bytes@[r.1 - 1] < 0x80,
{
    let len = bytes.len();
    let int_end = scan_run(bytes, p, ByteClass::Digit);
    proof {
        if is_digit(bytes@[p as int]) {
            lemma_run_end_bounds(bytes@, p + 1, ByteClass::Digit);
        }
    }
    let has_point = int_end < len && bytes[int_end] == DOT;
    let mantissa_end = if has_point {
        scan_run(bytes, int_end + 1, ByteClass::Digit)
    } else {
        int_end
    };
    assert(p < mantissa_end);
    assert(bytes@[mantissa_end - 1] < 0x80) by {
        if has_point && mantissa_end > int_end + 1 {
            assert(crate::scan::in_class(ByteClass::Digit, bytes@[mantissa_end - 1]));
        } else if !has_point {
            assert(crate::scan::in_class(ByteClass::Digit, bytes@[mantissa_end - 1]));
        }
    }
    if mantissa_end < len && (bytes[mantissa_end] == 0x65 || bytes[mantissa_end] == 0x45) {
        let sign_end = if mantissa_end + 1 < len && (bytes[mantissa_end + 1] == PLUS
            || bytes[mantissa_end + 1] == MINUS) {
            mantissa_end + 2
        } else {
            mantissa_end + 1
        };
        let exponent_end = scan_run(bytes, sign_end, ByteClass::Digit);
        if exponent_end > sign_end {
            assert(crate::scan::in_class(ByteClass::Digit, bytes@[exponent_end - 1]));
            (NumberForm::ExpReal, exponent_end)
        } else {
            (NumberForm::Invalid, sign_end)
        }
    } else if has_point {
        (NumberForm::Real, mantissa_end)
    } else {
        (NumberForm::Int, mantissa_end)
    }
}

/// The view of what the lexer hands out for one lexeme.
pub open spec fn item_view<'a>(item: Result<Token<&'a str>, LexError>) -> Result<
    Token<Seq<char>>,
    LexError,
> {
    match item {
        Ok(token) => Ok(token@),
        Err(reason) => Err(reason),
    }
}

fn read_token<'a>(text: &'a str, p: usize) -> (r: (Result<Token<&'a str>, LexError>, usize))
    requires
        p < text.spec_bytes().len(),
    ensures
        scan_token(text.spec_bytes(), p as int) == (Lexeme {
            start: p as int,
            item: item_view(r.0),
            end: r.1 as int,
        }),
        p < r.1 <= text.spec_bytes().len(),
{
    let bytes = text.as_bytes();
    let len = bytes.len();
    let c = bytes[p];
    proof {
        lemma_str_is_utf8(text);
        lemma_scan_token_bounds(bytes@, p as int);
    }
    if byte_is_ident_start(c) {
        let e = scan_run(bytes, p + 1, ByteClass::IdentPart);
        proof {
            if e > p + 1 {
                assert(crate::scan::in_class(ByteClass::IdentPart, bytes@[e - 1]));
            }
            lemma_boundary_after_ascii(bytes@, e - 1);
        }
        match lookup_keyword::<&'a str>(bytes, p, e) {
            Some(token) => {
                proof {
                    crate::token::lemma_keyword_token_view(
                        keyword_of(bytes@.subrange(p as int, e as int))->0,
                    );
                }
                (Ok(token), e)
            },
            None => (Ok(Token::Identifier(slice_str(text, p, e))), e),
        }
    } else if at_number(bytes, p) {
        let (form, e) = scan_number(bytes, p);
        proof {
            lemma_boundary_after_ascii(bytes@, e - 1);
        }
        match form {
            NumberForm::Int => (Ok(Token::Int(slice_str(text, p, e))), e),
            NumberForm::Real => (Ok(Token::Real(slice_str(text, p, e))), e),
            NumberForm::ExpReal => (Ok(Token::ExpReal(slice_str(text, p, e))), e),
            NumberForm::Invalid => (Err(LexError::InvalidNumber), e),
        }
    } else if c == SINGLE_QUOTE {
        proof {
            lemma_boundary_after_ascii(bytes@, p as int);
        }
        match scan_quote(bytes, p + 1, c) {
            Some(q) => (Ok(Token::String(slice_str(text, p + 1, q))), q + 1),
            None => (Err(LexError::UnterminatedString), len),
        }
    } else if c == DOUBLE_QUOTE {
        proof {
            lemma_boundary_after_ascii(bytes@, p as int);
        }
        match scan_quote(bytes, p + 1, c) {
            Some(q) => (Ok(Token::QuotedIdentifier(slice_str(text, p + 1, q))), q + 1),
            None => (Err(LexError::UnterminatedString), len),
        }
    } else if c == BACKTICK {
        proof {
            lemma_boundary_after_ascii(bytes@, p as int);
        }
        match scan_ion(bytes, p + 1) {
            Some(q) => (Ok(Token::Ion(slice_str(text, p + 1, q))), q + 1),
            None => (Err(LexError::UnterminatedIonLiteral), len),
        }
    } else if at_block_comment(bytes, p) {
        (Err(LexError::UnterminatedComment), len)
    } else {
        proof {
            lemma_punct_view(c, if p + 1 < len { bytes@[p + 1] } else { 0u8 });
        }
        let two = if p + 1 < len {
            punct2_token::<&'a str>(c, bytes[p + 1])
        } else {
            None
        };
        match two {
            Some(token) => (Ok(token), p + 2),
            None => match punct1_token::<&'a str>(c) {
                Some(token) => (Ok(token), p + 1),
                None => (Err(LexError::InvalidInput), scan_run(bytes, p + 1, ByteClass::Continuation)),
            },
        }
    }
}

/// Reads a text token by token, once, from left to right, and records where
/// its lines start as it passes them.
pub struct PartiqlLexer<'input> {
    text: &'input str,
    pos: usize,
    tracker: LineOffsetTracker,
}

impl<'input> PartiqlLexer<'input> {
    /// The bytes of the text that is read.
    pub closed spec fn source(&self) -> Seq<u8> {
        self.text.spec_bytes()
    }

    /// How far the text has been read.
    pub closed spec fn position(&self) -> int {
        self.pos as int
    }

    /// The line starts recorded so far.
    pub closed spec fn line_starts(&self) -> Seq<usize> {
        self.tracker@
    }

    /// The lexer stands inside its text and has recorded every line start up
    /// to where it stands.
    pub open spec fn well_formed(&self) -> bool {
        &&& 0 <= self.position() <= self.source().len()
        &&& self.line_starts() == line_starts_upto(self.source(), self.position())
    }

    /// What the lexer will read before its text ends.
    pub open spec fn remaining(&self) -> Seq<Lexeme> {
        lex_from(self.source(), self.position())
    }

    /// A lexer at the start of `text`.
    pub fn new(text: &'input str) -> (lexer: Self)
        ensures
            lexer.well_formed(),
            lexer.source() == text.spec_bytes(),
            lexer.position() == 0,
    {
        PartiqlLexer { text, pos: 0, tracker: LineOffsetTracker::default() }
    }

    /// The tracker, filled as far as the text has been read.
    pub fn tracker(&self) -> (t: &LineOffsetTracker)
        requires
            self.well_formed(),
        ensures
            t@ == self.line_starts(),
            t.tracks(self.source(), self.position()),
    {
        &self.tracker
    }

    /// Gives up the lexer for its tracker.
    pub fn into_tracker(self) -> (t: LineOffsetTracker)
        requires
            self.well_formed(),
        ensures
            t@ == self.line_starts(),
            t.tracks(self.source(), self.position()),
    {
        self.tracker
    }

    /// Moves to `to`, recording the start of each line that begins on the way.
    fn advance(&mut self, to: usize)
        requires
            old(self).well_formed(),
            old(self).position() <= to <= old(self).source().len(),
        ensures
            final(self).well_formed(),
            final(self).source() == old(self).source(),
            final(self).position() == to,
    {
        let bytes = self.text.as_bytes();
        let len = bytes.len();
        let mut i: usize = self.pos;
        while i < to
            invariant
                i <= to <= bytes@.len(),
                bytes@ == self.text.spec_bytes(),
                bytes@.len() == len,
                self.text == old(self).text,
                self.tracker@ == line_starts_upto(bytes@, i as int),
            decreases to - i,
        {
            if bytes[i] == NEWLINE {
                proof {
                    lemma_line_starts_shape(bytes@, i as int);
                }
                self.tracker.record(ByteOffset(i + 1));
            }
            i = i + 1;
        }
        self.pos = to;
    }

    /// Reads the next token. `None` when the text has ended; an error when
    /// what stands there is no token, and then the next call reads on after it.
    pub fn next(&mut self) -> (item: Option<
        Result<Spanned<Token<&'input str>, ByteOffset>, ParserError<&'input str, BytePosition>>,
    >)
        requires
            old(self).well_formed(),
        ensures
            final(self).well_formed(),
            final(self).source() == old(self).source(),
            old(self).position() <= final(self).position(),
            (match item {
                None => next_lexeme(old(self).source(), old(self).position()) is None
                    && final(self).remaining() == Seq::<Lexeme>::empty(),
                Some(Ok((start, token, end))) => next_lexeme(
                    old(self).source(),
                    old(self).position(),
                ) == Some(Lexeme { start: start.0 as int, item: Ok(token@), end: end.0 as int })
                    && final(self).position() == end.0,
                Some(Err(error)) => next_lexeme(old(self).source(), old(self).position())
                    matches Some(lexeme) && lexeme.item is Err && error@ == failure_of(lexeme)
                    && error == lexical_error::<&'input str>(
                    lexeme.item->Err_0,
                    lexeme.start as usize,
                    lexeme.end as usize,
                ) && final(self).position() == lexeme.end,
            }),
            item is Some ==> old(self).remaining() == seq![
                next_lexeme(old(self).source(), old(self).position())->0,
            ] + final(self).remaining(),
            item is None ==> old(self).remaining() == Seq::<Lexeme>::empty(),
            item is None ==> final(self).position() == final(self).source().len(),
            item is Some ==> old(self).position() < final(self).position(),
    {
        let text = self.text;
        let bytes = text.as_bytes();
        let p = scan_trivia(bytes, self.pos);
        proof {
            lemma_skip_trivia_bounds(bytes@, self.pos as int);
        }
        if p >= bytes.len() {
            self.advance(p);
            proof {
                lemma_skip_trivia_bounds(bytes@, p as int);
            }
            return None;
        }
        let (item, end) = read_token(text, p);
        self.advance(end);
        match item {
            Ok(token) => Some(Ok((ByteOffset(p), token, ByteOffset(end)))),
            Err(reason) => Some(
                Err(
                    ParserError::LexicalError(
                        Located {
                            inner: reason,
                            location: Range {
                                start: BytePosition(ByteOffset(p)),
                                end: BytePosition(ByteOffset(end)),
                            },
                        },
                    ),
                ),
            ),
        }
    }
}

/// Two lexers at the start of the same text read the same lexemes: the same
/// tokens and errors, at the same spans, in the same order.
pub proof fn lemma_tokenization_repeats(first: PartiqlLexer, second: PartiqlLexer)
    requires
        first.position() == 0,
        second.position() == 0,
        first.source() == second.source(),
    ensures
        first.remaining() == second.remaining(),
{
}

} // verus!
