//! Parsing a text: the lexer and the grammar are run over it, every error
//! that parsing got over is collected in the order of the text, and what is
//! reported is given in lines and characters.

use crate::ast::Expr;
use crate::grammar::{parse_top, top_rule, Entry, Parsed, SpannedToken, Tok};
use crate::lexer::{
    errors_view, failure_of, lemma_lexemes_within, lex_from, spanned_seq_view, spanned_view,
    tokens_of, Lexeme, PartiqlLexer,
};
use crate::location::{ByteOffset, BytePosition, LineAndCharPosition};
use crate::result::{
    byte_range, lexical_error, unexpected_token, Located, ParserError, UnexpectedToken,
    UnexpectedTokenData, Unsupported,
};
use crate::token::Token;
use crate::tracker::{position_of, LineOffsetTracker};
use core::ops::Range;
use vstd::prelude::*;
use vstd::std_specs::convert::FromSpecImpl;
use vstd::string::StringSliceAdditionalSpecFns;

verus! {

/// What a grammar reports when it cannot go on, or what it got over.
#[derive(Debug)]
pub enum GrammarError<S> {
    /// The lexer of the grammar met a token it does not know, ending at the
    /// location.
    InvalidToken { location: ByteOffset },
    /// The text ends at the location, where more is needed.
    UnrecognizedEof { location: ByteOffset },
    /// The token is not accepted where it stands.
    UnrecognizedToken { token: (ByteOffset, Token<S>, ByteOffset) },
    /// The token follows a complete query.
    ExtraToken { token: (ByteOffset, Token<S>, ByteOffset) },
    /// An error that the lexer handed to the grammar.
    User { error: ParserError<S, BytePosition> },
}

/// The error that reports what the grammar reported. A token that is not
/// accepted is reported as such, and an error of the lexer as it is; any other
/// condition is reported as unsupported, with the location it came with.
pub open spec fn parser_error_of<S>(error: GrammarError<S>) -> ParserError<S, BytePosition> {
    match error {
        GrammarError::UnrecognizedToken { token } => ParserError::UnexpectedToken(
            UnexpectedToken {
                inner: UnexpectedTokenData { token: token.1 },
                location: byte_range(token.0.0, token.2.0),
            },
        ),
        GrammarError::User { error } => error,
        GrammarError::UnrecognizedEof { location } => ParserError::Unsupported(
            Located {
                inner: Unsupported::UnexpectedEndOfInput,
                location: byte_range(location.0, location.0),
            },
        ),
        GrammarError::InvalidToken { location } => ParserError::Unsupported(
            Located { inner: Unsupported::InvalidToken, location: byte_range(location.0, location.0) },
        ),
        GrammarError::ExtraToken { token } => ParserError::Unsupported(
            Located { inner: Unsupported::ExtraToken, location: byte_range(token.0.0, token.2.0) },
        ),
    }
}

fn range_of(start: ByteOffset, end: ByteOffset) -> (r: Range<BytePosition>)
    ensures
        r == byte_range(start.0, end.0),
{
    Range { start: BytePosition(start), end: BytePosition(end) }
}

impl<S> From<GrammarError<S>> for ParserError<S, BytePosition> {
    fn from(error: GrammarError<S>) -> (r: Self) {
        match error {
            GrammarError::UnrecognizedToken { token } => ParserError::UnexpectedToken(
                UnexpectedToken {
                    inner: UnexpectedTokenData { token: token.1 },
                    location: range_of(token.0, token.2),
                },
            ),
            GrammarError::User { error } => error,
            GrammarError::UnrecognizedEof { location } => ParserError::Unsupported(
                Located {
                    inner: Unsupported::UnexpectedEndOfInput,
                    location: range_of(location, location),
                },
            ),
            GrammarError::InvalidToken { location } => ParserError::Unsupported(
                Located { inner: Unsupported::InvalidToken, location: range_of(location, location) },
            ),
            GrammarError::ExtraToken { token } => ParserError::Unsupported(
                Located { inner: Unsupported::ExtraToken, location: range_of(token.0, token.2) },
            ),
        }
    }
}

impl<S> FromSpecImpl<GrammarError<S>> for ParserError<S, BytePosition> {
    open spec fn obeys_from_spec() -> bool {
        true
    }

    open spec fn from_spec(error: GrammarError<S>) -> Self {
        parser_error_of(error)
    }
}

/// The error with both ends of its location given in lines and characters.
pub open spec fn resolved<S>(text: Seq<u8>, error: ParserError<S, BytePosition>) -> ParserError<
    S,
    LineAndCharPosition,
> {
    error.with_location(
        Range {
            start: position_of(text, error.location().start.spec_offset()),
            end: position_of(text, error.location().end.spec_offset()),
        },
    )
}

/// The location of the error lies in the text.
pub open spec fn lies_within<S>(error: ParserError<S, BytePosition>, len: int) -> bool {
    error.location().start.spec_offset() <= len && error.location().end.spec_offset() <= len
}

impl<S> ParserError<S, BytePosition> {
    /// Gives both ends of the location in lines and characters of `source`,
    /// which the tracker has seen to its end.
    pub fn resolve(self, source: &str, tracker: &LineOffsetTracker) -> (r: ParserError<
        S,
        LineAndCharPosition,
    >)
        requires
            tracker.tracks(source.spec_bytes(), source.spec_bytes().len() as int),
            lies_within(self, source.spec_bytes().len() as int),
        ensures
            r == resolved(source.spec_bytes(), self),
    {
        let ghost len = source.spec_bytes().len() as int;
        match self {
            ParserError::UnexpectedToken(u) => {
                assert(tracker.tracks(source.spec_bytes(), len));
                let start = tracker.at(source, u.location.start);
                let end = tracker.at(source, u.location.end);
                ParserError::UnexpectedToken(
                    UnexpectedToken { inner: u.inner, location: Range { start, end } },
                )
            },
            ParserError::LexicalError(e) => {
                assert(tracker.tracks(source.spec_bytes(), len));
                let start = tracker.at(source, e.location.start);
                let end = tracker.at(source, e.location.end);
                ParserError::LexicalError(Located { inner: e.inner, location: Range { start, end } })
            },
            ParserError::Unsupported(e) => {
                assert(tracker.tracks(source.spec_bytes(), len));
                let start = tracker.at(source, e.location.start);
                let end = tracker.at(source, e.location.end);
                ParserError::Unsupported(Located { inner: e.inner, location: Range { start, end } })
            },
        }
    }
}

/// A tree, or the errors found in the text, in its order, in lines and
/// characters.
pub type ParserResult<'input> = Result<
    Box<Expr>,
    Vec<ParserError<&'input str, LineAndCharPosition>>,
>;

/// What is reported for the errors of a grammar: each as a parser error, in
/// lines and characters.
pub open spec fn resolved_all<S>(text: Seq<u8>, errors: Seq<GrammarError<S>>) -> Seq<
    ParserError<S, LineAndCharPosition>,
> {
    Seq::new(errors.len(), |i: int| resolved(text, parser_error_of(errors[i])))
}

/// What a parse returns, given what the grammar returned and the errors it
/// got over. A tree is returned only if there are no such errors; otherwise
/// they are returned, in their order, and after them the error that stopped
/// the grammar, if one did.
pub open spec fn combined<S>(
    text: Seq<u8>,
    parsed: Result<Box<Expr>, GrammarError<S>>,
    errors: Seq<GrammarError<S>>,
) -> Result<Box<Expr>, Seq<ParserError<S, LineAndCharPosition>>> {
    match parsed {
        Ok(tree) => if errors.len() == 0 {
            Ok(tree)
        } else {
            Err(resolved_all(text, errors))
        },
        Err(fatal) => Err(resolved_all(text, errors).push(resolved(text, parser_error_of(fatal)))),
    }
}

/// Puts together what a parse returns from what the grammar returned
/// (`parsed`) and the errors it got over (`errors`, in their order).
pub fn combine<'a>(
    source: &str,
    tracker: &LineOffsetTracker,
    parsed: Result<Box<Expr>, GrammarError<&'a str>>,
    errors: Vec<GrammarError<&'a str>>,
) -> (r: ParserResult<'a>)
    requires
        tracker.tracks(source.spec_bytes(), source.spec_bytes().len() as int),
        forall|i: int|
            0 <= i < errors@.len() ==> lies_within(
                parser_error_of(#[trigger] errors@[i]),
                source.spec_bytes().len() as int,
            ),
        parsed matches Err(fatal) ==> lies_within(
            parser_error_of(fatal),
            source.spec_bytes().len() as int,
        ),
    ensures
        (match combined(source.spec_bytes(), parsed, errors@) {
            Ok(tree) => r == Ok::<Box<Expr>, Vec<ParserError<&'a str, LineAndCharPosition>>>(tree),
            Err(reported) => r matches Err(v) && v@ == reported,
        }),
{
    let ghost text = source.spec_bytes();
    let ghost all = errors@;
    let mut reported: Vec<ParserError<&'a str, LineAndCharPosition>> = Vec::new();
    let mut errors = errors;
    let n = errors.len();
    while errors.len() > 0
        invariant
            text == source.spec_bytes(),
            tracker.tracks(text, text.len() as int),
            reported@.len() + errors@.len() == all.len(),
            errors@ == all.subrange(reported@.len() as int, all.len() as int),
            forall|i: int|
                0 <= i < all.len() ==> lies_within(
                    parser_error_of(#[trigger] all[i]),
                    text.len() as int,
                ),
            forall|k: int|
                0 <= k < reported@.len() ==> #[trigger] reported@[k] == resolved(
                    text,
                    parser_error_of(all[k]),
                ),
        decreases errors@.len(),
    {
        let ghost done = reported@.len() as int;
        let first = errors.remove(0);
        assert(first == all[done]);
        assert(errors@ =~= all.subrange(done + 1, all.len() as int));
        let error = ParserError::from(first);
        reported.push(error.resolve(source, tracker));
    }
    assert(reported@ =~= resolved_all(text, all));
    match parsed {
        Ok(tree) => {
            if n == 0 {
                Ok(tree)
            } else {
                Err(reported)
            }
        },
        Err(fatal) => {
            let error = ParserError::from(fatal);
            reported.push(error.resolve(source, tracker));
            Err(reported)
        },
    }
}

/// What the lexer hands out at one place.
pub type LexItem<'a> = Result<SpannedToken<'a>, ParserError<&'a str, BytePosition>>;

/// What the lexer handed out is the lexeme.
pub open spec fn item_matches<'a>(item: LexItem<'a>, lexeme: Lexeme) -> bool {
    match item {
        Ok((start, token, end)) => lexeme == (Lexeme {
            start: start.0 as int,
            item: Ok(token@),
            end: end.0 as int,
        }),
        Err(error) => lexeme.item is Err && error == lexical_error::<&'a str>(
            lexeme.item->Err_0,
            lexeme.start as usize,
            lexeme.end as usize,
        ),
    }
}

/// What the lexer handed out are the lexemes, one for one.
pub open spec fn items_match<'a>(items: Seq<LexItem<'a>>, lexemes: Seq<Lexeme>) -> bool {
    &&& items.len() == lexemes.len()
    &&& forall|i: int| 0 <= i < items.len() ==> item_matches(#[trigger] items[i], lexemes[i])
}

/// The errors that parsing got over, in the order of the text: each lexeme
/// that is no token, and each token whose place the grammar noted.
pub open spec fn reported(items: Seq<Lexeme>, noted: Seq<usize>) -> Seq<
    ParserError<Seq<char>, BytePosition>,
>
    decreases items.len(),
{
    if items.len() == 0 {
        Seq::empty()
    } else {
        let before = reported(items.drop_last(), noted);
        let last = items.last();
        match last.item {
            Err(_) => before.push(failure_of(last)),
            Ok(token) => if noted.contains(tokens_of(items.drop_last()).len() as usize) {
                before.push(unexpected_token(token, last.start as usize, last.end as usize))
            } else {
                before
            },
        }
    }
}

/// The error for a text that ends at `end`, where more is needed.
pub open spec fn end_of_input_error(end: usize) -> ParserError<Seq<char>, BytePosition> {
    ParserError::Unsupported(
        Located { inner: Unsupported::UnexpectedEndOfInput, location: byte_range(end, end) },
    )
}

/// The error for the place where the grammar stopped: the token there, or
/// the end of the text if the tokens ran out.
pub open spec fn fatal_error(toks: Seq<Tok>, i: int, end: usize) -> ParserError<
    Seq<char>,
    BytePosition,
> {
    if 0 <= i < toks.len() {
        unexpected_token(toks[i].1, toks[i].0.0, toks[i].2.0)
    } else {
        end_of_input_error(end)
    }
}

/// Every error of the text, by byte offsets and in its order: those that
/// parsing got over, and after them the one that stopped the grammar, if one
/// did.
pub open spec fn errors_of(text: Seq<u8>, entry: Entry) -> Seq<
    ParserError<Seq<char>, BytePosition>,
> {
    let items = lex_from(text, 0);
    match top_rule(tokens_of(items), entry, Seq::empty()) {
        Parsed::Done(_, _, noted) => reported(items, noted),
        Parsed::Fatal(i, noted) => reported(items, noted).push(
            fatal_error(tokens_of(items), i, text.len() as usize),
        ),
    }
}

/// What parsing a text gives: the tree, if the grammar gives one and the text
/// has no error at all; otherwise every error of the text, in lines and
/// characters.
pub open spec fn parse_of(text: Seq<u8>, entry: Entry) -> Result<
    Expr,
    Seq<ParserError<Seq<char>, LineAndCharPosition>>,
> {
    let errors = errors_of(text, entry);
    match top_rule(tokens_of(lex_from(text, 0)), entry, Seq::empty()) {
        Parsed::Done(tree, _, _) => if errors.len() == 0 {
            Ok(tree)
        } else {
            Err(Seq::new(errors.len(), |i: int| resolved(text, errors[i])))
        },
        Parsed::Fatal(_, _) => Err(Seq::new(errors.len(), |i: int| resolved(text, errors[i]))),
    }
}

/// What a parse returned, its texts as characters.
pub open spec fn result_view<'a>(r: ParserResult<'a>) -> Result<
    Expr,
    Seq<ParserError<Seq<char>, LineAndCharPosition>>,
> {
    match r {
        Ok(tree) => Ok(*tree),
        Err(errors) => Err(errors_view(errors@)),
    }
}

/// The first lexeme that is no token, if there is one.
pub open spec fn first_failure(items: Seq<Lexeme>) -> Option<Lexeme>
    decreases items.len(),
{
    if items.len() == 0 {
        None
    } else if items[0].item is Err {
        Some(items[0])
    } else {
        first_failure(items.drop_first())
    }
}

proof fn lemma_first_failure_after_tokens(seen: Seq<Lexeme>, rest: Seq<Lexeme>)
    requires
        forall|i: int| 0 <= i < seen.len() ==> (#[trigger] seen[i]).item is Ok,
    ensures
        first_failure(seen + rest) == first_failure(rest),
    decreases seen.len(),
{
    if seen.len() > 0 {
        assert((seen + rest).drop_first() =~= seen.drop_first() + rest);
        lemma_first_failure_after_tokens(seen.drop_first(), rest);
    } else {
        assert(seen + rest =~= rest);
    }
}

proof fn lemma_tokens_of_all_tokens(seen: Seq<Lexeme>)
    requires
        forall|i: int| 0 <= i < seen.len() ==> (#[trigger] seen[i]).item is Ok,
    ensures
        tokens_of(seen).len() == seen.len(),
        first_failure(seen) is None,
    decreases seen.len(),
{
    if seen.len() > 0 {
        lemma_tokens_of_all_tokens(seen.drop_last());
        lemma_first_failure_after_tokens(seen, Seq::empty());
        assert(seen + Seq::<Lexeme>::empty() =~= seen);
    }
}

/// The spans of the tokens and of the errors lie in the text.
pub proof fn lemma_reported_within(items: Seq<Lexeme>, noted: Seq<usize>, len: int)
    requires
        len <= usize::MAX,
        forall|i: int| 0 <= i < items.len() ==> 0 <= (#[trigger] items[i]).start <= items[i].end <= len,
    ensures
        forall|k: int|
            0 <= k < tokens_of(items).len() ==> (#[trigger] tokens_of(items)[k]).0.0 <= tokens_of(
                items,
            )[k].2.0 <= len,
        forall|k: int|
            0 <= k < reported(items, noted).len() ==> lies_within(
                #[trigger] reported(items, noted)[k],
                len,
            ) && reported(items, noted)[k].location().start.spec_offset() <= reported(
                items,
                noted,
            )[k].location().end.spec_offset(),
    decreases items.len(),
{
    if items.len() > 0 {
        let front = items.drop_last();
        lemma_reported_within(front, noted, len);
        assert(0 <= items.last().start <= items.last().end <= len);
        assert forall|i: int| 0 <= i < front.len() implies 0 <= (#[trigger] front[i]).start
            <= front[i].end <= len by {
            assert(front[i] == items[i]);
        }
        assert forall|k: int| 0 <= k < tokens_of(items).len() implies (#[trigger] tokens_of(
            items,
        )[k]).0.0 <= tokens_of(items)[k].2.0 <= len by {
            if k < tokens_of(front).len() {
                assert(tokens_of(items)[k] == tokens_of(front)[k]);
            }
        }
        assert forall|k: int| 0 <= k < reported(items, noted).len() implies lies_within(
            #[trigger] reported(items, noted)[k],
            len,
        ) && reported(items, noted)[k].location().start.spec_offset() <= reported(
            items,
            noted,
        )[k].location().end.spec_offset() by {
            if k < reported(front, noted).len() {
                assert(reported(items, noted)[k] == reported(front, noted)[k]);
            }
        }
    }
}

/// Giving an error in lines and characters does not touch the text of its
/// token.
proof fn lemma_resolved_view<'a>(text: Seq<u8>, error: ParserError<&'a str, BytePosition>)
    ensures
        resolved(text, error)@ == resolved(text, error@),
{
}

proof fn lemma_reported_views<'a>(
    text: Seq<u8>,
    errors: Seq<GrammarError<&'a str>>,
    model: Seq<ParserError<Seq<char>, BytePosition>>,
)
    requires
        errors.len() == model.len(),
        forall|k: int|
            0 <= k < errors.len() ==> parser_error_of(#[trigger] errors[k])@ == model[k],
    ensures
        errors_view(resolved_all(text, errors)) == Seq::new(
            model.len(),
            |i: int| resolved(text, model[i]),
        ),
{
    assert forall|i: int| 0 <= i < errors.len() implies (#[trigger] resolved_all(text, errors)[i])@
        == resolved(text, model[i]) by {
        lemma_resolved_view(text, parser_error_of(errors[i]));
    }
    assert(errors_view(resolved_all(text, errors)) =~= Seq::new(
        model.len(),
        |i: int| resolved(text, model[i]),
    ));
}

proof fn lemma_reported_views_with_fatal<'a>(
    text: Seq<u8>,
    errors: Seq<GrammarError<&'a str>>,
    fatal: GrammarError<&'a str>,
    model: Seq<ParserError<Seq<char>, BytePosition>>,
)
    requires
        errors.len() + 1 == model.len(),
        forall|k: int|
            0 <= k < errors.len() ==> parser_error_of(#[trigger] errors[k])@ == model[k],
        parser_error_of(fatal)@ == model.last(),
    ensures
        errors_view(resolved_all(text, errors).push(resolved(text, parser_error_of(fatal))))
            == Seq::new(model.len(), |i: int| resolved(text, model[i])),
{
    let all = resolved_all(text, errors).push(resolved(text, parser_error_of(fatal)));
    assert forall|i: int| 0 <= i < all.len() implies (#[trigger] all[i])@ == resolved(
        text,
        model[i],
    ) by {
        if i < errors.len() {
            lemma_resolved_view(text, parser_error_of(errors[i]));
        } else {
            lemma_resolved_view(text, parser_error_of(fatal));
        }
    }
    assert(errors_view(all) =~= Seq::new(model.len(), |i: int| resolved(text, model[i])));
}

proof fn lemma_no_failure_means_tokens(items: Seq<Lexeme>)
    requires
        first_failure(items) is None,
    ensures
        forall|i: int| 0 <= i < items.len() ==> (#[trigger] items[i]).item is Ok,
    decreases items.len(),
{
    if items.len() > 0 {
        lemma_no_failure_means_tokens(items.drop_first());
        assert forall|i: int| 0 <= i < items.len() implies (#[trigger] items[i]).item is Ok by {
            if i > 0 {
                assert(items[i] == items.drop_first()[i - 1]);
            }
        }
    }
}

proof fn lemma_tokens_are_the_lexemes(items: Seq<Lexeme>)
    requires
        forall|i: int| 0 <= i < items.len() ==> (#[trigger] items[i]).item is Ok,
    ensures
        tokens_of(items).len() == items.len(),
        forall|i: int|
            0 <= i < items.len() ==> #[trigger] tokens_of(items)[i] == (
                ByteOffset(items[i].start as usize),
                items[i].item->Ok_0,
                ByteOffset(items[i].end as usize),
            ),
    decreases items.len(),
{
    if items.len() > 0 {
        let front = items.drop_last();
        lemma_tokens_are_the_lexemes(front);
        assert forall|i: int| 0 <= i < items.len() implies #[trigger] tokens_of(items)[i] == (
            ByteOffset(items[i].start as usize),
            items[i].item->Ok_0,
            ByteOffset(items[i].end as usize),
        ) by {
            if i < front.len() {
                assert(tokens_of(items)[i] == tokens_of(front)[i]);
                assert(front[i] == items[i]);
            }
        }
    }
}

/// The tokens of a text that lexes without error lie in it in order and
/// cover it but for what is skipped. Each token spans at least one byte of
/// the text; a later token starts at or after the end of an earlier one, so
/// the spans do not overlap and their starts grow strictly; the first token
/// starts where the skipping from the start of the text stops, each next one
/// where the skipping from the end of the one before it stops, and from the
/// end of the last the skipping reaches the end of the text.
pub proof fn lemma_token_spans_in_order(text: Seq<u8>)
    requires
        text.len() <= usize::MAX,
        first_failure(lex_from(text, 0)) is None,
    ensures
        ({
            let tokens = tokens_of(lex_from(text, 0));
            &&& forall|i: int|
                0 <= i < tokens.len() ==> (#[trigger] tokens[i]).0.0 < tokens[i].2.0 <= text.len()
            &&& forall|i: int, j: int|
                0 <= i < j < tokens.len() ==> (#[trigger] tokens[i]).2.0 <= (
                #[trigger] tokens[j]).0.0
            &&& forall|i: int, j: int|
                0 <= i < j < tokens.len() ==> (#[trigger] tokens[i]).0.0 < (
                #[trigger] tokens[j]).0.0
            &&& tokens.len() > 0 ==> tokens[0].0.0 == crate::scan::skip_trivia(text, 0)
            &&& forall|i: int, j: int|
                0 <= i && j == i + 1 && j < tokens.len() ==> (#[trigger] tokens[j]).0.0
                    == crate::scan::skip_trivia(text, (#[trigger] tokens[i]).2.0 as int)
            &&& crate::scan::skip_trivia(
                text,
                if tokens.len() == 0 {
                    0
                } else {
                    tokens.last().2.0 as int
                },
            ) == text.len()
        }),
{
    let items = lex_from(text, 0);
    crate::lexer::lemma_lexemes_in_order(text, 0);
    lemma_no_failure_means_tokens(items);
    lemma_tokens_are_the_lexemes(items);
    let tokens = tokens_of(items);
    assert forall|i: int| 0 <= i < tokens.len() implies (#[trigger] tokens[i]).0.0
        < tokens[i].2.0 <= text.len() by {
        assert(0 <= items[i].start < items[i].end <= text.len());
    }
    assert forall|i: int, j: int| 0 <= i < j < tokens.len() implies (#[trigger] tokens[i]).2.0 <= (
    #[trigger] tokens[j]).0.0 by {
        assert(items[i].end <= items[j].start);
        assert(0 <= items[i].start < items[i].end <= text.len());
        assert(0 <= items[j].start < items[j].end <= text.len());
    }
    assert forall|i: int, j: int|
        0 <= i && j == i + 1 && j < tokens.len() implies (#[trigger] tokens[j]).0.0
        == crate::scan::skip_trivia(text, (#[trigger] tokens[i]).2.0 as int) by {
        assert(items[j].start == crate::scan::skip_trivia(text, items[i].end));
        assert(0 <= items[i].start < items[i].end <= text.len());
        assert(0 <= items[j].start < items[j].end <= text.len());
    }
    if tokens.len() > 0 {
        assert(0 <= items[0].start < items[0].end <= text.len());
        assert(tokens.last() == tokens[tokens.len() - 1]);
        assert(0 <= items.last().start < items.last().end <= text.len());
    }
}

/// The error is about the lexeme: it reports the lexeme as no token, or its
/// token as not accepted, at its span.
pub open spec fn reports_lexeme(error: ParserError<Seq<char>, BytePosition>, lexeme: Lexeme) -> bool {
    match lexeme.item {
        Err(_) => error == failure_of(lexeme),
        Ok(token) => error == unexpected_token(token, lexeme.start as usize, lexeme.end as usize),
    }
}

/// The error points into the text: it is about one of its lexemes, or it
/// reports that the text ends too early, at its end.
pub open spec fn points_into(text: Seq<u8>, error: ParserError<Seq<char>, BytePosition>) -> bool {
    ||| exists|i: int|
        0 <= i < lex_from(text, 0).len() && reports_lexeme(error, #[trigger] lex_from(text, 0)[i])
    ||| error == end_of_input_error(text.len() as usize)
}

/// The token is the lexeme: it has its text and its span.
pub open spec fn is_token_of(token: Tok, lexeme: Lexeme) -> bool {
    lexeme.item is Ok && token == (
        ByteOffset(lexeme.start as usize),
        lexeme.item->Ok_0,
        ByteOffset(lexeme.end as usize),
    )
}

/// The token is one of the lexemes.
pub open spec fn is_token_among(token: Tok, items: Seq<Lexeme>) -> bool {
    exists|i: int| 0 <= i < items.len() && #[trigger] is_token_of(token, items[i])
}

proof fn lemma_reported_point_at_lexemes(items: Seq<Lexeme>, noted: Seq<usize>)
    ensures
        forall|k: int|
            0 <= k < reported(items, noted).len() ==> exists|i: int|
                0 <= i < items.len() && reports_lexeme(
                    #[trigger] reported(items, noted)[k],
                    #[trigger] items[i],
                ),
        forall|k: int|
            0 <= k < tokens_of(items).len() ==> is_token_among(
                #[trigger] tokens_of(items)[k],
                items,
            ),
    decreases items.len(),
{
    if items.len() > 0 {
        let front = items.drop_last();
        let last = items.len() - 1;
        lemma_reported_point_at_lexemes(front, noted);
        assert forall|k: int| 0 <= k < reported(items, noted).len() implies exists|i: int|
            0 <= i < items.len() && reports_lexeme(
                #[trigger] reported(items, noted)[k],
                #[trigger] items[i],
            ) by {
            if k < reported(front, noted).len() {
                assert(reported(items, noted)[k] == reported(front, noted)[k]);
                let i = choose|i: int|
                    0 <= i < front.len() && reports_lexeme(
                        reported(front, noted)[k],
                        #[trigger] front[i],
                    );
                assert(front[i] == items[i]);
                assert(reports_lexeme(reported(items, noted)[k], items[i]));
            } else {
                assert(reports_lexeme(reported(items, noted)[k], items[last]));
            }
        }
        assert forall|k: int| 0 <= k < tokens_of(items).len() implies is_token_among(
            #[trigger] tokens_of(items)[k],
            items,
        ) by {
            if k < tokens_of(front).len() {
                assert(tokens_of(items)[k] == tokens_of(front)[k]);
                assert(is_token_among(tokens_of(front)[k], front));
                let i = choose|i: int|
                    0 <= i < front.len() && #[trigger] is_token_of(tokens_of(front)[k], front[i]);
                assert(front[i] == items[i]);
                assert(is_token_of(tokens_of(items)[k], items[i]));
            } else {
                assert(is_token_of(tokens_of(items)[k], items[last]));
            }
        }
    } else {
        assert(tokens_of(items) =~= Seq::empty());
        assert(reported(items, noted) =~= Seq::empty());
    }
}

/// A token whose place is noted is reported.
proof fn lemma_noted_is_reported(items: Seq<Lexeme>, noted: Seq<usize>, place: int)
    requires
        0 <= place < tokens_of(items).len(),
        place <= usize::MAX,
        noted.contains(place as usize),
    ensures
        reported(items, noted).len() > 0,
    decreases items.len(),
{
    if items.len() > 0 {
        let front = items.drop_last();
        if items.last().item is Ok && place < tokens_of(front).len() {
            lemma_noted_is_reported(front, noted, place);
        }
    }
}

/// A lexeme that is no token is reported.
proof fn lemma_failure_is_reported(items: Seq<Lexeme>, noted: Seq<usize>, i: int)
    requires
        0 <= i < items.len(),
        items[i].item is Err,
    ensures
        reported(items, noted).len() > 0,
    decreases items.len(),
{
    if i < items.len() - 1 {
        assert(items.drop_last()[i] == items[i]);
        lemma_failure_is_reported(items.drop_last(), noted, i);
    }
}

/// Where every lexeme is a token and nothing is noted, nothing is reported.
proof fn lemma_nothing_to_report(items: Seq<Lexeme>)
    requires
        forall|i: int| 0 <= i < items.len() ==> (#[trigger] items[i]).item is Ok,
    ensures
        reported(items, Seq::empty()).len() == 0,
    decreases items.len(),
{
    if items.len() > 0 {
        let front = items.drop_last();
        assert forall|i: int| 0 <= i < front.len() implies (#[trigger] front[i]).item is Ok by {
            assert(front[i] == items[i]);
        }
        lemma_nothing_to_report(front);
        assert(items.last() == items[items.len() - 1]);
    }
}

/// No parse is turned into an error, and no error into a parse: a tree is
/// given exactly when every lexeme of the text is a token, the grammar gives
/// a tree, and it has noted nothing on the way. What is given otherwise holds
/// every error of the text and at least one; each lies in the text, is given
/// in the lines and characters of its two ends, and is about a lexeme of the
/// text, or reports at the end of the text that it ends too early.
pub proof fn lemma_error_completeness(text: Seq<u8>, entry: Entry)
    requires
        text.len() <= usize::MAX,
    ensures
        parse_of(text, entry) is Ok <==> {
            &&& forall|i: int|
                0 <= i < lex_from(text, 0).len() ==> (#[trigger] lex_from(text, 0)[i]).item is Ok
            &&& top_rule(tokens_of(lex_from(text, 0)), entry, Seq::empty()) matches Parsed::Done(
                _,
                _,
                noted,
            )
            &&& noted.len() == 0
        },
        parse_of(text, entry) matches Ok(tree) ==> top_rule(
            tokens_of(lex_from(text, 0)),
            entry,
            Seq::empty(),
        ) matches Parsed::Done(given, _, _) && given == tree,
        parse_of(text, entry) matches Err(errors) ==> {
            &&& errors.len() > 0
            &&& errors.len() == errors_of(text, entry).len()
            &&& forall|k: int|
                0 <= k < errors.len() ==> {
                    let raw = #[trigger] errors_of(text, entry)[k];
                    &&& errors[k] == resolved(text, raw)
                    &&& raw.location().start.spec_offset() <= raw.location().end.spec_offset()
                        <= text.len()
                    &&& points_into(text, raw)
                }
        },
{
    let items = lex_from(text, 0);
    let tokens = tokens_of(items);
    lemma_lexemes_within(text);
    lemma_reported_within(items, Seq::empty(), text.len() as int);
    crate::lexer::lemma_lexeme_count(text, 0);
    crate::progress::lemma_top(tokens, entry);
    match top_rule(tokens, entry, Seq::empty()) {
        Parsed::Done(_, _, noted) => {
            lemma_reported_within(items, noted, text.len() as int);
            lemma_reported_point_at_lexemes(items, noted);
            if noted.len() > 0 {
                assert(noted.contains(noted[0]));
                lemma_noted_is_reported(items, noted, noted[0] as int);
            } else {
                assert(noted =~= Seq::empty());
                if forall|i: int| 0 <= i < items.len() ==> (#[trigger] items[i]).item is Ok {
                    lemma_nothing_to_report(items);
                }
            }
            if exists|i: int| 0 <= i < items.len() && (#[trigger] items[i]).item is Err {
                let i = choose|i: int| 0 <= i < items.len() && (#[trigger] items[i]).item is Err;
                lemma_failure_is_reported(items, noted, i);
            }
        },
        Parsed::Fatal(i, noted) => {
            lemma_reported_within(items, noted, text.len() as int);
            lemma_reported_point_at_lexemes(items, noted);
            let raw = errors_of(text, entry);
            let fatal = fatal_error(tokens, i, text.len() as usize);
            assert(raw.last() == fatal);
            if 0 <= i < tokens.len() {
                assert(is_token_among(tokens[i], items));
                let at = choose|at: int|
                    0 <= at < items.len() && #[trigger] is_token_of(tokens[i], items[at]);
                assert(reports_lexeme(fatal, items[at]));
                assert(points_into(text, fatal));
            }
            assert forall|k: int| 0 <= k < raw.len() implies points_into(text, #[trigger] raw[k])
                && raw[k].location().start.spec_offset() <= raw[k].location().end.spec_offset()
                <= text.len() by {
                if k < reported(items, noted).len() {
                    assert(raw[k] == reported(items, noted)[k]);
                }
            }
        },
    }
}

/// Lexes a whole text: everything the lexer hands out, in order, the tokens
/// among it, and the tracker that has seen the text to its end.
pub fn lex_items<'a>(source: &'a str) -> (r: (
    Vec<LexItem<'a>>,
    Vec<SpannedToken<'a>>,
    LineOffsetTracker,
))
    ensures
        items_match(r.0@, lex_from(source.spec_bytes(), 0)),
        spanned_seq_view(r.1@) == tokens_of(lex_from(source.spec_bytes(), 0)),
        r.2.tracks(source.spec_bytes(), source.spec_bytes().len() as int),
        forall|k: int|
            0 <= k < r.1@.len() ==> (#[trigger] r.1@[k]).0.0 <= source.spec_bytes().len()
                && r.1@[k].2.0 <= source.spec_bytes().len(),
{
    let ghost text = source.spec_bytes();
    let mut lexer = PartiqlLexer::new(source);
    let mut items: Vec<LexItem<'a>> = Vec::new();
    let mut tokens: Vec<SpannedToken<'a>> = Vec::new();
    let ghost mut seen: Seq<Lexeme> = Seq::empty();
    assert(seen + lexer.remaining() =~= lexer.remaining());
    loop
        invariant
            lexer.well_formed(),
            lexer.source() == text,
            items_match(items@, seen),
            spanned_seq_view(tokens@) == tokens_of(seen),
            lex_from(text, 0) == seen + lexer.remaining(),
            forall|k: int|
                0 <= k < tokens@.len() ==> (#[trigger] tokens@[k]).0.0 <= text.len()
                    && tokens@[k].2.0 <= text.len(),
        ensures
            forall|k: int|
                0 <= k < tokens@.len() ==> (#[trigger] tokens@[k]).0.0 <= text.len()
                    && tokens@[k].2.0 <= text.len(),
            lexer.well_formed(),
            lexer.source() == text,
            lexer.position() == text.len(),
            items_match(items@, seen),
            spanned_seq_view(tokens@) == tokens_of(seen),
            lex_from(text, 0) == seen,
        decreases text.len() - lexer.position(),
    {
        let ghost before = lexer.remaining();
        let ghost lexeme = crate::lexer::next_lexeme(lexer.source(), lexer.position());
        match lexer.next() {
            None => {
                assert(seen + before =~= seen);
                break ;
            },
            Some(item) => {
                proof {
                    assert(seen + before =~= seen.push(lexeme->0) + lexer.remaining());
                    assert(seen.push(lexeme->0).drop_last() =~= seen);
                }
                if let Ok(spanned) = &item {
                    let ghost old_tokens = tokens@;
                    tokens.push(*spanned);
                    assert(spanned_seq_view(tokens@) =~= spanned_seq_view(old_tokens).push(
                        spanned_view(*spanned),
                    ));
                }
                items.push(item);
                proof {
                    seen = seen.push(lexeme->0);
                }
            },
        }
    }
    (items, tokens, lexer.into_tracker())
}

/// Lexes a text into its tokens, each with its span. Fails on the first
/// piece of text that is no token.
pub fn lex_partiql<'a>(s: &'a str) -> (r: Result<
    Vec<SpannedToken<'a>>,
    ParserError<&'a str, BytePosition>,
>)
    ensures
        (match first_failure(lex_from(s.spec_bytes(), 0)) {
            None => r matches Ok(tokens) && spanned_seq_view(tokens@) == tokens_of(
                lex_from(s.spec_bytes(), 0),
            ) && tokens@.len() == lex_from(s.spec_bytes(), 0).len(),
            Some(lexeme) => r matches Err(error) && error@ == failure_of(lexeme),
        }),
{
    let ghost text = s.spec_bytes();
    let mut lexer = PartiqlLexer::new(s);
    let mut tokens: Vec<SpannedToken<'a>> = Vec::new();
    let ghost mut seen: Seq<Lexeme> = Seq::empty();
    assert(seen + lexer.remaining() =~= lexer.remaining());
    loop
        invariant
            text == s.spec_bytes(),
            lexer.well_formed(),
            lexer.source() == text,
            forall|i: int| 0 <= i < seen.len() ==> (#[trigger] seen[i]).item is Ok,
            spanned_seq_view(tokens@) == tokens_of(seen),
            lex_from(text, 0) == seen + lexer.remaining(),
        ensures
            forall|i: int| 0 <= i < seen.len() ==> (#[trigger] seen[i]).item is Ok,
            spanned_seq_view(tokens@) == tokens_of(seen),
            lex_from(text, 0) == seen,
        decreases text.len() - lexer.position(),
    {
        let ghost before = lexer.remaining();
        let ghost lexeme = crate::lexer::next_lexeme(lexer.source(), lexer.position());
        match lexer.next() {
            None => {
                assert(seen + before =~= seen);
                break ;
            },
            Some(Err(error)) => {
                proof {
                    lemma_first_failure_after_tokens(seen, before);
                    assert(before[0] == lexeme->0);
                    assert(first_failure(before) == lexeme);
                }
                return Err(error);
            },
            Some(Ok(spanned)) => {
                proof {
                    assert(seen + before =~= seen.push(lexeme->0) + lexer.remaining());
                    assert(seen.push(lexeme->0).drop_last() =~= seen);
                }
                let ghost old_tokens = tokens@;
                tokens.push(spanned);
                assert(spanned_seq_view(tokens@) =~= spanned_seq_view(old_tokens).push(
                    spanned_view(spanned),
                ));
                proof {
                    seen = seen.push(lexeme->0);
                }
            },
        }
    }
    proof {
        lemma_tokens_of_all_tokens(seen);
    }
    Ok(tokens)
}

fn is_noted(noted: &Vec<usize>, place: usize) -> (r: bool)
    ensures
        r == noted@.contains(place),
{
    let mut i: usize = 0;
    while i < noted.len()
        invariant
            0 <= i <= noted@.len(),
            forall|j: int| 0 <= j < i ==> noted@[j] != place,
        decreases noted@.len() - i,
    {
        if noted[i] == place {
            return true;
        }
        i = i + 1;
    }
    false
}

/// The errors that parsing got over, as a grammar reports them, in the order
/// of the text: the errors among what the lexer handed out, and the tokens
/// whose places are noted.
fn recoverable_errors<'a>(
    items: &Vec<LexItem<'a>>,
    noted: &Vec<usize>,
    Ghost(lexemes): Ghost<Seq<Lexeme>>,
    Ghost(len): Ghost<int>,
) -> (errors: Vec<GrammarError<&'a str>>)
    requires
        items_match(items@, lexemes),
        len <= usize::MAX,
        forall|i: int|
            0 <= i < lexemes.len() ==> 0 <= (#[trigger] lexemes[i]).start <= lexemes[i].end <= len,
    ensures
        errors@.len() == reported(lexemes, noted@).len(),
        forall|k: int|
            0 <= k < errors@.len() ==> parser_error_of(#[trigger] errors@[k])@ == reported(
                lexemes,
                noted@,
            )[k],
        forall|k: int|
            0 <= k < errors@.len() ==> lies_within(parser_error_of(#[trigger] errors@[k]), len),
{
    let mut errors: Vec<GrammarError<&'a str>> = Vec::new();
    let mut place: usize = 0;
    let mut i: usize = 0;
    assert(lexemes.subrange(0, 0) =~= Seq::<Lexeme>::empty());
    while i < items.len()
        invariant
            0 <= i <= items@.len(),
            items_match(items@, lexemes),
            len <= usize::MAX,
            forall|i: int|
                0 <= i < lexemes.len() ==> 0 <= (#[trigger] lexemes[i]).start <= lexemes[i].end
                    <= len,
            forall|k: int|
                0 <= k < errors@.len() ==> lies_within(parser_error_of(#[trigger] errors@[k]), len),
            place == tokens_of(lexemes.subrange(0, i as int)).len(),
            place <= i,
            errors@.len() == reported(lexemes.subrange(0, i as int), noted@).len(),
            forall|k: int|
                0 <= k < errors@.len() ==> parser_error_of(#[trigger] errors@[k])@ == reported(
                    lexemes.subrange(0, i as int),
                    noted@,
                )[k],
        decreases items@.len() - i,
    {
        proof {
            assert(lexemes.subrange(0, i + 1).drop_last() =~= lexemes.subrange(0, i as int));
            assert(lexemes.subrange(0, i + 1).last() == lexemes[i as int]);
            assert(item_matches(items@[i as int], lexemes[i as int]));
        }
        match &items[i] {
            Ok(spanned) => {
                if is_noted(noted, place) {
                    errors.push(GrammarError::UnrecognizedToken { token: *spanned });
                }
                place = place + 1;
            },
            Err(ParserError::LexicalError(e)) => {
                errors.push(
                    GrammarError::User {
                        error: ParserError::LexicalError(
                            Located {
                                inner: e.inner,
                                location: Range { start: e.location.start, end: e.location.end },
                            },
                        ),
                    },
                );
            },
            Err(_) => {},
        }
        i = i + 1;
    }
    assert(lexemes.subrange(0, i as int) =~= lexemes);
    errors
}

/// The error for the place where the grammar stopped.
pub fn fatal_grammar_error<'a>(tokens: &Vec<SpannedToken<'a>>, place: usize, end: usize) -> (error:
    GrammarError<&'a str>)
    requires
        forall|k: int| 0 <= k < tokens@.len() ==> (#[trigger] tokens@[k]).0.0 <= end && tokens@[k].2.0 <= end,
    ensures
        parser_error_of(error)@ == fatal_error(spanned_seq_view(tokens@), place as int, end),
        lies_within(parser_error_of(error), end as int),
{
    if place < tokens.len() {
        GrammarError::UnrecognizedToken { token: tokens[place] }
    } else {
        GrammarError::UnrecognizedEof { location: ByteOffset(end) }
    }
}

/// What a parse returns is what parsing the text gives, once each step has
/// returned what it should.
proof fn lemma_parse_result<'a>(
    text: Seq<u8>,
    entry: Entry,
    noted: Seq<usize>,
    top: Result<(Expr, usize), usize>,
    parsed: Result<Box<Expr>, GrammarError<&'a str>>,
    errors: Seq<GrammarError<&'a str>>,
    r: ParserResult<'a>,
)
    requires
        crate::grammar::agrees(
            top,
            noted,
            top_rule(tokens_of(lex_from(text, 0)), entry, Seq::empty()),
        ),
        (match top {
            Ok((tree, _)) => parsed == Ok::<Box<Expr>, GrammarError<&'a str>>(Box::new(tree)),
            Err(place) => parsed matches Err(fatal) && parser_error_of(fatal)@ == fatal_error(
                tokens_of(lex_from(text, 0)),
                place as int,
                text.len() as usize,
            ),
        }),
        errors.len() == reported(lex_from(text, 0), noted).len(),
        forall|k: int|
            0 <= k < errors.len() ==> parser_error_of(#[trigger] errors[k])@ == reported(
                lex_from(text, 0),
                noted,
            )[k],
        (match combined(text, parsed, errors) {
            Ok(tree) => r == Ok::<Box<Expr>, Vec<ParserError<&'a str, LineAndCharPosition>>>(tree),
            Err(reported) => r matches Err(v) && v@ == reported,
        }),
    ensures
        result_view(r) == parse_of(text, entry),
{
    let model = reported(lex_from(text, 0), noted);
    lemma_reported_views(text, errors, model);
    match parsed {
        Ok(_) => {},
        Err(fatal) => {
            let last = parser_error_of(fatal)@;
            assert(model.push(last).last() == last);
            assert forall|k: int| 0 <= k < errors.len() implies parser_error_of(
                #[trigger] errors[k],
            )@ == model.push(last)[k] by {}
            lemma_reported_views_with_fatal(text, errors, fatal, model.push(last));
        },
    }
}

/// Parses a text as what `entry` says.
pub fn parse_as<'a>(s: &'a str, entry: Entry) -> (r: ParserResult<'a>)
    ensures
        result_view(r) == parse_of(s.spec_bytes(), entry),
{
    let ghost text = s.spec_bytes();
    let ghost lexemes = lex_from(text, 0);
    let (items, tokens, tracker) = lex_items(s);
    let len = s.as_bytes().len();
    let mut noted: Vec<usize> = Vec::new();
    let top = parse_top(&tokens, entry, &mut noted);
    proof {
        lemma_lexemes_within(text);
    }
    let errors = recoverable_errors(&items, &noted, Ghost(lexemes), Ghost(text.len() as int));
    let ghost top_result = top;
    let parsed = match top {
        Ok((tree, _)) => Ok(Box::new(tree)),
        Err(place) => Err(fatal_grammar_error(&tokens, place, len)),
    };
    let ghost parsed_result = parsed;
    let ghost errors_before = errors@;
    let r = combine(s, &tracker, parsed, errors);
    proof {
        lemma_parse_result(text, entry, noted@, top_result, parsed_result, errors_before, r);
    }
    r
}

/// Parses a text as one query or one expression.
pub fn parse_partiql<'a>(s: &'a str) -> (r: ParserResult<'a>)
    ensures
        result_view(r) == parse_of(s.spec_bytes(), Entry::Query),
{
    parse_as(s, Entry::Query)
}

/// Parses a text as one term: a literal, a name, a call, or something in
/// brackets.
pub fn parse_expr_term<'a>(s: &'a str) -> (r: ParserResult<'a>)
    ensures
        result_view(r) == parse_of(s.spec_bytes(), Entry::ExprTerm),
{
    parse_as(s, Entry::ExprTerm)
}

/// Parses a text as one literal.
pub fn parse_literal<'a>(s: &'a str) -> (r: ParserResult<'a>)
    ensures
        result_view(r) == parse_of(s.spec_bytes(), Entry::Literal),
{
    parse_as(s, Entry::Literal)
}

} // verus!
