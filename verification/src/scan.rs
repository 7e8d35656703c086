//! The scanning rules of the lexer, one byte class or delimiter at a time:
//! where a run of digits ends, where a comment or a quoted text closes, what
//! is skipped between tokens. Each rule is a function of the text and an
//! offset, and each has a loop that computes it.

use vstd::prelude::*;
use vstd::utf8::is_continuation_byte;

verus! {

pub const NEWLINE: u8 = 0x0a;

pub const DOUBLE_QUOTE: u8 = 0x22;

pub const SINGLE_QUOTE: u8 = 0x27;

pub const STAR: u8 = 0x2a;

pub const PLUS: u8 = 0x2b;

pub const MINUS: u8 = 0x2d;

pub const DOT: u8 = 0x2e;

pub const SLASH: u8 = 0x2f;

pub const BACKTICK: u8 = 0x60;

/// Space, tab, line feed, vertical tab, form feed, carriage return.
pub open spec fn is_whitespace(b: u8) -> bool {
    b == 0x20 || (0x09 <= b <= 0x0d)
}

pub open spec fn is_digit(b: u8) -> bool {
    0x30 <= b <= 0x39
}

/// A letter, `_` or `$`.
pub open spec fn is_ident_start(b: u8) -> bool {
    (0x61 <= b <= 0x7a) || (0x41 <= b <= 0x5a) || b == 0x5f || b == 0x24
}

pub open spec fn is_ident_part(b: u8) -> bool {
    is_ident_start(b) || is_digit(b)
}

/// `e` or `E`.
pub open spec fn is_exponent_marker(b: u8) -> bool {
    b == 0x65 || b == 0x45
}

/// An upper-case letter as its lower-case letter; any other byte as it is.
pub open spec fn to_lower(b: u8) -> u8 {
    if 0x41 <= b <= 0x5a {
        (b + 0x20) as u8
    } else {
        b
    }
}

/// The classes of bytes that tokens are runs of.
#[derive(Debug, Clone, Copy, PartialEq, Eq, Structural)]
pub enum ByteClass {
    Digit,
    IdentPart,
    Continuation,
}

pub open spec fn in_class(class: ByteClass, b: u8) -> bool {
    match class {
        ByteClass::Digit => is_digit(b),
        ByteClass::IdentPart => is_ident_part(b),
        ByteClass::Continuation => is_continuation_byte(b),
    }
}

/// Where the run of bytes of `class` that starts at `p` ends.
pub open spec fn run_end(text: Seq<u8>, p: int, class: ByteClass) -> int
    decreases text.len() - p,
{
    if 0 <= p < text.len() && in_class(class, text[p]) {
        run_end(text, p + 1, class)
    } else {
        p
    }
}

/// The offset of the first byte `x` at or after `p`, or the end of the text.
pub open spec fn find_byte(text: Seq<u8>, p: int, x: u8) -> int
    decreases text.len() - p,
{
    if 0 <= p < text.len() && text[p] != x {
        find_byte(text, p + 1, x)
    } else {
        p
    }
}

/// `//` stands at `p`.
pub open spec fn starts_line_comment(text: Seq<u8>, p: int) -> bool {
    0 <= p && p + 1 < text.len() && text[p] == SLASH && text[p + 1] == SLASH
}

/// `/*` stands at `p`.
pub open spec fn starts_block_comment(text: Seq<u8>, p: int) -> bool {
    0 <= p && p + 1 < text.len() && text[p] == SLASH && text[p + 1] == STAR
}

/// The offset after the first `*/` at or after `p`, if there is one.
pub open spec fn block_comment_end(text: Seq<u8>, p: int) -> Option<int>
    decreases text.len() - p,
{
    if p < 0 || p + 1 >= text.len() {
        None
    } else if text[p] == STAR && text[p + 1] == SLASH {
        Some(p + 2)
    } else {
        block_comment_end(text, p + 1)
    }
}

/// The offset of the quote `q` that closes a text whose inside starts at `p`.
/// Two quotes in a row stand for one quote inside the text and close nothing.
pub open spec fn quote_end(text: Seq<u8>, p: int, q: u8) -> Option<int>
    decreases text.len() - p,
{
    if p < 0 || p >= text.len() {
        None
    } else if text[p] != q {
        quote_end(text, p + 1, q)
    } else if p + 1 < text.len() && text[p + 1] == q {
        quote_end(text, p + 2, q)
    } else {
        Some(p)
    }
}

pub proof fn lemma_run_end_bounds(text: Seq<u8>, p: int, class: ByteClass)
    requires
        0 <= p <= text.len(),
    ensures
        p <= run_end(text, p, class) <= text.len(),
    decreases text.len() - p,
{
    if p < text.len() && in_class(class, text[p]) {
        lemma_run_end_bounds(text, p + 1, class);
    }
}

pub proof fn lemma_find_byte_bounds(text: Seq<u8>, p: int, x: u8)
    requires
        0 <= p <= text.len(),
    ensures
        p <= find_byte(text, p, x) <= text.len(),
        find_byte(text, p, x) < text.len() ==> text[find_byte(text, p, x)] == x,
    decreases text.len() - p,
{
    if p < text.len() && text[p] != x {
        lemma_find_byte_bounds(text, p + 1, x);
    }
}

/// A run is as long as it can be: every byte of it is of the class, and the
/// byte after it, if there is one, is not.
pub proof fn lemma_run_is_maximal(text: Seq<u8>, p: int, class: ByteClass)
    requires
        0 <= p <= text.len(),
    ensures
        forall|i: int| p <= i < run_end(text, p, class) ==> in_class(class, #[trigger] text[i]),
        run_end(text, p, class) < text.len() ==> !in_class(class, text[run_end(text, p, class)]),
    decreases text.len() - p,
{
    if p < text.len() && in_class(class, text[p]) {
        lemma_run_is_maximal(text, p + 1, class);
    }
}

/// The byte found is the first: no byte before it, from `p` on, is `x`.
pub proof fn lemma_find_byte_is_first(text: Seq<u8>, p: int, x: u8)
    requires
        0 <= p <= text.len(),
    ensures
        forall|i: int| p <= i < find_byte(text, p, x) ==> #[trigger] text[i] != x,
    decreases text.len() - p,
{
    if p < text.len() && text[p] != x {
        lemma_find_byte_is_first(text, p + 1, x);
    }
}

pub proof fn lemma_block_comment_end_bounds(text: Seq<u8>, p: int)
    requires
        0 <= p,
    ensures
        block_comment_end(text, p) matches Some(e) ==> p + 2 <= e <= text.len() && text[e - 1]
            == SLASH,
    decreases text.len() - p,
{
    if p + 1 < text.len() && !(text[p] == STAR && text[p + 1] == SLASH) {
        lemma_block_comment_end_bounds(text, p + 1);
    }
}

pub proof fn lemma_quote_end_bounds(text: Seq<u8>, p: int, q: u8)
    requires
        0 <= p,
    ensures
        quote_end(text, p, q) matches Some(e) ==> p <= e < text.len() && text[e] == q,
    decreases text.len() - p,
{
    if p < text.len() {
        if text[p] != q {
            lemma_quote_end_bounds(text, p + 1, q);
        } else if p + 1 < text.len() && text[p + 1] == q {
            lemma_quote_end_bounds(text, p + 2, q);
        }
    }
}

/// Where what is skipped from `p` on ends: whitespace, line comments up to
/// the end of their line, and block comments that are closed. An unclosed
/// block comment is not skipped.
pub open spec fn skip_trivia(text: Seq<u8>, p: int) -> int
    decreases text.len() - p,
{
    if p < 0 || p >= text.len() {
        p
    } else if is_whitespace(text[p]) {
        skip_trivia(text, p + 1)
    } else if starts_line_comment(text, p) {
        proof {
            lemma_find_byte_bounds(text, p + 2, NEWLINE);
        }
        skip_trivia(text, find_byte(text, p + 2, NEWLINE))
    } else if starts_block_comment(text, p) {
        proof {
            lemma_block_comment_end_bounds(text, p + 2);
        }
        match block_comment_end(text, p + 2) {
            Some(e) => skip_trivia(text, e),
            None => p,
        }
    } else {
        p
    }
}

/// The offset of the backtick that closes an embedded literal whose inside
/// starts at `p`. Inside the literal, a quoted text runs to the next quote of
/// its kind and a comment to its end, and a backtick in either closes nothing.
pub open spec fn ion_end(text: Seq<u8>, p: int) -> Option<int>
    decreases text.len() - p,
{
    if p < 0 || p >= text.len() {
        None
    } else if text[p] == BACKTICK {
        Some(p)
    } else if text[p] == SINGLE_QUOTE || text[p] == DOUBLE_QUOTE {
        proof {
            lemma_find_byte_bounds(text, p + 1, text[p]);
        }
        let close = find_byte(text, p + 1, text[p]);
        if close < text.len() {
            ion_end(text, close + 1)
        } else {
            None
        }
    } else if starts_line_comment(text, p) {
        proof {
            lemma_find_byte_bounds(text, p + 2, NEWLINE);
        }
        ion_end(text, find_byte(text, p + 2, NEWLINE))
    } else if starts_block_comment(text, p) {
        proof {
            lemma_block_comment_end_bounds(text, p + 2);
        }
        match block_comment_end(text, p + 2) {
            Some(e) => ion_end(text, e),
            None => None,
        }
    } else {
        ion_end(text, p + 1)
    }
}

pub proof fn lemma_skip_trivia_bounds(text: Seq<u8>, p: int)
    requires
        0 <= p <= text.len(),
    ensures
        p <= skip_trivia(text, p) <= text.len(),
        skip_trivia(text, skip_trivia(text, p)) == skip_trivia(text, p),
    decreases text.len() - p,
{
    if p < text.len() {
        if is_whitespace(text[p]) {
            lemma_skip_trivia_bounds(text, p + 1);
        } else if starts_line_comment(text, p) {
            lemma_find_byte_bounds(text, p + 2, NEWLINE);
            lemma_skip_trivia_bounds(text, find_byte(text, p + 2, NEWLINE));
        } else if starts_block_comment(text, p) {
            lemma_block_comment_end_bounds(text, p + 2);
            match block_comment_end(text, p + 2) {
                Some(e) => lemma_skip_trivia_bounds(text, e),
                None => {},
            }
        }
    }
}

pub proof fn lemma_ion_end_bounds(text: Seq<u8>, p: int)
    requires
        0 <= p,
    ensures
        ion_end(text, p) matches Some(e) ==> p <= e < text.len() && text[e] == BACKTICK,
    decreases text.len() - p,
{
    if p < text.len() && text[p] != BACKTICK {
        if text[p] == SINGLE_QUOTE || text[p] == DOUBLE_QUOTE {
            lemma_find_byte_bounds(text, p + 1, text[p]);
            let close = find_byte(text, p + 1, text[p]);
            if close < text.len() {
                lemma_ion_end_bounds(text, close + 1);
            }
        } else if starts_line_comment(text, p) {
            lemma_find_byte_bounds(text, p + 2, NEWLINE);
            lemma_ion_end_bounds(text, find_byte(text, p + 2, NEWLINE));
        } else if starts_block_comment(text, p) {
            lemma_block_comment_end_bounds(text, p + 2);
            match block_comment_end(text, p + 2) {
                Some(e) => lemma_ion_end_bounds(text, e),
                None => {},
            }
        } else {
            lemma_ion_end_bounds(text, p + 1);
        }
    }
}

pub fn byte_is_whitespace(b: u8) -> (r: bool)
    ensures
        r == is_whitespace(b),
{
    b == 0x20 || (0x09 <= b && b <= 0x0d)
}

pub fn byte_is_digit(b: u8) -> (r: bool)
    ensures
        r == is_digit(b),
{
    0x30 <= b && b <= 0x39
}

pub fn byte_is_ident_start(b: u8) -> (r: bool)
    ensures
        r == is_ident_start(b),
{
    (0x61 <= b && b <= 0x7a) || (0x41 <= b && b <= 0x5a) || b == 0x5f || b == 0x24
}

pub fn byte_to_lower(b: u8) -> (r: u8)
    ensures
        r == to_lower(b),
{
    if 0x41 <= b && b <= 0x5a {
        b + 0x20
    } else {
        b
    }
}

pub fn byte_in_class(class: ByteClass, b: u8) -> (r: bool)
    ensures
        r == in_class(class, b),
{
    match class {
        ByteClass::Digit => byte_is_digit(b),
        ByteClass::IdentPart => byte_is_ident_start(b) || byte_is_digit(b),
        ByteClass::Continuation => 0x80 <= b && b <= 0xbf,
    }
}

pub fn scan_run(bytes: &[u8], p: usize, class: ByteClass) -> (e: usize)
    requires
        p <= bytes@.len(),
    ensures
        e == run_end(bytes@, p as int, class),
        p <= e <= bytes@.len(),
        forall|i: int| p <= i < e ==> in_class(class, #[trigger] bytes@[i]),
{
    let mut i: usize = p;
    while i < bytes.len() && byte_in_class(class, bytes[i])
        invariant
            p <= i <= bytes@.len(),
            run_end(bytes@, p as int, class) == run_end(bytes@, i as int, class),
            forall|j: int| p <= j < i ==> in_class(class, #[trigger] bytes@[j]),
        decreases bytes@.len() - i,
    {
        i = i + 1;
    }
    i
}

pub fn scan_to_byte(bytes: &[u8], p: usize, x: u8) -> (e: usize)
    requires
        p <= bytes@.len(),
    ensures
        e == find_byte(bytes@, p as int, x),
        p <= e <= bytes@.len(),
{
    let mut i: usize = p;
    while i < bytes.len() && bytes[i] != x
        invariant
            p <= i <= bytes@.len(),
            find_byte(bytes@, p as int, x) == find_byte(bytes@, i as int, x),
        decreases bytes@.len() - i,
    {
        i = i + 1;
    }
    i
}

pub fn at_line_comment(bytes: &[u8], p: usize) -> (r: bool)
    requires
        p < bytes@.len(),
    ensures
        r == starts_line_comment(bytes@, p as int),
{
    bytes[p] == SLASH && p + 1 < bytes.len() && bytes[p + 1] == SLASH
}

pub fn at_block_comment(bytes: &[u8], p: usize) -> (r: bool)
    requires
        p < bytes@.len(),
    ensures
        r == starts_block_comment(bytes@, p as int),
{
    bytes[p] == SLASH && p + 1 < bytes.len() && bytes[p + 1] == STAR
}

pub fn scan_block_comment(bytes: &[u8], p: usize) -> (r: Option<usize>)
    requires
        p <= bytes@.len(),
    ensures
        (match r {
            Some(e) => block_comment_end(bytes@, p as int) == Some(e as int) && p + 2 <= e
                <= bytes@.len(),
            None => block_comment_end(bytes@, p as int) is None,
        }),
{
    let mut i: usize = p;
    while bytes.len() - i > 1
        invariant
            p <= i <= bytes@.len(),
            block_comment_end(bytes@, p as int) == block_comment_end(bytes@, i as int),
        decreases bytes@.len() - i,
    {
        if bytes[i] == STAR && bytes[i + 1] == SLASH {
            return Some(i + 2);
        }
        i = i + 1;
    }
    None
}

pub fn scan_quote(bytes: &[u8], p: usize, q: u8) -> (r: Option<usize>)
    requires
        p <= bytes@.len(),
    ensures
        (match r {
            Some(e) => quote_end(bytes@, p as int, q) == Some(e as int) && p <= e < bytes@.len()
                && bytes@[e as int] == q,
            None => quote_end(bytes@, p as int, q) is None,
        }),
{
    let mut i: usize = p;
    while i < bytes.len()
        invariant
            p <= i <= bytes@.len(),
            quote_end(bytes@, p as int, q) == quote_end(bytes@, i as int, q),
        decreases bytes@.len() - i,
    {
        if bytes[i] != q {
            i = i + 1;
        } else if i + 1 < bytes.len() && bytes[i + 1] == q {
            i = i + 2;
        } else {
            return Some(i);
        }
    }
    None
}

pub fn scan_trivia(bytes: &[u8], p: usize) -> (e: usize)
    requires
        p <= bytes@.len(),
    ensures
        e == skip_trivia(bytes@, p as int),
        p <= e <= bytes@.len(),
{
    let mut i: usize = p;
    loop
        invariant
            p <= i <= bytes@.len(),
            skip_trivia(bytes@, p as int) == skip_trivia(bytes@, i as int),
        ensures
            p <= i <= bytes@.len(),
            i as int == skip_trivia(bytes@, p as int),
        decreases bytes@.len() - i,
    {
        if i >= bytes.len() {
            break ;
        }
        if byte_is_whitespace(bytes[i]) {
            i = i + 1;
        } else if at_line_comment(bytes, i) {
            i = scan_to_byte(bytes, i + 2, NEWLINE);
        } else if at_block_comment(bytes, i) {
            match scan_block_comment(bytes, i + 2) {
                Some(e) => {
                    i = e;
                },
                None => {
                    break ;
                },
            }
        } else {
            break ;
        }
    }
    i
}

pub fn scan_ion(bytes: &[u8], p: usize) -> (r: Option<usize>)
    requires
        p <= bytes@.len(),
    ensures
        (match r {
            Some(e) => ion_end(bytes@, p as int) == Some(e as int) && p <= e < bytes@.len()
                && bytes@[e as int] == BACKTICK,
            None => ion_end(bytes@, p as int) is None,
        }),
{
    let mut i: usize = p;
    while i < bytes.len()
        invariant
            p <= i <= bytes@.len(),
            ion_end(bytes@, p as int) == ion_end(bytes@, i as int),
        decreases bytes@.len() - i,
    {
        let b = bytes[i];
        if b == BACKTICK {
            return Some(i);
        } else if b == SINGLE_QUOTE || b == DOUBLE_QUOTE {
            let close = scan_to_byte(bytes, i + 1, b);
            if close < bytes.len() {
                i = close + 1;
            } else {
                return None;
            }
        } else if at_line_comment(bytes, i) {
            i = scan_to_byte(bytes, i + 2, NEWLINE);
        } else if at_block_comment(bytes, i) {
            match scan_block_comment(bytes, i + 2) {
                Some(e) => {
                    i = e;
                },
                None => {
                    return None;
                },
            }
        } else {
            i = i + 1;
        }
    }
    None
}

} // verus!
