//! Source text as bytes. The lexer reads the UTF-8 bytes of the text and cuts
//! it at byte offsets; this module shows that its cuts fall between scalar
//! values, and hands out the slice between two of them.

use vstd::prelude::*;
use vstd::string::{StringExecFns, StringSliceAdditionalSpecFns};
use vstd::utf8::{
    decode_utf8, encode_utf8_decode_utf8, encode_utf8_valid_utf8, is_char_boundary,
    is_char_boundary_iff_not_is_continuation_byte, is_char_boundary_start_end_of_seq,
    is_continuation_byte, length_of_first_scalar, pop_first_scalar, valid_utf8,
};

verus! {

/// The characters that the bytes from `start` up to `end` spell.
pub open spec fn text_of(text: Seq<u8>, start: int, end: int) -> Seq<char> {
    decode_utf8(text.subrange(start, end))
}

/// Offset `i` does not fall inside a scalar value: it is the end of the text,
/// or the byte there is not a continuation byte.
pub open spec fn on_boundary(text: Seq<u8>, i: int) -> bool {
    0 <= i <= text.len() && (i < text.len() ==> !is_continuation_byte(text[i]))
}

/// In well-formed UTF-8, a byte below 0x80 is a whole scalar value: the offset
/// after it is a boundary.
pub proof fn lemma_boundary_after_ascii(text: Seq<u8>, i: int)
    requires
        valid_utf8(text),
        0 <= i < text.len(),
        text[i] < 0x80,
    ensures
        is_char_boundary(text, i + 1),
        on_boundary(text, i + 1),
    decreases text.len(),
{
    let width = length_of_first_scalar(text);
    let rest = pop_first_scalar(text);
    if i == 0 {
        assert(width == 1);
        assert(is_char_boundary(rest, 0));
    } else {
        assert(i >= width);
        assert(rest[i - width] == text[i]);
        lemma_boundary_after_ascii(rest, i - width);
    }
    assert(is_char_boundary(text, i + 1));
    if i + 1 < text.len() {
        is_char_boundary_iff_not_is_continuation_byte(text, i + 1);
    }
}

/// The bytes of a string slice are well-formed UTF-8.
pub proof fn lemma_str_is_utf8(s: &str)
    ensures
        valid_utf8(s.spec_bytes()),
{
    encode_utf8_valid_utf8(s@);
}

/// A boundary as the lexer tests it is a boundary as the standard library
/// means it.
pub proof fn lemma_boundary_is_char_boundary(text: Seq<u8>, i: int)
    requires
        valid_utf8(text),
        on_boundary(text, i),
    ensures
        is_char_boundary(text, i),
{
    if i < text.len() {
        is_char_boundary_iff_not_is_continuation_byte(text, i);
    } else {
        is_char_boundary_start_end_of_seq(text);
    }
}

/// The part of `text` from byte `start` up to byte `end`, without copying.
pub fn slice_str<'a>(text: &'a str, start: usize, end: usize) -> (r: &'a str)
    requires
        start <= end,
        on_boundary(text.spec_bytes(), start as int),
        on_boundary(text.spec_bytes(), end as int),
    ensures
        r.spec_bytes() == text.spec_bytes().subrange(start as int, end as int),
        r@ == text_of(text.spec_bytes(), start as int, end as int),
{
    proof {
        lemma_str_is_utf8(text);
        lemma_boundary_is_char_boundary(text.spec_bytes(), end as int);
    }
    let (head, _) = text.split_at(end);
    proof {
        lemma_str_is_utf8(head);
        assert(on_boundary(head.spec_bytes(), start as int));
        lemma_boundary_is_char_boundary(head.spec_bytes(), start as int);
    }
    let (_, r) = head.split_at(start);
    proof {
        assert(r.spec_bytes() =~= text.spec_bytes().subrange(start as int, end as int));
        encode_utf8_decode_utf8(r@);
    }
    r
}

/// The part of `text` from byte `start` up to byte `end`, if there is such
/// a part: the offsets are in order, in the text, and not inside a scalar
/// value.
pub fn checked_slice<'a>(text: &'a str, start: usize, end: usize) -> (r: Option<&'a str>)
    ensures
        r is Some <==> start <= end && on_boundary(text.spec_bytes(), start as int) && on_boundary(
            text.spec_bytes(),
            end as int,
        ),
        r matches Some(part) ==> part.spec_bytes() == text.spec_bytes().subrange(
            start as int,
            end as int,
        ) && part@ == text_of(text.spec_bytes(), start as int, end as int),
{
    let bytes = text.as_bytes();
    let len = bytes.len();
    if start > end || end > len {
        return None;
    }
    if start < len && 0x80 <= bytes[start] && bytes[start] <= 0xbf {
        return None;
    }
    if end < len && 0x80 <= bytes[end] && bytes[end] <= 0xbf {
        return None;
    }
    Some(slice_str(text, start, end))
}

/// A pair of quotes stands at `p`.
pub open spec fn quote_pair_at(raw: Seq<u8>, p: int, quote: u8) -> bool {
    0 <= p && p + 1 < raw.len() && raw[p] == quote && raw[p + 1] == quote
}

/// What a quoted text stands for, from `from` on: the text as written, with
/// each pair of quotes read as one quote. `p` is how far pairs have been
/// looked for.
pub open spec fn unquoted_from(raw: Seq<u8>, from: int, p: int, quote: u8) -> Seq<char>
    decreases raw.len() - p,
{
    if p < 0 || p >= raw.len() {
        text_of(raw, from, raw.len() as int)
    } else if quote_pair_at(raw, p, quote) {
        text_of(raw, from, p + 1) + unquoted_from(raw, p + 2, p + 2, quote)
    } else {
        unquoted_from(raw, from, p + 1, quote)
    }
}

/// What a quoted text stands for: the text as written between its quotes,
/// with each pair of quotes read as one quote.
pub open spec fn unquoted(raw: Seq<u8>, quote: u8) -> Seq<char> {
    unquoted_from(raw, 0, 0, quote)
}

/// What the text between two quotes stands for. `quote` is the quote, a
/// byte below 0x80.
pub fn unquote(raw: &str, quote: u8) -> (r: String)
    requires
        quote < 0x80,
    ensures
        r@ == unquoted(raw.spec_bytes(), quote),
{
    let bytes = raw.as_bytes();
    let len = bytes.len();
    let mut r = String::new();
    let mut from: usize = 0;
    let mut p: usize = 0;
    proof {
        lemma_str_is_utf8(raw);
    }
    while p < len
        invariant
            from <= p <= len,
            len == bytes@.len(),
            bytes@ == raw.spec_bytes(),
            valid_utf8(bytes@),
            quote < 0x80,
            on_boundary(bytes@, from as int),
            unquoted(bytes@, quote) == r@ + unquoted_from(bytes@, from as int, p as int, quote),
        decreases len - p,
    {
        if bytes[p] == quote && p + 1 < len && bytes[p + 1] == quote {
            proof {
                lemma_boundary_after_ascii(bytes@, p as int);
                lemma_boundary_after_ascii(bytes@, p + 1);
            }
            let ghost before = r@;
            let part = slice_str(raw, from, p + 1);
            r.append(part);
            assert(before + (part@ + unquoted_from(bytes@, p + 2, p + 2, quote)) =~= r@
                + unquoted_from(bytes@, p + 2, p + 2, quote));
            from = p + 2;
            p = p + 2;
        } else {
            p = p + 1;
        }
    }
    let ghost before = r@;
    r.append(slice_str(raw, from, len));
    r
}

} // verus!
