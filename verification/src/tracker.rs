//! Maps byte offsets to line and character coordinates. The tracker holds the
//! offset at which each line seen so far starts; resolving an offset never
//! rescans what lies before the line it is on.

use crate::location::{ByteOffset, BytePosition, CharOffset, LineAndCharPosition, LineOffset};
use vstd::prelude::*;
use vstd::string::StringSliceAdditionalSpecFns;
use crate::text::{
    lemma_boundary_after_ascii, lemma_boundary_is_char_boundary, on_boundary, text_of,
};
use vstd::utf8::{
    decode_utf8, is_continuation_byte, length_of_first_scalar, pop_first_scalar, valid_utf8,
    valid_utf8_split,
};

verus! {

/// The byte that ends a line.
pub open spec fn is_line_end(b: u8) -> bool {
    b == 0x0a
}

/// How many lines end in the first `n` bytes.
pub open spec fn line_ends_before(text: Seq<u8>, n: int) -> nat
    decreases n,
{
    if n <= 0 {
        0
    } else {
        line_ends_before(text, n - 1) + if is_line_end(text[n - 1]) {
            1nat
        } else {
            0nat
        }
    }
}

/// Where the line that holds offset `n` starts.
pub open spec fn line_start_of(text: Seq<u8>, n: int) -> int
    decreases n,
{
    if n <= 0 {
        0
    } else if is_line_end(text[n - 1]) {
        n
    } else {
        line_start_of(text, n - 1)
    }
}

/// How many scalar values start in `text[from..to]`: the bytes there that are
/// not continuation bytes.
pub open spec fn scalars_started(text: Seq<u8>, from: int, to: int) -> nat
    decreases to - from,
{
    if to <= from {
        0
    } else {
        scalars_started(text, from, to - 1) + if is_continuation_byte(text[to - 1]) {
            0nat
        } else {
            1nat
        }
    }
}

/// The count depends only on the bytes counted.
proof fn lemma_scalars_started_same_bytes(s1: Seq<u8>, a1: int, s2: Seq<u8>, a2: int, n: int)
    requires
        0 <= n,
        forall|i: int| a1 <= i < a1 + n ==> #[trigger] s1[i] == s2[i - a1 + a2],
    ensures
        scalars_started(s1, a1, a1 + n) == scalars_started(s2, a2, a2 + n),
    decreases n,
{
    if n > 0 {
        lemma_scalars_started_same_bytes(s1, a1, s2, a2, n - 1);
        assert(s1[a1 + n - 1] == s2[a1 + n - 1 - a1 + a2]);
    }
}

/// The count over a span is the sum of the counts over its two parts.
proof fn lemma_scalars_started_split(text: Seq<u8>, from: int, mid: int, to: int)
    requires
        from <= mid <= to,
    ensures
        scalars_started(text, from, to) == scalars_started(text, from, mid) + scalars_started(
            text,
            mid,
            to,
        ),
    decreases to - mid,
{
    if mid < to {
        lemma_scalars_started_split(text, from, mid, to - 1);
    }
}

/// In well-formed UTF-8, as many scalar values start as there are characters.
proof fn lemma_scalars_started_all(bytes: Seq<u8>)
    requires
        valid_utf8(bytes),
    ensures
        scalars_started(bytes, 0, bytes.len() as int) == decode_utf8(bytes).len(),
    decreases bytes.len(),
{
    if bytes.len() > 0 {
        let width = length_of_first_scalar(bytes);
        let rest = pop_first_scalar(bytes);
        lemma_scalars_started_all(rest);
        lemma_scalars_started_split(bytes, 0, width, bytes.len() as int);
        lemma_scalars_started_same_bytes(bytes, width, rest, 0, bytes.len() - width);
        assert(scalars_started(bytes, 0, width) == 1) by {
            reveal_with_fuel(scalars_started, 5);
        }
    }
}

/// Between two offsets that do not fall inside a scalar value, as many scalar
/// values start as the bytes between them spell characters.
pub proof fn lemma_scalars_started_counts_characters(text: Seq<u8>, from: int, to: int)
    requires
        valid_utf8(text),
        from <= to,
        on_boundary(text, from),
        on_boundary(text, to),
    ensures
        scalars_started(text, from, to) == text_of(text, from, to).len(),
{
    lemma_boundary_is_char_boundary(text, to);
    valid_utf8_split(text, to);
    let head = text.subrange(0, to);
    assert(on_boundary(head, from));
    lemma_boundary_is_char_boundary(head, from);
    valid_utf8_split(head, from);
    assert(head.subrange(from, to) =~= text.subrange(from, to));
    let part = text.subrange(from, to);
    lemma_scalars_started_all(part);
    lemma_scalars_started_same_bytes(text, from, part, 0, to - from);
}

/// In well-formed UTF-8, the character coordinate of an offset that does not
/// fall inside a scalar value is the number of characters between the start
/// of its line and it.
pub proof fn lemma_char_coordinate_counts_characters(text: Seq<u8>, offset: int)
    requires
        valid_utf8(text),
        text.len() <= usize::MAX,
        on_boundary(text, offset),
    ensures
        on_boundary(text, line_start_of(text, offset)),
        position_of(text, offset).char.0 == text_of(
            text,
            line_start_of(text, offset),
            offset,
        ).len(),
{
    lemma_line_start_is_boundary(text, offset);
    lemma_line_starts_shape(text, offset);
    lemma_scalars_started_bound(text, line_start_of(text, offset), offset);
    lemma_scalars_started_counts_characters(text, line_start_of(text, offset), offset);
}

proof fn lemma_line_start_is_boundary(text: Seq<u8>, offset: int)
    requires
        valid_utf8(text),
        0 <= offset <= text.len(),
    ensures
        on_boundary(text, line_start_of(text, offset)),
    decreases offset,
{
    if offset > 0 {
        if is_line_end(text[offset - 1]) {
            lemma_boundary_after_ascii(text, offset - 1);
        } else {
            lemma_line_start_is_boundary(text, offset - 1);
        }
    } else if text.len() > 0 {
        vstd::utf8::is_char_boundary_start_end_of_seq(text);
        vstd::utf8::is_char_boundary_iff_not_is_continuation_byte(text, 0);
    }
}

/// The coordinates of a byte offset: the lines that end before it, and the
/// scalar values between the start of its line and it.
pub open spec fn position_of(text: Seq<u8>, offset: int) -> LineAndCharPosition {
    LineAndCharPosition {
        line: LineOffset(line_ends_before(text, offset) as usize),
        char: CharOffset(scalars_started(text, line_start_of(text, offset), offset) as usize),
    }
}

/// The line starts that a scan of the first `n` bytes records, in order:
/// offset 0, then the offset after each line end.
pub open spec fn line_starts_upto(text: Seq<u8>, n: int) -> Seq<usize>
    decreases n,
{
    if n <= 0 {
        seq![0usize]
    } else if is_line_end(text[n - 1]) {
        line_starts_upto(text, n - 1).push(n as usize)
    } else {
        line_starts_upto(text, n - 1)
    }
}

/// What holds of the recorded starts after `n` bytes: there is one more than
/// lines have ended, they grow strictly, and none lies beyond `n`.
pub proof fn lemma_line_starts_shape(text: Seq<u8>, n: int)
    requires
        0 <= n <= text.len() <= usize::MAX,
    ensures
        line_starts_upto(text, n).len() == line_ends_before(text, n) + 1,
        line_ends_before(text, n) <= n,
        line_starts_upto(text, n)[0] == 0,
        line_starts_upto(text, n).last() == line_start_of(text, n),
        0 <= line_start_of(text, n) <= n,
        forall|i: int, j: int|
            0 <= i < j < line_starts_upto(text, n).len() ==> line_starts_upto(text, n)[i]
                < line_starts_upto(text, n)[j],
        forall|i: int|
            0 <= i < line_starts_upto(text, n).len() ==> #[trigger] line_starts_upto(text, n)[i]
                <= n,
    decreases n,
{
    if n > 0 {
        lemma_line_starts_shape(text, n - 1);
    }
}

/// Scanning further only appends: what was recorded after `m` bytes is the
/// start of what is recorded after `n`, and every later start lies beyond `m`.
pub proof fn lemma_line_starts_grow(text: Seq<u8>, m: int, n: int)
    requires
        0 <= m <= n <= text.len() <= usize::MAX,
    ensures
        line_starts_upto(text, m).is_prefix_of(line_starts_upto(text, n)),
        forall|i: int|
            line_starts_upto(text, m).len() <= i < line_starts_upto(text, n).len()
                ==> #[trigger] line_starts_upto(text, n)[i] > m,
    decreases n - m,
{
    if m < n {
        lemma_line_starts_grow(text, m, n - 1);
        lemma_line_starts_shape(text, n - 1);
    }
}

pub proof fn lemma_scalars_started_bound(text: Seq<u8>, from: int, to: int)
    requires
        from <= to,
    ensures
        scalars_started(text, from, to) <= to - from,
    decreases to - from,
{
    if from < to {
        lemma_scalars_started_bound(text, from, to - 1);
    }
}

/// Line `i` of the recorded starts holds `offset`: it starts at or before the
/// offset, and the next line, if any, starts beyond it.
pub open spec fn is_line_of(starts: Seq<usize>, offset: int, i: int) -> bool {
    0 <= i < starts.len() && starts[i] <= offset && (i + 1 < starts.len() ==> starts[i + 1]
        > offset)
}

/// The coordinates that a list of line starts gives to an offset: the last
/// start that is not beyond the offset names the line, and the scalar values
/// from there on are counted.
pub open spec fn resolve_with(starts: Seq<usize>, text: Seq<u8>, offset: int) -> LineAndCharPosition
    recommends
        starts.len() > 0,
        starts[0] <= offset,
{
    let line = choose|i: int| is_line_of(starts, offset, i);
    LineAndCharPosition {
        line: LineOffset(line as usize),
        char: CharOffset(scalars_started(text, starts[line] as int, offset) as usize),
    }
}

/// Resolving does not depend on how far the text has been scanned: whatever
/// has been recorded after `n` bytes, an offset that the scan has reached gets
/// the coordinates that the text alone gives it.
pub proof fn lemma_resolution_fixed_by_text(text: Seq<u8>, n: int, offset: int)
    requires
        0 <= offset <= n <= text.len() <= usize::MAX,
    ensures
        resolve_with(line_starts_upto(text, n), text, offset) == position_of(text, offset),
{
    let starts = line_starts_upto(text, n);
    lemma_line_starts_shape(text, n);
    lemma_line_starts_shape(text, offset);
    lemma_line_starts_grow(text, offset, n);
    let k = line_ends_before(text, offset) as int;
    assert(starts[k] == line_starts_upto(text, offset)[k]);
    let line = choose|i: int| is_line_of(starts, offset, i);
    assert(is_line_of(starts, offset, k));
    if line < k {
        assert(starts[line + 1] <= starts[k]);
    }
    if line > k {
        assert(starts[k + 1] <= starts[line]);
    }
}

/// Two scans of one text, however far each went, resolve an offset that both
/// have reached to the same coordinates.
pub proof fn lemma_resolution_independent_of_scan(text: Seq<u8>, n1: int, n2: int, offset: int)
    requires
        0 <= offset <= n1 <= text.len() <= usize::MAX,
        offset <= n2 <= text.len(),
    ensures
        resolve_with(line_starts_upto(text, n1), text, offset) == resolve_with(
            line_starts_upto(text, n2),
            text,
            offset,
        ),
{
    lemma_resolution_fixed_by_text(text, n1, offset);
    lemma_resolution_fixed_by_text(text, n2, offset);
}

/// One position is not after another: it is on an earlier line, or on the
/// same line and not further along it.
pub open spec fn position_le(a: LineAndCharPosition, b: LineAndCharPosition) -> bool {
    a.line.0 < b.line.0 || (a.line.0 == b.line.0 && a.char.0 <= b.char.0)
}

/// Coordinates grow with the offset: of two offsets in a text, the one that
/// is not after the other has the position that is not after the other's.
pub proof fn lemma_position_monotonic(text: Seq<u8>, first: int, second: int)
    requires
        0 <= first <= second <= text.len() <= usize::MAX,
    ensures
        position_le(position_of(text, first), position_of(text, second)),
    decreases second - first,
{
    lemma_line_starts_shape(text, first);
    lemma_line_starts_shape(text, second);
    lemma_scalars_started_bound(text, line_start_of(text, first), first);
    lemma_scalars_started_bound(text, line_start_of(text, second), second);
    if first < second {
        lemma_position_monotonic(text, first, second - 1);
        lemma_line_starts_shape(text, second - 1);
        lemma_scalars_started_bound(text, line_start_of(text, second - 1), second - 1);
    }
}

/// The offsets at which the lines seen so far start.
#[derive(Debug, Clone)]
pub struct LineOffsetTracker {
    line_starts: Vec<usize>,
}

impl View for LineOffsetTracker {
    type V = Seq<usize>;

    closed spec fn view(&self) -> Seq<usize> {
        self.line_starts@
    }
}

impl Default for LineOffsetTracker {
    /// A tracker that has seen nothing: the first line starts at offset 0.
    fn default() -> (t: Self)
        ensures
            t@ == seq![0usize],
    {
        let mut line_starts = Vec::new();
        line_starts.push(0usize);
        LineOffsetTracker { line_starts }
    }
}

impl LineOffsetTracker {
    /// The tracker holds what a scan of the first `n` bytes of `text` records.
    pub open spec fn tracks(&self, text: Seq<u8>, n: int) -> bool {
        0 <= n <= text.len() && self@ == line_starts_upto(text, n)
    }

    /// The scan of `text` that filled the tracker has reached `offset`.
    pub open spec fn scanned_through(&self, text: Seq<u8>, offset: int) -> bool {
        exists|n: int| offset <= n && #[trigger] self.tracks(text, n)
    }

    /// Records that a line starts at `line_start`. Each start is recorded once:
    /// one that is not beyond the last recorded start changes nothing.
    pub fn record(&mut self, line_start: ByteOffset)
        ensures
            final(self)@ == if old(self)@.len() == 0 || line_start.0 > old(self)@.last() {
                old(self)@.push(line_start.0)
            } else {
                old(self)@
            },
    {
        let n = self.line_starts.len();
        if n == 0 || line_start.0 > self.line_starts[n - 1] {
            self.line_starts.push(line_start.0);
        }
    }

    /// How many lines have started.
    pub fn num_lines(&self) -> (n: usize)
        ensures
            n == self@.len(),
    {
        self.line_starts.len()
    }

    /// The index of the last recorded start that is not beyond `offset`.
    fn line_num_from_byte_offset(&self, offset: usize) -> (line: usize)
        requires
            self@.len() > 0,
            self@[0] <= offset,
            forall|i: int, j: int| 0 <= i < j < self@.len() ==> self@[i] < self@[j],
        ensures
            line < self@.len(),
            self@[line as int] <= offset,
            line + 1 < self@.len() ==> self@[line + 1] > offset,
    {
        let mut lo: usize = 0;
        let mut hi: usize = self.line_starts.len();
        while hi - lo > 1
            invariant
                0 <= lo < hi <= self.line_starts@.len(),
                self.line_starts@ == self@,
                self@[lo as int] <= offset,
                hi < self@.len() ==> self@[hi as int] > offset,
                forall|i: int, j: int| 0 <= i < j < self@.len() ==> self@[i] < self@[j],
            decreases hi - lo,
        {
            let mid: usize = lo + (hi - lo) / 2;
            if self.line_starts[mid] <= offset {
                lo = mid;
            } else {
                hi = mid;
            }
        }
        lo
    }

    /// The line and character of `offset` in `source`. The scan that filled
    /// the tracker must have reached the offset; how much further it went does
    /// not matter.
    pub fn at(&self, source: &str, offset: BytePosition) -> (pos: LineAndCharPosition)
        requires
            self.scanned_through(source.spec_bytes(), offset.spec_offset()),
        ensures
            pos == position_of(source.spec_bytes(), offset.spec_offset()),
            pos == resolve_with(self@, source.spec_bytes(), offset.spec_offset()),
    {
        let bytes = source.as_bytes();
        let target: usize = offset.0.0;
        let ghost text = source.spec_bytes();
        let len = bytes.len();
        let ghost n = choose|n: int| target <= n && #[trigger] self.tracks(text, n);
        proof {
            assert(text.len() == len);
            lemma_line_starts_shape(text, n);
            lemma_line_starts_shape(text, target as int);
            lemma_line_starts_grow(text, target as int, n);
            lemma_resolution_fixed_by_text(text, n, target as int);
        }
        let line = self.line_num_from_byte_offset(target);
        let start = self.line_starts[line];
        proof {
            let k = line_ends_before(text, target as int) as int;
            assert(self@[k] == line_starts_upto(text, target as int)[k]);
            if (line as int) < k {
                assert(self@[line + 1] <= self@[k]);
            }
            if (line as int) > k {
                assert(self@[k + 1] <= self@[line as int]);
            }
            assert(line as int == k);
            lemma_scalars_started_bound(text, start as int, start as int);
        }
        let mut chars: usize = 0;
        let mut i: usize = start;
        while i < target
            invariant
                start <= i <= target <= bytes@.len(),
                bytes@ == text,
                chars == scalars_started(text, start as int, i as int),
                chars <= i - start,
            decreases target - i,
        {
            let b = bytes[i];
            if !(0x80 <= b && b <= 0xbf) {
                chars = chars + 1;
            }
            i = i + 1;
        }
        LineAndCharPosition::new(line, chars)
    }
}

} // verus!
