//! Locations in a source text.

use vstd::prelude::*;
use vstd::string::StringSliceAdditionalSpecFns;
use vstd::utf8::{is_char_boundary, valid_utf8};

verus! {

/// A half-open byte range `[start, end)` into a source text, together with the
/// zero-indexed line on which the range starts.
#[derive(Debug, Clone, Copy, PartialEq, Eq, Structural, Hash)]
pub struct Span {
    /// The index of the first byte.
    pub start: usize,
    /// The index one past the last byte.
    pub end: usize,
    /// The line (zero indexed) on which the text starts.
    pub source_line: usize,
}

/// The smaller of two indices.
pub open spec fn lower(a: usize, b: usize) -> usize {
    if a <= b {
        a
    } else {
        b
    }
}

/// The larger of two indices.
pub open spec fn upper(a: usize, b: usize) -> usize {
    if a >= b {
        a
    } else {
        b
    }
}

fn lower_of(a: usize, b: usize) -> (r: usize)
    ensures
        r == lower(a, b),
{
    if a <= b {
        a
    } else {
        b
    }
}

fn upper_of(a: usize, b: usize) -> (r: usize)
    ensures
        r == upper(a, b),
{
    if a >= b {
        a
    } else {
        b
    }
}

impl Span {
    /// A span is well formed when it does not end before it starts.
    pub open spec fn wf(self) -> bool {
        self.start <= self.end
    }

    /// The smallest span that covers both `self` and `other`, starting on the
    /// earlier of their two lines.
    pub open spec fn union(self, other: Span) -> Span {
        Span {
            start: lower(self.start, other.start),
            end: upper(self.end, other.end),
            source_line: lower(self.source_line, other.source_line),
        }
    }

    /// Whether byte `i` of the text lies inside this span.
    pub open spec fn covers(self, i: int) -> bool {
        self.start <= i < self.end
    }

    /// Whether this span cuts a piece out of `bytes`, the UTF-8 encoding of a
    /// text: it lies within the text and both ends fall between characters.
    pub open spec fn selects(self, bytes: Seq<u8>) -> bool {
        &&& self.start <= self.end
        &&& is_char_boundary(bytes, self.start as int)
        &&& is_char_boundary(bytes, self.end as int)
    }

    /// Create a new `Span`.
    pub fn new(start: usize, end: usize, source_line: usize) -> (r: Span)
        requires
            start <= end,
        ensures
            r == (Span { start, end, source_line }),
            r.wf(),
    {
        Span { start, end, source_line }
    }

    /// Get the union of two spans.
    pub fn merge(&self, other: Span) -> (r: Span)
        ensures
            r == self.union(other),
    {
        Span {
            start: lower_of(self.start, other.start),
            end: upper_of(self.end, other.end),
            source_line: lower_of(self.source_line, other.source_line),
        }
    }

    /// The number of bytes within this span.
    pub fn len(&self) -> (n: usize)
        requires
            self.wf(),
        ensures
            n == self.end - self.start,
    {
        self.end - self.start
    }

    /// Given the source text, retrieve the substring this `Span` corresponds
    /// to, if the span lies within the text and on character boundaries.
    pub fn selected_text<'input>(&self, src: &'input str) -> (r: Option<&'input str>)
        ensures
            r is Some <==> self.selects(src.spec_bytes()),
            r matches Some(text) ==> text.spec_bytes() == src.spec_bytes().subrange(
                self.start as int,
                self.end as int,
            ),
    {
        broadcast use vstd::utf8::encode_utf8_valid_utf8;

        if self.start <= self.end && src.is_char_boundary(self.start) && src.is_char_boundary(
            self.end,
        ) {
            let (head, _) = src.split_at(self.end);
            proof {
                lemma_boundary_of_prefix(
                    src.spec_bytes(),
                    self.start as int,
                    self.end as int,
                );
            }
            let (_, text) = head.split_at(self.start);
            assert(text.spec_bytes() =~= src.spec_bytes().subrange(
                self.start as int,
                self.end as int,
            ));
            Some(text)
        } else {
            None
        }
    }
}

impl Default for Span {
    /// The empty span at the start of the first line.
    fn default() -> (r: Span)
        ensures
            r == (Span { start: 0, end: 0, source_line: 0 }),
    {
        Span { start: 0, end: 0, source_line: 0 }
    }
}

/// A character boundary of a text is also one of each prefix that reaches it.
proof fn lemma_boundary_of_prefix(bytes: Seq<u8>, i: int, e: int)
    requires
        valid_utf8(bytes),
        0 <= i <= e,
        is_char_boundary(bytes, i),
        is_char_boundary(bytes, e),
    ensures
        e <= bytes.len(),
        valid_utf8(bytes.subrange(0, e)),
        is_char_boundary(bytes.subrange(0, e), i),
{
    if e > 0 {
        vstd::utf8::is_char_boundary_iff_not_is_continuation_byte(bytes, 0);
    }
    assert(e <= bytes.len()) by {
        reveal_with_fuel(is_char_boundary, 2);
    }
    let head = bytes.subrange(0, e);
    vstd::utf8::valid_utf8_split(bytes, e);
    if i == e {
        vstd::utf8::is_char_boundary_start_end_of_seq(head);
    } else {
        vstd::utf8::is_char_boundary_iff_not_is_continuation_byte(bytes, i);
        vstd::utf8::is_char_boundary_iff_not_is_continuation_byte(head, i);
    }
}

/// Merging does not depend on the order of the two spans.
pub proof fn lemma_union_commutative(a: Span, b: Span)
    ensures
        a.union(b) == b.union(a),
{
}

/// Merging three spans gives the same span however they are grouped.
pub proof fn lemma_union_associative(a: Span, b: Span, c: Span)
    ensures
        a.union(b).union(c) == a.union(b.union(c)),
{
}

/// Merging a span with itself changes nothing.
pub proof fn lemma_union_idempotent(a: Span)
    ensures
        a.union(a) == a,
{
}

/// The union of two well-formed spans is well formed and covers every byte
/// that either of them covers.
pub proof fn lemma_union_covers(a: Span, b: Span)
    requires
        a.wf(),
        b.wf(),
    ensures
        a.union(b).wf(),
        forall|i: int| a.covers(i) || b.covers(i) ==> #[trigger] a.union(b).covers(i),
        a.union(b).source_line <= a.source_line,
        a.union(b).source_line <= b.source_line,
{
}

} // verus!
