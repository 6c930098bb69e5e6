//! Format arena for string storage.

use vstd::prelude::*;
use vstd::string::*;
use vstd::utf8::*;

use crate::std_calls::string_with_capacity;
use crate::utf8_facts::{lemma_boundary_extend, lemma_boundary_in_range, lemma_boundary_suffix, lemma_concat_boundary, lemma_encode_concat};
use crate::width::{display_width, str_width};

verus! {

/// A span into the format arena's buffer.
#[derive(Copy, Clone, Debug, Default, PartialEq, Eq, Structural)]
pub struct Span {
    /// Start byte offset
    pub start: u32,
    /// End byte offset (exclusive)
    pub end: u32,
}

impl Span {
    /// Byte length of the span.
    pub fn len(self) -> (r: usize)
        requires
            self.start <= self.end,
        ensures
            r == self.end - self.start,
    {
        (self.end - self.start) as usize
    }

    /// Check if span is empty.
    pub fn is_empty(self) -> (r: bool)
        ensures
            r == (self.start == self.end),
    {
        self.start == self.end
    }
}

/// Arena for formatted strings.
///
/// All scalar values are formatted once into this buffer and referenced by [`Span`].
/// This avoids per-value allocations and allows measuring display width at format time.
pub struct FormatArena {
    buf: String,
}

impl FormatArena {
    /// The characters held by the arena.
    pub closed spec fn chars(&self) -> Seq<char> {
        self.buf@
    }

    /// The UTF-8 bytes held by the arena; spans are offsets into these.
    pub open spec fn bytes(&self) -> Seq<u8> {
        encode_utf8(self.chars())
    }

    /// The byte length of the buffer, as `str::len` reports it.
    pub open spec fn byte_len(&self) -> usize {
        self.bytes().len() as usize
    }

    /// A span that `get` accepts: both ends lie on character boundaries, in order.
    pub open spec fn valid_span(&self, span: Span) -> bool {
        &&& span.start <= span.end
        &&& is_char_boundary(self.bytes(), span.start as int)
        &&& is_char_boundary(self.bytes(), span.end as int)
    }

    /// The text that a span designates.
    pub open spec fn text_of(&self, span: Span) -> Seq<char> {
        decode_utf8(self.bytes().subrange(span.start as int, span.end as int))
    }

    /// Create a new arena with pre-allocated capacity.
    pub fn with_capacity(cap: usize) -> (a: Self)
        ensures
            a.chars() == Seq::<char>::empty(),
    {
        FormatArena { buf: string_with_capacity(cap) }
    }

    /// Create a new arena with default capacity.
    pub fn new() -> (a: Self)
        ensures
            a.chars() == Seq::<char>::empty(),
    {
        // 4KB default - enough for most diffs
        Self::with_capacity(4096)
    }

    /// Push a string directly, returning span and display width.
    ///
    /// The span's offsets are the byte lengths of the buffer before and after
    /// the push, stored as `u32` (truncated if the buffer grows past `u32::MAX`).
    pub fn push_str(&mut self, s: &str) -> (r: (Span, usize))
        ensures
            final(self).chars() == old(self).chars() + s@,
            r.0.start == old(self).byte_len() as u32,
            r.0.end == final(self).byte_len() as u32,
            r.1 == display_width(s@),
            (forall|i: int| 0 <= i < s@.len() ==> ' ' <= #[trigger] s@[i] && s@[i] <= '~') ==> r.1 == s@.len(),
    {
        let start = self.buf.as_str().len();
        self.buf.append(s);
        let end = self.buf.as_str().len();
        let span = Span { start: #[verifier::truncate] (start as u32), end: #[verifier::truncate] (end as u32) };
        let width = str_width(s);
        (span, width)
    }

    /// Format something into the arena, returning span and display width.
    ///
    /// The closure produces the text to store. The span returned covers exactly
    /// that text, and its display width is measured with `unicode-width`.
    pub fn format<F>(&mut self, f: F) -> (r: (Span, usize))
        where F: FnOnce() -> String,
        requires
            f.requires(()),
        ensures
            exists|t: String|
                {
                    &&& f.ensures((), t)
                    &&& final(self).chars() == old(self).chars() + t@
                    &&& r.0.start == old(self).byte_len() as u32
                    &&& r.0.end == final(self).byte_len() as u32
                    &&& r.1 == display_width(t@)
                    &&& (forall|i: int| 0 <= i < t@.len() ==> ' ' <= #[trigger] t@[i] && t@[i] <= '~') ==> r.1 == t@.len()
                },
    {
        let text = f();
        self.push_str(text.as_str())
    }

    /// Retrieve the string for a span.
    pub fn get(&self, span: Span) -> (r: &str)
        requires
            self.valid_span(span),
        ensures
            r@ == self.text_of(span),
    {
        let all = self.buf.as_str();
        proof {
            encode_utf8_valid_utf8(self.chars());
            lemma_boundary_suffix(self.bytes(), span.start as int, span.end as int);
            lemma_boundary_in_range(self.bytes(), span.end as int);
        }
        let (_, rest) = all.split_at(span.start as usize);
        let (mid, _) = rest.split_at((span.end - span.start) as usize);
        proof {
            let b = self.bytes();
            assert(mid.spec_bytes() =~= b.subrange(span.start as int, span.end as int));
            encode_utf8_decode_utf8(mid@);
        }
        mid
    }

    /// Current size of the buffer in bytes.
    pub fn len(&self) -> (r: usize)
        ensures
            r == self.byte_len(),
    {
        self.buf.as_str().len()
    }

    /// Check if the arena is empty.
    pub fn is_empty(&self) -> (r: bool)
        ensures
            r == (self.chars().len() == 0),
    {
        self.buf.as_str().is_empty()
    }
}

impl Default for FormatArena {
    fn default() -> (a: Self)
        ensures
            a.chars() == Seq::<char>::empty(),
    {
        Self::new()
    }
}

/// What a push gives back: when `after` is `before` with `s` pushed and
/// `span` is the span that `push_str` returned, reading `span` from `after`
/// yields exactly `s`, provided the buffer still fits in `u32` offsets.
pub proof fn lemma_push_then_get(before: FormatArena, after: FormatArena, s: Seq<char>, span: Span)
    requires
        after.chars() == before.chars() + s,
        after.bytes().len() <= u32::MAX,
        span.start == before.byte_len() as u32,
        span.end == after.byte_len() as u32,
    ensures
        after.valid_span(span),
        after.text_of(span) == s,
{
    let b = before.chars();
    lemma_encode_concat(b, s);
    lemma_concat_boundary(b, s);
    is_char_boundary_start_end_of_seq(encode_utf8(b + s));
    let all = encode_utf8(b + s);
    assert(all.subrange(span.start as int, span.end as int) =~= encode_utf8(s));
    encode_utf8_decode_utf8(s);
}

/// Pushing more text never disturbs what an earlier span designates.
pub proof fn lemma_push_keeps_span(before: FormatArena, after: FormatArena, s: Seq<char>, span: Span)
    requires
        after.chars() == before.chars() + s,
        before.valid_span(span),
    ensures
        after.valid_span(span),
        after.text_of(span) == before.text_of(span),
{
    let b = before.chars();
    lemma_boundary_extend(b, s, span.start as int);
    lemma_boundary_extend(b, s, span.end as int);
    lemma_encode_concat(b, s);
    encode_utf8_valid_utf8(b);
    lemma_boundary_in_range(encode_utf8(b), span.end as int);
    assert(encode_utf8(b + s).subrange(span.start as int, span.end as int)
        =~= encode_utf8(b).subrange(span.start as int, span.end as int));
}

} // verus!
