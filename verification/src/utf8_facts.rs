//! Facts about UTF-8 encodings of character sequences, used to reason about
//! byte offsets into strings.

use vstd::prelude::*;
use vstd::utf8::*;

verus! {

broadcast use vstd::seq::group_seq_axioms;

/// The encoding of a concatenation is the concatenation of the encodings.
pub proof fn lemma_encode_concat(a: Seq<char>, b: Seq<char>)
    ensures
        encode_utf8(a + b) == encode_utf8(a) + encode_utf8(b),
    decreases a.len(),
{
    if a.len() == 0 {
        assert(a + b =~= b);
        assert(encode_utf8(a) =~= Seq::<u8>::empty());
        assert(encode_utf8(a) + encode_utf8(b) =~= encode_utf8(b));
    } else {
        lemma_encode_concat(a.drop_first(), b);
        assert((a + b).drop_first() =~= a.drop_first() + b);
        assert((a + b)[0] == a[0]);
        assert(encode_utf8(a + b) =~= encode_scalar(a[0] as u32) + encode_utf8(a.drop_first() + b));
        assert(encode_utf8(a) =~= encode_scalar(a[0] as u32) + encode_utf8(a.drop_first()));
    }
}

/// The first byte of a non-empty encoding is not a continuation byte.
proof fn lemma_encode_first_not_continuation(b: Seq<char>)
    requires
        b.len() > 0,
    ensures
        encode_utf8(b).len() > 0,
        !is_continuation_byte(encode_utf8(b)[0]),
{
    encode_utf8_first_scalar(b);
    encode_utf8_valid_utf8(b);
    let bytes = encode_utf8(b);
    is_char_boundary_iff_not_is_continuation_byte(bytes, 0);
}

/// The end of the encoding of a prefix is a character boundary of the whole encoding.
pub proof fn lemma_concat_boundary(a: Seq<char>, b: Seq<char>)
    ensures
        is_char_boundary(encode_utf8(a + b), encode_utf8(a).len() as int),
        valid_utf8(encode_utf8(a + b)),
{
    lemma_encode_concat(a, b);
    encode_utf8_valid_utf8(a + b);
    let all = encode_utf8(a + b);
    let i = encode_utf8(a).len() as int;
    if b.len() == 0 {
        assert(a + b =~= a);
        is_char_boundary_start_end_of_seq(all);
    } else {
        lemma_encode_first_not_continuation(b);
        assert(all[i] == encode_utf8(b)[0]);
        is_char_boundary_iff_not_is_continuation_byte(all, i);
    }
}

/// A character boundary of a sequence stays a boundary when more characters are appended.
pub proof fn lemma_boundary_extend(a: Seq<char>, b: Seq<char>, i: int)
    requires
        is_char_boundary(encode_utf8(a), i),
    ensures
        is_char_boundary(encode_utf8(a + b), i),
{
    lemma_encode_concat(a, b);
    encode_utf8_valid_utf8(a);
    encode_utf8_valid_utf8(a + b);
    let ea = encode_utf8(a);
    let all = encode_utf8(a + b);
    lemma_boundary_in_range(ea, i);
    if i == ea.len() {
        lemma_concat_boundary(a, b);
    } else {
        is_char_boundary_iff_not_is_continuation_byte(ea, i);
        assert(all[i] == ea[i]);
        is_char_boundary_iff_not_is_continuation_byte(all, i);
    }
}

/// Character boundaries lie within the byte sequence.
pub proof fn lemma_boundary_in_range(bytes: Seq<u8>, i: int)
    requires
        valid_utf8(bytes),
        is_char_boundary(bytes, i),
    ensures
        0 <= i <= bytes.len(),
    decreases bytes.len(),
{
    if i == 0 {
    } else if i < 0 || bytes.len() < i {
    } else {
    }
}

/// Boundaries of a valid sequence are boundaries of a suffix, shifted.
pub proof fn lemma_boundary_suffix(bytes: Seq<u8>, s: int, e: int)
    requires
        valid_utf8(bytes),
        is_char_boundary(bytes, s),
        is_char_boundary(bytes, e),
        s <= e,
    ensures
        valid_utf8(bytes.subrange(s, bytes.len() as int)),
        is_char_boundary(bytes.subrange(s, bytes.len() as int), e - s),
{
    lemma_boundary_in_range(bytes, s);
    lemma_boundary_in_range(bytes, e);
    valid_utf8_split(bytes, s);
    let rest = bytes.subrange(s, bytes.len() as int);
    if e == bytes.len() {
        is_char_boundary_start_end_of_seq(rest);
    } else {
        is_char_boundary_iff_not_is_continuation_byte(bytes, e);
        assert(rest[e - s] == bytes[e]);
        is_char_boundary_iff_not_is_continuation_byte(rest, e - s);
    }
}

} // verus!
