//! Contracts for the few standard-library string calls that the library makes
//! and that vstd does not specify.

use vstd::prelude::*;

verus! {

/// Calls `String::with_capacity`: the result is an empty string (its capacity
/// is not modelled).
#[verifier::external_body]
pub(crate) fn string_with_capacity(cap: usize) -> (s: String)
    ensures
        s@ == Seq::<char>::empty(),
{
    String::with_capacity(cap)
}

/// Calls `String::push`: the character is appended at the end.
#[verifier::external_body]
pub(crate) fn string_push(s: &mut String, c: char)
    ensures
        final(s)@ == old(s)@.push(c),
{
    s.push(c)
}

/// What `{:?}` writes for a string: the text in double quotes, with quotes,
/// backslashes and non-printable characters escaped.
pub uninterp spec fn str_debug(s: Seq<char>) -> Seq<char>;

/// Calls `format!("{:?}", s)` on a string slice: its `Debug` form.
#[verifier::external_body]
pub(crate) fn debug_quoted(s: &str) -> (r: String)
    ensures
        r@ == str_debug(s@),
{
    format!("{:?}", s)
}

} // verus!
