//! Display width of text, as measured by the `unicode-width` crate.

use vstd::prelude::*;
use unicode_width::UnicodeWidthStr;

verus! {

/// The number of terminal columns that `unicode-width` assigns to a string.
pub uninterp spec fn display_width(s: Seq<char>) -> usize;

/// Calls `UnicodeWidthStr::width` on `s`; the result is named
/// [`display_width`] of the characters of `s`. Printable ASCII characters
/// (`' '` to `'~'`) are one column each, so text made of them alone is as
/// wide as it is long; the width of other text is not stated.
#[verifier::external_body]
pub(crate) fn str_width(s: &str) -> (w: usize)
    ensures
        w == display_width(s@),
        (forall|i: int| 0 <= i < s@.len() ==> ' ' <= #[trigger] s@[i] && s@[i] <= '~') ==> w == s@.len(),
{
    s.width()
}

} // verus!
