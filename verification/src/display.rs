//! Explaining strings that look alike but differ.

use vstd::prelude::*;
use vstd::string::*;

use confusables::Confusable;

use crate::colors::{paint, toned, Tone};
use crate::text::{decimal, hex_upper_padded, push_decimal, push_hex_padded};

verus! {

/// Whether `a`, with each confusable character replaced by what it is
/// confused with, reads exactly as `b` (the tables of `confusables` decide).
pub uninterp spec fn confusable_with(a: Seq<char>, b: Seq<char>) -> bool;

/// Calls `Confusable::is_confusable_with`: its source replaces the confusable
/// characters of `a` by table and compares the result with `b`, a function
/// of the two strings alone.
#[verifier::external_body]
pub(crate) fn is_confusable_with(a: &str, b: &str) -> (r: bool)
    ensures
        r == confusable_with(a@, b@),
{
    a.is_confusable_with(b)
}

/// Whether a character is printable ASCII other than space (`!` to `~`).
pub open spec fn is_ascii_graphic(c: char) -> bool {
    0x21 <= (c as u32) && (c as u32) <= 0x7e
}

/// A character with its code point: `'x' (U+0078)` for printable ASCII,
/// `'\u{200B}'` for anything else.
pub open spec fn char_with_codepoint(c: char) -> Seq<char> {
    if is_ascii_graphic(c) {
        seq!['\''] + seq![c] + "' (U+"@ + hex_upper_padded(c as nat, 4) + ")"@
    } else {
        "'\\u{"@ + hex_upper_padded(c as nat, 4) + "}'"@
    }
}

/// Format a character for display with its Unicode codepoint.
pub fn format_char_with_codepoint(c: char) -> (r: String)
    ensures
        r@ == char_with_codepoint(c),
{
    let code = c as u32;
    let mut out = String::new();
    if 0x21 <= code && code <= 0x7e {
        // Printable ASCII characters (except space) show the character itself
        out.append("'");
        crate::std_calls::string_push(&mut out, c);
        out.append("' (U+");
        push_hex_padded(&mut out, code, 4);
        out.append(")");
        proof {
            reveal_strlit("'");
            assert(out@ =~= char_with_codepoint(c));
        }
    } else {
        // Non-printable characters show the escaped form
        out.append("'\\u{");
        push_hex_padded(&mut out, code, 4);
        out.append("}'");
        proof {
            assert(out@ =~= char_with_codepoint(c));
        }
    }
    out
}

/// The positions below `k` where two strings differ, with the character of
/// each side (none for the side that is too short).
pub open spec fn char_differences(l: Seq<char>, r: Seq<char>, k: int) -> Seq<(usize, Option<char>, Option<char>)>
    decreases k,
{
    if k <= 0 {
        Seq::empty()
    } else {
        let prev = char_differences(l, r, k - 1);
        let i = k - 1;
        if i < l.len() && i < r.len() {
            if l[i] != r[i] {
                prev.push((i as usize, Some(l[i]), Some(r[i])))
            } else {
                prev
            }
        } else if i < l.len() {
            prev.push((i as usize, Some(l[i]), None))
        } else if i < r.len() {
            prev.push((i as usize, None, Some(r[i])))
        } else {
            prev
        }
    }
}

/// The line that explains one difference (with the line break before it).
pub open spec fn difference_line(d: (usize, Option<char>, Option<char>)) -> Seq<char> {
    "\n  ["@ + decimal(d.0 as nat) + "]: "@ + match (d.1, d.2) {
        (Some(a), Some(b)) => toned(char_with_codepoint(a), Tone::Deletion) + " vs "@ + toned(char_with_codepoint(b), Tone::Insertion),
        (Some(a), None) => toned(char_with_codepoint(a), Tone::Deletion) + " vs (missing)"@,
        (None, Some(b)) => "(missing) vs "@ + toned(char_with_codepoint(b), Tone::Insertion),
        (None, None) => "(missing) vs (missing)"@,
    }
}

/// The lines of the first `k` differences.
pub open spec fn difference_lines(ds: Seq<(usize, Option<char>, Option<char>)>, k: int) -> Seq<char>
    decreases k,
{
    if k <= 0 {
        Seq::empty()
    } else {
        difference_lines(ds, k - 1) + difference_line(ds[k - 1])
    }
}

/// The explanation of how two look-alike strings differ.
pub open spec fn confusable_explanation(l: Seq<char>, r: Seq<char>) -> Seq<char> {
    let ds = char_differences(l, r, if l.len() >= r.len() { l.len() as int } else { r.len() as int });
    if ds.len() == 0 {
        toned("(strings are identical)"@, Tone::Muted)
    } else {
        toned(
            "(strings are visually confusable but differ in "@ + decimal(ds.len()) + " position"@ + (if ds.len() == 1 {
                Seq::empty()
            } else {
                "s"@
            }) + "):"@,
            Tone::Muted,
        ) + difference_lines(ds, ds.len() as int)
    }
}

/// A string compared with itself has no differing position.
proof fn lemma_no_differences_with_itself(l: Seq<char>, k: int)
    ensures
        char_differences(l, l, k).len() == 0,
    decreases k,
{
    if k > 0 {
        lemma_no_differences_with_itself(l, k - 1);
    }
}

/// Two equal strings are explained as identical.
pub proof fn lemma_identical_strings(l: Seq<char>)
    ensures
        confusable_explanation(l, l) == toned("(strings are identical)"@, Tone::Muted),
{
    lemma_no_differences_with_itself(l, l.len() as int);
}

/// Append the line that explains one difference.
fn push_difference_line(out: &mut String, d: (usize, Option<char>, Option<char>))
    ensures
        final(out)@ == old(out)@ + difference_line(d),
{
    let (pos, lc, rc) = d;
    let ghost before = out@;
    out.append("\n  [");
    push_decimal(out, pos as u64);
    out.append("]: ");
    let ghost lead = out@;
    proof {
        assert(lead =~= before + ("\n  ["@ + decimal(pos as nat) + "]: "@));
    }
    match (lc, rc) {
        (Some(a), Some(b)) => {
            let shown_l = format_char_with_codepoint(a);
            out.append(paint(shown_l.as_str(), Tone::Deletion).as_str());
            out.append(" vs ");
            let shown_r = format_char_with_codepoint(b);
            out.append(paint(shown_r.as_str(), Tone::Insertion).as_str());
            proof {
                assert(out@ =~= lead + (toned(char_with_codepoint(a), Tone::Deletion) + " vs "@
                    + toned(char_with_codepoint(b), Tone::Insertion)));
            }
        },
        (Some(a), None) => {
            let shown = format_char_with_codepoint(a);
            out.append(paint(shown.as_str(), Tone::Deletion).as_str());
            out.append(" vs (missing)");
            proof {
                assert(out@ =~= lead + (toned(char_with_codepoint(a), Tone::Deletion) + " vs (missing)"@));
            }
        },
        (None, Some(b)) => {
            out.append("(missing) vs ");
            let shown = format_char_with_codepoint(b);
            out.append(paint(shown.as_str(), Tone::Insertion).as_str());
            proof {
                assert(out@ =~= lead + ("(missing) vs "@ + toned(char_with_codepoint(b), Tone::Insertion)));
            }
        },
        (None, None) => {
            out.append("(missing) vs (missing)");
            proof {
                assert(out@ =~= lead + "(missing) vs (missing)"@);
            }
        },
    }
    proof {
        assert(out@ =~= before + difference_line(d));
    }
}

/// Explain the confusable differences between two strings that look identical.
/// Shows character-level differences with full Unicode codepoints.
pub fn explain_confusable_differences(left: &str, right: &str) -> (r: String)
    ensures
        r@ == confusable_explanation(left@, right@),
{
    let ln = left.unicode_len();
    let rn = right.unicode_len();
    let max_len = if ln >= rn { ln } else { rn };
    // All positions where characters differ
    let mut diffs: Vec<(usize, Option<char>, Option<char>)> = Vec::new();
    let mut i: usize = 0;
    while i < max_len
        invariant
            ln == left@.len(),
            rn == right@.len(),
            max_len == (if ln >= rn { ln } else { rn }),
            i <= max_len,
            diffs@ == char_differences(left@, right@, i as int),
        decreases max_len - i,
    {
        if i < ln && i < rn {
            let l = left.get_char(i);
            let r = right.get_char(i);
            if l != r {
                diffs.push((i, Some(l), Some(r)));
            }
        } else if i < ln {
            // Character only in left (shows as deletion)
            diffs.push((i, Some(left.get_char(i)), None));
        } else if i < rn {
            // Character only in right (shows as insertion)
            diffs.push((i, None, Some(right.get_char(i))));
        }
        i = i + 1;
    }
    if diffs.len() == 0 {
        return paint("(strings are identical)", Tone::Muted);
    }
    let mut header = String::new();
    header.append("(strings are visually confusable but differ in ");
    push_decimal(&mut header, diffs.len() as u64);
    header.append(" position");
    if diffs.len() != 1 {
        header.append("s");
    }
    header.append("):");
    proof {
        let n = diffs@.len();
        assert(header@ =~= "(strings are visually confusable but differ in "@ + decimal(n) + " position"@ + (if n == 1 {
            Seq::empty()
        } else {
            "s"@
        }) + "):"@);
    }
    let mut out = paint(header.as_str(), Tone::Muted);
    let ghost head = out@;
    // Each difference on a line of its own; the lines are joined by line
    // breaks, with none after the last
    let mut k: usize = 0;
    while k < diffs.len()
        invariant
            k <= diffs@.len(),
            out@ == head + difference_lines(diffs@, k as int),
        decreases diffs@.len() - k,
    {
        let ghost before = out@;
        push_difference_line(&mut out, diffs[k]);
        proof {
            assert(out@ =~= before + difference_line(diffs@[k as int]));
        }
        k = k + 1;
    }
    out
}

} // verus!
