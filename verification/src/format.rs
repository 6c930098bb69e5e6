//! Compact, path-based text for the leaf changes of a diff.

use vstd::prelude::*;
use vstd::string::*;

use crate::colors::{escape_free, lemma_escape_free_parts, lemma_free_shows_as_is, lemma_toned_shows_text, paint, toned, without_escapes, Tone};
use crate::leaf::{LeafChange, LeafChangeKind};
use crate::path::path_text;
use crate::std_calls::string_push;
use crate::text::{decimal, push_decimal};
use crate::types::Diff;

verus! {

/// Configuration for diff formatting.
#[derive(Debug, Clone, Copy)]
pub struct DiffFormat {
    /// Use colors in output
    pub colors: bool,
    /// Maximum number of changes before switching to summary mode
    pub max_inline_changes: usize,
    /// Whether to use compact (path-based) format for few changes
    pub prefer_compact: bool,
}

impl Default for DiffFormat {
    fn default() -> (r: Self)
        ensures
            r.colors,
            r.max_inline_changes == 10,
            r.prefer_compact,
    {
        DiffFormat { colors: true, max_inline_changes: 10, prefer_compact: true }
    }
}

/// A change without colors: `path: old → new`, `path: - old` or
/// `path: + new` (no path prefix at the root); values are already printed.
pub open spec fn plain_change(c: LeafChange<String>) -> Seq<char> {
    let path = c.path@;
    (if path.len() > 0 {
        path_text(path, path.len() as int) + ": "@
    } else {
        Seq::empty()
    }) + match c.kind {
        LeafChangeKind::Replace { from, to } => from@ + " \u{2192} "@ + to@,
        LeafChangeKind::Delete { value } => "- "@ + value@,
        LeafChangeKind::Insert { value } => "+ "@ + value@,
    }
}

/// A change with colors: the path in the field color, old values in the
/// deletion color, new values in the insertion color, the arrow muted.
pub open spec fn colored_change(c: LeafChange<String>) -> Seq<char> {
    let path = c.path@;
    (if path.len() > 0 {
        toned(path_text(path, path.len() as int), Tone::FieldName) + ": "@
    } else {
        Seq::empty()
    }) + match c.kind {
        LeafChangeKind::Replace { from, to } => toned(from@, Tone::Deletion) + " "@ + toned("\u{2192}"@, Tone::Comment) + " "@
            + toned(to@, Tone::Insertion),
        LeafChangeKind::Delete { value } => toned("-"@, Tone::Deletion) + " "@ + toned(value@, Tone::Deletion),
        LeafChangeKind::Insert { value } => toned("+"@, Tone::Insertion) + " "@ + toned(value@, Tone::Insertion),
    }
}

impl LeafChange<String> {
    /// Format this change without colors.
    pub fn format_plain(&self) -> (r: String)
        ensures
            r@ == plain_change(*self),
    {
        let mut out = String::new();
        // Show path if non-empty
        if self.path.0.len() > 0 {
            out.append(self.path.to_display_string().as_str());
            out.append(": ");
        }
        match &self.kind {
            LeafChangeKind::Replace { from, to } => {
                out.append(from.as_str());
                out.append(" \u{2192} ");
                out.append(to.as_str());
            },
            LeafChangeKind::Delete { value } => {
                out.append("- ");
                out.append(value.as_str());
            },
            LeafChangeKind::Insert { value } => {
                out.append("+ ");
                out.append(value.as_str());
            },
        }
        proof {
            assert(out@ =~= plain_change(*self));
        }
        out
    }

    /// Format this change with colors.
    pub fn format_colored(&self) -> (r: String)
        ensures
            r@ == colored_change(*self),
    {
        let mut out = String::new();
        // Show path if non-empty (in field name color)
        if self.path.0.len() > 0 {
            let path = self.path.to_display_string();
            out.append(paint(path.as_str(), Tone::FieldName).as_str());
            out.append(": ");
        }
        match &self.kind {
            LeafChangeKind::Replace { from, to } => {
                out.append(paint(from.as_str(), Tone::Deletion).as_str());
                out.append(" ");
                out.append(paint("\u{2192}", Tone::Comment).as_str());
                out.append(" ");
                out.append(paint(to.as_str(), Tone::Insertion).as_str());
            },
            LeafChangeKind::Delete { value } => {
                out.append(paint("-", Tone::Deletion).as_str());
                out.append(" ");
                out.append(paint(value.as_str(), Tone::Deletion).as_str());
            },
            LeafChangeKind::Insert { value } => {
                out.append(paint("+", Tone::Insertion).as_str());
                out.append(" ");
                out.append(paint(value.as_str(), Tone::Insertion).as_str());
            },
        }
        proof {
            assert(out@ =~= colored_change(*self));
        }
        out
    }
}

/// The colored text of a replacement reads, colors taken out, as its plain text.
proof fn lemma_replace_reads_as_plain(from: Seq<char>, to: Seq<char>)
    requires
        escape_free(from + " \u{2192} "@ + to),
    ensures
        without_escapes(toned(from, Tone::Deletion) + " "@ + toned("\u{2192}"@, Tone::Comment) + " "@ + toned(to, Tone::Insertion))
            == from + " \u{2192} "@ + to,
{
    reveal_strlit(" ");
    reveal_strlit("\u{2192}");
    reveal_strlit(" \u{2192} ");
    let e: Seq<char> = Seq::empty();
    lemma_escape_free_parts(from + " \u{2192} "@, to);
    lemma_escape_free_parts(from, " \u{2192} "@);
    let r4 = toned(to, Tone::Insertion) + e;
    let r3 = " "@ + r4;
    let r2 = toned("\u{2192}"@, Tone::Comment) + r3;
    let r1 = " "@ + r2;
    assert(toned(from, Tone::Deletion) + " "@ + toned("\u{2192}"@, Tone::Comment) + " "@ + toned(to, Tone::Insertion)
        =~= toned(from, Tone::Deletion) + r1);
    lemma_toned_shows_text(from, Tone::Deletion, r1);
    lemma_free_shows_as_is(" "@, r2);
    lemma_toned_shows_text("\u{2192}"@, Tone::Comment, r3);
    lemma_free_shows_as_is(" "@, r4);
    lemma_toned_shows_text(to, Tone::Insertion, e);
    assert(from + (" "@ + ("\u{2192}"@ + (" "@ + (to + e)))) =~= from + " \u{2192} "@ + to);
}

/// The colored text of a deletion or an insertion reads, colors taken out,
/// as its plain text: the marker, a space and the value.
proof fn lemma_marked_reads_as_plain(marker: Seq<char>, value: Seq<char>, t: Tone)
    requires
        escape_free(marker + " "@ + value),
    ensures
        without_escapes(toned(marker, t) + " "@ + toned(value, t)) == marker + " "@ + value,
{
    reveal_strlit(" ");
    let e: Seq<char> = Seq::empty();
    lemma_escape_free_parts(marker + " "@, value);
    lemma_escape_free_parts(marker, " "@);
    let r2 = toned(value, t) + e;
    let r1 = " "@ + r2;
    assert(toned(marker, t) + " "@ + toned(value, t) =~= toned(marker, t) + r1);
    lemma_toned_shows_text(marker, t, r1);
    lemma_free_shows_as_is(" "@, r2);
    lemma_toned_shows_text(value, t, e);
    assert(marker + (" "@ + (value + e)) =~= marker + " "@ + value);
}

/// With its colors taken out, the colored text of a change reads as its
/// plain text: the same path, the same values and the same markers (`-` for
/// a deletion, `+` for an insertion, the arrow for a replacement). This
/// holds whenever the plain text holds no escape character of its own.
pub proof fn lemma_colored_reads_as_plain(c: LeafChange<String>)
    requires
        escape_free(plain_change(c)),
    ensures
        without_escapes(colored_change(c)) == plain_change(c),
{
    let path = c.path@;
    let head = if path.len() > 0 { path_text(path, path.len() as int) + ": "@ } else { Seq::empty() };
    let kind = match c.kind {
        LeafChangeKind::Replace { from, to } => from@ + " \u{2192} "@ + to@,
        LeafChangeKind::Delete { value } => "- "@ + value@,
        LeafChangeKind::Insert { value } => "+ "@ + value@,
    };
    let ckind = match c.kind {
        LeafChangeKind::Replace { from, to } => toned(from@, Tone::Deletion) + " "@ + toned("\u{2192}"@, Tone::Comment) + " "@
            + toned(to@, Tone::Insertion),
        LeafChangeKind::Delete { value } => toned("-"@, Tone::Deletion) + " "@ + toned(value@, Tone::Deletion),
        LeafChangeKind::Insert { value } => toned("+"@, Tone::Insertion) + " "@ + toned(value@, Tone::Insertion),
    };
    assert(plain_change(c) == head + kind);
    lemma_escape_free_parts(head, kind);
    match c.kind {
        LeafChangeKind::Replace { from, to } => {
            lemma_replace_reads_as_plain(from@, to@);
        },
        LeafChangeKind::Delete { value } => {
            reveal_strlit("- ");
            reveal_strlit("-");
            reveal_strlit(" ");
            assert("- "@ == "-"@ + " "@);
            lemma_marked_reads_as_plain("-"@, value@, Tone::Deletion);
        },
        LeafChangeKind::Insert { value } => {
            reveal_strlit("+ ");
            reveal_strlit("+");
            reveal_strlit(" ");
            assert("+ "@ == "+"@ + " "@);
            lemma_marked_reads_as_plain("+"@, value@, Tone::Insertion);
        },
    }
    assert(without_escapes(ckind) == kind);
    if path.len() > 0 {
        reveal_strlit(": ");
        let pt = path_text(path, path.len() as int);
        lemma_escape_free_parts(pt, ": "@);
        assert(colored_change(c) =~= toned(pt, Tone::FieldName) + (": "@ + ckind));
        lemma_toned_shows_text(pt, Tone::FieldName, ": "@ + ckind);
        lemma_free_shows_as_is(": "@, ckind);
        assert(pt + (": "@ + kind) =~= head + kind);
    } else {
        assert(colored_change(c) =~= ckind);
        assert(head + kind =~= kind);
    }
}

/// A change in the chosen style.
pub open spec fn change_text(c: LeafChange<String>, colors: bool) -> Seq<char> {
    if colors { colored_change(c) } else { plain_change(c) }
}

/// The first `k` changes, one per line.
pub open spec fn change_lines(changes: Seq<LeafChange<String>>, colors: bool, k: int) -> Seq<char>
    decreases k,
{
    if k <= 0 {
        Seq::empty()
    } else {
        change_lines(changes, colors, k - 1) + (if k - 1 > 0 { seq!['\n'] } else { Seq::empty() }) + change_text(changes[k - 1], colors)
    }
}

/// Text that may be muted.
pub open spec fn maybe_muted(text: Seq<char>, colors: bool) -> Seq<char> {
    if colors { toned(text, Tone::Muted) } else { text }
}

/// The line that counts the changes left out.
pub open spec fn more_changes(n: nat) -> Seq<char> {
    "... and "@ + decimal(n) + " more change"@ + (if n == 1 { Seq::empty() } else { "s"@ })
}

/// What compact formatting gives for a diff whose leaf changes, with their
/// values printed, are `changes`: `None` when the diff is to be shown as a tree.
pub open spec fn compact_text<P, S>(diff: Diff<P, S>, changes: Seq<LeafChange<String>>, config: DiffFormat) -> Option<Seq<char>> {
    let n = changes.len() as int;
    let max = config.max_inline_changes as int;
    if diff is Equal || n == 0 {
        Some(maybe_muted("(no changes)"@, config.colors))
    } else if config.prefer_compact && n <= max {
        Some(change_lines(changes, config.colors, n))
    } else if n > max {
        Some(change_lines(changes, config.colors, max) + seq!['\n'] + maybe_muted(more_changes((n - max) as nat), config.colors))
    } else {
        None
    }
}

/// Compact formatting with no limit on the number of inline changes never
/// falls back to the tree format.
pub proof fn lemma_unlimited_compact_is_compact<P, S>(diff: Diff<P, S>, changes: Seq<LeafChange<String>>, config: DiffFormat)
    requires
        config.prefer_compact,
        config.max_inline_changes == usize::MAX,
        changes.len() <= usize::MAX,
    ensures
        compact_text(diff, changes, config) is Some,
{
}

/// Write the first `k` changes, one per line.
fn write_change_lines(out: &mut String, changes: &Vec<LeafChange<String>>, colors: bool, k: usize)
    requires
        k <= changes@.len(),
    ensures
        final(out)@ == old(out)@ + change_lines(changes@, colors, k as int),
{
    let ghost start = out@;
    let mut i: usize = 0;
    while i < k
        invariant
            i <= k,
            k <= changes@.len(),
            out@ == start + change_lines(changes@, colors, i as int),
        decreases k - i,
    {
        if i > 0 {
            string_push(out, '\n');
        }
        let text = if colors { changes[i].format_colored() } else { changes[i].format_plain() };
        out.append(text.as_str());
        proof {
            assert(out@ =~= start + change_lines(changes@, colors, i + 1));
        }
        i = i + 1;
    }
}

/// Muted text when colors are on, the text itself otherwise.
fn muted_if(text: &str, colors: bool) -> (r: String)
    ensures
        r@ == maybe_muted(text@, colors),
{
    if colors { paint(text, Tone::Muted) } else { text.to_owned() }
}

/// Format the diff with the given configuration, given its leaf changes
/// with their values printed.
///
/// This chooses between compact (path-based) and tree (nested) format based
/// on the number of changes and the configuration; `None` means the tree format.
pub fn format_diff<P, S>(diff: &Diff<P, S>, changes: &Vec<LeafChange<String>>, config: &DiffFormat) -> (r: Option<String>)
    ensures
        match r {
            Some(s) => compact_text(*diff, changes@, *config) == Some(s@),
            None => compact_text(*diff, changes@, *config) is None,
        },
{
    if diff.is_equal() || changes.len() == 0 {
        return Some(muted_if("(no changes)", config.colors));
    }
    let n = changes.len();
    // Use compact format if preferred and we have few changes
    if config.prefer_compact && n <= config.max_inline_changes {
        let mut out = String::new();
        write_change_lines(&mut out, changes, config.colors, n);
        proof {
            assert(out@ =~= change_lines(changes@, config.colors, n as int));
        }
        return Some(out);
    }
    // Many changes: the first few, then how many were left out
    if n > config.max_inline_changes {
        let mut out = String::new();
        write_change_lines(&mut out, changes, config.colors, config.max_inline_changes);
        let remaining = n - config.max_inline_changes;
        string_push(&mut out, '\n');
        let mut summary = String::new();
        summary.append("... and ");
        push_decimal(&mut summary, remaining as u64);
        summary.append(" more change");
        if remaining != 1 {
            summary.append("s");
        }
        proof {
            assert(summary@ =~= more_changes(remaining as nat));
        }
        out.append(muted_if(summary.as_str(), config.colors).as_str());
        proof {
            assert(out@ =~= change_lines(changes@, config.colors, config.max_inline_changes as int) + seq!['\n']
                + maybe_muted(more_changes((n - config.max_inline_changes) as nat), config.colors));
        }
        return Some(out);
    }
    // Default: the tree format
    None
}

} // verus!
