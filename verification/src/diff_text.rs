//! The text form of a diff tree: values changed inline (`old → new`),
//! nested structures indented by four spaces, and runs of unchanged items
//! or fields collapsed into a muted count.
//!
//! How a single value is printed, whether it is a string, and whether two
//! values are equal are the caller's to say: three closures answer them.

use vstd::prelude::*;

use crate::colors::{bold_text, paint, paint_bold, toned, Tone};
use crate::core_sequences::{ReplaceGroup, Updates, UpdatesGroup, updates_is_empty};
use crate::display::{confusable_explanation, confusable_with, explain_confusable_differences, is_confusable_with};
use crate::text::{decimal, push_decimal};
use crate::text_order::{entry_names, name_order, sorted_order};
use crate::types::{Diff, Value};

verus! {

/// What the caller says of values: how each is printed, its text when it
/// is a string, and whether two are equal.
#[verifier::reject_recursive_types(P)]
pub struct ValueTexts<P> {
    /// The printed form of a value
    pub show: spec_fn(P) -> Seq<char>,
    /// The text of a value that is a string
    pub text: spec_fn(P) -> Option<Seq<char>>,
    /// Whether two values are equal
    pub same: spec_fn(P, P) -> bool,
}

/// The text an optional string holds.
pub open spec fn opt_text(o: Option<String>) -> Option<Seq<char>> {
    match o {
        Some(s) => Some(s@),
        None => None,
    }
}

/// What a printing closure prints for each value.
pub open spec fn shown_by<P, F: Fn(P) -> String>(f: F) -> spec_fn(P) -> Seq<char> {
    |p: P| (choose|s: String| f.ensures((p,), s))@
}

/// What a closure gives as the text of each value.
pub open spec fn text_by<P, G: Fn(P) -> Option<String>>(g: G) -> spec_fn(P) -> Option<Seq<char>> {
    |p: P| opt_text(choose|o: Option<String>| g.ensures((p,), o))
}

/// What an equality closure answers for each pair of values.
pub open spec fn same_by<P, H: Fn(P, P) -> bool>(h: H) -> spec_fn(P, P) -> bool {
    |a: P, b: P| choose|r: bool| h.ensures((a, b), r)
}

/// A printing closure that takes any value and prints it the same way each time.
pub open spec fn show_ok<P, F: Fn(P) -> String>(f: F) -> bool {
    &&& forall|p: P| f.requires((p,))
    &&& forall|p: P, a: String, b: String| f.ensures((p,), a) && f.ensures((p,), b) ==> a@ == b@
}

/// A text closure that takes any value and answers the same way each time.
pub open spec fn text_ok<P, G: Fn(P) -> Option<String>>(g: G) -> bool {
    &&& forall|p: P| g.requires((p,))
    &&& forall|p: P, a: Option<String>, b: Option<String>| g.ensures((p,), a) && g.ensures((p,), b) ==> opt_text(a) == opt_text(b)
}

/// An equality closure that takes any pair and answers the same way each time.
pub open spec fn same_ok<P, H: Fn(P, P) -> bool>(h: H) -> bool {
    &&& forall|a: P, b: P| h.requires((a, b))
    &&& forall|a: P, b: P, r1: bool, r2: bool| h.ensures((a, b), r1) && h.ensures((a, b), r2) ==> r1 == r2
}

/// The three closures as what they say of values.
pub open spec fn value_texts<P, F: Fn(P) -> String, G: Fn(P) -> Option<String>, H: Fn(P, P) -> bool>(
    show: F,
    text: G,
    same: H,
) -> ValueTexts<P> {
    ValueTexts { show: shown_by(show), text: text_by(text), same: same_by(same) }
}

/// `" → "`, between an old and a new value.
pub open spec fn arrow() -> Seq<char> {
    " \u{2192} "@
}

/// The muted note for a diff without changes.
pub open spec fn equal_text() -> Seq<char> {
    toned("(structurally equal)"@, Tone::Muted)
}

/// The muted line that stands for `n` unchanged items (nothing for none).
pub open spec fn unchanged_line(n: nat, one: Seq<char>, many: Seq<char>) -> Seq<char> {
    if n == 0 {
        Seq::empty()
    } else {
        toned(".. "@ + decimal(n) + " unchanged "@ + (if n == 1 {
            one
        } else {
            many
        }), Tone::Muted) + "\n"@
    }
}

/// Text with four spaces in front of each line: before its first character
/// and before each character that follows a line break.
pub open spec fn indented(s: Seq<char>) -> Seq<char>
    decreases s.len(),
{
    if s.len() == 0 {
        Seq::empty()
    } else {
        let i = s.len() - 1;
        indented(s.drop_last()) + (if i == 0 || s[i - 1] == '\n' {
            "    "@
        } else {
            Seq::empty()
        }) + seq![s[i]]
    }
}

/// An old and a new value inline; strings that look alike are followed by
/// an explanation of where they differ.
pub open spec fn replace_text<P>(from: P, to: P, vt: ValueTexts<P>) -> Seq<char> {
    let inline = toned((vt.show)(from), Tone::Deletion) + arrow() + toned((vt.show)(to), Tone::Insertion);
    match ((vt.text)(from), (vt.text)(to)) {
        (Some(a), Some(b)) => if confusable_with(a, b) || confusable_with(b, a) {
            inline + "\n"@ + confusable_explanation(a, b)
        } else {
            inline
        },
        _ => inline,
    }
}

/// The first `k` removals, each on a `- ` line.
pub open spec fn removal_lines<P>(rem: Seq<P>, show: spec_fn(P) -> Seq<char>, k: nat) -> Seq<char>
    decreases k,
{
    if k == 0 || k > rem.len() {
        Seq::empty()
    } else {
        removal_lines(rem, show, (k - 1) as nat) + toned("- "@ + show(rem[k - 1]), Tone::Deletion) + "\n"@
    }
}

/// The first `k` additions, each on a `+ ` line.
pub open spec fn addition_lines<P>(add: Seq<P>, show: spec_fn(P) -> Seq<char>, k: nat) -> Seq<char>
    decreases k,
{
    if k == 0 || k > add.len() {
        Seq::empty()
    } else {
        addition_lines(add, show, (k - 1) as nat) + toned("+ "@ + show(add[k - 1]), Tone::Insertion) + "\n"@
    }
}

/// A replace group: a one-for-one replacement on a line of its own (muted
/// when the two values are equal), otherwise its removals and additions.
pub open spec fn replace_group_text<P>(r: ReplaceGroup<P>, show: spec_fn(P) -> Seq<char>, same: spec_fn(P, P) -> bool) -> Seq<char> {
    if r.removals@.len() == 1 && r.additions@.len() == 1 {
        let a = r.removals@[0];
        let b = r.additions@[0];
        if same(a, b) {
            toned(show(a), Tone::Muted) + "\n"@
        } else {
            toned(show(a), Tone::Deletion) + arrow() + toned(show(b), Tone::Insertion) + "\n"@
        }
    } else {
        removal_lines(r.removals@, show, r.removals@.len()) + addition_lines(r.additions@, show, r.additions@.len())
    }
}

/// The first `k` deleted fields in the given order, each on a `- name: value` line.
pub open spec fn deleted_field_lines<P>(fields: Seq<(String, P)>, order: Seq<usize>, show: spec_fn(P) -> Seq<char>, k: nat) -> Seq<char>
    decreases k,
{
    if k == 0 || k > order.len() {
        Seq::empty()
    } else {
        let e = fields[order[k - 1] as int];
        deleted_field_lines(fields, order, show, (k - 1) as nat) + toned("-"@, Tone::Deletion) + " "@ + toned(e.0@, Tone::FieldName)
            + toned(":"@, Tone::Comment) + " "@ + toned(show(e.1), Tone::Deletion) + "\n"@
    }
}

/// The first `k` inserted fields in the given order, each on a `+ name: value` line.
pub open spec fn inserted_field_lines<P>(fields: Seq<(String, P)>, order: Seq<usize>, show: spec_fn(P) -> Seq<char>, k: nat) -> Seq<char>
    decreases k,
{
    if k == 0 || k > order.len() {
        Seq::empty()
    } else {
        let e = fields[order[k - 1] as int];
        inserted_field_lines(fields, order, show, (k - 1) as nat) + toned("+"@, Tone::Insertion) + " "@ + toned(e.0@, Tone::FieldName)
            + toned(":"@, Tone::Comment) + " "@ + toned(show(e.1), Tone::Insertion) + "\n"@
    }
}

/// The text of a diff.
pub open spec fn diff_text<P, S>(d: Diff<P, S>, vt: ValueTexts<P>) -> Seq<char>
    decreases d, 0nat,
{
    match d {
        Diff::Equal { .. } => equal_text(),
        Diff::Replace { from, to } => replace_text(from, to, vt),
        Diff::User { variant, value, .. } => user_value_text(variant, value, vt),
        Diff::Sequence { updates, .. } => {
            if updates_is_empty(updates) {
                equal_text()
            } else {
                toned("["@, Tone::Comment) + "\n"@ + indented(updates_text(updates, vt)) + toned("]"@, Tone::Comment)
            }
        },
    }
}

/// The text of a struct or enum diff: the variant in bold (if any), then
/// its fields or its elements.
pub open spec fn user_value_text<P, S>(variant: Option<&'static str>, value: Value<P, S>, vt: ValueTexts<P>) -> Seq<char>
    decreases value, 0nat,
{
    let prefix = match variant {
        Some(v) => bold_text(v@),
        None => Seq::empty(),
    };
    prefix + match value {
        Value::Struct { updates, deletions, insertions, unchanged } => struct_part_text(
            variant is Some,
            updates@,
            deletions@,
            insertions@,
            unchanged@.len(),
            vt,
        ),
        Value::Tuple { updates } => tuple_part_text(variant is Some, updates, vt),
    }
}

/// The fields of a struct diff, after the variant: a muted note when none
/// changed, otherwise its lines in braces, indented.
pub open spec fn struct_part_text<P, S>(
    has_variant: bool,
    updates: Seq<(String, Diff<P, S>)>,
    deletions: Seq<(String, P)>,
    insertions: Seq<(String, P)>,
    unchanged: nat,
    vt: ValueTexts<P>,
) -> Seq<char>
    decreases updates, updates.len() + 2,
{
    if updates.len() == 0 && deletions.len() == 0 && insertions.len() == 0 {
        equal_text()
    } else {
        (if has_variant {
            " "@
        } else {
            Seq::empty()
        }) + toned("{"@, Tone::Comment) + "\n"@ + indented(struct_lines(updates, deletions, insertions, unchanged, vt)) + toned(
            "}"@,
            Tone::Comment,
        )
    }
}

/// The elements of a tuple diff, after the variant: a muted note when none
/// changed, a single replacement on the same line (as for `Option::Some`),
/// otherwise the updates in parentheses, indented.
pub open spec fn tuple_part_text<P, S>(has_variant: bool, updates: Updates<P, S>, vt: ValueTexts<P>) -> Seq<char>
    decreases updates, 1nat,
{
    if updates_is_empty(updates) {
        equal_text()
    } else if updates.0.first is Some && updates.0.values@.len() == 0 && updates.0.last is None {
        (if has_variant {
            " "@
        } else {
            Seq::empty()
        }) + updates_text(updates, vt)
    } else {
        (if has_variant {
            " (\n"@
        } else {
            "(\n"@
        }) + indented(updates_text(updates, vt)) + ")"@
    }
}

/// The lines inside a changed struct: the count of unchanged fields, then
/// the updated, the deleted and the inserted fields, each kind by name.
pub open spec fn struct_lines<P, S>(
    updates: Seq<(String, Diff<P, S>)>,
    deletions: Seq<(String, P)>,
    insertions: Seq<(String, P)>,
    unchanged: nat,
    vt: ValueTexts<P>,
) -> Seq<char>
    decreases updates, updates.len() + 1,
{
    unchanged_line(unchanged, "field"@, "fields"@) + updated_field_lines(
        updates,
        sorted_order(entry_names(updates), updates.len()),
        vt,
        updates.len(),
    ) + deleted_field_lines(deletions, sorted_order(entry_names(deletions), deletions.len()), vt.show, deletions.len())
        + inserted_field_lines(insertions, sorted_order(entry_names(insertions), insertions.len()), vt.show, insertions.len())
}

/// The first `k` updated fields in the given order, each on a
/// `name: diff` line.
pub open spec fn updated_field_lines<P, S>(fields: Seq<(String, Diff<P, S>)>, order: Seq<usize>, vt: ValueTexts<P>, k: nat) -> Seq<char>
    decreases fields, k,
{
    if k == 0 || k > order.len() || order[k - 1] >= fields.len() {
        Seq::empty()
    } else {
        let e = fields[order[k - 1] as int];
        updated_field_lines(fields, order, vt, (k - 1) as nat) + toned(e.0@, Tone::FieldName) + toned(":"@, Tone::Comment) + " "@
            + diff_text(e.1, vt) + "\n"@
    }
}

/// The text of sequence updates: groups of changes, with each run of
/// unchanged items collapsed into a count.
pub open spec fn updates_text<P, S>(u: Updates<P, S>, vt: ValueTexts<P>) -> Seq<char>
    decreases u, 0nat,
{
    (match u.0.first {
        Some(g) => group_text(g, vt),
        None => Seq::empty(),
    }) + update_pairs_text(u.0.values@, vt, u.0.values@.len()) + match u.0.last {
        Some(v) => unchanged_line(v@.len(), "item"@, "items"@),
        None => Seq::empty(),
    }
}

/// The first `k` (unchanged run, group) pairs of sequence updates.
pub open spec fn update_pairs_text<P, S>(vals: Seq<(Vec<P>, UpdatesGroup<P, S>)>, vt: ValueTexts<P>, k: nat) -> Seq<char>
    decreases vals, k,
{
    if k == 0 || k > vals.len() {
        Seq::empty()
    } else {
        update_pairs_text(vals, vt, (k - 1) as nat) + unchanged_line(vals[k - 1].0@.len(), "item"@, "items"@) + group_text(
            vals[k - 1].1,
            vt,
        )
    }
}

/// The text of an updates group: replace groups and runs of nested diffs.
pub open spec fn group_text<P, S>(g: UpdatesGroup<P, S>, vt: ValueTexts<P>) -> Seq<char>
    decreases g, 0nat,
{
    (match g.0.first {
        Some(r) => replace_group_text(r, vt.show, vt.same),
        None => Seq::empty(),
    }) + group_pairs_text(g.0.values@, vt, g.0.values@.len()) + match g.0.last {
        Some(ds) => diff_run_text(ds@, vt, 0, 0),
        None => Seq::empty(),
    }
}

/// The first `k` (nested diffs, replace group) pairs of an updates group.
pub open spec fn group_pairs_text<P, S>(vals: Seq<(Vec<Diff<P, S>>, ReplaceGroup<P>)>, vt: ValueTexts<P>, k: nat) -> Seq<char>
    decreases vals, k,
{
    if k == 0 || k > vals.len() {
        Seq::empty()
    } else {
        group_pairs_text(vals, vt, (k - 1) as nat) + diff_run_text(vals[k - 1].0@, vt, 0, 0) + replace_group_text(
            vals[k - 1].1,
            vt.show,
            vt.same,
        )
    }
}

/// Nested diffs from index `i` on, one per line, each run of equal diffs
/// collapsed into a count; `pending` equal diffs just before `i` are still
/// to be counted.
pub open spec fn diff_run_text<P, S>(ds: Seq<Diff<P, S>>, vt: ValueTexts<P>, i: int, pending: nat) -> Seq<char>
    decreases ds, ds.len() - i,
{
    if i < 0 || i >= ds.len() {
        unchanged_line(pending, "item"@, "items"@)
    } else if ds[i] is Equal {
        diff_run_text(ds, vt, i + 1, pending + 1)
    } else {
        unchanged_line(pending, "item"@, "items"@) + diff_text(ds[i], vt) + "\n"@ + diff_run_text(ds, vt, i + 1, 0)
    }
}

/// The three closures answer for any value, the same way each time.
pub open spec fn printers_ok<P, F: Fn(P) -> String, G: Fn(P) -> Option<String>, H: Fn(P, P) -> bool>(
    show: F,
    text: G,
    same: H,
) -> bool {
    show_ok(show) && text_ok(text) && same_ok(same)
}

/// Print a value with the printing closure.
fn show_value<P: Copy, F: Fn(P) -> String>(show: &F, p: P) -> (r: String)
    requires
        show_ok(*show),
    ensures
        r@ == shown_by(*show)(p),
{
    let s = show(p);
    proof {
        assert(show.ensures((p,), s));
        let c = choose|c: String| show.ensures((p,), c);
        assert(show.ensures((p,), c));
    }
    s
}

/// The text of a value that is a string, from the text closure.
fn text_value<P: Copy, G: Fn(P) -> Option<String>>(text: &G, p: P) -> (r: Option<String>)
    requires
        text_ok(*text),
    ensures
        opt_text(r) == text_by(*text)(p),
{
    let o = text(p);
    proof {
        assert(text.ensures((p,), o));
        let c = choose|c: Option<String>| text.ensures((p,), c);
        assert(text.ensures((p,), c));
    }
    o
}

/// Whether two values are equal, from the equality closure.
fn same_values<P: Copy, H: Fn(P, P) -> bool>(same: &H, a: P, b: P) -> (r: bool)
    requires
        same_ok(*same),
    ensures
        r == same_by(*same)(a, b),
{
    let e = same(a, b);
    proof {
        assert(same.ensures((a, b), e));
        let c = choose|c: bool| same.ensures((a, b), c);
        assert(same.ensures((a, b), c));
    }
    e
}

/// Append text in a tone.
fn push_toned(out: &mut String, text: &str, t: Tone)
    ensures
        final(out)@ == old(out)@ + toned(text@, t),
{
    let painted = paint(text, t);
    out.append(painted.as_str());
}

/// Append the muted line that stands for `n` unchanged items.
fn push_unchanged_line(out: &mut String, n: usize, one: &str, many: &str)
    ensures
        final(out)@ == old(out)@ + unchanged_line(n as nat, one@, many@),
{
    if n > 0 {
        let mut line = String::new();
        line.append(".. ");
        push_decimal(&mut line, n as u64);
        line.append(" unchanged ");
        if n == 1 {
            line.append(one);
        } else {
            line.append(many);
        }
        proof {
            assert(line@ =~= ".. "@ + decimal(n as nat) + " unchanged "@ + (if n == 1 {
                one@
            } else {
                many@
            }));
        }
        push_toned(out, line.as_str(), Tone::Muted);
        out.append("\n");
    }
}

/// Append text with four spaces in front of each of its lines.
fn push_indented(out: &mut String, text: &str)
    ensures
        final(out)@ == old(out)@ + indented(text@),
{
    let ghost start = out@;
    let n = text.unicode_len();
    let mut at_line_start = true;
    let mut i: usize = 0;
    proof {
        assert(text@.take(0) =~= Seq::<char>::empty());
        assert(out@ =~= start + indented(text@.take(0)));
    }
    while i < n
        invariant
            n == text@.len(),
            i <= n,
            out@ == start + indented(text@.take(i as int)),
            at_line_start == (i == 0 || text@[i - 1] == '\n'),
        decreases n - i,
    {
        let c = text.get_char(i);
        if at_line_start {
            out.append("    ");
        }
        crate::std_calls::string_push(out, c);
        proof {
            let t = text@.take(i + 1);
            assert(t.drop_last() =~= text@.take(i as int));
            assert(t[i as int] == c);
            assert(i > 0 ==> t[i - 1] == text@[i - 1]);
            assert(out@ =~= start + indented(t));
        }
        at_line_start = c == '\n';
        i = i + 1;
    }
    proof {
        assert(text@.take(n as int) =~= text@);
    }
}

/// Append an old and a new value inline, with an explanation when they are
/// strings that look alike.
fn write_replace<P: Copy, F: Fn(P) -> String, G: Fn(P) -> Option<String>, H: Fn(P, P) -> bool>(
    out: &mut String,
    from: P,
    to: P,
    show: &F,
    text: &G,
    same: &H,
)
    requires
        printers_ok(*show, *text, *same),
    ensures
        final(out)@ == old(out)@ + replace_text(from, to, value_texts(*show, *text, *same)),
{
    let ghost start = out@;
    let ghost vt = value_texts(*show, *text, *same);
    let a = show_value(show, from);
    let b = show_value(show, to);
    push_toned(out, a.as_str(), Tone::Deletion);
    out.append(" \u{2192} ");
    push_toned(out, b.as_str(), Tone::Insertion);
    let ghost inline = out@;
    proof {
        assert(inline =~= start + (toned((vt.show)(from), Tone::Deletion) + arrow() + toned((vt.show)(to), Tone::Insertion)));
    }
    let ta = text_value(text, from);
    let tb = text_value(text, to);
    match (ta, tb) {
        (Some(x), Some(y)) => {
            // Strings that look alike get a character-level explanation
            if is_confusable_with(x.as_str(), y.as_str()) || is_confusable_with(y.as_str(), x.as_str()) {
                out.append("\n");
                let explanation = explain_confusable_differences(x.as_str(), y.as_str());
                out.append(explanation.as_str());
                proof {
                    assert(out@ =~= start + replace_text(from, to, vt));
                }
            }
        },
        _ => {},
    }
}

/// Append a replace group.
fn write_replace_group<P: Copy, F: Fn(P) -> String, H: Fn(P, P) -> bool>(out: &mut String, r: &ReplaceGroup<P>, show: &F, same: &H)
    requires
        show_ok(*show),
        same_ok(*same),
    ensures
        final(out)@ == old(out)@ + replace_group_text(*r, shown_by(*show), same_by(*same)),
{
    let ghost start = out@;
    if r.removals.len() == 1 && r.additions.len() == 1 {
        let a = r.removals[0];
        let b = r.additions[0];
        let sa = show_value(show, a);
        if same_values(same, a, b) {
            // Equal values are shown muted
            push_toned(out, sa.as_str(), Tone::Muted);
            out.append("\n");
        } else {
            let sb = show_value(show, b);
            push_toned(out, sa.as_str(), Tone::Deletion);
            out.append(" \u{2192} ");
            push_toned(out, sb.as_str(), Tone::Insertion);
            out.append("\n");
        }
        proof {
            assert(out@ =~= start + replace_group_text(*r, shown_by(*show), same_by(*same)));
        }
    } else {
        // Removals and additions on lines of their own
        let mut i: usize = 0;
        while i < r.removals.len()
            invariant
                i <= r.removals@.len(),
                show_ok(*show),
                out@ == start + removal_lines(r.removals@, shown_by(*show), i as nat),
            decreases r.removals@.len() - i,
        {
            let shown = show_value(show, r.removals[i]);
            let mut line = String::new();
            line.append("- ");
            line.append(shown.as_str());
            push_toned(out, line.as_str(), Tone::Deletion);
            out.append("\n");
            proof {
                assert(out@ =~= start + removal_lines(r.removals@, shown_by(*show), (i + 1) as nat));
            }
            i = i + 1;
        }
        let ghost mid = out@;
        let mut j: usize = 0;
        while j < r.additions.len()
            invariant
                j <= r.additions@.len(),
                show_ok(*show),
                out@ == mid + addition_lines(r.additions@, shown_by(*show), j as nat),
            decreases r.additions@.len() - j,
        {
            let shown = show_value(show, r.additions[j]);
            let mut line = String::new();
            line.append("+ ");
            line.append(shown.as_str());
            push_toned(out, line.as_str(), Tone::Insertion);
            out.append("\n");
            proof {
                assert(out@ =~= mid + addition_lines(r.additions@, shown_by(*show), (j + 1) as nat));
            }
            j = j + 1;
        }
        proof {
            assert(out@ =~= start + replace_group_text(*r, shown_by(*show), same_by(*same)));
        }
    }
}

/// Append deleted (`plus == false`) or inserted fields, in the given order.
fn write_field_values<P: Copy, F: Fn(P) -> String>(
    out: &mut String,
    fields: &Vec<(String, P)>,
    order: &Vec<usize>,
    plus: bool,
    show: &F,
)
    requires
        show_ok(*show),
        forall|j: int| 0 <= j < order@.len() ==> order@[j] < fields@.len(),
    ensures
        final(out)@ == old(out)@ + (if plus {
            inserted_field_lines(fields@, order@, shown_by(*show), order@.len())
        } else {
            deleted_field_lines(fields@, order@, shown_by(*show), order@.len())
        }),
{
    let ghost start = out@;
    let mut k: usize = 0;
    while k < order.len()
        invariant
            k <= order@.len(),
            show_ok(*show),
            forall|j: int| 0 <= j < order@.len() ==> order@[j] < fields@.len(),
            out@ == start + (if plus {
                inserted_field_lines(fields@, order@, shown_by(*show), k as nat)
            } else {
                deleted_field_lines(fields@, order@, shown_by(*show), k as nat)
            }),
        decreases order@.len() - k,
    {
        let idx = order[k];
        let shown = show_value(show, fields[idx].1);
        let tone = if plus {
            Tone::Insertion
        } else {
            Tone::Deletion
        };
        if plus {
            push_toned(out, "+", tone);
        } else {
            push_toned(out, "-", tone);
        }
        out.append(" ");
        push_toned(out, fields[idx].0.as_str(), Tone::FieldName);
        push_toned(out, ":", Tone::Comment);
        out.append(" ");
        push_toned(out, shown.as_str(), tone);
        out.append("\n");
        proof {
            if plus {
                assert(out@ =~= start + inserted_field_lines(fields@, order@, shown_by(*show), (k + 1) as nat));
            } else {
                assert(out@ =~= start + deleted_field_lines(fields@, order@, shown_by(*show), (k + 1) as nat));
            }
        }
        k = k + 1;
    }
}

/// Append updated fields in the given order, each with its diff.
fn write_field_updates<P: Copy, S, F: Fn(P) -> String, G: Fn(P) -> Option<String>, H: Fn(P, P) -> bool>(
    out: &mut String,
    fields: &Vec<(String, Diff<P, S>)>,
    order: &Vec<usize>,
    show: &F,
    text: &G,
    same: &H,
)
    requires
        printers_ok(*show, *text, *same),
        forall|j: int| 0 <= j < order@.len() ==> order@[j] < fields@.len(),
    ensures
        final(out)@ == old(out)@ + updated_field_lines(fields@, order@, value_texts(*show, *text, *same), order@.len()),
    decreases fields@, 0nat,
{
    let ghost start = out@;
    let ghost vt = value_texts(*show, *text, *same);
    let mut k: usize = 0;
    while k < order.len()
        invariant
            k <= order@.len(),
            printers_ok(*show, *text, *same),
            vt == value_texts(*show, *text, *same),
            forall|j: int| 0 <= j < order@.len() ==> order@[j] < fields@.len(),
            out@ == start + updated_field_lines(fields@, order@, vt, k as nat),
        decreases order@.len() - k,
    {
        let idx = order[k];
        let ghost before = out@;
        push_toned(out, fields[idx].0.as_str(), Tone::FieldName);
        push_toned(out, ":", Tone::Comment);
        out.append(" ");
        write_diff(out, &fields[idx].1, show, text, same);
        out.append("\n");
        proof {
            assert(out@ =~= start + updated_field_lines(fields@, order@, vt, (k + 1) as nat));
        }
        k = k + 1;
    }
}

/// The indices of a sorted order are those of the entries.
pub(crate) proof fn lemma_order_in_range<X>(entries: Seq<(String, X)>)
    requires
        entries.len() <= usize::MAX,
    ensures
        sorted_order(entry_names(entries), entries.len()).len() == entries.len(),
        forall|j: int|
            0 <= j < sorted_order(entry_names(entries), entries.len()).len() ==> #[trigger] sorted_order(
                entry_names(entries),
                entries.len(),
            )[j] < entries.len(),
{
    let o = sorted_order(entry_names(entries), entries.len());
    crate::text_order::lemma_sorted_order_sorts(entry_names(entries), entries.len());
    assert forall|j: int| 0 <= j < o.len() implies #[trigger] o[j] < entries.len() by {
        assert(o.contains(o[j]));
    }
}

/// Append the lines inside a changed struct.
fn write_struct_lines<P: Copy, S, F: Fn(P) -> String, G: Fn(P) -> Option<String>, H: Fn(P, P) -> bool>(
    out: &mut String,
    updates: &Vec<(String, Diff<P, S>)>,
    deletions: &Vec<(String, P)>,
    insertions: &Vec<(String, P)>,
    unchanged: usize,
    show: &F,
    text: &G,
    same: &H,
)
    requires
        printers_ok(*show, *text, *same),
    ensures
        final(out)@ == old(out)@ + struct_lines(updates@, deletions@, insertions@, unchanged as nat, value_texts(*show, *text, *same)),
    decreases updates@, 1nat,
{
    let ghost start = out@;
    let n_updates = updates.len();
    let n_deletions = deletions.len();
    let n_insertions = insertions.len();
    // The count of unchanged fields comes first; the others are listed by name
    push_unchanged_line(out, unchanged, "field", "fields");
    let update_order = name_order(updates);
    proof {
        lemma_order_in_range(updates@);
    }
    write_field_updates(out, updates, &update_order, show, text, same);
    let deletion_order = name_order(deletions);
    proof {
        lemma_order_in_range(deletions@);
    }
    write_field_values(out, deletions, &deletion_order, false, show);
    let insertion_order = name_order(insertions);
    proof {
        lemma_order_in_range(insertions@);
    }
    write_field_values(out, insertions, &insertion_order, true, show);
    proof {
        assert(out@ =~= start + struct_lines(updates@, deletions@, insertions@, unchanged as nat, value_texts(*show, *text, *same)));
    }
}

/// Append nested diffs one per line, each run of equal diffs collapsed
/// into a count.
fn write_diff_run<P: Copy, S, F: Fn(P) -> String, G: Fn(P) -> Option<String>, H: Fn(P, P) -> bool>(
    out: &mut String,
    ds: &Vec<Diff<P, S>>,
    show: &F,
    text: &G,
    same: &H,
)
    requires
        printers_ok(*show, *text, *same),
    ensures
        final(out)@ == old(out)@ + diff_run_text(ds@, value_texts(*show, *text, *same), 0, 0),
    decreases ds@, 0nat,
{
    let ghost start = out@;
    let ghost vt = value_texts(*show, *text, *same);
    let mut pending: usize = 0;
    let mut i: usize = 0;
    while i < ds.len()
        invariant
            i <= ds@.len(),
            pending <= i,
            printers_ok(*show, *text, *same),
            vt == value_texts(*show, *text, *same),
            start + diff_run_text(ds@, vt, 0, 0) == out@ + diff_run_text(ds@, vt, i as int, pending as nat),
        decreases ds@.len() - i,
    {
        if ds[i].is_equal() {
            // Equal diffs are counted, not shown
            pending = pending + 1;
        } else {
            let ghost before = out@;
            push_unchanged_line(out, pending, "item", "items");
            write_diff(out, &ds[i], show, text, same);
            out.append("\n");
            proof {
                assert(before + diff_run_text(ds@, vt, i as int, pending as nat) =~= out@ + diff_run_text(ds@, vt, i + 1, 0));
            }
            pending = 0;
        }
        i = i + 1;
    }
    push_unchanged_line(out, pending, "item", "items");
    proof {
        assert(out@ =~= start + diff_run_text(ds@, vt, 0, 0));
    }
}

/// Append an updates group.
fn write_group<P: Copy, S, F: Fn(P) -> String, G: Fn(P) -> Option<String>, H: Fn(P, P) -> bool>(
    out: &mut String,
    g: &UpdatesGroup<P, S>,
    show: &F,
    text: &G,
    same: &H,
)
    requires
        printers_ok(*show, *text, *same),
    ensures
        final(out)@ == old(out)@ + group_text(*g, value_texts(*show, *text, *same)),
    decreases g, 0nat,
{
    let ghost start = out@;
    let ghost vt = value_texts(*show, *text, *same);
    if let Some(r) = &g.0.first {
        write_replace_group(out, r, show, same);
    }
    let ghost first = out@;
    let mut k: usize = 0;
    while k < g.0.values.len()
        invariant
            k <= g.0.values@.len(),
            printers_ok(*show, *text, *same),
            vt == value_texts(*show, *text, *same),
            out@ == first + group_pairs_text(g.0.values@, vt, k as nat),
        decreases g.0.values@.len() - k,
    {
        write_diff_run(out, &g.0.values[k].0, show, text, same);
        write_replace_group(out, &g.0.values[k].1, show, same);
        proof {
            assert(out@ =~= first + group_pairs_text(g.0.values@, vt, (k + 1) as nat));
        }
        k = k + 1;
    }
    if let Some(ds) = &g.0.last {
        write_diff_run(out, ds, show, text, same);
    }
    proof {
        assert(out@ =~= start + group_text(*g, vt));
    }
}

/// Append sequence updates.
fn write_updates<P: Copy, S, F: Fn(P) -> String, G: Fn(P) -> Option<String>, H: Fn(P, P) -> bool>(
    out: &mut String,
    u: &Updates<P, S>,
    show: &F,
    text: &G,
    same: &H,
)
    requires
        printers_ok(*show, *text, *same),
    ensures
        final(out)@ == old(out)@ + updates_text(*u, value_texts(*show, *text, *same)),
    decreases u, 0nat,
{
    let ghost start = out@;
    let ghost vt = value_texts(*show, *text, *same);
    if let Some(g) = &u.0.first {
        write_group(out, g, show, text, same);
    }
    let ghost first = out@;
    let mut k: usize = 0;
    while k < u.0.values.len()
        invariant
            k <= u.0.values@.len(),
            printers_ok(*show, *text, *same),
            vt == value_texts(*show, *text, *same),
            out@ == first + update_pairs_text(u.0.values@, vt, k as nat),
        decreases u.0.values@.len() - k,
    {
        // Kept values collapse into a count
        push_unchanged_line(out, u.0.values[k].0.len(), "item", "items");
        write_group(out, &u.0.values[k].1, show, text, same);
        proof {
            assert(out@ =~= first + update_pairs_text(u.0.values@, vt, (k + 1) as nat));
        }
        k = k + 1;
    }
    if let Some(v) = &u.0.last {
        push_unchanged_line(out, v.len(), "item", "items");
    }
    proof {
        assert(out@ =~= start + updates_text(*u, vt));
    }
}

/// Append the fields of a struct diff that follow the variant.
fn write_struct_part<P: Copy, S, F: Fn(P) -> String, G: Fn(P) -> Option<String>, H: Fn(P, P) -> bool>(
    out: &mut String,
    has_variant: bool,
    updates: &Vec<(String, Diff<P, S>)>,
    deletions: &Vec<(String, P)>,
    insertions: &Vec<(String, P)>,
    unchanged: usize,
    show: &F,
    text: &G,
    same: &H,
)
    requires
        printers_ok(*show, *text, *same),
    ensures
        final(out)@ == old(out)@ + struct_part_text(
            has_variant,
            updates@,
            deletions@,
            insertions@,
            unchanged as nat,
            value_texts(*show, *text, *same),
        ),
    decreases updates@, 2nat,
{
    let ghost start = out@;
    if updates.len() == 0 && deletions.len() == 0 && insertions.len() == 0 {
        push_toned(out, "(structurally equal)", Tone::Muted);
    } else {
        if has_variant {
            out.append(" ");
        }
        push_toned(out, "{", Tone::Comment);
        out.append("\n");
        let mut lines = String::new();
        write_struct_lines(&mut lines, updates, deletions, insertions, unchanged, show, text, same);
        push_indented(out, lines.as_str());
        push_toned(out, "}", Tone::Comment);
        proof {
            assert(out@ =~= start + struct_part_text(
                has_variant,
                updates@,
                deletions@,
                insertions@,
                unchanged as nat,
                value_texts(*show, *text, *same),
            ));
        }
    }
}

/// Append the elements of a tuple diff that follow the variant.
#[verifier::rlimit(40)]
fn write_tuple_part<P: Copy, S, F: Fn(P) -> String, G: Fn(P) -> Option<String>, H: Fn(P, P) -> bool>(
    out: &mut String,
    has_variant: bool,
    updates: &Updates<P, S>,
    show: &F,
    text: &G,
    same: &H,
)
    requires
        printers_ok(*show, *text, *same),
    ensures
        final(out)@ == old(out)@ + tuple_part_text(has_variant, *updates, value_texts(*show, *text, *same)),
    decreases updates, 1nat,
{
    let ghost start = out@;
    if updates.is_empty() {
        push_toned(out, "(structurally equal)", Tone::Muted);
    } else if updates.is_single_replace() {
        // A single replacement (such as `Option::Some`) stays on the line
        if has_variant {
            out.append(" ");
        }
        write_updates(out, updates, show, text, same);
        proof {
            assert(out@ =~= start + tuple_part_text(has_variant, *updates, value_texts(*show, *text, *same)));
        }
    } else {
        if has_variant {
            out.append(" (\n");
        } else {
            out.append("(\n");
        }
        let mut inner = String::new();
        write_updates(&mut inner, updates, show, text, same);
        push_indented(out, inner.as_str());
        out.append(")");
        proof {
            assert(out@ =~= start + tuple_part_text(has_variant, *updates, value_texts(*show, *text, *same)));
        }
    }
}

/// Append the text of a struct or enum diff.
fn write_user_value<P: Copy, S, F: Fn(P) -> String, G: Fn(P) -> Option<String>, H: Fn(P, P) -> bool>(
    out: &mut String,
    variant: Option<&'static str>,
    value: &Value<P, S>,
    show: &F,
    text: &G,
    same: &H,
)
    requires
        printers_ok(*show, *text, *same),
    ensures
        final(out)@ == old(out)@ + user_value_text(variant, *value, value_texts(*show, *text, *same)),
    decreases value, 0nat,
{
    let ghost start = out@;
    // The variant (such as `Some`) comes first, in bold
    if let Some(v) = variant {
        let b = paint_bold(v);
        out.append(b.as_str());
    }
    match value {
        Value::Struct { updates, deletions, insertions, unchanged } => {
            write_struct_part(out, variant.is_some(), updates, deletions, insertions, unchanged.len(), show, text, same);
        },
        Value::Tuple { updates } => {
            write_tuple_part(out, variant.is_some(), updates, show, text, same);
        },
    }
    proof {
        assert(out@ =~= start + user_value_text(variant, *value, value_texts(*show, *text, *same)));
    }
}

/// Append the text of a diff.
fn write_diff<P: Copy, S, F: Fn(P) -> String, G: Fn(P) -> Option<String>, H: Fn(P, P) -> bool>(
    out: &mut String,
    d: &Diff<P, S>,
    show: &F,
    text: &G,
    same: &H,
)
    requires
        printers_ok(*show, *text, *same),
    ensures
        final(out)@ == old(out)@ + diff_text(*d, value_texts(*show, *text, *same)),
    decreases d, 0nat,
{
    let ghost start = out@;
    let ghost vt = value_texts(*show, *text, *same);
    match d {
        Diff::Equal { .. } => {
            push_toned(out, "(structurally equal)", Tone::Muted);
        },
        Diff::Replace { from, to } => {
            write_replace(out, *from, *to, show, text, same);
        },
        Diff::User { variant, value, .. } => {
            write_user_value(out, *variant, value, show, text, same);
        },
        Diff::Sequence { updates, .. } => {
            if updates.is_empty() {
                push_toned(out, "(structurally equal)", Tone::Muted);
            } else {
                push_toned(out, "[", Tone::Comment);
                out.append("\n");
                let mut inner = String::new();
                write_updates(&mut inner, updates, show, text, same);
                push_indented(out, inner.as_str());
                push_toned(out, "]", Tone::Comment);
            }
            proof {
                assert(out@ =~= start + diff_text(*d, vt));
            }
        },
    }
}

impl<P: Copy, S> Diff<P, S> {
    /// The text form of the diff: values are printed with `show`; `text`
    /// gives the text of values that are strings (two strings that look
    /// alike get an explanation of where they differ); `same` tells equal
    /// values apart in one-for-one replacements.
    pub fn to_display_string<F: Fn(P) -> String, G: Fn(P) -> Option<String>, H: Fn(P, P) -> bool>(
        &self,
        show: F,
        text: G,
        same: H,
    ) -> (r: String)
        requires
            printers_ok(show, text, same),
        ensures
            r@ == diff_text(*self, value_texts(show, text, same)),
    {
        let mut out = String::new();
        write_diff(&mut out, self, &show, &text, &same);
        proof {
            assert(out@ =~= diff_text(*self, value_texts(show, text, same)));
        }
        out
    }
}

impl<P: Copy, S> Updates<P, S> {
    /// The text form of sequence updates, each run of unchanged items
    /// collapsed into a count (see [`Diff::to_display_string`]).
    pub fn to_display_string<F: Fn(P) -> String, G: Fn(P) -> Option<String>, H: Fn(P, P) -> bool>(
        &self,
        show: F,
        text: G,
        same: H,
    ) -> (r: String)
        requires
            printers_ok(show, text, same),
        ensures
            r@ == updates_text(*self, value_texts(show, text, same)),
    {
        let mut out = String::new();
        write_updates(&mut out, self, &show, &text, &same);
        proof {
            assert(out@ =~= updates_text(*self, value_texts(show, text, same)));
        }
        out
    }
}

impl<P: Copy, S> UpdatesGroup<P, S> {
    /// The text form of an updates group, each run of equal nested diffs
    /// collapsed into a count (see [`Diff::to_display_string`]).
    pub fn to_display_string<F: Fn(P) -> String, G: Fn(P) -> Option<String>, H: Fn(P, P) -> bool>(
        &self,
        show: F,
        text: G,
        same: H,
    ) -> (r: String)
        requires
            printers_ok(show, text, same),
        ensures
            r@ == group_text(*self, value_texts(show, text, same)),
    {
        let mut out = String::new();
        write_group(&mut out, self, &show, &text, &same);
        proof {
            assert(out@ =~= group_text(*self, value_texts(show, text, same)));
        }
        out
    }
}

impl<P: Copy> ReplaceGroup<P> {
    /// The text form of a replace group: a one-for-one replacement inline
    /// (muted when `same` says the two values are equal), otherwise each
    /// removal on a `- ` line and each addition on a `+ ` line.
    pub fn to_display_string<F: Fn(P) -> String, H: Fn(P, P) -> bool>(&self, show: F, same: H) -> (r: String)
        requires
            show_ok(show),
            same_ok(same),
        ensures
            r@ == replace_group_text(*self, shown_by(show), same_by(same)),
    {
        let mut out = String::new();
        write_replace_group(&mut out, self, &show, &same);
        proof {
            assert(out@ =~= replace_group_text(*self, shown_by(show), same_by(same)));
        }
        out
    }
}

} // verus!
