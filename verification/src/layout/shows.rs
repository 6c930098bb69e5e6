//! What the layout builder builds for a diff, level by level.
//!
//! `shows(l, b, x, ..)` says what node `x` of layout `l` holds for a diff and
//! what its children hold below it. Every node it speaks of is outside `b`
//! (nodes that were there before the builder added these), which keeps it
//! true while the layout grows under the nodes of `b`.

use vstd::prelude::*;
use indextree::NodeId;

use crate::core_sequences::{ReplaceGroup, Updates, UpdatesGroup};
use crate::text_order::{entry_names, sorted_order};
use crate::types::{Diff, Value};
use super::attrs::{grouped_as, ValueType};
use super::build_options::BuildOptions;
use super::builder::{
    attrs_shown, change_kind, children_changes, falsy_value, first_nested, grew_under, pair_diffs, pair_groups_nested, lemma_attrs_shown_stay, lemma_text_stays, entries_count, field_children, field_named, field_shown_as,
    item_changes, nested_count, replace_tag, sequence_item_type, shape_is_enum, shape_is_option, shape_tag,
    shown_value, struct_attrs_shown, struct_children, ValueKind, ValueTable,
};
use super::flavor::DiffFlavor;
use super::node::{node_change, ElementChange, Layout, LayoutNode};
use super::render_spec::{arena_grew, node_ok, under_construction};

verus! {

/// The characters of an optional name.
pub open spec fn name_view(f: Option<String>) -> Option<Seq<char>> {
    match f {
        Some(s) => Some(s@),
        None => None,
    }
}

/// A node the builder added: live in `l`, not one of `b`, and readable
/// once the arena fits `u32` offsets.
pub open spec fn fresh_node(l: Layout, b: Set<NodeId>, x: NodeId) -> bool {
    &&& !b.contains(x)
    &&& l.nodes().contains_key(x)
    &&& l.strings.bytes().len() <= u32::MAX ==> node_ok(l, l.nodes()[x])
}

/// Node `x`, where it is an element, has its changed attributes grouped into
/// lines of `max_line_width` (see `grouped_as`).
pub open spec fn node_grouped(l: Layout, x: NodeId, max_line_width: int) -> bool {
    l.nodes()[x] matches LayoutNode::Element { attrs, changed_groups, .. } ==> grouped_as(attrs@, changed_groups@, max_line_width)
}

/// The first `k` fields of a value shown whole, as attributes with the
/// value's change; falsy fields are left out.
pub open spec fn field_attrs_shown<F: DiffFlavor>(
    t: ValueTable,
    fields: Seq<(&'static str, usize)>,
    change: ElementChange,
    opts: BuildOptions,
    flavor: F,
    k: int,
) -> Seq<(Seq<char>, int, Seq<char>, Seq<char>)>
    decreases k,
{
    if k <= 0 {
        Seq::empty()
    } else {
        let prev = field_attrs_shown(t, fields, change, opts, flavor, k - 1);
        let e = fields[k - 1];
        if falsy_value(t, e.1) {
            prev
        } else {
            prev.push((e.0@, change_kind(change), shown_value(t, e.1, opts, flavor).0, Seq::empty()))
        }
    }
}

/// The first `k` fields of an enum variant shown whole, as attributes with
/// the value's change; fields that cannot be read, or are falsy, are left out.
pub open spec fn variant_attrs_shown<F: DiffFlavor>(
    t: ValueTable,
    fields: Seq<(&'static str, Option<usize>)>,
    change: ElementChange,
    opts: BuildOptions,
    flavor: F,
    k: int,
) -> Seq<(Seq<char>, int, Seq<char>, Seq<char>)>
    decreases k,
{
    if k <= 0 {
        Seq::empty()
    } else {
        let prev = variant_attrs_shown(t, fields, change, opts, flavor, k - 1);
        let e = fields[k - 1];
        match e.1 {
            Some(v) => if falsy_value(t, v) {
                prev
            } else {
                prev.push((e.0@, change_kind(change), shown_value(t, v, opts, flavor).0, Seq::empty()))
            },
            None => prev,
        }
    }
}

/// The fields of a struct value shown whole with `change`, as attributes
/// (none when the value is not a struct).
pub open spec fn whole_attrs<F: DiffFlavor>(t: ValueTable, v: usize, change: ElementChange, opts: BuildOptions, flavor: F)
    -> Seq<(Seq<char>, int, Seq<char>, Seq<char>)> {
    if v < t.values@.len() && t.values@[v as int].kind is Struct {
        let fields = t.values@[v as int].kind->Struct_fields@;
        field_attrs_shown(t, fields, change, opts, flavor, fields.len() as int)
    } else {
        Seq::empty()
    }
}

/// The first `k` fields of `fa` compared with the fields of `fb` at the
/// same positions: changed when their texts differ, else unchanged (left out
/// when falsy); a field that `fb` does not have is deleted (left out when
/// falsy).
pub open spec fn compared_shown<F: DiffFlavor>(
    t: ValueTable,
    fa: Seq<(&'static str, usize)>,
    fb: Seq<(&'static str, usize)>,
    opts: BuildOptions,
    flavor: F,
    k: int,
) -> Seq<(Seq<char>, int, Seq<char>, Seq<char>)>
    decreases k,
{
    if k <= 0 {
        Seq::empty()
    } else {
        let prev = compared_shown(t, fa, fb, opts, flavor, k - 1);
        let e = fa[k - 1];
        let ta = shown_value(t, e.1, opts, flavor).0;
        if k - 1 < fb.len() {
            let tb = shown_value(t, fb[k - 1].1, opts, flavor).0;
            if ta != tb {
                prev.push((e.0@, 1, ta, tb))
            } else if !falsy_value(t, e.1) {
                prev.push((e.0@, 0, ta, Seq::empty()))
            } else {
                prev
            }
        } else if !falsy_value(t, e.1) {
            prev.push((e.0@, 2, ta, Seq::empty()))
        } else {
            prev
        }
    }
}

/// Two struct values compared field by field (none when either is not a struct).
pub open spec fn compared_attrs<F: DiffFlavor>(t: ValueTable, a: usize, b: usize, opts: BuildOptions, flavor: F)
    -> Seq<(Seq<char>, int, Seq<char>, Seq<char>)> {
    if a < t.values@.len() && b < t.values@.len() && t.values@[a as int].kind is Struct && t.values@[b as int].kind is Struct {
        let fa = t.values@[a as int].kind->Struct_fields@;
        compared_shown(t, fa, t.values@[b as int].kind->Struct_fields@, opts, flavor, fa.len() as int)
    } else {
        Seq::empty()
    }
}

/// The tag of a value shown as an element: its type's display name, marked
/// with `@` for a struct without XML attributes.
pub open spec fn value_tag_of(t: ValueTable, v: usize) -> Seq<char> {
    let d = t.values@[v as int];
    if d.kind is Struct && !d.has_xml_attrs { seq!['@'] + d.display_name@ } else { d.display_name@ }
}

/// Node `x` is a text node showing `text`, of type `vt` (the text once the
/// arena fits `u32` offsets).
pub open spec fn text_shows(l: Layout, x: NodeId, text: Seq<char>, vt: ValueType) -> bool {
    l.nodes()[x] matches LayoutNode::Text { value, .. } && value.value_type == vt
        && (l.strings.bytes().len() <= u32::MAX ==> l.strings.text_of(value.span) == text)
}

/// Node `x` is an element with the given tag and attributes (as they show,
/// once the arena fits `u32` offsets).
pub open spec fn element_shows(l: Layout, x: NodeId, tag: Seq<char>, attrs: Seq<(Seq<char>, int, Seq<char>, Seq<char>)>) -> bool {
    &&& l.nodes()[x] matches LayoutNode::Element { tag: tg, .. } && tg@ == tag
    &&& l.strings.bytes().len() <= u32::MAX ==> (l.nodes()[x] matches LayoutNode::Element { attrs: a, .. }
        && attrs_shown(l, a@) == attrs)
}

/// What node `x` holds for the value at `v` shown whole with `change`: the
/// held value for an option (`null` for `None`); a struct with named fields
/// as an element with its fields; an enum as an element named by its variant
/// with its fields (those of the struct it holds, for a variant holding one
/// struct with named fields), or as its variant's name when it has none;
/// anything else as its text.
pub open spec fn peek_content<F: DiffFlavor>(
    l: Layout,
    x: NodeId,
    t: ValueTable,
    v: usize,
    change: ElementChange,
    opts: BuildOptions,
    flavor: F,
) -> bool
    decreases v,
{
    let text = text_shows(l, x, shown_value(t, v, opts, flavor).0, shown_value(t, v, opts, flavor).1);
    if v >= t.values@.len() {
        text
    } else {
        match t.values@[v as int].kind {
            ValueKind::SomeValue { inner } => if inner < v {
                peek_content(l, x, t, inner, change, opts, flavor)
            } else {
                text
            },
            ValueKind::Struct { named, fields } => if named {
                element_shows(l, x, value_tag_of(t, v), field_attrs_shown(t, fields@, change, opts, flavor, fields@.len() as int))
            } else {
                text
            },
            ValueKind::Enum { tag, fields } => if fields@.len() == 0 {
                text_shows(l, x, tag@, ValueType::Other)
            } else if fields@.len() == 1 && fields@[0].1 is Some && fields@[0].1->0 < t.values@.len()
                && t.values@[fields@[0].1->0 as int].kind is Struct && t.values@[fields@[0].1->0 as int].kind->Struct_named {
                let inner = t.values@[fields@[0].1->0 as int].kind->Struct_fields@;
                element_shows(l, x, tag@, field_attrs_shown(t, inner, change, opts, flavor, inner.len() as int))
            } else {
                element_shows(l, x, tag@, variant_attrs_shown(t, fields@, change, opts, flavor, fields@.len() as int))
            },
            _ => text,
        }
    }
}

/// Node `x` shows the value at `v` whole, with `change`: a leaf with that
/// change, named `fname` when it is an element, holding what
/// `peek_content` says.
pub open spec fn peek_shows<F: DiffFlavor>(
    l: Layout,
    b: Set<NodeId>,
    x: NodeId,
    t: ValueTable,
    v: usize,
    change: ElementChange,
    fname: Option<Seq<char>>,
    opts: BuildOptions,
    flavor: F,
) -> bool {
    &&& fresh_node(l, b, x)
    &&& l.children_of()[x].len() == 0
    &&& node_change(l.nodes()[x]) == change
    &&& l.nodes()[x] matches LayoutNode::Element { field_name: f, .. } ==> name_view(f) == fname
    &&& node_grouped(l, x, opts.max_line_width as int)
    &&& peek_content(l, x, t, v, change, opts, flavor)
}

/// Node `x` shows diff `d` of the values `from` and `to`, with `change` and
/// field name `fname`:
/// - an equal value shown whole, unchanged (`(equal)` as text when the diff
///   does not carry the value);
/// - a replacement as an element holding the old value deleted, then the new
///   one inserted, each shown whole;
/// - a struct diff as an element named by its type (by its variant, for an
///   enum) with its attributes and its children (see `struct_body`);
/// - a sequence diff as a sequence node, and a diff of a tuple's parts as an
///   element named by its type, whose children show the sequence updates
///   (see `updates_show`);
/// - a diff of an option's parts as a transparent element whose children
///   show the updates, unless they give a single child, which then stands
///   in its place: `x` is that nested diff or that item, with the field name;
/// - a diff of an enum variant's unnamed fields as `enum_tuple_show` says.
///
/// Every element it speaks of has its changed attributes grouped into lines
/// of the options' width (see `node_grouped`).
pub open spec fn shows<F: DiffFlavor>(
    l: Layout,
    b: Set<NodeId>,
    x: NodeId,
    t: ValueTable,
    d: Diff<usize, usize>,
    from: Option<usize>,
    to: Option<usize>,
    change: ElementChange,
    fname: Option<Seq<char>>,
    opts: BuildOptions,
    flavor: F,
) -> bool
    decreases d, 0nat, 0int,
{
    &&& fresh_node(l, b, x)
    &&& match d {
        Diff::Equal { value } => match value {
            Some(p) => peek_shows(l, b, x, t, p, ElementChange::Unchanged, fname, opts, flavor),
            None => {
                &&& node_change(l.nodes()[x]) == ElementChange::Unchanged
                &&& text_shows(l, x, equal_text(), ValueType::Other)
            },
        },
        Diff::Replace { from: a, to: z } => {
            &&& l.nodes()[x] matches LayoutNode::Element { tag, field_name: f, change: c, .. }
                && tag@ == replace_tag() && name_view(f) == fname && c == ElementChange::Unchanged
            &&& node_grouped(l, x, opts.max_line_width as int)
            &&& l.children_of()[x].len() == 2
            &&& peek_shows(l, b.insert(x), l.children_of()[x][0], t, a, ElementChange::Deleted, None, opts, flavor)
            &&& peek_shows(l, b.insert(x), l.children_of()[x][1], t, z, ElementChange::Inserted, None, opts, flavor)
        },
        Diff::User { from: s, variant, value, .. } => match value {
            Value::Struct { updates, deletions, insertions, unchanged } => struct_body(l, b, x, t,
                if variant is Some && shape_is_enum(t, s) { variant_tag_of(t, s, variant->0) } else { shape_tag(t, s) },
                updates@, deletions@, insertions@, unchanged@, from, to, change, fname, opts, flavor),
            Value::Tuple { updates } => if shape_is_option(t, s) {
                if entries_count(updates) != 1 {
                    &&& l.nodes()[x] matches LayoutNode::Element { tag, field_name: f, change: c, .. }
                        && tag@ == transparent_tag() && name_view(f) == fname && c == change
                    &&& node_grouped(l, x, opts.max_line_width as int)
                    &&& updates_show(l, b, x, t, updates, opts, flavor)
                } else {
                    &&& nested_show(l, b, seq![x], 0, t, updates, fname, opts, flavor)
                    &&& items_show(l, b, seq![x], nested_count(updates), t, item_values(updates), item_changes(updates), fname, opts,
                        flavor)
                }
            } else if variant is Some && shape_is_enum(t, s) {
                enum_tuple_show(l, b, x, t, variant_tag_of(t, s, variant->0), updates, first_field_of(t, from), first_field_of(t, to),
                    change, fname, opts, flavor)
            } else {
                &&& l.nodes()[x] matches LayoutNode::Element { tag, field_name: f, change: c, .. }
                    && tag@ == shape_tag(t, s) && name_view(f) == fname && c == change
                &&& node_grouped(l, x, opts.max_line_width as int)
                &&& updates_show(l, b, x, t, updates, opts, flavor)
            },
        },
        Diff::Sequence { updates, .. } => {
            &&& l.nodes()[x] matches LayoutNode::Sequence { change: c, item_type, field_name: f }
                && c == change && item_type == sequence_item_type(t, from, to) && name_view(f) == fname
            &&& updates_show(l, b, x, t, updates, opts, flavor)
        },
    }
}

/// The display name of the variant `name` among `(name, display name)`
/// pairs: that of the first pair with the name, else the name itself.
pub open spec fn variant_display(vs: Seq<(&'static str, &'static str)>, name: Seq<char>) -> Seq<char>
    decreases vs.len(),
{
    if vs.len() == 0 {
        name
    } else if vs[0].0@ == name {
        vs[0].1@
    } else {
        variant_display(vs.drop_first(), name)
    }
}

/// The tag of an enum variant of the shape at `s`.
pub open spec fn variant_tag_of(t: ValueTable, s: usize, name: &'static str) -> Seq<char> {
    variant_display(t.shapes@[s as int].variants->0@, name@)
}

/// Node `x` shows a struct diff as an element with tag `tag`, field name
/// `fname` and `change`: its attributes, its children for the updated fields
/// that are not attributes (see `fields_show`), then a collapsed count of
/// its unchanged fields when there are more than the options show or no
/// `from` value to read them from.
pub open spec fn struct_body<F: DiffFlavor>(
    l: Layout,
    b: Set<NodeId>,
    x: NodeId,
    t: ValueTable,
    tag: Seq<char>,
    updates: Seq<(String, Diff<usize, usize>)>,
    deletions: Seq<(String, usize)>,
    insertions: Seq<(String, usize)>,
    unchanged: Seq<String>,
    from: Option<usize>,
    to: Option<usize>,
    change: ElementChange,
    fname: Option<Seq<char>>,
    opts: BuildOptions,
    flavor: F,
) -> bool
    decreases updates, 2nat, 0int,
{
    &&& l.nodes()[x] matches LayoutNode::Element { tag: tg, field_name: f, change: c, .. }
        && tg@ == tag && name_view(f) == fname && c == change
    &&& node_grouped(l, x, opts.max_line_width as int)
    &&& l.strings.bytes().len() <= u32::MAX ==> (l.nodes()[x] matches LayoutNode::Element { attrs, .. }
        && attrs_shown(l, attrs@) == struct_attrs_shown(t, updates, deletions, insertions, unchanged, from, to, opts, flavor))
    &&& l.children_of()[x].len() == struct_children(t, updates, unchanged, from, to, opts)
    &&& (unchanged.len() > opts.max_unchanged_fields || (unchanged.len() > 0 && from is None))
        ==> l.nodes()[l.children_of()[x].last()] == (LayoutNode::Collapsed { count: unchanged.len() as usize })
    &&& fields_show(l, b.insert(x), l.children_of()[x], t, updates, sorted_order(entry_names(updates), updates.len()),
        from, to, opts, flavor, updates.len() as int)
}

/// The value of the first field of an enum value, where it can be read.
pub open spec fn first_field_of(t: ValueTable, v: Option<usize>) -> Option<usize> {
    match v {
        Some(x) => if x < t.values@.len() && t.values@[x as int].kind is Enum && t.values@[x as int].kind->Enum_fields@.len() > 0 {
            t.values@[x as int].kind->Enum_fields@[0].1
        } else {
            None
        },
        None => None,
    }
}

/// Whether an enum variant with unnamed fields is shown by its single nested
/// diff `d` itself: a struct diff, or a replacement.
pub open spec fn variant_diff_taken(d: Diff<usize, usize>) -> bool {
    ||| d is Replace
    ||| d matches Diff::User { value: Value::Struct { .. }, .. }
}

/// Node `x` shows an enum variant, named `tag`, by its single nested diff
/// `d` of the variant's held values `from` and `to`: a struct diff as the
/// struct named by the variant; a replacement as an element named by the
/// variant with the old value's fields deleted, then the new value's fields
/// inserted.
pub open spec fn variant_diff_show<F: DiffFlavor>(
    l: Layout,
    b: Set<NodeId>,
    x: NodeId,
    t: ValueTable,
    tag: Seq<char>,
    d: Diff<usize, usize>,
    from: Option<usize>,
    to: Option<usize>,
    change: ElementChange,
    fname: Option<Seq<char>>,
    opts: BuildOptions,
    flavor: F,
) -> bool
    decreases d, 3nat, 0int,
{
    match d {
        Diff::User { value: Value::Struct { updates, deletions, insertions, unchanged }, .. } => struct_body(l, b, x, t, tag,
            updates@, deletions@, insertions@, unchanged@, from, to, change, fname, opts, flavor),
        Diff::Replace { from: a, to: z } => {
            &&& l.nodes()[x] matches LayoutNode::Element { tag: tg, field_name: f, change: c, .. }
                && tg@ == tag && name_view(f) == fname && c == change
            &&& node_grouped(l, x, opts.max_line_width as int)
            &&& l.strings.bytes().len() <= u32::MAX ==> (l.nodes()[x] matches LayoutNode::Element { attrs, .. }
                && attrs_shown(l, attrs@) == whole_attrs(t, a, ElementChange::Deleted, opts, flavor)
                + whole_attrs(t, z, ElementChange::Inserted, opts, flavor))
            &&& l.children_of()[x].len() == 0
        },
        _ => true,
    }
}

/// From the `k`-th pair of an updates group on, the first run of exactly one
/// nested diff shows the variant (see `variant_diff_show`) when the diff is
/// taken; otherwise, or when there is no such run, `fallback` holds.
pub open spec fn enum_runs_show<F: DiffFlavor>(
    l: Layout,
    b: Set<NodeId>,
    x: NodeId,
    t: ValueTable,
    tag: Seq<char>,
    vals: Seq<(Vec<Diff<usize, usize>>, ReplaceGroup<usize>)>,
    from: Option<usize>,
    to: Option<usize>,
    change: ElementChange,
    fname: Option<Seq<char>>,
    fallback: bool,
    opts: BuildOptions,
    flavor: F,
    k: int,
) -> bool
    decreases vals, 4nat, vals.len() - k,
{
    if k < 0 || k >= vals.len() {
        fallback
    } else if vals[k].0@.len() == 1 {
        if variant_diff_taken(vals[k].0@[0]) {
            variant_diff_show(l, b, x, t, tag, vals[k].0@[0], from, to, change, fname, opts, flavor)
        } else {
            fallback
        }
    } else {
        enum_runs_show(l, b, x, t, tag, vals, from, to, change, fname, fallback, opts, flavor, k + 1)
    }
}

/// Node `x` shows an enum variant, named `tag`, by the leading group of its
/// updates: a single replacement of the held value as an element with the
/// two values compared field by field; else its single nested diff (the
/// trailing run's when it holds exactly one, else the first run's that
/// does), when taken; otherwise `fallback` holds.
pub open spec fn enum_group_show<F: DiffFlavor>(
    l: Layout,
    b: Set<NodeId>,
    x: NodeId,
    t: ValueTable,
    tag: Seq<char>,
    g: UpdatesGroup<usize, usize>,
    from: Option<usize>,
    to: Option<usize>,
    change: ElementChange,
    fname: Option<Seq<char>>,
    fallback: bool,
    opts: BuildOptions,
    flavor: F,
) -> bool
    decreases g, 5nat, 0int,
{
    if g.0.first is Some && g.0.first->0.removals@.len() == 1 && g.0.first->0.additions@.len() == 1 {
        &&& l.nodes()[x] matches LayoutNode::Element { tag: tg, field_name: f, change: c, .. }
            && tg@ == tag && name_view(f) == fname && c == change
        &&& node_grouped(l, x, opts.max_line_width as int)
        &&& l.strings.bytes().len() <= u32::MAX ==> (l.nodes()[x] matches LayoutNode::Element { attrs, .. }
            && attrs_shown(l, attrs@) == compared_attrs(t, g.0.first->0.removals@[0], g.0.first->0.additions@[0], opts, flavor))
        &&& l.children_of()[x].len() == 0
    } else if g.0.last is Some && g.0.last->0@.len() == 1 {
        if variant_diff_taken(g.0.last->0@[0]) {
            variant_diff_show(l, b, x, t, tag, g.0.last->0@[0], from, to, change, fname, opts, flavor)
        } else {
            fallback
        }
    } else {
        enum_runs_show(l, b, x, t, tag, g.0.values@, from, to, change, fname, fallback, opts, flavor, 0)
    }
}

/// Node `x` shows an enum variant with unnamed fields, named `tag`, with
/// updates `u` of its held values `from` and `to`: by the leading group of
/// the updates (see `enum_group_show`) when there is one; otherwise, and
/// where that group says so, as an element named by the variant whose
/// children show the updates.
pub open spec fn enum_tuple_show<F: DiffFlavor>(
    l: Layout,
    b: Set<NodeId>,
    x: NodeId,
    t: ValueTable,
    tag: Seq<char>,
    u: Updates<usize, usize>,
    from: Option<usize>,
    to: Option<usize>,
    change: ElementChange,
    fname: Option<Seq<char>>,
    opts: BuildOptions,
    flavor: F,
) -> bool
    decreases u, 6nat, 0int,
{
    let fallback = {
        &&& l.nodes()[x] matches LayoutNode::Element { tag: tg, field_name: f, change: c, .. }
            && tg@ == tag && name_view(f) == fname && c == change
        &&& node_grouped(l, x, opts.max_line_width as int)
        &&& updates_show(l, b, x, t, u, opts, flavor)
    };
    match u.0.first {
        Some(g) => enum_group_show(l, b, x, t, tag, g, from, to, change, fname, fallback, opts, flavor),
        None => fallback,
    }
}

/// The text shown for values that are equal but not carried by the diff.
pub open spec fn equal_text() -> Seq<char> {
    seq!['(', 'e', 'q', 'u', 'a', 'l', ')']
}

/// The tag of the element that holds an option's updates.
pub open spec fn transparent_tag() -> Seq<char> {
    seq!['_', 't', 'r', 'a', 'n', 's', 'p', 'a', 'r', 'e', 'n', 't']
}

/// The children of node `x` show sequence updates `u`, without field
/// names: one per nested diff, then one per item, with the items' changes.
pub open spec fn updates_show<F: DiffFlavor>(
    l: Layout,
    b: Set<NodeId>,
    x: NodeId,
    t: ValueTable,
    u: Updates<usize, usize>,
    opts: BuildOptions,
    flavor: F,
) -> bool
    decreases u, 5nat, 0int,
{
    &&& l.children_of()[x].len() == entries_count(u)
    &&& children_changes(l, x, nested_count(u), item_changes(u))
    &&& nested_show(l, b.insert(x), l.children_of()[x], 0, t, u, None, opts, flavor)
    &&& items_show(l, b.insert(x), l.children_of()[x], nested_count(u), t, item_values(u), item_changes(u), None, opts, flavor)
}

/// The first `k` updated fields in `order` show among the children `kids`,
/// each from the position the fields before it take up: a field replaced by
/// a struct or enum as its old value deleted, then its new value inserted; a
/// field with changes inside as its own diff, unchanged, named by the field;
/// a field shown as a changed attribute takes no child.
pub open spec fn fields_show<F: DiffFlavor>(
    l: Layout,
    b: Set<NodeId>,
    kids: Seq<NodeId>,
    t: ValueTable,
    updates: Seq<(String, Diff<usize, usize>)>,
    order: Seq<usize>,
    from: Option<usize>,
    to: Option<usize>,
    opts: BuildOptions,
    flavor: F,
    k: int,
) -> bool
    decreases updates, 1nat, k,
{
    if k <= 0 {
        true
    } else {
        &&& fields_show(l, b, kids, t, updates, order, from, to, opts, flavor, k - 1)
        &&& if k - 1 < order.len() && order[k - 1] < updates.len() {
            let e = updates[order[k - 1] as int];
            let ff = field_named(t, from, e.0@);
            let ft = field_named(t, to, e.0@);
            let fs = field_shown_as(t, e.1, ff, ft);
            let at = field_children(t, updates, order, from, to, k - 1);
            if fs.0 == 1 {
                &&& peek_shows(l, b, kids[at], t, fs.1, ElementChange::Deleted, Some(e.0@), opts, flavor)
                &&& peek_shows(l, b, kids[at + 1], t, fs.2, ElementChange::Inserted, Some(e.0@), opts, flavor)
            } else if fs.0 == 2 {
                shows(l, b, kids[at], t, e.1, ff, ft, ElementChange::Unchanged, Some(e.0@), opts, flavor)
            } else {
                true
            }
        } else {
            true
        }
    }
}

/// A diff's own `from` and `to` values, as a nested diff in a sequence is
/// built with them: a replacement carries its two values, other diffs none.
pub open spec fn diff_sides(d: Diff<usize, usize>) -> (Option<usize>, Option<usize>) {
    match d {
        Diff::Replace { from, to } => (Some(from), Some(to)),
        _ => (None, None),
    }
}

/// The first `k` of the diffs `ds` show at the children of `kids` from `at`
/// on, one each, unchanged, with field name `fname`.
pub open spec fn run_show<F: DiffFlavor>(
    l: Layout,
    b: Set<NodeId>,
    kids: Seq<NodeId>,
    at: int,
    t: ValueTable,
    ds: Seq<Diff<usize, usize>>,
    fname: Option<Seq<char>>,
    opts: BuildOptions,
    flavor: F,
    k: int,
) -> bool
    decreases ds, 1nat, k,
{
    if k <= 0 {
        true
    } else {
        &&& run_show(l, b, kids, at, t, ds, fname, opts, flavor, k - 1)
        &&& k - 1 < ds.len() ==> {
            &&& 0 <= at
            &&& at + k - 1 < kids.len()
            &&& shows(l, b, kids[at + k - 1], t, ds[k - 1], diff_sides(ds[k - 1]).0, diff_sides(ds[k - 1]).1,
                ElementChange::Unchanged, fname, opts, flavor)
        }
    }
}

/// The nested diffs of the first `k` pairs of an updates group show at the
/// children of `kids` from `at` on, in order.
pub open spec fn group_pairs_show<F: DiffFlavor>(
    l: Layout,
    b: Set<NodeId>,
    kids: Seq<NodeId>,
    at: int,
    t: ValueTable,
    vals: Seq<(Vec<Diff<usize, usize>>, ReplaceGroup<usize>)>,
    fname: Option<Seq<char>>,
    opts: BuildOptions,
    flavor: F,
    k: int,
) -> bool
    decreases vals, 1nat, k,
{
    if k <= 0 {
        true
    } else {
        &&& group_pairs_show(l, b, kids, at, t, vals, fname, opts, flavor, k - 1)
        &&& k - 1 < vals.len() ==> run_show(l, b, kids, at + pair_diffs(vals, k - 1), t, vals[k - 1].0@, fname, opts, flavor,
            vals[k - 1].0@.len() as int)
    }
}

/// The nested diffs of an updates group show at the children of `kids` from
/// `at` on, in order.
pub open spec fn group_show<F: DiffFlavor>(
    l: Layout,
    b: Set<NodeId>,
    kids: Seq<NodeId>,
    at: int,
    t: ValueTable,
    g: UpdatesGroup<usize, usize>,
    fname: Option<Seq<char>>,
    opts: BuildOptions,
    flavor: F,
) -> bool
    decreases g, 2nat, 0int,
{
    &&& group_pairs_show(l, b, kids, at, t, g.0.values@, fname, opts, flavor, g.0.values@.len() as int)
    &&& match g.0.last {
        Some(ds) => run_show(l, b, kids, at + pair_diffs(g.0.values@, g.0.values@.len() as int), t, ds@, fname, opts, flavor,
            ds@.len() as int),
        None => true,
    }
}

/// The nested diffs of the groups of the first `k` pairs of updates show at
/// the children of `kids` from `at` on, in order.
pub open spec fn update_pairs_show<F: DiffFlavor>(
    l: Layout,
    b: Set<NodeId>,
    kids: Seq<NodeId>,
    at: int,
    t: ValueTable,
    vals: Seq<(Vec<usize>, UpdatesGroup<usize, usize>)>,
    fname: Option<Seq<char>>,
    opts: BuildOptions,
    flavor: F,
    k: int,
) -> bool
    decreases vals, 3nat, k,
{
    if k <= 0 {
        true
    } else {
        &&& update_pairs_show(l, b, kids, at, t, vals, fname, opts, flavor, k - 1)
        &&& k - 1 < vals.len() ==> group_show(l, b, kids, at + pair_groups_nested(vals, k - 1), t, vals[k - 1].1, fname, opts, flavor)
    }
}

/// Every nested diff of sequence updates shows at the children of `kids`
/// from `at` on, in order: those of the leading group, then those of
/// each group after an unchanged run.
pub open spec fn nested_show<F: DiffFlavor>(
    l: Layout,
    b: Set<NodeId>,
    kids: Seq<NodeId>,
    at: int,
    t: ValueTable,
    u: Updates<usize, usize>,
    fname: Option<Seq<char>>,
    opts: BuildOptions,
    flavor: F,
) -> bool
    decreases u, 4nat, 0int,
{
    &&& match u.0.first {
        Some(g) => group_show(l, b, kids, at, t, g, fname, opts, flavor),
        None => true,
    }
    &&& update_pairs_show(l, b, kids, at + first_nested(u), t, u.0.values@, fname, opts, flavor, u.0.values@.len() as int)
}

/// How a layout may change without touching the nodes of a built part: every
/// node keeps its data, every node but `q` keeps its children (all nodes,
/// for `None`), and the arena's text only grows; the layout before is well
/// formed, and every node after is readable once the arena fits `u32`
/// offsets.
pub open spec fn kept_apart(pre: Layout, post: Layout, q: Option<NodeId>) -> bool {
    &&& forall|id: NodeId| #[trigger] pre.nodes().contains_key(id)
        ==> post.nodes().contains_key(id) && post.nodes()[id] == pre.nodes()[id]
    &&& forall|id: NodeId| #[trigger] pre.nodes().contains_key(id) && Some(id) != q
        ==> post.children_of()[id] == pre.children_of()[id]
    &&& arena_grew(pre.strings.chars(), post.strings.chars())
    &&& pre.well_formed()
    &&& post.strings.bytes().len() <= u32::MAX ==> forall|id: NodeId| #[trigger] post.nodes().contains_key(id)
        ==> node_ok(post, post.nodes()[id])
}

/// A fresh node stays fresh, for a smaller set that holds `q`.
proof fn lemma_fresh_stays(pre: Layout, post: Layout, bp: Set<NodeId>, bq: Set<NodeId>, q: Option<NodeId>, x: NodeId)
    requires
        fresh_node(pre, bp, x),
        kept_apart(pre, post, q),
        bq.subset_of(bp),
        q matches Some(n) ==> bq.contains(n),
    ensures
        fresh_node(post, bq, x),
        post.nodes()[x] == pre.nodes()[x],
        post.children_of()[x] == pre.children_of()[x],
{
    assert(pre.nodes().contains_key(x));
    if let Some(n) = q {
        assert(x != n);
    }
}

/// What a node shows whole stays shown as the layout changes apart from it.
pub proof fn lemma_peek_stays<F: DiffFlavor>(
    pre: Layout,
    post: Layout,
    bp: Set<NodeId>,
    bq: Set<NodeId>,
    q: Option<NodeId>,
    x: NodeId,
    t: ValueTable,
    v: usize,
    change: ElementChange,
    fname: Option<Seq<char>>,
    opts: BuildOptions,
    flavor: F,
)
    requires
        peek_shows(pre, bp, x, t, v, change, fname, opts, flavor),
        kept_apart(pre, post, q),
        bq.subset_of(bp),
        q matches Some(n) ==> bq.contains(n),
    ensures
        peek_shows(post, bq, x, t, v, change, fname, opts, flavor),
{
    lemma_fresh_stays(pre, post, bp, bq, q, x);
    lemma_content_stays(pre, post, x, t, v, change, opts, flavor);
}

/// What a node holds for a value shown whole stays as the arena grows.
proof fn lemma_content_stays<F: DiffFlavor>(
    pre: Layout,
    post: Layout,
    x: NodeId,
    t: ValueTable,
    v: usize,
    change: ElementChange,
    opts: BuildOptions,
    flavor: F,
)
    requires
        peek_content(pre, x, t, v, change, opts, flavor),
        post.nodes()[x] == pre.nodes()[x],
        arena_grew(pre.strings.chars(), post.strings.chars()),
        pre.strings.bytes().len() <= u32::MAX ==> node_ok(pre, pre.nodes()[x]),
    ensures
        peek_content(post, x, t, v, change, opts, flavor),
    decreases v,
{
    match pre.nodes()[x] {
        LayoutNode::Text { value, .. } => {
            lemma_text_stays(pre, post, value, pre.strings.text_of(value.span));
            lemma_attrs_shown_stay(pre, post, Seq::empty());
        },
        LayoutNode::Element { attrs, .. } => {
            lemma_attrs_shown_stay(pre, post, attrs@);
        },
        _ => {},
    }
    if v < t.values@.len() {
        if let ValueKind::SomeValue { inner } = t.values@[v as int].kind {
            if inner < v {
                lemma_content_stays(pre, post, x, t, inner, change, opts, flavor);
            }
        }
    }
}

/// What a node shows for a diff stays shown as the layout changes apart
/// from it.
pub proof fn lemma_shows_stay<F: DiffFlavor>(
    pre: Layout,
    post: Layout,
    bp: Set<NodeId>,
    bq: Set<NodeId>,
    q: Option<NodeId>,
    x: NodeId,
    t: ValueTable,
    d: Diff<usize, usize>,
    from: Option<usize>,
    to: Option<usize>,
    change: ElementChange,
    fname: Option<Seq<char>>,
    opts: BuildOptions,
    flavor: F,
)
    requires
        shows(pre, bp, x, t, d, from, to, change, fname, opts, flavor),
        kept_apart(pre, post, q),
        bq.subset_of(bp),
        q matches Some(n) ==> bq.contains(n),
    ensures
        shows(post, bq, x, t, d, from, to, change, fname, opts, flavor),
    decreases d, 0nat, 0int,
{
    lemma_fresh_stays(pre, post, bp, bq, q, x);
    match d {
        Diff::Equal { value } => {
            if let Some(p) = value {
                lemma_peek_stays(pre, post, bp, bq, q, x, t, p, ElementChange::Unchanged, fname, opts, flavor);
            } else if let LayoutNode::Text { value: v, .. } = pre.nodes()[x] {
                lemma_text_stays(pre, post, v, equal_text());
                lemma_attrs_shown_stay(pre, post, Seq::empty());
            }
        },
        Diff::Replace { from: a, to: z } => {
            let kids = pre.children_of()[x];
            lemma_peek_stays(pre, post, bp.insert(x), bq.insert(x), q, kids[0], t, a, ElementChange::Deleted, None, opts, flavor);
            lemma_peek_stays(pre, post, bp.insert(x), bq.insert(x), q, kids[1], t, z, ElementChange::Inserted, None, opts, flavor);
        },
        Diff::User { from: s, variant, value, .. } => {
            match value {
                Value::Struct { updates, deletions, insertions, unchanged } => {
                    let tag = if variant is Some && shape_is_enum(t, s) { variant_tag_of(t, s, variant->0) } else { shape_tag(t, s) };
                    lemma_struct_body_stay(pre, post, bp, bq, q, x, t, tag, updates@, deletions@, insertions@, unchanged@, from, to,
                        change, fname, opts, flavor);
                },
                Value::Tuple { updates } => {
                    if updates_show(pre, bp, x, t, updates, opts, flavor) {
                        lemma_updates_stay(pre, post, bp, bq, q, x, t, updates, opts, flavor);
                    }
                    if !shape_is_option(t, s) && variant is Some && shape_is_enum(t, s) {
                        lemma_enum_tuple_stay(pre, post, bp, bq, q, x, t, variant_tag_of(t, s, variant->0), updates,
                            first_field_of(t, from), first_field_of(t, to), change, fname, opts, flavor);
                    }
                    let one = seq![x];
                    assert(one.subrange(0, 1) =~= one);
                    if nested_show(pre, bp, one, 0, t, updates, fname, opts, flavor) {
                        lemma_nested_stay(pre, post, bp, bq, q, one, one, 0, t, updates, fname, opts, flavor);
                    }
                    if items_show(pre, bp, one, nested_count(updates), t, item_values(updates), item_changes(updates), fname, opts,
                        flavor) {
                        lemma_items_stay(pre, post, bp, bq, q, one, one, nested_count(updates), t, item_values(updates),
                            item_changes(updates), fname, opts, flavor);
                    }
                },
            }
        },
        Diff::Sequence { updates, .. } => {
            lemma_updates_stay(pre, post, bp, bq, q, x, t, updates, opts, flavor);
        },
    }
}

/// The first `k` updated fields of a struct diff stay shown as the layout
/// changes apart from them, and as their children list grows at its end.
pub proof fn lemma_fields_stay<F: DiffFlavor>(
    pre: Layout,
    post: Layout,
    bp: Set<NodeId>,
    bq: Set<NodeId>,
    q: Option<NodeId>,
    kids: Seq<NodeId>,
    more: Seq<NodeId>,
    t: ValueTable,
    updates: Seq<(String, Diff<usize, usize>)>,
    order: Seq<usize>,
    from: Option<usize>,
    to: Option<usize>,
    opts: BuildOptions,
    flavor: F,
    k: int,
)
    requires
        fields_show(pre, bp, kids, t, updates, order, from, to, opts, flavor, k),
        kept_apart(pre, post, q),
        bq.subset_of(bp),
        q matches Some(n) ==> bq.contains(n),
        kids.len() <= more.len(),
        more.subrange(0, kids.len() as int) == kids,
        field_children(t, updates, order, from, to, k) <= kids.len(),
    ensures
        fields_show(post, bq, more, t, updates, order, from, to, opts, flavor, k),
    decreases updates, 1nat, k,
{
    if k > 0 {
        let j = k - 1;
        lemma_field_children_grow(t, updates, order, from, to, j, k);
        lemma_fields_stay(pre, post, bp, bq, q, kids, more, t, updates, order, from, to, opts, flavor, j);
        if j < order.len() && order[j] < updates.len() {
            let e = updates[order[j] as int];
            let ff = field_named(t, from, e.0@);
            let ft = field_named(t, to, e.0@);
            let fs = field_shown_as(t, e.1, ff, ft);
            let at = field_children(t, updates, order, from, to, j);
            lemma_field_children_grow(t, updates, order, from, to, 0, j);
            if fs.0 == 1 {
                assert(more.subrange(0, kids.len() as int)[at] == more[at]);
                assert(more.subrange(0, kids.len() as int)[at + 1] == more[at + 1]);
                lemma_peek_stays(pre, post, bp, bq, q, kids[at], t, fs.1, ElementChange::Deleted, Some(e.0@), opts, flavor);
                lemma_peek_stays(pre, post, bp, bq, q, kids[at + 1], t, fs.2, ElementChange::Inserted, Some(e.0@), opts, flavor);
            } else if fs.0 == 2 {
                assert(more.subrange(0, kids.len() as int)[at] == more[at]);
                lemma_shows_stay(pre, post, bp, bq, q, kids[at], t, e.1, ff, ft, ElementChange::Unchanged, Some(e.0@), opts, flavor);
            }
        }
    }
}

/// A struct diff's element stays shown as the layout changes apart from it.
pub proof fn lemma_struct_body_stay<F: DiffFlavor>(
    pre: Layout,
    post: Layout,
    bp: Set<NodeId>,
    bq: Set<NodeId>,
    q: Option<NodeId>,
    x: NodeId,
    t: ValueTable,
    tag: Seq<char>,
    updates: Seq<(String, Diff<usize, usize>)>,
    deletions: Seq<(String, usize)>,
    insertions: Seq<(String, usize)>,
    unchanged: Seq<String>,
    from: Option<usize>,
    to: Option<usize>,
    change: ElementChange,
    fname: Option<Seq<char>>,
    opts: BuildOptions,
    flavor: F,
)
    requires
        struct_body(pre, bp, x, t, tag, updates, deletions, insertions, unchanged, from, to, change, fname, opts, flavor),
        fresh_node(pre, bp, x),
        kept_apart(pre, post, q),
        bq.subset_of(bp),
        q matches Some(n) ==> bq.contains(n),
    ensures
        struct_body(post, bq, x, t, tag, updates, deletions, insertions, unchanged, from, to, change, fname, opts, flavor),
    decreases updates, 2nat, 0int,
{
    lemma_fresh_stays(pre, post, bp, bq, q, x);
    if let LayoutNode::Element { attrs, .. } = pre.nodes()[x] {
        lemma_attrs_shown_stay(pre, post, attrs@);
    }
    let kids = pre.children_of()[x];
    assert(kids.subrange(0, kids.len() as int) =~= kids);
    lemma_field_children_grow(t, updates, sorted_order(entry_names(updates), updates.len()), from, to, 0,
        updates.len() as int);
    if kids.len() > 0 {
        assert(pre.children_of().contains_key(x));
        assert(pre.nodes().contains_key(kids[kids.len() - 1]));
        assert(post.children_of()[x] == kids);
        assert(post.nodes()[kids.last()] == pre.nodes()[kids.last()]);
    }
    lemma_fields_stay(pre, post, bp.insert(x), bq.insert(x), q, kids, kids, t, updates,
        sorted_order(entry_names(updates), updates.len()), from, to, opts, flavor, updates.len() as int);
}

/// An enum variant shown by its single nested diff stays shown.
pub proof fn lemma_variant_diff_stay<F: DiffFlavor>(
    pre: Layout,
    post: Layout,
    bp: Set<NodeId>,
    bq: Set<NodeId>,
    q: Option<NodeId>,
    x: NodeId,
    t: ValueTable,
    tag: Seq<char>,
    d: Diff<usize, usize>,
    from: Option<usize>,
    to: Option<usize>,
    change: ElementChange,
    fname: Option<Seq<char>>,
    opts: BuildOptions,
    flavor: F,
)
    requires
        variant_diff_show(pre, bp, x, t, tag, d, from, to, change, fname, opts, flavor),
        fresh_node(pre, bp, x),
        kept_apart(pre, post, q),
        bq.subset_of(bp),
        q matches Some(n) ==> bq.contains(n),
    ensures
        variant_diff_show(post, bq, x, t, tag, d, from, to, change, fname, opts, flavor),
    decreases d, 3nat, 0int,
{
    lemma_fresh_stays(pre, post, bp, bq, q, x);
    match d {
        Diff::User { value: Value::Struct { updates, deletions, insertions, unchanged }, .. } => {
            lemma_struct_body_stay(pre, post, bp, bq, q, x, t, tag, updates@, deletions@, insertions@, unchanged@, from, to, change,
                fname, opts, flavor);
        },
        Diff::Replace { .. } => {
            if let LayoutNode::Element { attrs, .. } = pre.nodes()[x] {
                lemma_attrs_shown_stay(pre, post, attrs@);
            }
        },
        _ => {},
    }
}

/// An enum variant shown by the first run of one nested diff stays shown.
pub proof fn lemma_enum_runs_stay<F: DiffFlavor>(
    pre: Layout,
    post: Layout,
    bp: Set<NodeId>,
    bq: Set<NodeId>,
    q: Option<NodeId>,
    x: NodeId,
    t: ValueTable,
    tag: Seq<char>,
    vals: Seq<(Vec<Diff<usize, usize>>, ReplaceGroup<usize>)>,
    from: Option<usize>,
    to: Option<usize>,
    change: ElementChange,
    fname: Option<Seq<char>>,
    fb_pre: bool,
    fb_post: bool,
    opts: BuildOptions,
    flavor: F,
    k: int,
)
    requires
        enum_runs_show(pre, bp, x, t, tag, vals, from, to, change, fname, fb_pre, opts, flavor, k),
        fb_pre ==> fb_post,
        fresh_node(pre, bp, x),
        kept_apart(pre, post, q),
        bq.subset_of(bp),
        q matches Some(n) ==> bq.contains(n),
    ensures
        enum_runs_show(post, bq, x, t, tag, vals, from, to, change, fname, fb_post, opts, flavor, k),
    decreases vals, 4nat, vals.len() - k,
{
    if 0 <= k < vals.len() {
        if vals[k].0@.len() == 1 {
            if variant_diff_taken(vals[k].0@[0]) {
                lemma_variant_diff_stay(pre, post, bp, bq, q, x, t, tag, vals[k].0@[0], from, to, change, fname, opts, flavor);
            }
        } else {
            lemma_enum_runs_stay(pre, post, bp, bq, q, x, t, tag, vals, from, to, change, fname, fb_pre, fb_post, opts, flavor, k + 1);
        }
    }
}

/// An enum variant shown by the leading group of its updates stays shown.
pub proof fn lemma_enum_group_stay<F: DiffFlavor>(
    pre: Layout,
    post: Layout,
    bp: Set<NodeId>,
    bq: Set<NodeId>,
    q: Option<NodeId>,
    x: NodeId,
    t: ValueTable,
    tag: Seq<char>,
    g: UpdatesGroup<usize, usize>,
    from: Option<usize>,
    to: Option<usize>,
    change: ElementChange,
    fname: Option<Seq<char>>,
    fb_pre: bool,
    fb_post: bool,
    opts: BuildOptions,
    flavor: F,
)
    requires
        enum_group_show(pre, bp, x, t, tag, g, from, to, change, fname, fb_pre, opts, flavor),
        fb_pre ==> fb_post,
        fresh_node(pre, bp, x),
        kept_apart(pre, post, q),
        bq.subset_of(bp),
        q matches Some(n) ==> bq.contains(n),
    ensures
        enum_group_show(post, bq, x, t, tag, g, from, to, change, fname, fb_post, opts, flavor),
    decreases g, 5nat, 0int,
{
    lemma_fresh_stays(pre, post, bp, bq, q, x);
    if g.0.first is Some && g.0.first->0.removals@.len() == 1 && g.0.first->0.additions@.len() == 1 {
        if let LayoutNode::Element { attrs, .. } = pre.nodes()[x] {
            lemma_attrs_shown_stay(pre, post, attrs@);
        }
    } else if g.0.last is Some && g.0.last->0@.len() == 1 {
        if variant_diff_taken(g.0.last->0@[0]) {
            lemma_variant_diff_stay(pre, post, bp, bq, q, x, t, tag, g.0.last->0@[0], from, to, change, fname, opts, flavor);
        }
    } else {
        lemma_enum_runs_stay(pre, post, bp, bq, q, x, t, tag, g.0.values@, from, to, change, fname, fb_pre, fb_post, opts, flavor, 0);
    }
}

/// An enum variant with unnamed fields stays shown.
pub proof fn lemma_enum_tuple_stay<F: DiffFlavor>(
    pre: Layout,
    post: Layout,
    bp: Set<NodeId>,
    bq: Set<NodeId>,
    q: Option<NodeId>,
    x: NodeId,
    t: ValueTable,
    tag: Seq<char>,
    u: Updates<usize, usize>,
    from: Option<usize>,
    to: Option<usize>,
    change: ElementChange,
    fname: Option<Seq<char>>,
    opts: BuildOptions,
    flavor: F,
)
    requires
        enum_tuple_show(pre, bp, x, t, tag, u, from, to, change, fname, opts, flavor),
        fresh_node(pre, bp, x),
        kept_apart(pre, post, q),
        bq.subset_of(bp),
        q matches Some(n) ==> bq.contains(n),
    ensures
        enum_tuple_show(post, bq, x, t, tag, u, from, to, change, fname, opts, flavor),
    decreases u, 6nat, 0int,
{
    lemma_fresh_stays(pre, post, bp, bq, q, x);
    let fb_pre = {
        &&& pre.nodes()[x] matches LayoutNode::Element { tag: tg, field_name: f, change: c, .. }
            && tg@ == tag && name_view(f) == fname && c == change
        &&& node_grouped(pre, x, opts.max_line_width as int)
        &&& updates_show(pre, bp, x, t, u, opts, flavor)
    };
    let fb_post = {
        &&& post.nodes()[x] matches LayoutNode::Element { tag: tg, field_name: f, change: c, .. }
            && tg@ == tag && name_view(f) == fname && c == change
        &&& node_grouped(post, x, opts.max_line_width as int)
        &&& updates_show(post, bq, x, t, u, opts, flavor)
    };
    if updates_show(pre, bp, x, t, u, opts, flavor) {
        lemma_updates_stay(pre, post, bp, bq, q, x, t, u, opts, flavor);
    }
    assert(fb_pre ==> fb_post);
    if let Some(g) = u.0.first {
        lemma_enum_group_stay(pre, post, bp, bq, q, x, t, tag, g, from, to, change, fname, fb_pre, fb_post, opts, flavor);
    }
}

/// Runs of other than one nested diff are passed over.
pub proof fn lemma_enum_runs_skip<F: DiffFlavor>(
    l: Layout,
    b: Set<NodeId>,
    x: NodeId,
    t: ValueTable,
    tag: Seq<char>,
    vals: Seq<(Vec<Diff<usize, usize>>, ReplaceGroup<usize>)>,
    from: Option<usize>,
    to: Option<usize>,
    change: ElementChange,
    fname: Option<Seq<char>>,
    fallback: bool,
    opts: BuildOptions,
    flavor: F,
    i: int,
    k: int,
)
    requires
        0 <= i <= k <= vals.len(),
        forall|j: int| i <= j < k ==> (#[trigger] vals[j]).0@.len() != 1,
        enum_runs_show(l, b, x, t, tag, vals, from, to, change, fname, fallback, opts, flavor, k),
    ensures
        enum_runs_show(l, b, x, t, tag, vals, from, to, change, fname, fallback, opts, flavor, i),
    decreases k - i,
{
    if i < k {
        lemma_enum_runs_skip(l, b, x, t, tag, vals, from, to, change, fname, fallback, opts, flavor, i + 1, k);
        assert(vals[i].0@.len() != 1);
    }
}

/// The children of a node that show sequence updates stay shown as the
/// layout changes apart from the node.
pub proof fn lemma_updates_stay<F: DiffFlavor>(
    pre: Layout,
    post: Layout,
    bp: Set<NodeId>,
    bq: Set<NodeId>,
    q: Option<NodeId>,
    x: NodeId,
    t: ValueTable,
    u: Updates<usize, usize>,
    opts: BuildOptions,
    flavor: F,
)
    requires
        updates_show(pre, bp, x, t, u, opts, flavor),
        fresh_node(pre, bp, x),
        kept_apart(pre, post, q),
        bq.subset_of(bp),
        q matches Some(n) ==> bq.contains(n),
    ensures
        updates_show(post, bq, x, t, u, opts, flavor),
    decreases u, 5nat, 0int,
{
    lemma_fresh_stays(pre, post, bp, bq, q, x);
    let kids = pre.children_of()[x];
    let cs = item_changes(u);
    let at = nested_count(u);
    assert(kids.subrange(0, kids.len() as int) =~= kids);
    lemma_nested_stay(pre, post, bp.insert(x), bq.insert(x), q, kids, kids, 0, t, u, None, opts, flavor);
    lemma_items_stay(pre, post, bp.insert(x), bq.insert(x), q, kids, kids, at, t, item_values(u), cs, None, opts, flavor);
    assert forall|i: int| 0 <= i < cs.len()
        implies node_change(post.nodes()[post.children_of()[x][at + i]]) == #[trigger] cs[i] by {
        assert(pre.children_of().contains_key(x));
        assert(pre.nodes().contains_key(kids[at + i]));
    }
}

/// A run of nested diffs stays shown as the layout changes apart from it
/// and as the children list grows at its end.
pub proof fn lemma_run_stay<F: DiffFlavor>(
    pre: Layout,
    post: Layout,
    bp: Set<NodeId>,
    bq: Set<NodeId>,
    q: Option<NodeId>,
    kids: Seq<NodeId>,
    more: Seq<NodeId>,
    at: int,
    t: ValueTable,
    ds: Seq<Diff<usize, usize>>,
    fname: Option<Seq<char>>,
    opts: BuildOptions,
    flavor: F,
    k: int,
)
    requires
        run_show(pre, bp, kids, at, t, ds, fname, opts, flavor, k),
        kept_apart(pre, post, q),
        bq.subset_of(bp),
        q matches Some(n) ==> bq.contains(n),
        kids.len() <= more.len(),
        more.subrange(0, kids.len() as int) == kids,
    ensures
        run_show(post, bq, more, at, t, ds, fname, opts, flavor, k),
    decreases ds, 1nat, k,
{
    if k > 0 {
        lemma_run_stay(pre, post, bp, bq, q, kids, more, at, t, ds, fname, opts, flavor, k - 1);
        if k - 1 < ds.len() {
            let d = ds[k - 1];
            assert(more.subrange(0, kids.len() as int)[at + k - 1] == more[at + k - 1]);
            lemma_shows_stay(pre, post, bp, bq, q, kids[at + k - 1], t, d, diff_sides(d).0, diff_sides(d).1,
                ElementChange::Unchanged, fname, opts, flavor);
        }
    }
}

/// The nested diffs of pairs of an updates group stay shown.
pub proof fn lemma_group_pairs_stay<F: DiffFlavor>(
    pre: Layout,
    post: Layout,
    bp: Set<NodeId>,
    bq: Set<NodeId>,
    q: Option<NodeId>,
    kids: Seq<NodeId>,
    more: Seq<NodeId>,
    at: int,
    t: ValueTable,
    vals: Seq<(Vec<Diff<usize, usize>>, ReplaceGroup<usize>)>,
    fname: Option<Seq<char>>,
    opts: BuildOptions,
    flavor: F,
    k: int,
)
    requires
        group_pairs_show(pre, bp, kids, at, t, vals, fname, opts, flavor, k),
        kept_apart(pre, post, q),
        bq.subset_of(bp),
        q matches Some(n) ==> bq.contains(n),
        kids.len() <= more.len(),
        more.subrange(0, kids.len() as int) == kids,
    ensures
        group_pairs_show(post, bq, more, at, t, vals, fname, opts, flavor, k),
    decreases vals, 1nat, k,
{
    if k > 0 {
        lemma_group_pairs_stay(pre, post, bp, bq, q, kids, more, at, t, vals, fname, opts, flavor, k - 1);
        if k - 1 < vals.len() {
            lemma_run_stay(pre, post, bp, bq, q, kids, more, at + pair_diffs(vals, k - 1), t, vals[k - 1].0@, fname, opts, flavor,
                vals[k - 1].0@.len() as int);
        }
    }
}

/// The nested diffs of an updates group stay shown.
pub proof fn lemma_group_stay<F: DiffFlavor>(
    pre: Layout,
    post: Layout,
    bp: Set<NodeId>,
    bq: Set<NodeId>,
    q: Option<NodeId>,
    kids: Seq<NodeId>,
    more: Seq<NodeId>,
    at: int,
    t: ValueTable,
    g: UpdatesGroup<usize, usize>,
    fname: Option<Seq<char>>,
    opts: BuildOptions,
    flavor: F,
)
    requires
        group_show(pre, bp, kids, at, t, g, fname, opts, flavor),
        kept_apart(pre, post, q),
        bq.subset_of(bp),
        q matches Some(n) ==> bq.contains(n),
        kids.len() <= more.len(),
        more.subrange(0, kids.len() as int) == kids,
    ensures
        group_show(post, bq, more, at, t, g, fname, opts, flavor),
    decreases g, 2nat, 0int,
{
    lemma_group_pairs_stay(pre, post, bp, bq, q, kids, more, at, t, g.0.values@, fname, opts, flavor, g.0.values@.len() as int);
    if let Some(ds) = g.0.last {
        lemma_run_stay(pre, post, bp, bq, q, kids, more, at + pair_diffs(g.0.values@, g.0.values@.len() as int), t, ds@, fname,
            opts, flavor, ds@.len() as int);
    }
}

/// The nested diffs of the groups of pairs of updates stay shown.
pub proof fn lemma_update_pairs_stay<F: DiffFlavor>(
    pre: Layout,
    post: Layout,
    bp: Set<NodeId>,
    bq: Set<NodeId>,
    q: Option<NodeId>,
    kids: Seq<NodeId>,
    more: Seq<NodeId>,
    at: int,
    t: ValueTable,
    vals: Seq<(Vec<usize>, UpdatesGroup<usize, usize>)>,
    fname: Option<Seq<char>>,
    opts: BuildOptions,
    flavor: F,
    k: int,
)
    requires
        update_pairs_show(pre, bp, kids, at, t, vals, fname, opts, flavor, k),
        kept_apart(pre, post, q),
        bq.subset_of(bp),
        q matches Some(n) ==> bq.contains(n),
        kids.len() <= more.len(),
        more.subrange(0, kids.len() as int) == kids,
    ensures
        update_pairs_show(post, bq, more, at, t, vals, fname, opts, flavor, k),
    decreases vals, 3nat, k,
{
    if k > 0 {
        lemma_update_pairs_stay(pre, post, bp, bq, q, kids, more, at, t, vals, fname, opts, flavor, k - 1);
        if k - 1 < vals.len() {
            lemma_group_stay(pre, post, bp, bq, q, kids, more, at + pair_groups_nested(vals, k - 1), t, vals[k - 1].1, fname, opts,
                flavor);
        }
    }
}

/// Every nested diff of sequence updates stays shown.
pub proof fn lemma_nested_stay<F: DiffFlavor>(
    pre: Layout,
    post: Layout,
    bp: Set<NodeId>,
    bq: Set<NodeId>,
    q: Option<NodeId>,
    kids: Seq<NodeId>,
    more: Seq<NodeId>,
    at: int,
    t: ValueTable,
    u: Updates<usize, usize>,
    fname: Option<Seq<char>>,
    opts: BuildOptions,
    flavor: F,
)
    requires
        nested_show(pre, bp, kids, at, t, u, fname, opts, flavor),
        kept_apart(pre, post, q),
        bq.subset_of(bp),
        q matches Some(n) ==> bq.contains(n),
        kids.len() <= more.len(),
        more.subrange(0, kids.len() as int) == kids,
    ensures
        nested_show(post, bq, more, at, t, u, fname, opts, flavor),
    decreases u, 4nat, 0int,
{
    if let Some(g) = u.0.first {
        lemma_group_stay(pre, post, bp, bq, q, kids, more, at, t, g, fname, opts, flavor);
    }
    lemma_update_pairs_stay(pre, post, bp, bq, q, kids, more, at + first_nested(u), t, u.0.values@, fname, opts, flavor,
        u.0.values@.len() as int);
}

/// Children that agree from `lo` on, shifted by `delta`: what `kids` holds
/// at `i` (from `lo` on), `more` holds at `i + delta`.
pub open spec fn shifted(kids: Seq<NodeId>, more: Seq<NodeId>, lo: int, delta: int) -> bool {
    &&& 0 <= lo + delta
    &&& kids.len() + delta <= more.len()
    &&& forall|i: int| lo <= i < kids.len() ==> #[trigger] more[i + delta] == kids[i]
}

/// A run of nested diffs shows at the same nodes in shifted children.
pub proof fn lemma_run_shift<F: DiffFlavor>(
    l: Layout,
    b: Set<NodeId>,
    kids: Seq<NodeId>,
    more: Seq<NodeId>,
    lo: int,
    delta: int,
    at: int,
    t: ValueTable,
    ds: Seq<Diff<usize, usize>>,
    fname: Option<Seq<char>>,
    opts: BuildOptions,
    flavor: F,
    k: int,
)
    requires
        run_show(l, b, kids, at, t, ds, fname, opts, flavor, k),
        shifted(kids, more, lo, delta),
        lo <= at,
    ensures
        run_show(l, b, more, at + delta, t, ds, fname, opts, flavor, k),
    decreases k,
{
    if k > 0 {
        lemma_run_shift(l, b, kids, more, lo, delta, at, t, ds, fname, opts, flavor, k - 1);
        if k - 1 < ds.len() {
            assert(more[(at + k - 1) + delta] == kids[at + k - 1]);
            assert(at + delta + k - 1 == (at + k - 1) + delta);
        }
    }
}

/// The nested diffs of the first `k` pairs of an updates group are never
/// fewer than none.
pub proof fn lemma_pair_diffs_nonneg(vals: Seq<(Vec<Diff<usize, usize>>, ReplaceGroup<usize>)>, k: int)
    ensures
        pair_diffs(vals, k) >= 0,
    decreases k,
{
    if k > 0 {
        lemma_pair_diffs_nonneg(vals, k - 1);
    }
}

/// The nested diffs of the groups of the first `j` pairs of updates are
/// never fewer than none.
pub proof fn lemma_pair_groups_nonneg(groups: Seq<(Vec<usize>, UpdatesGroup<usize, usize>)>, j: int)
    ensures
        pair_groups_nested(groups, j) >= 0,
    decreases j,
{
    if j > 0 {
        lemma_pair_groups_nonneg(groups, j - 1);
        lemma_pair_diffs_nonneg(groups[j - 1].1.0.values@, groups[j - 1].1.0.values@.len() as int);
    }
}

/// Sequence updates never hold fewer than no nested diffs.
pub proof fn lemma_nested_count_nonneg(u: Updates<usize, usize>)
    ensures
        nested_count(u) >= 0,
{
    lemma_pair_groups_nonneg(u.0.values@, u.0.values@.len() as int);
    if let Some(g) = u.0.first {
        lemma_pair_diffs_nonneg(g.0.values@, g.0.values@.len() as int);
    }
}

/// The nested diffs of an updates group show at the same nodes in shifted children.
pub proof fn lemma_group_shift<F: DiffFlavor>(
    l: Layout,
    b: Set<NodeId>,
    kids: Seq<NodeId>,
    more: Seq<NodeId>,
    lo: int,
    delta: int,
    at: int,
    t: ValueTable,
    g: UpdatesGroup<usize, usize>,
    fname: Option<Seq<char>>,
    opts: BuildOptions,
    flavor: F,
)
    requires
        group_show(l, b, kids, at, t, g, fname, opts, flavor),
        shifted(kids, more, lo, delta),
        lo <= at,
    ensures
        group_show(l, b, more, at + delta, t, g, fname, opts, flavor),
{
    let vals = g.0.values@;
    lemma_group_pairs_shift(l, b, kids, more, lo, delta, at, t, vals, fname, opts, flavor, vals.len() as int);
    if let Some(ds) = g.0.last {
        lemma_pair_diffs_nonneg(vals, vals.len() as int);
        lemma_run_shift(l, b, kids, more, lo, delta, at + pair_diffs(vals, vals.len() as int), t, ds@, fname, opts, flavor,
            ds@.len() as int);
    }
}

/// The nested diffs of pairs of an updates group show at the same nodes in shifted children.
pub proof fn lemma_group_pairs_shift<F: DiffFlavor>(
    l: Layout,
    b: Set<NodeId>,
    kids: Seq<NodeId>,
    more: Seq<NodeId>,
    lo: int,
    delta: int,
    at: int,
    t: ValueTable,
    vals: Seq<(Vec<Diff<usize, usize>>, ReplaceGroup<usize>)>,
    fname: Option<Seq<char>>,
    opts: BuildOptions,
    flavor: F,
    k: int,
)
    requires
        group_pairs_show(l, b, kids, at, t, vals, fname, opts, flavor, k),
        shifted(kids, more, lo, delta),
        lo <= at,
    ensures
        group_pairs_show(l, b, more, at + delta, t, vals, fname, opts, flavor, k),
    decreases k,
{
    if k > 0 {
        lemma_group_pairs_shift(l, b, kids, more, lo, delta, at, t, vals, fname, opts, flavor, k - 1);
        if k - 1 < vals.len() {
            lemma_pair_diffs_nonneg(vals, k - 1);
            lemma_run_shift(l, b, kids, more, lo, delta, at + pair_diffs(vals, k - 1), t, vals[k - 1].0@, fname, opts, flavor,
                vals[k - 1].0@.len() as int);
            assert(at + pair_diffs(vals, k - 1) + delta == at + delta + pair_diffs(vals, k - 1));
        }
    }
}

/// The nested diffs of the groups of pairs of updates show at the same nodes
/// in shifted children.
pub proof fn lemma_update_pairs_shift<F: DiffFlavor>(
    l: Layout,
    b: Set<NodeId>,
    kids: Seq<NodeId>,
    more: Seq<NodeId>,
    lo: int,
    delta: int,
    at: int,
    t: ValueTable,
    vals: Seq<(Vec<usize>, UpdatesGroup<usize, usize>)>,
    fname: Option<Seq<char>>,
    opts: BuildOptions,
    flavor: F,
    k: int,
)
    requires
        update_pairs_show(l, b, kids, at, t, vals, fname, opts, flavor, k),
        shifted(kids, more, lo, delta),
        lo <= at,
    ensures
        update_pairs_show(l, b, more, at + delta, t, vals, fname, opts, flavor, k),
    decreases k,
{
    if k > 0 {
        lemma_update_pairs_shift(l, b, kids, more, lo, delta, at, t, vals, fname, opts, flavor, k - 1);
        if k - 1 < vals.len() {
            lemma_pair_groups_nonneg(vals, k - 1);
            lemma_group_shift(l, b, kids, more, lo, delta, at + pair_groups_nested(vals, k - 1), t, vals[k - 1].1, fname, opts,
                flavor);
            assert(at + pair_groups_nested(vals, k - 1) + delta == at + delta + pair_groups_nested(vals, k - 1));
        }
    }
}

/// Every nested diff of sequence updates shows at the same nodes in shifted children.
pub proof fn lemma_nested_shift<F: DiffFlavor>(
    l: Layout,
    b: Set<NodeId>,
    kids: Seq<NodeId>,
    more: Seq<NodeId>,
    lo: int,
    delta: int,
    at: int,
    t: ValueTable,
    u: Updates<usize, usize>,
    fname: Option<Seq<char>>,
    opts: BuildOptions,
    flavor: F,
)
    requires
        nested_show(l, b, kids, at, t, u, fname, opts, flavor),
        shifted(kids, more, lo, delta),
        lo <= at,
    ensures
        nested_show(l, b, more, at + delta, t, u, fname, opts, flavor),
{
    if let Some(g) = u.0.first {
        lemma_group_shift(l, b, kids, more, lo, delta, at, t, g, fname, opts, flavor);
        lemma_pair_diffs_nonneg(g.0.values@, g.0.values@.len() as int);
    }
    lemma_update_pairs_shift(l, b, kids, more, lo, delta, at + first_nested(u), t, u.0.values@, fname, opts, flavor,
        u.0.values@.len() as int);
    assert(at + first_nested(u) + delta == at + delta + first_nested(u));
}

/// Items show at the same nodes in shifted children.
pub proof fn lemma_items_shift<F: DiffFlavor>(
    l: Layout,
    b: Set<NodeId>,
    kids: Seq<NodeId>,
    more: Seq<NodeId>,
    lo: int,
    delta: int,
    at: int,
    t: ValueTable,
    vs: Seq<usize>,
    cs: Seq<ElementChange>,
    fname: Option<Seq<char>>,
    opts: BuildOptions,
    flavor: F,
)
    requires
        items_show(l, b, kids, at, t, vs, cs, fname, opts, flavor),
        shifted(kids, more, lo, delta),
        lo <= at,
    ensures
        items_show(l, b, more, at + delta, t, vs, cs, fname, opts, flavor),
{
    assert forall|i: int| 0 <= i < vs.len() implies #[trigger] item_shows(l, b, more, at + delta, t, vs, cs, fname, opts, flavor, i) by {
        assert(item_shows(l, b, kids, at, t, vs, cs, fname, opts, flavor, i));
        assert(more[(at + i) + delta] == kids[at + i]);
        assert(at + delta + i == (at + i) + delta);
    }
}

/// The children of updated fields only add up.
pub proof fn lemma_field_children_grow(
    t: ValueTable,
    updates: Seq<(String, Diff<usize, usize>)>,
    order: Seq<usize>,
    from: Option<usize>,
    to: Option<usize>,
    i: int,
    k: int,
)
    requires
        i <= k,
    ensures
        field_children(t, updates, order, from, to, i) <= field_children(t, updates, order, from, to, k),
    decreases k - i,
{
    if i < k {
        lemma_field_children_grow(t, updates, order, from, to, i, k - 1);
    }
}

/// The values of a replace group, in the order the builder shows them:
/// removals, then additions.
pub open spec fn replace_values(r: ReplaceGroup<usize>) -> Seq<usize> {
    r.removals@ + r.additions@
}

/// The replaced values of the first `k` pairs of an updates group.
pub open spec fn pair_replace_values(vals: Seq<(Vec<Diff<usize, usize>>, ReplaceGroup<usize>)>, k: int) -> Seq<usize>
    decreases k,
{
    if k <= 0 { Seq::empty() } else { pair_replace_values(vals, k - 1) + replace_values(vals[k - 1].1) }
}

/// The values of an updates group's leading replace group.
pub open spec fn first_replace_values(g: UpdatesGroup<usize, usize>) -> Seq<usize> {
    match g.0.first {
        Some(r) => replace_values(r),
        None => Seq::empty(),
    }
}

/// The replaced values of an updates group, in order.
pub open spec fn group_item_values(g: UpdatesGroup<usize, usize>) -> Seq<usize> {
    first_replace_values(g) + pair_replace_values(g.0.values@, g.0.values@.len() as int)
}

/// The items of the first `k` pairs of updates: each unchanged run, then
/// the replaced values of its group.
pub open spec fn pair_group_item_values(vals: Seq<(Vec<usize>, UpdatesGroup<usize, usize>)>, k: int) -> Seq<usize>
    decreases k,
{
    if k <= 0 {
        Seq::empty()
    } else {
        pair_group_item_values(vals, k - 1) + vals[k - 1].0@ + group_item_values(vals[k - 1].1)
    }
}

/// The items of sequence updates, in the order the builder shows them (the
/// order of `item_changes`): the leading group's replaced values, each
/// unchanged run with the group after it, and the trailing unchanged run.
pub open spec fn item_values(u: Updates<usize, usize>) -> Seq<usize> {
    first_group_values(u) + pair_group_item_values(u.0.values@, u.0.values@.len() as int) + last_run_values(u)
}

/// The replaced values of the leading group of sequence updates.
pub open spec fn first_group_values(u: Updates<usize, usize>) -> Seq<usize> {
    match u.0.first {
        Some(g) => group_item_values(g),
        None => Seq::empty(),
    }
}

/// The values of the trailing unchanged run of sequence updates.
pub open spec fn last_run_values(u: Updates<usize, usize>) -> Seq<usize> {
    match u.0.last {
        Some(vs) => vs@,
        None => Seq::empty(),
    }
}

/// The child at `at + i` of `kids` shows the `i`-th of `vs` whole, with the
/// `i`-th of `cs`.
pub open spec fn item_shows<F: DiffFlavor>(
    l: Layout,
    b: Set<NodeId>,
    kids: Seq<NodeId>,
    at: int,
    t: ValueTable,
    vs: Seq<usize>,
    cs: Seq<ElementChange>,
    fname: Option<Seq<char>>,
    opts: BuildOptions,
    flavor: F,
    i: int,
) -> bool {
    peek_shows(l, b, kids[at + i], t, vs[i], cs[i], fname, opts, flavor)
}

/// The children of `kids` from `at` on show the values `vs` whole, each
/// with its change in `cs`.
pub open spec fn items_show<F: DiffFlavor>(
    l: Layout,
    b: Set<NodeId>,
    kids: Seq<NodeId>,
    at: int,
    t: ValueTable,
    vs: Seq<usize>,
    cs: Seq<ElementChange>,
    fname: Option<Seq<char>>,
    opts: BuildOptions,
    flavor: F,
) -> bool {
    &&& 0 <= at
    &&& at + vs.len() <= kids.len()
    &&& vs.len() == cs.len()
    &&& forall|i: int| 0 <= i < vs.len() ==> #[trigger] item_shows(l, b, kids, at, t, vs, cs, fname, opts, flavor, i)
}

/// Items shown stay shown as the layout changes apart from them and as the
/// children list grows at its end.
pub proof fn lemma_items_stay<F: DiffFlavor>(
    pre: Layout,
    post: Layout,
    bp: Set<NodeId>,
    bq: Set<NodeId>,
    q: Option<NodeId>,
    kids: Seq<NodeId>,
    more: Seq<NodeId>,
    at: int,
    t: ValueTable,
    vs: Seq<usize>,
    cs: Seq<ElementChange>,
    fname: Option<Seq<char>>,
    opts: BuildOptions,
    flavor: F,
)
    requires
        items_show(pre, bp, kids, at, t, vs, cs, fname, opts, flavor),
        kept_apart(pre, post, q),
        bq.subset_of(bp),
        q matches Some(n) ==> bq.contains(n),
        kids.len() <= more.len(),
        more.subrange(0, kids.len() as int) == kids,
    ensures
        items_show(post, bq, more, at, t, vs, cs, fname, opts, flavor),
{
    assert forall|i: int| 0 <= i < vs.len() implies #[trigger] item_shows(post, bq, more, at, t, vs, cs, fname, opts, flavor, i) by {
        assert(item_shows(pre, bp, kids, at, t, vs, cs, fname, opts, flavor, i));
        assert(more.subrange(0, kids.len() as int)[at + i] == more[at + i]);
        lemma_peek_stays(pre, post, bp, bq, q, kids[at + i], t, vs[i], cs[i], fname, opts, flavor);
    }
}

/// Items shown one after another join.
pub proof fn lemma_items_join<F: DiffFlavor>(
    l: Layout,
    b: Set<NodeId>,
    kids: Seq<NodeId>,
    at: int,
    t: ValueTable,
    vs: Seq<usize>,
    cs: Seq<ElementChange>,
    ws: Seq<usize>,
    ds: Seq<ElementChange>,
    fname: Option<Seq<char>>,
    opts: BuildOptions,
    flavor: F,
)
    requires
        items_show(l, b, kids, at, t, vs, cs, fname, opts, flavor),
        items_show(l, b, kids, at + vs.len(), t, ws, ds, fname, opts, flavor),
    ensures
        items_show(l, b, kids, at, t, vs + ws, cs + ds, fname, opts, flavor),
{
    assert forall|i: int| 0 <= i < (vs + ws).len() implies #[trigger] item_shows(l, b, kids, at, t, vs + ws, cs + ds, fname, opts, flavor, i) by {
        if i < vs.len() {
            assert(item_shows(l, b, kids, at, t, vs, cs, fname, opts, flavor, i));
        } else {
            let j = i - vs.len();
            assert(item_shows(l, b, kids, at + vs.len(), t, ws, ds, fname, opts, flavor, j));
            assert(at + vs.len() + j == at + i);
        }
    }
}

/// No items show anywhere up to the end.
pub proof fn lemma_items_none<F: DiffFlavor>(
    l: Layout,
    b: Set<NodeId>,
    kids: Seq<NodeId>,
    at: int,
    t: ValueTable,
    fname: Option<Seq<char>>,
    opts: BuildOptions,
    flavor: F,
)
    requires
        0 <= at <= kids.len(),
    ensures
        items_show(l, b, kids, at, t, Seq::empty(), Seq::empty(), fname, opts, flavor),
{
}

/// Items shown under `parent` since `start`, then more items shown after
/// them since `pre`, are items shown since `start`.
pub proof fn lemma_items_extend<F: DiffFlavor>(
    start: Layout,
    pre: Layout,
    post: Layout,
    parent: NodeId,
    at: int,
    t: ValueTable,
    vs: Seq<usize>,
    cs: Seq<ElementChange>,
    ws: Seq<usize>,
    ds: Seq<ElementChange>,
    fname: Option<Seq<char>>,
    opts: BuildOptions,
    flavor: F,
)
    requires
        items_show(pre, start.nodes().dom(), pre.children_of()[parent], at, t, vs, cs, fname, opts, flavor),
        items_show(post, pre.nodes().dom(), post.children_of()[parent], pre.children_of()[parent].len() as int, t, ws, ds,
            fname, opts, flavor),
        at + vs.len() == pre.children_of()[parent].len(),
        grew_under(start, pre, parent),
        grew_under(pre, post, parent),
        under_construction(pre),
        under_construction(post),
        start.nodes().contains_key(parent),
    ensures
        items_show(post, start.nodes().dom(), post.children_of()[parent], at, t, vs + ws, cs + ds, fname, opts, flavor),
{
    let kids = pre.children_of()[parent];
    let more = post.children_of()[parent];
    lemma_grew_kept(pre, post, parent);
    lemma_kept_same(post);
    assert(start.nodes().dom().subset_of(pre.nodes().dom()));
    lemma_items_stay(pre, post, start.nodes().dom(), start.nodes().dom(), Some(parent), kids, more, at, t, vs, cs, fname, opts, flavor);
    assert(more.subrange(0, more.len() as int) =~= more);
    lemma_items_stay(post, post, pre.nodes().dom(), start.nodes().dom(), None, more, more, kids.len() as int, t, ws, ds, fname, opts, flavor);
    lemma_items_join(post, start.nodes().dom(), more, at, t, vs, cs, ws, ds, fname, opts, flavor);
}

/// One more step of building under `parent`, seen from where building
/// started: the layout before the step is kept apart from the one after it
/// but for `parent`, the one after from itself, and the nodes at the start
/// were all there before the step.
pub proof fn lemma_step_kept(start: Layout, pre: Layout, post: Layout, parent: NodeId)
    requires
        grew_under(start, pre, parent),
        grew_under(pre, post, parent),
        under_construction(pre),
        under_construction(post),
        start.nodes().contains_key(parent),
    ensures
        kept_apart(pre, post, Some(parent)),
        kept_apart(post, post, None),
        start.nodes().dom().subset_of(pre.nodes().dom()),
        pre.children_of()[parent].len() <= post.children_of()[parent].len(),
        post.children_of()[parent].subrange(0, pre.children_of()[parent].len() as int) == pre.children_of()[parent],
        post.children_of()[parent].subrange(0, post.children_of()[parent].len() as int) == post.children_of()[parent],
{
    lemma_grew_kept(pre, post, parent);
    lemma_kept_same(post);
    assert(post.children_of()[parent].subrange(0, post.children_of()[parent].len() as int) =~= post.children_of()[parent]);
}

/// Growing under `q` changes a layout apart from every node but `q`.
pub proof fn lemma_grew_kept(pre: Layout, post: Layout, q: NodeId)
    requires
        grew_under(pre, post, q),
        under_construction(pre),
        under_construction(post),
    ensures
        kept_apart(pre, post, Some(q)),
{
}

/// A layout under construction is kept apart from itself.
pub proof fn lemma_kept_same(l: Layout)
    requires
        under_construction(l),
    ensures
        kept_apart(l, l, None),
{
    assert(l.strings.chars().subrange(0, l.strings.chars().len() as int) =~= l.strings.chars());
}

} // verus!
