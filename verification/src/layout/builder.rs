//! Building a layout from a diff.
//!
//! The builder walks the diff together with what it reads of the compared
//! values: unchanged fields are looked up in the original `from` value, and
//! values are formatted into the layout's arena with the output flavor. The
//! layout is built from the top down: each node is added before its children.

use vstd::prelude::*;
use indextree::NodeId;

use crate::core_sequences::{ReplaceGroup, Updates, UpdatesGroup};
use crate::text::{concat2, str_eq};
use crate::text_order::{entry_names, name_order, sorted_order};
use crate::types::{Diff, Value};
use super::arena::{lemma_push_then_get, FormatArena};
use super::attrs::{changed_widths_fit, attr_is_changed, attr_line_width, group_changed_attrs, Attr, AttrStatus, ChangedGroup, FormattedValue, ValueType};
use super::build_options::BuildOptions;
use super::flavor::{DiffFlavor, ScalarText};
use super::node::{node_change, ElementChange, Layout, LayoutNode};
use super::shows::{
    node_grouped,
    enum_runs_show, enum_tuple_show, first_field_of, lemma_enum_runs_skip, variant_diff_show, variant_diff_taken, compared_attrs, compared_shown, whole_attrs, diff_sides, field_attrs_shown, fields_show, first_group_values, first_replace_values, group_item_values,
    group_pairs_show, group_show, item_shows, item_values, items_show, lemma_fields_stay, lemma_grew_kept,
    lemma_group_pairs_stay, lemma_group_stay, lemma_items_extend, lemma_items_none, lemma_items_stay, lemma_kept_same,
    lemma_nested_stay, lemma_peek_stays, lemma_run_stay, lemma_shows_stay, lemma_step_kept, lemma_update_pairs_stay,
    name_view, nested_show, pair_group_item_values, pair_replace_values, peek_shows, replace_values, run_show, shows,
    transparent_tag, update_pairs_show, updates_show, variant_attrs_shown, variant_display,
};
use super::render_spec::{
    arena_grew, attr_ok, lemma_arena_grew_trans, lemma_attrs_stay_ok, lemma_construction_add, lemma_construction_push,
    lemma_construction_renders_child, lemma_value_stays_ok, node_ok, renderable, under_construction, value_ok,
};

verus! {

/// What the builder reads of the kind of a value.
pub enum ValueKind {
    /// `Option::None`
    NoneValue,
    /// `Option::Some`, holding the value at `inner`
    SomeValue {
        /// The handle of the held value
        inner: usize,
    },
    /// A struct, with its fields in declaration order
    Struct {
        /// Whether the fields are named (not a tuple or unit struct)
        named: bool,
        /// Each field's name and the handle of its value
        fields: Vec<(&'static str, usize)>,
    },
    /// An enum value, by its active variant
    Enum {
        /// The variant's display name (its `rename`, or else its name)
        tag: &'static str,
        /// Each field of the variant, with the handle of its value where it can be read
        fields: Vec<(&'static str, Option<usize>)>,
    },
    /// Any other value
    Other,
}

/// What the builder reads of one compared value.
pub struct ValueDesc {
    /// Its kind
    pub kind: ValueKind,
    /// The display name of its type (its `rename`, or else its type identifier)
    pub display_name: &'static str,
    /// Whether its type carries attributes of the `xml` namespace
    pub has_xml_attrs: bool,
    /// Whether it is an empty list or an empty map
    pub empty_collection: bool,
    /// For a list-like value, the display name of its first item's type
    pub first_item_name: Option<&'static str>,
    /// What the flavor formats for it
    pub scalar: ScalarText,
    /// Its type for coloring
    pub value_type: ValueType,
    /// For a floating-point value, its text at the build options' precision
    /// with trailing zeros (and a trailing point) removed
    pub precise_float: Option<String>,
}

/// What the builder reads of the type (shape) of a struct, an enum or an option.
pub struct ShapeDesc {
    /// Whether it is an `Option`
    pub is_option: bool,
    /// Whether it is a struct
    pub is_struct: bool,
    /// Its display name (its `rename`, or else its type identifier)
    pub display_name: &'static str,
    /// Whether it carries attributes of the `xml` namespace
    pub has_xml_attrs: bool,
    /// For an enum, each variant's name and display name
    pub variants: Option<Vec<(&'static str, &'static str)>>,
}

/// The values and shapes that the handles of a diff refer to: a diff's
/// value handles index `values`, its shape handles index `shapes`.
/// A value handle outside the table reads as an empty value; so does the
/// inner handle of an option that does not come before the option itself.
pub struct ValueTable {
    /// The compared values
    pub values: Vec<ValueDesc>,
    /// The shapes of the compared values
    pub shapes: Vec<ShapeDesc>,
}

/// A layout that grew under `parent`: every node that was there keeps its
/// data, only `parent` gets more children (after those it had), and the
/// arena's text only grows.
pub open spec fn grew_under(before: Layout, after: Layout, parent: NodeId) -> bool {
    &&& after.root == before.root
    &&& forall|id: NodeId| #[trigger] before.nodes().contains_key(id)
        ==> after.nodes().contains_key(id) && after.nodes()[id] == before.nodes()[id]
    &&& forall|id: NodeId| #[trigger] before.nodes().contains_key(id) && id != parent
        ==> after.children_of()[id] == before.children_of()[id]
    &&& before.children_of()[parent].len() <= after.children_of()[parent].len()
    &&& after.children_of()[parent].subrange(0, before.children_of()[parent].len() as int) == before.children_of()[parent]
    &&& arena_grew(before.strings.chars(), after.strings.chars())
}

/// What a node builder promises: the layout stays under construction, grew
/// under `parent` only, and `r` is the last of the parent's children, a node
/// that was not there before.
pub open spec fn built_under(before: Layout, after: Layout, parent: NodeId, r: NodeId) -> bool {
    &&& under_construction(after)
    &&& grew_under(before, after, parent)
    &&& after.children_of()[parent].len() > before.children_of()[parent].len()
    &&& r == after.children_of()[parent].last()
    &&& !before.nodes().contains_key(r)
    &&& after.nodes().contains_key(r)
}

/// Growing under a parent, then under one of its new children, is growing
/// under the parent.
proof fn lemma_grew_below(a: Layout, b: Layout, c: Layout, parent: NodeId, child: NodeId)
    requires
        grew_under(a, b, parent),
        grew_under(b, c, child),
        a.nodes().contains_key(parent),
        !a.nodes().contains_key(child),
        b.nodes().contains_key(child),
    ensures
        grew_under(a, c, parent),
{
    lemma_arena_grew_trans(a.strings.chars(), b.strings.chars(), c.strings.chars());
    assert forall|id: NodeId| #[trigger] a.nodes().contains_key(id) && id != parent
        implies c.children_of()[id] == a.children_of()[id] by {
        assert(b.nodes().contains_key(id));
    }
    assert(b.nodes().contains_key(parent));
}

/// Growing under a parent twice is growing under it.
proof fn lemma_grew_again(a: Layout, b: Layout, c: Layout, parent: NodeId)
    requires
        grew_under(a, b, parent),
        grew_under(b, c, parent),
        a.nodes().contains_key(parent),
    ensures
        grew_under(a, c, parent),
{
    lemma_arena_grew_trans(a.strings.chars(), b.strings.chars(), c.strings.chars());
    let pa = a.children_of()[parent];
    let pb = b.children_of()[parent];
    let pc = c.children_of()[parent];
    assert(pc.subrange(0, pa.len() as int) =~= pc.subrange(0, pb.len() as int).subrange(0, pa.len() as int));
}

/// A layout whose tree did not change and whose text grew, grew under any node.
proof fn lemma_grew_text(a: Layout, b: Layout, parent: NodeId)
    requires
        b.tree == a.tree,
        b.root == a.root,
        arena_grew(a.strings.chars(), b.strings.chars()),
        a.children_of().contains_key(parent),
    ensures
        grew_under(a, b, parent),
{
    assert(b.children_of()[parent].subrange(0, a.children_of()[parent].len() as int) =~= a.children_of()[parent]);
}

/// A layout grew under any of its nodes from itself.
proof fn lemma_grew_nothing(a: Layout, parent: NodeId)
    requires
        a.children_of().contains_key(parent),
    ensures
        grew_under(a, a, parent),
{
    assert(a.strings.chars().subrange(0, a.strings.chars().len() as int) =~= a.strings.chars());
    assert(a.children_of()[parent].subrange(0, a.children_of()[parent].len() as int) =~= a.children_of()[parent]);
}

/// Text pushing keeps a built node where it was.
proof fn lemma_built_then_text(a: Layout, b: Layout, c: Layout, parent: NodeId, r: NodeId)
    requires
        built_under(a, b, parent, r),
        under_construction(c),
        c.tree == b.tree,
        c.root == b.root,
        arena_grew(b.strings.chars(), c.strings.chars()),
        a.nodes().contains_key(parent),
    ensures
        built_under(a, c, parent, r),
{
    lemma_grew_text(b, c, parent);
    lemma_grew_again(a, b, c, parent);
}

/// The value at a handle, if the table has it.
fn value_at(t: &ValueTable, v: usize) -> (r: Option<&ValueDesc>)
    ensures
        r == (if v < t.values@.len() { Some(&t.values@[v as int]) } else { None::<&ValueDesc> }),
{
    if v < t.values.len() {
        Some(&t.values[v])
    } else {
        None
    }
}

/// The shape at a handle, if the table has it.
fn shape_at(t: &ValueTable, s: usize) -> (r: Option<&ShapeDesc>)
    ensures
        r == (if s < t.shapes@.len() { Some(&t.shapes@[s as int]) } else { None::<&ShapeDesc> }),
{
    if s < t.shapes.len() {
        Some(&t.shapes[s])
    } else {
        None
    }
}

/// Whether the value at `v` is left out when unchanged: `None`, an empty
/// list or an empty map.
pub open spec fn falsy_value(t: ValueTable, v: usize) -> bool {
    v < t.values@.len() && (t.values@[v as int].kind is NoneValue || t.values@[v as int].empty_collection)
}

/// Whether the value at `v` is shown as an element of its own: an enum, or
/// a struct with named fields.
pub open spec fn complex_value(t: ValueTable, v: usize) -> bool {
    v < t.values@.len() && (t.values@[v as int].kind is Enum || t.values@[v as int].kind matches ValueKind::Struct {
        named: true,
        ..
    })
}

/// The first field named `name` among `fields`, by its value's handle.
pub open spec fn first_field(fields: Seq<(&'static str, usize)>, name: Seq<char>) -> Option<usize>
    decreases fields.len(),
{
    if fields.len() == 0 {
        None
    } else if fields[0].0@ == name {
        Some(fields[0].1)
    } else {
        first_field(fields.drop_first(), name)
    }
}

/// The handle of the field named `name` of the struct value at `v`.
pub open spec fn field_named(t: ValueTable, v: Option<usize>, name: Seq<char>) -> Option<usize> {
    match v {
        Some(x) => if x < t.values@.len() && t.values@[x as int].kind is Struct {
            first_field(t.values@[x as int].kind->Struct_fields@, name)
        } else {
            None
        },
        None => None,
    }
}

/// The handle of the value that the option at `v` holds.
pub open spec fn held_value(t: ValueTable, v: usize) -> Option<usize> {
    if v < t.values@.len() && t.values@[v as int].kind is SomeValue {
        Some(t.values@[v as int].kind->inner)
    } else {
        None
    }
}

/// Whether the shape at `s` is an `Option`'s.
pub open spec fn shape_is_option(t: ValueTable, s: usize) -> bool {
    s < t.shapes@.len() && t.shapes@[s as int].is_option
}

/// How an updated field is shown, given its diff and its values in `from`
/// and `to`: `(0, a, b)` as a changed attribute from `a` to `b` (a replaced
/// scalar, an option whose held values are scalars, a wrapper struct whose
/// single field was replaced by a scalar); `(1, a, b)` as the replaced
/// struct or enum `a` and its replacement `b`, both as children; `(2, _, _)`
/// as a nested child.
pub open spec fn field_shown_as(t: ValueTable, d: Diff<usize, usize>, ff: Option<usize>, ft: Option<usize>) -> (int, usize, usize) {
    match d {
        Diff::Replace { from, to } => if complex_value(t, from) { (1, from, to) } else { (0, from, to) },
        Diff::User { from: s, value, .. } => match value {
            Value::Tuple { .. } => {
                if shape_is_option(t, s) && ff is Some && ft is Some && held_value(t, ff->0) is Some
                    && held_value(t, ft->0) is Some && !complex_value(t, held_value(t, ff->0)->0) {
                    (0, held_value(t, ff->0)->0, held_value(t, ft->0)->0)
                } else {
                    (2, 0, 0)
                }
            },
            Value::Struct { updates, deletions, insertions, unchanged } => {
                if updates@.len() == 1 && deletions@.len() == 0 && insertions@.len() == 0 && unchanged@.len() == 0 {
                    match updates@[0].1 {
                        Diff::Replace { from: a, to: b } => if !complex_value(t, a) { (0, a, b) } else { (2, 0, 0) },
                        _ => (2, 0, 0),
                    }
                } else {
                    (2, 0, 0)
                }
            },
        },
        _ => (2, 0, 0),
    }
}

/// What an attribute shows: its name, its kind (0 unchanged, 1 changed,
/// 2 deleted, 3 inserted) and the texts of its values in the arena (the
/// second empty but for a change).
pub open spec fn attr_shown(l: Layout, a: Attr) -> (Seq<char>, int, Seq<char>, Seq<char>) {
    match a.status {
        AttrStatus::Unchanged { value } => (a.name@, 0, l.strings.text_of(value.span), Seq::empty()),
        AttrStatus::Changed { old, new } => (a.name@, 1, l.strings.text_of(old.span), l.strings.text_of(new.span)),
        AttrStatus::Deleted { value } => (a.name@, 2, l.strings.text_of(value.span), Seq::empty()),
        AttrStatus::Inserted { value } => (a.name@, 3, l.strings.text_of(value.span), Seq::empty()),
    }
}

/// The kind of attribute that a field of a value shown whole gets: deleted
/// (2) or inserted (3) as the value is, otherwise unchanged (0).
pub open spec fn change_kind(change: ElementChange) -> int {
    match change {
        ElementChange::Deleted => 2,
        ElementChange::Inserted => 3,
        _ => 0,
    }
}

/// What attributes show, in order.
pub open spec fn attrs_shown(l: Layout, attrs: Seq<Attr>) -> Seq<(Seq<char>, int, Seq<char>, Seq<char>)> {
    attrs.map_values(|a: Attr| attr_shown(l, a))
}

/// The unchanged fields among the first `k` in `order`, read from the
/// struct value `from`: a field that it has, with a value that is not falsy,
/// shows that value.
pub open spec fn unchanged_shown<F: DiffFlavor>(
    t: ValueTable,
    names: Seq<Seq<char>>,
    order: Seq<usize>,
    from: usize,
    opts: BuildOptions,
    flavor: F,
    k: int,
) -> Seq<(Seq<char>, int, Seq<char>, Seq<char>)>
    decreases k,
{
    if k <= 0 {
        Seq::empty()
    } else {
        let prev = unchanged_shown(t, names, order, from, opts, flavor, k - 1);
        let name = names[order[k - 1] as int];
        match field_named(t, Some(from), name) {
            Some(fv) => if !falsy_value(t, fv) {
                prev.push((name, 0, shown_value(t, fv, opts, flavor).0, Seq::empty()))
            } else {
                prev
            },
            None => prev,
        }
    }
}

/// The updated fields among the first `k` in `order` that show as changed
/// attributes.
pub open spec fn changed_shown<F: DiffFlavor>(
    t: ValueTable,
    updates: Seq<(String, Diff<usize, usize>)>,
    order: Seq<usize>,
    from: Option<usize>,
    to: Option<usize>,
    opts: BuildOptions,
    flavor: F,
    k: int,
) -> Seq<(Seq<char>, int, Seq<char>, Seq<char>)>
    decreases k,
{
    if k <= 0 {
        Seq::empty()
    } else {
        let prev = changed_shown(t, updates, order, from, to, opts, flavor, k - 1);
        let e = updates[order[k - 1] as int];
        let fs = field_shown_as(t, e.1, field_named(t, from, e.0@), field_named(t, to, e.0@));
        if fs.0 == 0 {
            prev.push((e.0@, 1, shown_value(t, fs.1, opts, flavor).0, shown_value(t, fs.2, opts, flavor).0))
        } else {
            prev
        }
    }
}

/// The first `k` entries in `order`, each with its value and the given kind.
pub open spec fn entries_shown<F: DiffFlavor>(
    t: ValueTable,
    entries: Seq<(String, usize)>,
    order: Seq<usize>,
    kind: int,
    opts: BuildOptions,
    flavor: F,
    k: int,
) -> Seq<(Seq<char>, int, Seq<char>, Seq<char>)>
    decreases k,
{
    if k <= 0 {
        Seq::empty()
    } else {
        let e = entries[order[k - 1] as int];
        entries_shown(t, entries, order, kind, opts, flavor, k - 1).push((e.0@, kind, shown_value(t, e.1, opts, flavor).0, Seq::empty()))
    }
}

/// How many children the first `k` updated fields in `order` give: two for a
/// replaced struct or enum, one for a nested change, none for a changed
/// attribute.
pub open spec fn field_children(
    t: ValueTable,
    updates: Seq<(String, Diff<usize, usize>)>,
    order: Seq<usize>,
    from: Option<usize>,
    to: Option<usize>,
    k: int,
) -> int
    decreases k,
{
    if k <= 0 {
        0
    } else {
        let e = updates[order[k - 1] as int];
        let fs = field_shown_as(t, e.1, field_named(t, from, e.0@), field_named(t, to, e.0@));
        field_children(t, updates, order, from, to, k - 1) + if fs.0 == 1 {
            2int
        } else if fs.0 == 2 {
            1int
        } else {
            0int
        }
    }
}

/// How many children a struct diff's element has: those of its updated
/// fields, by name, then one collapsed count when there are more unchanged
/// fields than the options show, or unchanged fields without a `from` value.
pub open spec fn struct_children(
    t: ValueTable,
    updates: Seq<(String, Diff<usize, usize>)>,
    unchanged: Seq<String>,
    from: Option<usize>,
    to: Option<usize>,
    opts: BuildOptions,
) -> int {
    field_children(t, updates, sorted_order(entry_names(updates), updates.len()), from, to, updates.len() as int) + if unchanged.len()
        > opts.max_unchanged_fields || (unchanged.len() > 0 && from is None) {
        1int
    } else {
        0int
    }
}

/// The names of a list of names.
pub open spec fn name_views(v: Seq<String>) -> Seq<Seq<char>> {
    v.map_values(|s: String| s@)
}

/// The attributes of a struct diff's element: the unchanged fields by name
/// (when there are some, no more than the options allow, and a struct
/// `from` value to read them from), the updated fields shown as changed
/// attributes by name, then the deleted and the inserted fields by name.
pub open spec fn struct_attrs_shown<F: DiffFlavor>(
    t: ValueTable,
    updates: Seq<(String, Diff<usize, usize>)>,
    deletions: Seq<(String, usize)>,
    insertions: Seq<(String, usize)>,
    unchanged: Seq<String>,
    from: Option<usize>,
    to: Option<usize>,
    opts: BuildOptions,
    flavor: F,
) -> Seq<(Seq<char>, int, Seq<char>, Seq<char>)> {
    let n = unchanged.len();
    let names = name_views(unchanged);
    let un = match from {
        Some(f) => if 0 < n && n <= opts.max_unchanged_fields && f < t.values@.len() && t.values@[f as int].kind is Struct {
            unchanged_shown(t, names, sorted_order(names, n), f, opts, flavor, n as int)
        } else {
            Seq::empty()
        },
        None => Seq::empty(),
    };
    un + changed_shown(t, updates, sorted_order(entry_names(updates), updates.len()), from, to, opts, flavor, updates.len() as int)
        + entries_shown(t, deletions, sorted_order(entry_names(deletions), deletions.len()), 2, opts, flavor, deletions.len() as int)
        + entries_shown(t, insertions, sorted_order(entry_names(insertions), insertions.len()), 3, opts, flavor, insertions.len() as int)
}

/// What attributes show stays the same as the arena grows.
pub(crate) proof fn lemma_attrs_shown_stay(before: Layout, after: Layout, attrs: Seq<Attr>)
    requires
        arena_grew(before.strings.chars(), after.strings.chars()),
        before.strings.bytes().len() <= u32::MAX ==> forall|i: int| 0 <= i < attrs.len() ==> attr_ok(before, #[trigger] attrs[i]),
    ensures
        after.strings.bytes().len() <= u32::MAX ==> attrs_shown(after, attrs) == attrs_shown(before, attrs),
        after.strings.bytes().len() <= u32::MAX ==> before.strings.bytes().len() <= u32::MAX,
{
    let b = before.strings.chars();
    let s = after.strings.chars().subrange(b.len() as int, after.strings.chars().len() as int);
    assert(after.strings.chars() =~= b + s);
    if after.strings.bytes().len() <= u32::MAX {
        crate::utf8_facts::lemma_encode_concat(b, s);
        assert forall|i: int| 0 <= i < attrs.len() implies #[trigger] attr_shown(after, attrs[i]) == attr_shown(before, attrs[i]) by {
            assert(attr_ok(before, attrs[i]));
            match attrs[i].status {
                AttrStatus::Unchanged { value } => super::arena::lemma_push_keeps_span(before.strings, after.strings, s, value.span),
                AttrStatus::Changed { old, new } => {
                    super::arena::lemma_push_keeps_span(before.strings, after.strings, s, old.span);
                    super::arena::lemma_push_keeps_span(before.strings, after.strings, s, new.span);
                },
                AttrStatus::Deleted { value } => super::arena::lemma_push_keeps_span(before.strings, after.strings, s, value.span),
                AttrStatus::Inserted { value } => super::arena::lemma_push_keeps_span(before.strings, after.strings, s, value.span),
            }
        }
        assert(attrs_shown(after, attrs) =~= attrs_shown(before, attrs));
    }
}

/// Whether a value is left out of the output when unchanged: `None`, an
/// empty list or an empty map.
fn is_falsy(t: &ValueTable, v: usize) -> (r: bool)
    ensures
        r == falsy_value(*t, v),
{
    match value_at(t, v) {
        Some(d) => matches!(d.kind, ValueKind::NoneValue) || d.empty_collection,
        None => false,
    }
}

/// Whether a value is shown as an element of its own rather than as an
/// attribute: an enum, or a struct with named fields.
fn is_complex(t: &ValueTable, v: usize) -> (r: bool)
    ensures
        r == complex_value(*t, v),
{
    match value_at(t, v) {
        Some(d) => match &d.kind {
            ValueKind::Enum { .. } => true,
            ValueKind::Struct { named, .. } => *named,
            _ => false,
        },
        None => false,
    }
}

/// The display name of a type for XML output: a struct without XML
/// attributes stands for something else in XML, and is marked with `@`.
fn xml_display_name(name: &str, is_struct: bool, has_xml_attrs: bool) -> (r: String)
    ensures
        r@ == (if is_struct && !has_xml_attrs { seq!['@'] + name@ } else { name@ }),
{
    if is_struct && !has_xml_attrs {
        proof {
            reveal_strlit("@");
        }
        concat2("@", name)
    } else {
        name.to_owned()
    }
}

/// The tag of a value shown as an element.
fn value_tag(d: &ValueDesc) -> (r: String)
    ensures
        r@ == (if d.kind is Struct && !d.has_xml_attrs { seq!['@'] + d.display_name@ } else { d.display_name@ }),
{
    let is_struct = matches!(d.kind, ValueKind::Struct { .. });
    xml_display_name(d.display_name, is_struct, d.has_xml_attrs)
}

/// The handle of a struct field, found by name.
fn field_by_name(t: &ValueTable, v: usize, name: &str) -> (r: Option<usize>)
    ensures
        r == field_named(*t, Some(v), name@),
{
    match value_at(t, v) {
        Some(d) => match &d.kind {
            ValueKind::Struct { fields, .. } => {
                let mut i: usize = 0;
                proof {
                    assert(fields@.skip(0) =~= fields@);
                    assert(field_named(*t, Some(v), name@) == first_field(fields@, name@));
                }
                while i < fields.len()
                    invariant
                        i <= fields@.len(),
                        field_named(*t, Some(v), name@) == first_field(fields@.skip(i as int), name@),
                    decreases fields@.len() - i,
                {
                    proof {
                        assert(fields@.skip(i as int).drop_first() =~= fields@.skip(i + 1));
                    }
                    if str_eq(fields[i].0, name) {
                        proof {
                            assert(fields@.skip(i as int)[0] == fields@[i as int]);
                            assert(first_field(fields@.skip(i as int), name@) == Some(fields@[i as int].1));
                        }
                        return Some(fields[i].1);
                    }
                    i = i + 1;
                }
                None
            },
            _ => None,
        },
        None => None,
    }
}

/// The value an option holds.
fn option_inner(t: &ValueTable, v: usize) -> (r: Option<usize>)
    ensures
        r == held_value(*t, v),
{
    match value_at(t, v) {
        Some(d) => match &d.kind {
            ValueKind::SomeValue { inner } => Some(*inner),
            _ => None,
        },
        None => None,
    }
}

/// The first field of an enum value.
fn enum_first_field(t: &ValueTable, v: usize) -> (r: Option<usize>)
    ensures
        r == first_field_of(*t, Some(v)),
{
    match value_at(t, v) {
        Some(d) => match &d.kind {
            ValueKind::Enum { fields, .. } => if fields.len() > 0 {
                fields[0].1
            } else {
                None
            },
            _ => None,
        },
        None => None,
    }
}

/// The text a value is formatted as, and its type for coloring: the held
/// value of an option, `null` for `None`, a float at the configured
/// precision, otherwise what the flavor writes (a value outside the table
/// is empty).
pub open spec fn shown_value<F: DiffFlavor>(t: ValueTable, v: usize, opts: BuildOptions, flavor: F) -> (Seq<char>, ValueType)
    decreases v,
{
    if v >= t.values@.len() {
        (Seq::empty(), ValueType::Other)
    } else {
        let d = t.values@[v as int];
        if d.kind is NoneValue {
            (seq!['n', 'u', 'l', 'l'], ValueType::Null)
        } else if d.kind matches ValueKind::SomeValue { inner } && inner < v {
            shown_value(t, d.kind->inner, opts, flavor)
        } else if opts.float_precision is Some && d.precise_float is Some {
            (d.precise_float->0@, ValueType::Number)
        } else {
            (flavor.spec_format_value(d.scalar), d.value_type)
        }
    }
}

/// The text a value is formatted as, and its type for coloring: the held
/// value of an option, `null` for `None`, a float at the configured
/// precision, otherwise what the flavor writes.
fn value_text<F: DiffFlavor>(t: &ValueTable, v: usize, opts: &BuildOptions, flavor: &F) -> (r: (String, ValueType))
    ensures
        r.0@ == shown_value(*t, v, *opts, *flavor).0,
        r.1 == shown_value(*t, v, *opts, *flavor).1,
    decreases v,
{
    match value_at(t, v) {
        None => (String::new(), ValueType::Other),
        Some(d) => {
            if let ValueKind::NoneValue = &d.kind {
                proof {
                    reveal_strlit("null");
                }
                return ("null".to_owned(), ValueType::Null);
            }
            if let ValueKind::SomeValue { inner } = &d.kind {
                if *inner < v {
                    return value_text(t, *inner, opts, flavor);
                }
            }
            if opts.float_precision.is_some() {
                if let Some(p) = &d.precise_float {
                    return (p.clone(), ValueType::Number);
                }
            }
            (flavor.format_value(&d.scalar), d.value_type)
        },
    }
}

/// Push text into the layout's arena as a formatted value.
fn push_value(l: &mut Layout, text: &str, value_type: ValueType) -> (r: FormattedValue)
    requires
        under_construction(*old(l)),
    ensures
        under_construction(*final(l)),
        final(l).tree == old(l).tree,
        final(l).root == old(l).root,
        arena_grew(old(l).strings.chars(), final(l).strings.chars()),
        final(l).strings.bytes().len() <= u32::MAX ==> value_ok(*final(l), r),
        final(l).strings.bytes().len() <= u32::MAX ==> final(l).strings.text_of(r.span) == text@,
        r.value_type == value_type,
{
    let ghost before = *l;
    let (span, width) = l.strings.push_str(text);
    proof {
        lemma_construction_push(before, *l, text@);
        assert(l.strings.chars().subrange(0, before.strings.chars().len() as int) =~= before.strings.chars());
        if l.strings.bytes().len() <= u32::MAX {
            lemma_push_then_get(before.strings, l.strings, text@, span);
        }
    }
    FormattedValue::with_type(span, width, value_type)
}

/// Format a value into the layout's arena.
fn format_value<F: DiffFlavor>(l: &mut Layout, t: &ValueTable, v: usize, opts: &BuildOptions, flavor: &F) -> (r: FormattedValue)
    requires
        under_construction(*old(l)),
    ensures
        under_construction(*final(l)),
        final(l).tree == old(l).tree,
        final(l).root == old(l).root,
        arena_grew(old(l).strings.chars(), final(l).strings.chars()),
        final(l).strings.bytes().len() <= u32::MAX ==> value_ok(*final(l), r),
        final(l).strings.bytes().len() <= u32::MAX ==> final(l).strings.text_of(r.span) == shown_value(*t, v, *opts, *flavor).0,
        r.value_type == shown_value(*t, v, *opts, *flavor).1,
{
    let (text, value_type) = value_text(t, v, opts, flavor);
    push_value(l, text.as_str(), value_type)
}

/// An attribute for a field of a value shown whole: unchanged, deleted or
/// inserted as the value is; fields of moved values show as unchanged.
fn attr_for(name: &str, change: ElementChange, value: FormattedValue) -> (r: Attr)
    ensures
        r.name@ == name@,
        r.status == (match change {
            ElementChange::Deleted => super::attrs::AttrStatus::Deleted { value },
            ElementChange::Inserted => super::attrs::AttrStatus::Inserted { value },
            _ => super::attrs::AttrStatus::Unchanged { value },
        }),
{
    match change {
        ElementChange::Deleted => Attr::deleted(name, name.len(), value),
        ElementChange::Inserted => Attr::inserted(name, name.len(), value),
        _ => Attr::unchanged(name, name.len(), value),
    }
}

/// Whether every changed attribute's line width can be counted in a `usize`.
fn widths_fit(attrs: &Vec<Attr>) -> (r: bool)
    ensures
        r == changed_widths_fit(attrs@),
{
    let mut i: usize = 0;
    while i < attrs.len()
        invariant
            i <= attrs@.len(),
            forall|k: int| 0 <= k < i && attr_is_changed(#[trigger] attrs@[k]) ==> attr_line_width(attrs@[k]) < usize::MAX,
        decreases attrs@.len() - i,
    {
        let a = &attrs[i];
        if a.is_changed() {
            let vw = match a.status {
                super::attrs::AttrStatus::Changed { old, new } => if old.width >= new.width { old.width } else { new.width },
                _ => 0,
            };
            if a.name_width > usize::MAX - 4 || vw > usize::MAX - 4 - a.name_width {
                return false;
            }
        }
        i = i + 1;
    }
    true
}

/// Add a node under `parent`.
fn add_node(l: &mut Layout, parent: NodeId, node: LayoutNode) -> (r: NodeId)
    requires
        under_construction(*old(l)),
        old(l).nodes().contains_key(parent),
        old(l).strings.bytes().len() <= u32::MAX ==> node_ok(*old(l), node),
    ensures
        built_under(*old(l), *final(l), parent, r),
        final(l).strings == old(l).strings,
        final(l).children_of()[r] == Seq::<NodeId>::empty(),
        final(l).children_of()[parent] == old(l).children_of()[parent].push(r),
        final(l).nodes()[r] == node,
{
    let ghost before = *l;
    let ghost n = node;
    let r = l.add_child(parent, node);
    proof {
        lemma_construction_add(before, *l, parent, r, n);
        assert(l.children_of()[parent].subrange(0, before.children_of()[parent].len() as int)
            =~= before.children_of()[parent]);
        assert(l.strings.chars().subrange(0, l.strings.chars().len() as int) =~= l.strings.chars());
    }
    r
}

/// Add an element under `parent`, with its changed attributes grouped for alignment.
fn add_element(
    l: &mut Layout,
    parent: NodeId,
    tag: String,
    field_name: Option<String>,
    attrs: Vec<Attr>,
    change: ElementChange,
    opts: &BuildOptions,
) -> (r: NodeId)
    requires
        under_construction(*old(l)),
        old(l).nodes().contains_key(parent),
        old(l).strings.bytes().len() <= u32::MAX ==> forall|i: int| 0 <= i < attrs@.len() ==> attr_ok(*old(l), #[trigger] attrs@[i]),
    ensures
        built_under(*old(l), *final(l), parent, r),
        final(l).strings == old(l).strings,
        final(l).children_of()[r] == Seq::<NodeId>::empty(),
        final(l).children_of()[parent] == old(l).children_of()[parent].push(r),
        final(l).nodes()[r] matches LayoutNode::Element { tag: tg, field_name: f, change: c, .. }
            && tg@ == tag@ && f == field_name && c == change,
        final(l).nodes()[r] matches LayoutNode::Element { attrs: a, .. } && a@ == attrs@,
        node_grouped(*final(l), r, opts.max_line_width as int),
{
    let groups: Vec<ChangedGroup> = if widths_fit(&attrs) {
        group_changed_attrs(attrs.as_slice(), opts.max_line_width, 0)
    } else {
        Vec::new()
    };
    let node = LayoutNode::Element { tag, field_name, attrs, changed_groups: groups, change };
    add_node(l, parent, node)
}

/// Add a text node under `parent`.
fn add_text(l: &mut Layout, parent: NodeId, value: FormattedValue, change: ElementChange) -> (r: NodeId)
    requires
        under_construction(*old(l)),
        old(l).nodes().contains_key(parent),
        old(l).strings.bytes().len() <= u32::MAX ==> value_ok(*old(l), value),
    ensures
        built_under(*old(l), *final(l), parent, r),
        final(l).strings == old(l).strings,
        final(l).children_of()[parent] == old(l).children_of()[parent].push(r),
        final(l).children_of()[r] == Seq::<NodeId>::empty(),
        final(l).nodes()[r] == (LayoutNode::Text { value, change }),
{
    add_node(l, parent, LayoutNode::Text { value, change })
}

/// Attributes for the fields of a struct value shown whole, falsy fields left out.
fn struct_field_attrs<F: DiffFlavor>(
    l: &mut Layout,
    t: &ValueTable,
    fields: &Vec<(&'static str, usize)>,
    change: ElementChange,
    opts: &BuildOptions,
    flavor: &F,
) -> (attrs: Vec<Attr>)
    requires
        under_construction(*old(l)),
    ensures
        under_construction(*final(l)),
        final(l).tree == old(l).tree,
        final(l).root == old(l).root,
        arena_grew(old(l).strings.chars(), final(l).strings.chars()),
        final(l).strings.bytes().len() <= u32::MAX ==> forall|i: int| 0 <= i < attrs@.len() ==> attr_ok(*final(l), #[trigger] attrs@[i]),
        final(l).strings.bytes().len() <= u32::MAX
            ==> attrs_shown(*final(l), attrs@) == field_attrs_shown(*t, fields@, change, *opts, *flavor, fields@.len() as int),
{
    let ghost start = *l;
    let mut attrs: Vec<Attr> = Vec::new();
    let mut i: usize = 0;
    proof {
        assert(l.strings.chars().subrange(0, l.strings.chars().len() as int) =~= l.strings.chars());
        assert(attrs_shown(*l, attrs@) =~= field_attrs_shown(*t, fields@, change, *opts, *flavor, 0));
    }
    while i < fields.len()
        invariant
            i <= fields@.len(),
            under_construction(*l),
            l.tree == start.tree,
            l.root == start.root,
            arena_grew(start.strings.chars(), l.strings.chars()),
            l.strings.bytes().len() <= u32::MAX ==> forall|k: int| 0 <= k < attrs@.len() ==> attr_ok(*l, #[trigger] attrs@[k]),
            l.strings.bytes().len() <= u32::MAX
                ==> attrs_shown(*l, attrs@) == field_attrs_shown(*t, fields@, change, *opts, *flavor, i as int),
        decreases fields@.len() - i,
    {
        let (name, v) = fields[i];
        if !is_falsy(t, v) {
            let ghost before = *l;
            let ghost prev = attrs@;
            let value = format_value(l, t, v, opts, flavor);
            proof {
                lemma_attrs_stay_ok(before, *l, attrs@);
                lemma_attrs_shown_stay(before, *l, attrs@);
                lemma_arena_grew_trans(start.strings.chars(), before.strings.chars(), l.strings.chars());
            }
            attrs.push(attr_for(name, change, value));
            proof {
                if l.strings.bytes().len() <= u32::MAX {
                    assert(attrs_shown(*l, attrs@) =~= attrs_shown(*l, prev).push(attr_shown(*l, attrs@.last())));
                }
            }
        }
        i = i + 1;
    }
    attrs
}

/// Attributes for the fields of an enum variant shown whole, fields that
/// cannot be read or are falsy left out.
fn variant_field_attrs<F: DiffFlavor>(
    l: &mut Layout,
    t: &ValueTable,
    fields: &Vec<(&'static str, Option<usize>)>,
    change: ElementChange,
    opts: &BuildOptions,
    flavor: &F,
) -> (attrs: Vec<Attr>)
    requires
        under_construction(*old(l)),
    ensures
        under_construction(*final(l)),
        final(l).tree == old(l).tree,
        final(l).root == old(l).root,
        arena_grew(old(l).strings.chars(), final(l).strings.chars()),
        final(l).strings.bytes().len() <= u32::MAX ==> forall|i: int| 0 <= i < attrs@.len() ==> attr_ok(*final(l), #[trigger] attrs@[i]),
        final(l).strings.bytes().len() <= u32::MAX
            ==> attrs_shown(*final(l), attrs@) == variant_attrs_shown(*t, fields@, change, *opts, *flavor, fields@.len() as int),
{
    let ghost start = *l;
    let mut attrs: Vec<Attr> = Vec::new();
    let mut i: usize = 0;
    proof {
        assert(l.strings.chars().subrange(0, l.strings.chars().len() as int) =~= l.strings.chars());
        assert(attrs_shown(*l, attrs@) =~= variant_attrs_shown(*t, fields@, change, *opts, *flavor, 0));
    }
    while i < fields.len()
        invariant
            i <= fields@.len(),
            under_construction(*l),
            l.tree == start.tree,
            l.root == start.root,
            arena_grew(start.strings.chars(), l.strings.chars()),
            l.strings.bytes().len() <= u32::MAX ==> forall|k: int| 0 <= k < attrs@.len() ==> attr_ok(*l, #[trigger] attrs@[k]),
            l.strings.bytes().len() <= u32::MAX
                ==> attrs_shown(*l, attrs@) == variant_attrs_shown(*t, fields@, change, *opts, *flavor, i as int),
        decreases fields@.len() - i,
    {
        let (name, fv) = fields[i];
        if let Some(v) = fv {
            if !is_falsy(t, v) {
                let ghost before = *l;
                let ghost prev = attrs@;
                let value = format_value(l, t, v, opts, flavor);
                proof {
                    lemma_attrs_stay_ok(before, *l, attrs@);
                    lemma_attrs_shown_stay(before, *l, attrs@);
                    lemma_arena_grew_trans(start.strings.chars(), before.strings.chars(), l.strings.chars());
                }
                attrs.push(attr_for(name, change, value));
                proof {
                    if l.strings.bytes().len() <= u32::MAX {
                        assert(attrs_shown(*l, attrs@) =~= attrs_shown(*l, prev).push(attr_shown(*l, attrs@.last())));
                    }
                }
            }
        }
        i = i + 1;
    }
    attrs
}

/// Build the node for a value shown whole, with the given change: an option
/// shows its held value (`null` for `None`); a struct with named fields is
/// an element with its fields as attributes; an enum is an element named by
/// its variant (a variant holding one struct shows that struct's fields), or
/// its variant's name as text when it has no fields; anything else is text.
/// The field name is kept on an element.
fn build_peek<F: DiffFlavor>(
    l: &mut Layout,
    parent: NodeId,
    t: &ValueTable,
    v: usize,
    change: ElementChange,
    field_name: Option<String>,
    opts: &BuildOptions,
    flavor: &F,
) -> (r: NodeId)
    requires
        under_construction(*old(l)),
        old(l).nodes().contains_key(parent),
    ensures
        built_under(*old(l), *final(l), parent, r),
        final(l).children_of()[parent] == old(l).children_of()[parent].push(r),
        node_change(final(l).nodes()[r]) == change,
        peek_shows(*final(l), old(l).nodes().dom(), r, *t, v, change, name_view(field_name), *opts, *flavor),
    decreases v,
{
    if let Some(d) = value_at(t, v) {
        match &d.kind {
            ValueKind::NoneValue => {
                proof {
                    reveal_strlit("null");
                    assert(shown_value(*t, v, *opts, *flavor).0 == "null"@);
                }
                let value = push_value(l, "null", ValueType::Null);
                return add_text(l, parent, value, change);
            },
            ValueKind::SomeValue { inner } => {
                if *inner < v {
                    return build_peek(l, parent, t, *inner, change, field_name, opts, flavor);
                }
            },
            ValueKind::Struct { named, fields } => {
                if *named {
                    let tag = value_tag(d);
                    let attrs = struct_field_attrs(l, t, fields, change, opts, flavor);
                    let ghost mid = *l;
                    let r = add_element(l, parent, tag, field_name, attrs, change, opts);
                    proof {
                        lemma_same_text_shows(mid, *l, attrs@);
                    }
                    return r;
                }
            },
            ValueKind::Enum { tag, fields } => {
                if fields.len() > 0 {
                    // A variant holding one struct shows that struct's fields
                    if fields.len() == 1 {
                        if let Some(inner) = fields[0].1 {
                            if let Some(id) = value_at(t, inner) {
                                if let ValueKind::Struct { named, fields: inner_fields } = &id.kind {
                                    if *named {
                                        let attrs = struct_field_attrs(l, t, inner_fields, change, opts, flavor);
                                        let ghost mid = *l;
                                        let r = add_element(l, parent, (*tag).to_owned(), field_name, attrs, change, opts);
                                        proof {
                                            lemma_same_text_shows(mid, *l, attrs@);
                                        }
                                        return r;
                                    }
                                }
                            }
                        }
                    }
                    let attrs = variant_field_attrs(l, t, fields, change, opts, flavor);
                    let ghost mid = *l;
                    let r = add_element(l, parent, (*tag).to_owned(), field_name, attrs, change, opts);
                    proof {
                        lemma_same_text_shows(mid, *l, attrs@);
                    }
                    return r;
                } else {
                    let value = push_value(l, *tag, ValueType::Other);
                    return add_text(l, parent, value, change);
                }
            },
            ValueKind::Other => {},
        }
    }
    let value = format_value(l, t, v, opts, flavor);
    add_text(l, parent, value, change)
}


/// Attributes show the same in a layout with the same arena.
proof fn lemma_same_text_shows(before: Layout, after: Layout, attrs: Seq<Attr>)
    requires
        after.strings == before.strings,
    ensures
        attrs_shown(after, attrs) == attrs_shown(before, attrs),
{
    assert(attrs_shown(after, attrs) =~= attrs_shown(before, attrs));
}

/// A value's text, readable once the arena fits `u32` offsets, stays so as
/// the arena grows.
pub(crate) proof fn lemma_text_stays(before: Layout, after: Layout, v: FormattedValue, x: Seq<char>)
    requires
        arena_grew(before.strings.chars(), after.strings.chars()),
        before.strings.bytes().len() <= u32::MAX ==> value_ok(before, v) && before.strings.text_of(v.span) == x,
    ensures
        after.strings.bytes().len() <= u32::MAX ==> value_ok(after, v) && after.strings.text_of(v.span) == x,
{
    let b = before.strings.chars();
    let s = after.strings.chars().subrange(b.len() as int, after.strings.chars().len() as int);
    assert(after.strings.chars() =~= b + s);
    if after.strings.bytes().len() <= u32::MAX {
        crate::utf8_facts::lemma_encode_concat(b, s);
        super::arena::lemma_push_keeps_span(before.strings, after.strings, s, v.span);
    }
}

/// A node builder that added one node under `parent`, seen from further back:
/// the layout grew under `parent` since `a`, and grows on under `r`.
proof fn lemma_built_below(a: Layout, b: Layout, c: Layout, parent: NodeId, r: NodeId)
    requires
        built_under(a, b, parent, r),
        grew_under(b, c, r),
        under_construction(c),
        a.nodes().contains_key(parent),
    ensures
        built_under(a, c, parent, r),
{
    lemma_grew_below(a, b, c, parent, r);
    assert(b.nodes().contains_key(parent));
}

/// Whether `last` is the last child added under `parent` since `before`
/// (`None`: no child was added).
pub open spec fn last_added(before: Layout, after: Layout, parent: NodeId, last: Option<NodeId>) -> bool {
    match last {
        Some(c) => {
            &&& after.children_of()[parent].len() > before.children_of()[parent].len()
            &&& c == after.children_of()[parent].last()
            &&& !before.nodes().contains_key(c)
            &&& after.nodes().contains_key(c)
        },
        None => after.children_of()[parent] == before.children_of()[parent],
    }
}

/// One more node built under `parent` becomes the last one added.
proof fn lemma_added_one(start: Layout, pre: Layout, post: Layout, parent: NodeId, last: Option<NodeId>, c: NodeId)
    requires
        grew_under(start, pre, parent),
        last_added(start, pre, parent, last),
        built_under(pre, post, parent, c),
        start.nodes().contains_key(parent),
    ensures
        grew_under(start, post, parent),
        last_added(start, post, parent, Some(c)),
{
    lemma_grew_again(start, pre, post, parent);
}

/// More nodes added under `parent`: the latest last one is the last one.
proof fn lemma_added_more(
    start: Layout,
    mid: Layout,
    end: Layout,
    parent: NodeId,
    first: Option<NodeId>,
    then: Option<NodeId>,
)
    requires
        grew_under(start, mid, parent),
        last_added(start, mid, parent, first),
        grew_under(mid, end, parent),
        last_added(mid, end, parent, then),
        start.nodes().contains_key(parent),
    ensures
        grew_under(start, end, parent),
        last_added(start, end, parent, if then is Some { then } else { first }),
{
    lemma_grew_again(start, mid, end, parent);
}

/// A copy of an optional field name.
fn name_copy(n: &Option<String>) -> (r: Option<String>)
    ensures
        name_view(r) == name_view(*n),
{
    match n {
        Some(s) => Some(s.clone()),
        None => None,
    }
}

/// `x`, capped at `usize::MAX`.
pub open spec fn capped(x: int) -> int {
    if x > usize::MAX { usize::MAX as int } else { x }
}

/// The nested diffs of the first `k` pairs of an updates group.
pub open spec fn pair_diffs(vals: Seq<(Vec<Diff<usize, usize>>, ReplaceGroup<usize>)>, k: int) -> int
    decreases k,
{
    if k <= 0 { 0 } else { pair_diffs(vals, k - 1) + vals[k - 1].0@.len() }
}

/// How many nested diffs an updates group holds.
pub open spec fn group_nested(g: UpdatesGroup<usize, usize>) -> int {
    pair_diffs(g.0.values@, g.0.values@.len() as int) + match g.0.last {
        Some(ds) => ds@.len() as int,
        None => 0,
    }
}

/// The nested diffs of the groups of the first `k` pairs of updates.
pub open spec fn pair_groups_nested(vals: Seq<(Vec<usize>, UpdatesGroup<usize, usize>)>, k: int) -> int
    decreases k,
{
    if k <= 0 { 0 } else { pair_groups_nested(vals, k - 1) + group_nested(vals[k - 1].1) }
}

/// How many nested diffs the leading group of sequence updates holds.
pub open spec fn first_nested(u: Updates<usize, usize>) -> int {
    match u.0.first {
        Some(g) => group_nested(g),
        None => 0,
    }
}

/// How many nested diffs sequence updates hold.
pub open spec fn nested_count(u: Updates<usize, usize>) -> int {
    first_nested(u) + pair_groups_nested(u.0.values@, u.0.values@.len() as int)
}

/// How many values a replace group removes and adds.
pub open spec fn replace_count(r: ReplaceGroup<usize>) -> int {
    (r.removals@.len() + r.additions@.len()) as int
}

/// The replaced values of the first `k` pairs of an updates group.
pub open spec fn pair_replaces(vals: Seq<(Vec<Diff<usize, usize>>, ReplaceGroup<usize>)>, k: int) -> int
    decreases k,
{
    if k <= 0 { 0 } else { pair_replaces(vals, k - 1) + replace_count(vals[k - 1].1) }
}

/// How many values the leading replace group of an updates group removes and adds.
pub open spec fn first_replaces(g: UpdatesGroup<usize, usize>) -> int {
    match g.0.first {
        Some(r) => replace_count(r),
        None => 0,
    }
}

/// How many values an updates group removes and adds.
pub open spec fn group_items(g: UpdatesGroup<usize, usize>) -> int {
    first_replaces(g) + pair_replaces(g.0.values@, g.0.values@.len() as int)
}

/// The items (unchanged, removed and added) of the first `k` pairs of updates.
pub open spec fn pair_groups_items(vals: Seq<(Vec<usize>, UpdatesGroup<usize, usize>)>, k: int) -> int
    decreases k,
{
    if k <= 0 { 0 } else { pair_groups_items(vals, k - 1) + vals[k - 1].0@.len() + group_items(vals[k - 1].1) }
}

/// How many values the leading group of sequence updates removes and adds.
pub open spec fn first_items(u: Updates<usize, usize>) -> int {
    match u.0.first {
        Some(g) => group_items(g),
        None => 0,
    }
}

/// How many unchanged items end sequence updates.
pub open spec fn last_items(u: Updates<usize, usize>) -> int {
    match u.0.last {
        Some(vs) => vs@.len() as int,
        None => 0,
    }
}

/// How many items (unchanged, removed and added) sequence updates hold.
pub open spec fn items_count(u: Updates<usize, usize>) -> int {
    first_items(u) + pair_groups_items(u.0.values@, u.0.values@.len() as int) + last_items(u)
}

/// How many children sequence updates give: every nested diff and every item.
pub open spec fn entries_count(u: Updates<usize, usize>) -> int {
    nested_count(u) + items_count(u)
}

/// Add `a` and `b`, capped at `usize::MAX`.
fn add_capped(a: usize, b: usize) -> (r: usize)
    ensures
        r == capped(a + b),
{
    if a > usize::MAX - b {
        usize::MAX
    } else {
        a + b
    }
}

/// How many nested diffs an updates group holds, capped at `usize::MAX`.
fn count_group_nested(g: &UpdatesGroup<usize, usize>) -> (r: usize)
    ensures
        r == capped(group_nested(*g)),
{
    let mut n: usize = 0;
    let mut k: usize = 0;
    while k < g.0.values.len()
        invariant
            k <= g.0.values@.len(),
            n == capped(pair_diffs(g.0.values@, k as int)),
        decreases g.0.values@.len() - k,
    {
        n = add_capped(n, g.0.values[k].0.len());
        k = k + 1;
    }
    if let Some(ds) = &g.0.last {
        n = add_capped(n, ds.len());
    }
    n
}

/// How many nested diffs sequence updates hold, capped at `usize::MAX`.
fn count_nested(u: &Updates<usize, usize>) -> (r: usize)
    ensures
        r == capped(nested_count(*u)),
{
    let mut n: usize = 0;
    if let Some(g) = &u.0.first {
        n = count_group_nested(g);
    }
    let ghost first = first_nested(*u);
    let mut k: usize = 0;
    while k < u.0.values.len()
        invariant
            k <= u.0.values@.len(),
            first == first_nested(*u),
            first >= 0,
            n == capped(first + pair_groups_nested(u.0.values@, k as int)),
        decreases u.0.values@.len() - k,
    {
        n = add_capped(n, count_group_nested(&u.0.values[k].1));
        k = k + 1;
    }
    n
}

/// How many values an updates group removes and adds, capped at `usize::MAX`.
fn count_group_items(g: &UpdatesGroup<usize, usize>) -> (r: usize)
    ensures
        r == capped(group_items(*g)),
{
    let mut n: usize = 0;
    if let Some(r) = &g.0.first {
        n = add_capped(r.removals.len(), r.additions.len());
    }
    let ghost first = first_replaces(*g);
    let mut k: usize = 0;
    while k < g.0.values.len()
        invariant
            k <= g.0.values@.len(),
            first == first_replaces(*g),
            first >= 0,
            n == capped(first + pair_replaces(g.0.values@, k as int)),
        decreases g.0.values@.len() - k,
    {
        let r = &g.0.values[k].1;
        n = add_capped(n, add_capped(r.removals.len(), r.additions.len()));
        k = k + 1;
    }
    n
}

/// How many items sequence updates hold, capped at `usize::MAX`.
fn count_items(u: &Updates<usize, usize>) -> (r: usize)
    ensures
        r == capped(items_count(*u)),
{
    let mut n: usize = 0;
    if let Some(g) = &u.0.first {
        n = count_group_items(g);
    }
    let ghost first = first_items(*u);
    let mut k: usize = 0;
    while k < u.0.values.len()
        invariant
            k <= u.0.values@.len(),
            first == first_items(*u),
            first >= 0,
            n == capped(first + pair_groups_items(u.0.values@, k as int)),
        decreases u.0.values@.len() - k,
    {
        n = add_capped(n, u.0.values[k].0.len());
        n = add_capped(n, count_group_items(&u.0.values[k].1));
        k = k + 1;
    }
    if let Some(v) = &u.0.last {
        n = add_capped(n, v.len());
    }
    n
}

/// How many children the updates give: every nested diff and every item
/// (removed, added or unchanged), capped at `usize::MAX`.
fn count_entries(u: &Updates<usize, usize>) -> (r: usize)
    ensures
        r == capped(entries_count(*u)),
{
    add_capped(count_nested(u), count_items(u))
}

/// The changes of the children of `parent` from position `at` on are `cs`.
pub open spec fn children_changes(l: Layout, parent: NodeId, at: int, cs: Seq<ElementChange>) -> bool {
    &&& 0 <= at
    &&& at + cs.len() <= l.children_of()[parent].len()
    &&& forall|i: int| 0 <= i < cs.len() ==> node_change(l.nodes()[l.children_of()[parent][at + i]]) == #[trigger] cs[i]
}

/// `n` copies of a change.
pub open spec fn repeated(c: ElementChange, n: int) -> Seq<ElementChange> {
    Seq::new(n as nat, |i: int| c)
}

/// The changes of a replace group's values: removals deleted, then additions inserted.
pub open spec fn replace_changes(r: ReplaceGroup<usize>) -> Seq<ElementChange> {
    repeated(ElementChange::Deleted, r.removals@.len() as int) + repeated(ElementChange::Inserted, r.additions@.len() as int)
}

/// The changes of the replaced values of the first `k` pairs of an updates group.
pub open spec fn pair_replace_changes(vals: Seq<(Vec<Diff<usize, usize>>, ReplaceGroup<usize>)>, k: int) -> Seq<ElementChange>
    decreases k,
{
    if k <= 0 { Seq::empty() } else { pair_replace_changes(vals, k - 1) + replace_changes(vals[k - 1].1) }
}

/// The changes of the values of an updates group's leading replace group.
pub open spec fn first_replace_changes(g: UpdatesGroup<usize, usize>) -> Seq<ElementChange> {
    match g.0.first {
        Some(r) => replace_changes(r),
        None => Seq::empty(),
    }
}

/// The changes of the replaced values of an updates group, in order.
pub open spec fn group_item_changes(g: UpdatesGroup<usize, usize>) -> Seq<ElementChange> {
    first_replace_changes(g) + pair_replace_changes(g.0.values@, g.0.values@.len() as int)
}

/// The changes of the items of the first `k` pairs of updates: each unchanged
/// run, then the replaced values of its group.
pub open spec fn pair_group_item_changes(vals: Seq<(Vec<usize>, UpdatesGroup<usize, usize>)>, k: int) -> Seq<ElementChange>
    decreases k,
{
    if k <= 0 {
        Seq::empty()
    } else {
        pair_group_item_changes(vals, k - 1) + repeated(ElementChange::Unchanged, vals[k - 1].0@.len() as int)
            + group_item_changes(vals[k - 1].1)
    }
}

/// The changes of the items of sequence updates, in order: the leading
/// group's replaced values, each unchanged run with the group after it, and
/// the trailing unchanged run.
pub open spec fn item_changes(u: Updates<usize, usize>) -> Seq<ElementChange> {
    first_group_changes(u) + pair_group_item_changes(u.0.values@, u.0.values@.len() as int) + last_run_changes(u)
}

/// The changes of the replaced values of the leading group of sequence updates.
pub open spec fn first_group_changes(u: Updates<usize, usize>) -> Seq<ElementChange> {
    match u.0.first {
        Some(g) => group_item_changes(g),
        None => Seq::empty(),
    }
}

/// The changes of the trailing unchanged run of sequence updates.
pub open spec fn last_run_changes(u: Updates<usize, usize>) -> Seq<ElementChange> {
    match u.0.last {
        Some(vs) => repeated(ElementChange::Unchanged, vs@.len() as int),
        None => Seq::empty(),
    }
}

/// Changes of children already there stay as the layout grows under the parent.
proof fn lemma_changes_stay(pre: Layout, post: Layout, parent: NodeId, at: int, cs: Seq<ElementChange>)
    requires
        children_changes(pre, parent, at, cs),
        grew_under(pre, post, parent),
        pre.well_formed(),
        pre.nodes().contains_key(parent),
    ensures
        children_changes(post, parent, at, cs),
{
    let kids = pre.children_of()[parent];
    assert forall|i: int| 0 <= i < cs.len() implies node_change(post.nodes()[post.children_of()[parent][at + i]]) == #[trigger] cs[i] by {
        assert(post.children_of()[parent][at + i] == post.children_of()[parent].subrange(0, kids.len() as int)[at + i]);
        assert(pre.nodes().contains_key(kids[at + i]));
    }
}

/// Changes of consecutive children join.
proof fn lemma_changes_join(l: Layout, parent: NodeId, at: int, xs: Seq<ElementChange>, ys: Seq<ElementChange>)
    requires
        children_changes(l, parent, at, xs),
        children_changes(l, parent, at + xs.len(), ys),
    ensures
        children_changes(l, parent, at, xs + ys),
{
    assert forall|i: int| 0 <= i < (xs + ys).len() implies node_change(l.nodes()[l.children_of()[parent][at + i]]) == #[trigger] (xs + ys)[i] by {
        if i >= xs.len() {
            assert(ys[i - xs.len()] == (xs + ys)[i]);
            assert(at + xs.len() + (i - xs.len()) == at + i);
        }
    }
}

/// No changes hold anywhere up to the end.
proof fn lemma_changes_none(l: Layout, parent: NodeId, at: int)
    requires
        0 <= at <= l.children_of()[parent].len(),
    ensures
        children_changes(l, parent, at, Seq::empty()),
{
}

/// Build a run of nested diffs under `parent`, in order.
fn build_diff_run<F: DiffFlavor>(
    l: &mut Layout,
    parent: NodeId,
    t: &ValueTable,
    ds: &Vec<Diff<usize, usize>>,
    fname: &Option<String>,
    opts: &BuildOptions,
    flavor: &F,
) -> (r: Option<NodeId>)
    requires
        under_construction(*old(l)),
        old(l).nodes().contains_key(parent),
    ensures
        under_construction(*final(l)),
        grew_under(*old(l), *final(l), parent),
        last_added(*old(l), *final(l), parent, r),
        final(l).children_of()[parent].len() == old(l).children_of()[parent].len() + ds@.len(),
        run_show(*final(l), old(l).nodes().dom(), final(l).children_of()[parent], old(l).children_of()[parent].len() as int, *t,
            ds@, name_view(*fname), *opts, *flavor, ds@.len() as int),
    decreases ds@, 0nat,
{
    let ghost start = *l;
    let ghost base = start.children_of()[parent].len() as int;
    let ghost fv = name_view(*fname);
    let mut last: Option<NodeId> = None;
    let mut i: usize = 0;
    proof {
        lemma_grew_nothing(start, parent);
    }
    while i < ds.len()
        invariant
            i <= ds@.len(),
            under_construction(*l),
            start.nodes().contains_key(parent),
            grew_under(start, *l, parent),
            last_added(start, *l, parent, last),
            l.children_of()[parent].len() == start.children_of()[parent].len() + i,
            base == start.children_of()[parent].len(),
            fv == name_view(*fname),
            run_show(*l, start.nodes().dom(), l.children_of()[parent], base, *t, ds@, fv, *opts, *flavor, i as int),
        decreases ds@.len() - i,
    {
        let ghost pre = *l;
        assert(l.nodes().contains_key(parent));
        // A replacement carries its own two values
        let (f, to) = match &ds[i] {
            Diff::Replace { from, to } => (Some(*from), Some(*to)),
            _ => (None, None),
        };
        let c = build_diff(l, parent, t, &ds[i], f, to, ElementChange::Unchanged, name_copy(fname), opts, flavor);
        proof {
            lemma_grew_kept(pre, *l, parent);
            lemma_kept_same(*l);
            assert(start.nodes().dom().subset_of(pre.nodes().dom()));
            lemma_run_stay(pre, *l, start.nodes().dom(), start.nodes().dom(), Some(parent), pre.children_of()[parent],
                l.children_of()[parent], base, *t, ds@, fv, *opts, *flavor, i as int);
            assert((f, to) == diff_sides(ds@[i as int]));
            lemma_shows_stay(*l, *l, pre.nodes().dom(), start.nodes().dom(), None, c, *t, ds@[i as int], f, to,
                ElementChange::Unchanged, fv, *opts, *flavor);
            assert(l.children_of()[parent][base + i] == c);
            lemma_added_one(start, pre, *l, parent, last, c);
        }
        last = Some(c);
        i = i + 1;
    }
    last
}

/// Build the nested diffs of an updates group under `parent`, in order.
fn build_group_nested<F: DiffFlavor>(
    l: &mut Layout,
    parent: NodeId,
    t: &ValueTable,
    g: &UpdatesGroup<usize, usize>,
    fname: &Option<String>,
    opts: &BuildOptions,
    flavor: &F,
) -> (r: Option<NodeId>)
    requires
        under_construction(*old(l)),
        old(l).nodes().contains_key(parent),
    ensures
        under_construction(*final(l)),
        grew_under(*old(l), *final(l), parent),
        last_added(*old(l), *final(l), parent, r),
        final(l).children_of()[parent].len() == old(l).children_of()[parent].len() + group_nested(*g),
        group_show(*final(l), old(l).nodes().dom(), final(l).children_of()[parent], old(l).children_of()[parent].len() as int,
            *t, *g, name_view(*fname), *opts, *flavor),
    decreases g, 0nat,
{
    let ghost start = *l;
    let ghost base = start.children_of()[parent].len() as int;
    let ghost fv = name_view(*fname);
    let mut last: Option<NodeId> = None;
    let mut k: usize = 0;
    proof {
        lemma_grew_nothing(start, parent);
    }
    while k < g.0.values.len()
        invariant
            k <= g.0.values@.len(),
            under_construction(*l),
            start.nodes().contains_key(parent),
            grew_under(start, *l, parent),
            last_added(start, *l, parent, last),
            l.children_of()[parent].len() == start.children_of()[parent].len() + pair_diffs(g.0.values@, k as int),
            base == start.children_of()[parent].len(),
            fv == name_view(*fname),
            group_pairs_show(*l, start.nodes().dom(), l.children_of()[parent], base, *t, g.0.values@, fv, *opts, *flavor, k as int),
        decreases g.0.values@.len() - k,
    {
        let ghost pre = *l;
        let more = build_diff_run(l, parent, t, &g.0.values[k].0, fname, opts, flavor);
        proof {
            lemma_step_kept(start, pre, *l, parent);
            lemma_group_pairs_stay(pre, *l, start.nodes().dom(), start.nodes().dom(), Some(parent), pre.children_of()[parent],
                l.children_of()[parent], base, *t, g.0.values@, fv, *opts, *flavor, k as int);
            lemma_run_stay(*l, *l, pre.nodes().dom(), start.nodes().dom(), None, l.children_of()[parent], l.children_of()[parent],
                pre.children_of()[parent].len() as int, *t, g.0.values@[k as int].0@, fv, *opts, *flavor,
                g.0.values@[k as int].0@.len() as int);
            lemma_added_more(start, pre, *l, parent, last, more);
        }
        if more.is_some() {
            last = more;
        }
        k = k + 1;
    }
    if let Some(ds) = &g.0.last {
        let ghost pre = *l;
        let more = build_diff_run(l, parent, t, ds, fname, opts, flavor);
        proof {
            lemma_step_kept(start, pre, *l, parent);
            lemma_group_pairs_stay(pre, *l, start.nodes().dom(), start.nodes().dom(), Some(parent), pre.children_of()[parent],
                l.children_of()[parent], base, *t, g.0.values@, fv, *opts, *flavor, g.0.values@.len() as int);
            lemma_run_stay(*l, *l, pre.nodes().dom(), start.nodes().dom(), None, l.children_of()[parent], l.children_of()[parent],
                pre.children_of()[parent].len() as int, *t, ds@, fv, *opts, *flavor, ds@.len() as int);
            lemma_added_more(start, pre, *l, parent, last, more);
        }
        if more.is_some() {
            last = more;
        }
    }
    last
}

/// Build every nested diff of the updates under `parent`, in order.
fn build_all_nested<F: DiffFlavor>(
    l: &mut Layout,
    parent: NodeId,
    t: &ValueTable,
    u: &Updates<usize, usize>,
    fname: &Option<String>,
    opts: &BuildOptions,
    flavor: &F,
) -> (r: Option<NodeId>)
    requires
        under_construction(*old(l)),
        old(l).nodes().contains_key(parent),
    ensures
        under_construction(*final(l)),
        grew_under(*old(l), *final(l), parent),
        last_added(*old(l), *final(l), parent, r),
        final(l).children_of()[parent].len() == old(l).children_of()[parent].len() + nested_count(*u),
        nested_show(*final(l), old(l).nodes().dom(), final(l).children_of()[parent], old(l).children_of()[parent].len() as int,
            *t, *u, name_view(*fname), *opts, *flavor),
    decreases u, 0nat,
{
    let ghost start = *l;
    let ghost base = start.children_of()[parent].len() as int;
    let ghost fv = name_view(*fname);
    let mut last: Option<NodeId> = None;
    proof {
        lemma_grew_nothing(start, parent);
    }
    if let Some(g) = &u.0.first {
        let ghost pre = *l;
        let more = build_group_nested(l, parent, t, g, fname, opts, flavor);
        proof {
            lemma_step_kept(start, pre, *l, parent);
            lemma_group_stay(*l, *l, pre.nodes().dom(), start.nodes().dom(), None, l.children_of()[parent], l.children_of()[parent],
                base, *t, *g, fv, *opts, *flavor);
            lemma_added_more(start, pre, *l, parent, last, more);
        }
        if more.is_some() {
            last = more;
        }
    }
    let mut k: usize = 0;
    while k < u.0.values.len()
        invariant
            k <= u.0.values@.len(),
            under_construction(*l),
            start.nodes().contains_key(parent),
            grew_under(start, *l, parent),
            last_added(start, *l, parent, last),
            l.children_of()[parent].len() == start.children_of()[parent].len() + first_nested(*u) + pair_groups_nested(u.0.values@, k as int),
            base == start.children_of()[parent].len(),
            fv == name_view(*fname),
            match u.0.first {
                Some(g) => group_show(*l, start.nodes().dom(), l.children_of()[parent], base, *t, g, fv, *opts, *flavor),
                None => true,
            },
            update_pairs_show(*l, start.nodes().dom(), l.children_of()[parent], base + first_nested(*u), *t, u.0.values@, fv, *opts,
                *flavor, k as int),
        decreases u.0.values@.len() - k,
    {
        let ghost pre = *l;
        let more = build_group_nested(l, parent, t, &u.0.values[k].1, fname, opts, flavor);
        proof {
            lemma_step_kept(start, pre, *l, parent);
            if let Some(g) = &u.0.first {
                lemma_group_stay(pre, *l, start.nodes().dom(), start.nodes().dom(), Some(parent), pre.children_of()[parent],
                    l.children_of()[parent], base, *t, *g, fv, *opts, *flavor);
            }
            lemma_update_pairs_stay(pre, *l, start.nodes().dom(), start.nodes().dom(), Some(parent), pre.children_of()[parent],
                l.children_of()[parent], base + first_nested(*u), *t, u.0.values@, fv, *opts, *flavor, k as int);
            lemma_group_stay(*l, *l, pre.nodes().dom(), start.nodes().dom(), None, l.children_of()[parent], l.children_of()[parent],
                pre.children_of()[parent].len() as int, *t, u.0.values@[k as int].1, fv, *opts, *flavor);
            lemma_added_more(start, pre, *l, parent, last, more);
        }
        if more.is_some() {
            last = more;
        }
        k = k + 1;
    }
    last
}

/// Build a run of values shown whole under `parent`, each with `change`.
fn build_value_run<F: DiffFlavor>(
    l: &mut Layout,
    parent: NodeId,
    t: &ValueTable,
    vs: &Vec<usize>,
    change: ElementChange,
    fname: &Option<String>,
    opts: &BuildOptions,
    flavor: &F,
) -> (r: Option<NodeId>)
    requires
        under_construction(*old(l)),
        old(l).nodes().contains_key(parent),
    ensures
        under_construction(*final(l)),
        grew_under(*old(l), *final(l), parent),
        last_added(*old(l), *final(l), parent, r),
        final(l).children_of()[parent].len() == old(l).children_of()[parent].len() + (repeated(change, vs@.len() as int)).len(),
        children_changes(*final(l), parent, old(l).children_of()[parent].len() as int, repeated(change, vs@.len() as int)),
        final(l).children_of()[parent].len() == old(l).children_of()[parent].len() + vs@.len(),
        items_show(*final(l), old(l).nodes().dom(), final(l).children_of()[parent], old(l).children_of()[parent].len() as int,
            *t, vs@, repeated(change, vs@.len() as int), name_view(*fname), *opts, *flavor),
{
    let ghost start = *l;
    let mut last: Option<NodeId> = None;
    let mut i: usize = 0;
    proof {
        lemma_grew_nothing(start, parent);
    }
    proof {
        assert(repeated(change, 0) =~= Seq::<ElementChange>::empty());
        lemma_changes_none(start, parent, start.children_of()[parent].len() as int);
        lemma_items_none(start, start.nodes().dom(), start.children_of()[parent], start.children_of()[parent].len() as int, *t,
            name_view(*fname), *opts, *flavor);
        assert(vs@.subrange(0, 0) =~= Seq::<usize>::empty());
    }
    while i < vs.len()
        invariant
            i <= vs@.len(),
            under_construction(*l),
            start.nodes().contains_key(parent),
            grew_under(start, *l, parent),
            last_added(start, *l, parent, last),
            l.children_of()[parent].len() == start.children_of()[parent].len() + i,
            children_changes(*l, parent, start.children_of()[parent].len() as int, repeated(change, i as int)),
            items_show(*l, start.nodes().dom(), l.children_of()[parent], start.children_of()[parent].len() as int,
                *t, vs@.subrange(0, i as int), repeated(change, i as int), name_view(*fname), *opts, *flavor),
        decreases vs@.len() - i,
    {
        let ghost pre = *l;
        assert(l.nodes().contains_key(parent));
        let c = build_peek(l, parent, t, vs[i], change, name_copy(fname), opts, flavor);
        proof {
            assert(item_shows(*l, pre.nodes().dom(), l.children_of()[parent], pre.children_of()[parent].len() as int, *t,
                seq![vs@[i as int]], seq![change], name_view(*fname), *opts, *flavor, 0));
            lemma_items_extend(start, pre, *l, parent, start.children_of()[parent].len() as int, *t, vs@.subrange(0, i as int),
                repeated(change, i as int), seq![vs@[i as int]], seq![change], name_view(*fname), *opts, *flavor);
            assert(vs@.subrange(0, i as int) + seq![vs@[i as int]] =~= vs@.subrange(0, i + 1));
            lemma_added_one(start, pre, *l, parent, last, c);
            let base = start.children_of()[parent].len() as int;
            lemma_changes_stay(pre, *l, parent, base, repeated(change, i as int));
            assert(l.children_of()[parent][base + i] == c);
            assert(children_changes(*l, parent, base + i, seq![change]));
            lemma_changes_join(*l, parent, base, repeated(change, i as int), seq![change]);
            assert(repeated(change, i as int) + seq![change] =~= repeated(change, i + 1));
        }
        last = Some(c);
        i = i + 1;
    }
    proof {
        assert(vs@.subrange(0, vs@.len() as int) =~= vs@);
    }
    last
}

/// Build the values of a replace group under `parent`: removals as deleted,
/// then additions as inserted.
fn build_replace_items<F: DiffFlavor>(
    l: &mut Layout,
    parent: NodeId,
    t: &ValueTable,
    rg: &ReplaceGroup<usize>,
    fname: &Option<String>,
    opts: &BuildOptions,
    flavor: &F,
) -> (r: Option<NodeId>)
    requires
        under_construction(*old(l)),
        old(l).nodes().contains_key(parent),
    ensures
        under_construction(*final(l)),
        grew_under(*old(l), *final(l), parent),
        last_added(*old(l), *final(l), parent, r),
        final(l).children_of()[parent].len() == old(l).children_of()[parent].len() + (replace_changes(*rg)).len(),
        children_changes(*final(l), parent, old(l).children_of()[parent].len() as int, replace_changes(*rg)),
        final(l).children_of()[parent].len() == old(l).children_of()[parent].len() + replace_count(*rg),
        items_show(*final(l), old(l).nodes().dom(), final(l).children_of()[parent], old(l).children_of()[parent].len() as int,
            *t, replace_values(*rg), replace_changes(*rg), name_view(*fname), *opts, *flavor),
{
    let ghost start = *l;
    let removed = build_value_run(l, parent, t, &rg.removals, ElementChange::Deleted, fname, opts, flavor);
    let ghost mid = *l;
    let added = build_value_run(l, parent, t, &rg.additions, ElementChange::Inserted, fname, opts, flavor);
    proof {
        lemma_items_extend(start, mid, *l, parent, start.children_of()[parent].len() as int, *t, rg.removals@,
            repeated(ElementChange::Deleted, rg.removals@.len() as int), rg.additions@,
            repeated(ElementChange::Inserted, rg.additions@.len() as int), name_view(*fname), *opts, *flavor);
        lemma_added_more(start, mid, *l, parent, removed, added);
        let base = start.children_of()[parent].len() as int;
        let xs = repeated(ElementChange::Deleted, rg.removals@.len() as int);
        let ys = repeated(ElementChange::Inserted, rg.additions@.len() as int);
        assert(mid.nodes().contains_key(parent));
        lemma_changes_stay(mid, *l, parent, base, xs);
        lemma_changes_join(*l, parent, base, xs, ys);
    }
    if added.is_some() {
        added
    } else {
        removed
    }
}

/// Build the replaced values of an updates group under `parent`, in order.
fn build_group_items<F: DiffFlavor>(
    l: &mut Layout,
    parent: NodeId,
    t: &ValueTable,
    g: &UpdatesGroup<usize, usize>,
    fname: &Option<String>,
    opts: &BuildOptions,
    flavor: &F,
) -> (r: Option<NodeId>)
    requires
        under_construction(*old(l)),
        old(l).nodes().contains_key(parent),
    ensures
        under_construction(*final(l)),
        grew_under(*old(l), *final(l), parent),
        last_added(*old(l), *final(l), parent, r),
        final(l).children_of()[parent].len() == old(l).children_of()[parent].len() + (group_item_changes(*g)).len(),
        children_changes(*final(l), parent, old(l).children_of()[parent].len() as int, group_item_changes(*g)),
        final(l).children_of()[parent].len() == old(l).children_of()[parent].len() + group_items(*g),
        items_show(*final(l), old(l).nodes().dom(), final(l).children_of()[parent], old(l).children_of()[parent].len() as int,
            *t, group_item_values(*g), group_item_changes(*g), name_view(*fname), *opts, *flavor),
{
    let ghost start = *l;
    let ghost base = start.children_of()[parent].len() as int;
    let ghost fv = name_view(*fname);
    let mut last: Option<NodeId> = None;
    proof {
        lemma_grew_nothing(start, parent);
        lemma_changes_none(start, parent, base);
        lemma_items_none(start, start.nodes().dom(), start.children_of()[parent], base, *t, fv, *opts, *flavor);
    }
    if let Some(rg) = &g.0.first {
        let ghost pre = *l;
        let more = build_replace_items(l, parent, t, rg, fname, opts, flavor);
        proof {
            lemma_added_more(start, pre, *l, parent, last, more);
            lemma_items_extend(start, pre, *l, parent, base, *t, Seq::empty(), Seq::empty(), replace_values(*rg),
                replace_changes(*rg), fv, *opts, *flavor);
            assert(Seq::<usize>::empty() + replace_values(*rg) =~= replace_values(*rg));
            assert(Seq::<ElementChange>::empty() + replace_changes(*rg) =~= replace_changes(*rg));
        }
        if more.is_some() {
            last = more;
        }
    }
    let ghost first_values = first_replace_values(*g);
    proof {
        assert(first_replace_changes(*g) + pair_replace_changes(g.0.values@, 0) =~= first_replace_changes(*g));
        assert(first_values + pair_replace_values(g.0.values@, 0) =~= first_values);
    }
    let mut k: usize = 0;
    while k < g.0.values.len()
        invariant
            k <= g.0.values@.len(),
            under_construction(*l),
            start.nodes().contains_key(parent),
            grew_under(start, *l, parent),
            last_added(start, *l, parent, last),
            l.children_of()[parent].len() == start.children_of()[parent].len() + first_replaces(*g) + pair_replaces(g.0.values@, k as int),
            base == start.children_of()[parent].len(),
            l.children_of()[parent].len() == base + (first_replace_changes(*g) + pair_replace_changes(g.0.values@, k as int)).len(),
            children_changes(*l, parent, base, first_replace_changes(*g) + pair_replace_changes(g.0.values@, k as int)),
            fv == name_view(*fname),
            first_values == first_replace_values(*g),
            items_show(*l, start.nodes().dom(), l.children_of()[parent], base, *t,
                first_values + pair_replace_values(g.0.values@, k as int),
                first_replace_changes(*g) + pair_replace_changes(g.0.values@, k as int), fv, *opts, *flavor),
        decreases g.0.values@.len() - k,
    {
        let ghost pre = *l;
        let ghost acc = first_replace_changes(*g) + pair_replace_changes(g.0.values@, k as int);
        let ghost accv = first_values + pair_replace_values(g.0.values@, k as int);
        let more = build_replace_items(l, parent, t, &g.0.values[k].1, fname, opts, flavor);
        proof {
            lemma_items_extend(start, pre, *l, parent, base, *t, accv, acc, replace_values(g.0.values@[k as int].1),
                replace_changes(g.0.values@[k as int].1), fv, *opts, *flavor);
            assert(accv + replace_values(g.0.values@[k as int].1) =~= first_values + pair_replace_values(g.0.values@, k + 1));
            lemma_added_more(start, pre, *l, parent, last, more);
            assert(pre.nodes().contains_key(parent));
            lemma_changes_stay(pre, *l, parent, base, acc);
            lemma_changes_join(*l, parent, base, acc, replace_changes(g.0.values@[k as int].1));
            assert(acc + replace_changes(g.0.values@[k as int].1)
                =~= first_replace_changes(*g) + pair_replace_changes(g.0.values@, k + 1));
        }
        if more.is_some() {
            last = more;
        }
        k = k + 1;
    }
    last
}

/// Build the items of the updates under `parent`, in order: replaced values
/// of each group, and unchanged runs between them.
fn build_all_items<F: DiffFlavor>(
    l: &mut Layout,
    parent: NodeId,
    t: &ValueTable,
    u: &Updates<usize, usize>,
    fname: &Option<String>,
    opts: &BuildOptions,
    flavor: &F,
) -> (r: Option<NodeId>)
    requires
        under_construction(*old(l)),
        old(l).nodes().contains_key(parent),
    ensures
        under_construction(*final(l)),
        grew_under(*old(l), *final(l), parent),
        last_added(*old(l), *final(l), parent, r),
        final(l).children_of()[parent].len() == old(l).children_of()[parent].len() + (item_changes(*u)).len(),
        children_changes(*final(l), parent, old(l).children_of()[parent].len() as int, item_changes(*u)),
        final(l).children_of()[parent].len() == old(l).children_of()[parent].len() + items_count(*u),
        items_show(*final(l), old(l).nodes().dom(), final(l).children_of()[parent], old(l).children_of()[parent].len() as int,
            *t, item_values(*u), item_changes(*u), name_view(*fname), *opts, *flavor),
{
    let ghost start = *l;
    let ghost base = start.children_of()[parent].len() as int;
    let ghost fv = name_view(*fname);
    let mut last: Option<NodeId> = None;
    proof {
        lemma_grew_nothing(start, parent);
        lemma_changes_none(start, parent, base);
        lemma_items_none(start, start.nodes().dom(), start.children_of()[parent], base, *t, fv, *opts, *flavor);
    }
    if let Some(g) = &u.0.first {
        let ghost pre = *l;
        let more = build_group_items(l, parent, t, g, fname, opts, flavor);
        proof {
            lemma_added_more(start, pre, *l, parent, last, more);
            lemma_items_extend(start, pre, *l, parent, base, *t, Seq::empty(), Seq::empty(), group_item_values(*g),
                group_item_changes(*g), fv, *opts, *flavor);
            assert(Seq::<usize>::empty() + group_item_values(*g) =~= group_item_values(*g));
            assert(Seq::<ElementChange>::empty() + group_item_changes(*g) =~= group_item_changes(*g));
        }
        if more.is_some() {
            last = more;
        }
    }
    proof {
        assert(first_group_changes(*u) + pair_group_item_changes(u.0.values@, 0) =~= first_group_changes(*u));
        assert(first_group_values(*u) + pair_group_item_values(u.0.values@, 0) =~= first_group_values(*u));
    }
    let mut k: usize = 0;
    while k < u.0.values.len()
        invariant
            k <= u.0.values@.len(),
            under_construction(*l),
            start.nodes().contains_key(parent),
            grew_under(start, *l, parent),
            last_added(start, *l, parent, last),
            l.children_of()[parent].len() == start.children_of()[parent].len() + first_items(*u) + pair_groups_items(u.0.values@, k as int),
            base == start.children_of()[parent].len(),
            l.children_of()[parent].len() == base + (first_group_changes(*u) + pair_group_item_changes(u.0.values@, k as int)).len(),
            children_changes(*l, parent, base, first_group_changes(*u) + pair_group_item_changes(u.0.values@, k as int)),
            fv == name_view(*fname),
            items_show(*l, start.nodes().dom(), l.children_of()[parent], base, *t,
                first_group_values(*u) + pair_group_item_values(u.0.values@, k as int),
                first_group_changes(*u) + pair_group_item_changes(u.0.values@, k as int), fv, *opts, *flavor),
        decreases u.0.values@.len() - k,
    {
        let ghost pre = *l;
        let ghost acc = first_group_changes(*u) + pair_group_item_changes(u.0.values@, k as int);
        let ghost accv = first_group_values(*u) + pair_group_item_values(u.0.values@, k as int);
        let more = build_value_run(l, parent, t, &u.0.values[k].0, ElementChange::Unchanged, fname, opts, flavor);
        proof {
            lemma_items_extend(start, pre, *l, parent, base, *t, accv, acc, u.0.values@[k as int].0@,
                repeated(ElementChange::Unchanged, u.0.values@[k as int].0@.len() as int), fv, *opts, *flavor);
            lemma_added_more(start, pre, *l, parent, last, more);
            assert(pre.nodes().contains_key(parent));
            lemma_changes_stay(pre, *l, parent, base, acc);
            lemma_changes_join(*l, parent, base, acc, repeated(ElementChange::Unchanged, u.0.values@[k as int].0@.len() as int));
        }
        if more.is_some() {
            last = more;
        }
        let ghost pre2 = *l;
        let ghost acc2 = acc + repeated(ElementChange::Unchanged, u.0.values@[k as int].0@.len() as int);
        let ghost accv2 = accv + u.0.values@[k as int].0@;
        let more2 = build_group_items(l, parent, t, &u.0.values[k].1, fname, opts, flavor);
        proof {
            lemma_items_extend(start, pre2, *l, parent, base, *t, accv2, acc2, group_item_values(u.0.values@[k as int].1),
                group_item_changes(u.0.values@[k as int].1), fv, *opts, *flavor);
            assert(accv2 + group_item_values(u.0.values@[k as int].1)
                =~= first_group_values(*u) + pair_group_item_values(u.0.values@, k + 1));
            lemma_added_more(start, pre2, *l, parent, last, more2);
            assert(pre2.nodes().contains_key(parent));
            lemma_changes_stay(pre2, *l, parent, base, acc2);
            lemma_changes_join(*l, parent, base, acc2, group_item_changes(u.0.values@[k as int].1));
            assert(acc2 + group_item_changes(u.0.values@[k as int].1)
                =~= first_group_changes(*u) + pair_group_item_changes(u.0.values@, k + 1));
        }
        if more2.is_some() {
            last = more2;
        }
        k = k + 1;
    }
    let ghost acc = first_group_changes(*u) + pair_group_item_changes(u.0.values@, u.0.values@.len() as int);
    let ghost accv = first_group_values(*u) + pair_group_item_values(u.0.values@, u.0.values@.len() as int);
    if let Some(vs) = &u.0.last {
        let ghost pre = *l;
        let more = build_value_run(l, parent, t, vs, ElementChange::Unchanged, fname, opts, flavor);
        proof {
            lemma_items_extend(start, pre, *l, parent, base, *t, accv, acc, vs@,
                repeated(ElementChange::Unchanged, vs@.len() as int), fv, *opts, *flavor);
            lemma_added_more(start, pre, *l, parent, last, more);
            assert(pre.nodes().contains_key(parent));
            lemma_changes_stay(pre, *l, parent, base, acc);
            lemma_changes_join(*l, parent, base, acc, repeated(ElementChange::Unchanged, vs@.len() as int));
        }
        if more.is_some() {
            last = more;
        }
    } else {
        proof {
            assert(acc + Seq::<ElementChange>::empty() =~= acc);
            assert(accv + Seq::<usize>::empty() =~= accv);
        }
    }
    last
}

/// Build the children that sequence updates give under `parent`: first the
/// nested diffs (items with changes inside), then the removed, added and
/// unchanged items, each with its change. `fname` is the field name each
/// child gets.
fn build_updates_children<F: DiffFlavor>(
    l: &mut Layout,
    parent: NodeId,
    t: &ValueTable,
    u: &Updates<usize, usize>,
    fname: &Option<String>,
    opts: &BuildOptions,
    flavor: &F,
) -> (r: Option<NodeId>)
    requires
        under_construction(*old(l)),
        old(l).nodes().contains_key(parent),
    ensures
        under_construction(*final(l)),
        grew_under(*old(l), *final(l), parent),
        last_added(*old(l), *final(l), parent, r),
        children_changes(*final(l), parent, old(l).children_of()[parent].len() + nested_count(*u), item_changes(*u)),
        final(l).children_of()[parent].len() == old(l).children_of()[parent].len() + entries_count(*u),
        nested_show(*final(l), old(l).nodes().dom(), final(l).children_of()[parent], old(l).children_of()[parent].len() as int,
            *t, *u, name_view(*fname), *opts, *flavor),
        items_show(*final(l), old(l).nodes().dom(), final(l).children_of()[parent],
            old(l).children_of()[parent].len() + nested_count(*u), *t, item_values(*u), item_changes(*u), name_view(*fname), *opts,
            *flavor),
    decreases u, 1nat,
{
    let ghost start = *l;
    let nested = build_all_nested(l, parent, t, u, fname, opts, flavor);
    let ghost mid = *l;
    let items = build_all_items(l, parent, t, u, fname, opts, flavor);
    proof {
        lemma_step_kept(start, mid, *l, parent);
        lemma_nested_stay(mid, *l, start.nodes().dom(), start.nodes().dom(), Some(parent), mid.children_of()[parent],
            l.children_of()[parent], start.children_of()[parent].len() as int, *t, *u, name_view(*fname), *opts, *flavor);
        lemma_items_stay(*l, *l, mid.nodes().dom(), start.nodes().dom(), None, l.children_of()[parent], l.children_of()[parent],
            mid.children_of()[parent].len() as int, *t, item_values(*u), item_changes(*u), name_view(*fname), *opts, *flavor);
        lemma_added_more(start, mid, *l, parent, nested, items);
    }
    if items.is_some() {
        items
    } else {
        nested
    }
}


/// Add an element for a value's parts under `parent`, with the children
/// that its updates give.
fn build_tuple<F: DiffFlavor>(
    l: &mut Layout,
    parent: NodeId,
    t: &ValueTable,
    tag: String,
    updates: &Updates<usize, usize>,
    change: ElementChange,
    field_name: Option<String>,
    opts: &BuildOptions,
    flavor: &F,
) -> (r: NodeId)
    requires
        under_construction(*old(l)),
        old(l).nodes().contains_key(parent),
    ensures
        built_under(*old(l), *final(l), parent, r),
        final(l).children_of()[parent] == old(l).children_of()[parent].push(r),
        final(l).nodes()[r] matches LayoutNode::Element { tag: tg, field_name: f, change: c, .. }
            && tg@ == tag@ && f == field_name && c == change,
        updates_show(*final(l), old(l).nodes().dom(), r, *t, *updates, *opts, *flavor),
        node_grouped(*final(l), r, opts.max_line_width as int),
    decreases updates, 2nat,
{
    let ghost start = *l;
    let node = add_element(l, parent, tag, field_name, Vec::new(), change, opts);
    let ghost mid = *l;
    let _ = build_updates_children(l, node, t, updates, &None, opts, flavor);
    proof {
        lemma_built_below(start, mid, *l, parent, node);
        lemma_updates_below(start, mid, *l, node, *t, *updates, *opts, *flavor);
    }
    node
}

/// Build updates without an element of their own (for an `Option`): a
/// single child stands for itself, with the field name; otherwise the
/// children go into a transparent element.
fn build_transparent<F: DiffFlavor>(
    l: &mut Layout,
    parent: NodeId,
    t: &ValueTable,
    updates: &Updates<usize, usize>,
    change: ElementChange,
    field_name: Option<String>,
    opts: &BuildOptions,
    flavor: &F,
) -> (r: NodeId)
    requires
        under_construction(*old(l)),
        old(l).nodes().contains_key(parent),
    ensures
        built_under(*old(l), *final(l), parent, r),
        final(l).children_of()[parent] == old(l).children_of()[parent].push(r),
        entries_count(*updates) != 1 ==> {
            &&& final(l).nodes()[r] matches LayoutNode::Element { tag, field_name: f, change: c, .. }
                && tag@ == transparent_tag() && f == field_name && c == change
            &&& updates_show(*final(l), old(l).nodes().dom(), r, *t, *updates, *opts, *flavor)
            &&& node_grouped(*final(l), r, opts.max_line_width as int)
        },
        entries_count(*updates) == 1 ==> {
            &&& nested_show(*final(l), old(l).nodes().dom(), seq![r], 0, *t, *updates, name_view(field_name), *opts, *flavor)
            &&& items_show(*final(l), old(l).nodes().dom(), seq![r], nested_count(*updates), *t, item_values(*updates),
                item_changes(*updates), name_view(field_name), *opts, *flavor)
        },
    decreases updates, 2nat,
{
    let ghost start = *l;
    proof {
        reveal_strlit("_transparent");
    }
    if count_entries(updates) == 1 {
        let single = build_updates_children(l, parent, t, updates, &field_name, opts, flavor);
        match single {
            Some(c) => {
                proof {
                    let kids = l.children_of()[parent];
                    let base = start.children_of()[parent].len() as int;
                    assert(kids.len() == base + 1);
                    assert(kids[base] == c);
                    assert(super::shows::shifted(kids, seq![c], base, -base));
                    super::shows::lemma_nested_count_nonneg(*updates);
                    super::shows::lemma_nested_shift(*l, start.nodes().dom(), kids, seq![c], base, -base, base, *t, *updates,
                        name_view(field_name), *opts, *flavor);
                    super::shows::lemma_items_shift(*l, start.nodes().dom(), kids, seq![c], base, -base,
                        base + nested_count(*updates), *t, item_values(*updates), item_changes(*updates), name_view(field_name),
                        *opts, *flavor);
                }
                return c;
            },
            None => {
                let ghost mid = *l;
                assert(l.nodes().contains_key(parent));
                let node = add_element(l, parent, "_transparent".to_owned(), field_name, Vec::new(), change, opts);
                proof {
                    lemma_grew_again(start, mid, *l, parent);
                }
                return node;
            },
        }
    }
    let node = add_element(l, parent, "_transparent".to_owned(), field_name, Vec::new(), change, opts);
    let ghost mid = *l;
    let _ = build_updates_children(l, node, t, updates, &None, opts, flavor);
    proof {
        lemma_built_below(start, mid, *l, parent, node);
        lemma_updates_below(start, mid, *l, node, *t, *updates, *opts, *flavor);
    }
    node
}

/// Add a sequence node under `parent`, with the children its updates give.
fn build_sequence<F: DiffFlavor>(
    l: &mut Layout,
    parent: NodeId,
    t: &ValueTable,
    updates: &Updates<usize, usize>,
    change: ElementChange,
    item_type: &'static str,
    field_name: Option<String>,
    opts: &BuildOptions,
    flavor: &F,
) -> (r: NodeId)
    requires
        under_construction(*old(l)),
        old(l).nodes().contains_key(parent),
    ensures
        built_under(*old(l), *final(l), parent, r),
        final(l).children_of()[parent] == old(l).children_of()[parent].push(r),
        final(l).nodes()[r] == (LayoutNode::Sequence { change, item_type, field_name }),
        final(l).children_of()[r].len() == entries_count(*updates),
        children_changes(*final(l), r, nested_count(*updates), item_changes(*updates)),
        updates_show(*final(l), old(l).nodes().dom(), r, *t, *updates, *opts, *flavor),
    decreases updates, 2nat,
{
    let ghost start = *l;
    let ghost fname = field_name;
    let node = add_node(l, parent, LayoutNode::Sequence { change, item_type, field_name });
    let ghost mid = *l;
    let _ = build_updates_children(l, node, t, updates, &None, opts, flavor);
    proof {
        lemma_built_below(start, mid, *l, parent, node);
        lemma_updates_below(start, mid, *l, node, *t, *updates, *opts, *flavor);
    }
    node
}

/// A node added with no children, then the children that sequence updates
/// give built under it, shows those updates.
proof fn lemma_updates_below<F: DiffFlavor>(start: Layout, mid: Layout, end: Layout, node: NodeId, t: ValueTable,
    u: Updates<usize, usize>, opts: BuildOptions, flavor: F)
    requires
        start.nodes().dom().subset_of(mid.nodes().dom()),
        mid.nodes().contains_key(node),
        !start.nodes().contains_key(node),
        mid.children_of()[node].len() == 0,
        under_construction(end),
        end.children_of()[node].len() == mid.children_of()[node].len() + entries_count(u),
        children_changes(end, node, mid.children_of()[node].len() + nested_count(u), item_changes(u)),
        nested_show(end, mid.nodes().dom(), end.children_of()[node], mid.children_of()[node].len() as int, t, u, None, opts, flavor),
        items_show(end, mid.nodes().dom(), end.children_of()[node], mid.children_of()[node].len() + nested_count(u), t,
            item_values(u), item_changes(u), None, opts, flavor),
    ensures
        updates_show(end, start.nodes().dom(), node, t, u, opts, flavor),
{
    lemma_kept_same(end);
    let bin = start.nodes().dom().insert(node);
    let kids = end.children_of()[node];
    assert(bin.subset_of(mid.nodes().dom()));
    assert(kids.subrange(0, kids.len() as int) =~= kids);
    lemma_nested_stay(end, end, mid.nodes().dom(), bin, None, kids, kids, 0, t, u, None, opts, flavor);
    lemma_items_stay(end, end, mid.nodes().dom(), bin, None, kids, kids, nested_count(u), t, item_values(u), item_changes(u), None,
        opts, flavor);
}

/// Whether a value is a struct (of any kind).
fn is_struct_value(t: &ValueTable, v: usize) -> (r: bool)
    ensures
        r == (v < t.values@.len() && t.values@[v as int].kind is Struct),
{
    match value_at(t, v) {
        Some(d) => matches!(d.kind, ValueKind::Struct { .. }),
        None => false,
    }
}

/// The names of a list, each once with its position, for ordering by name.
fn named_positions(names: &Vec<String>) -> (r: Vec<(String, usize)>)
    ensures
        r@.len() == names@.len(),
        forall|i: int| 0 <= i < names@.len() ==> (#[trigger] r@[i]).0@ == names@[i]@,
{
    let mut r: Vec<(String, usize)> = Vec::new();
    let mut i: usize = 0;
    while i < names.len()
        invariant
            i <= names@.len(),
            r@.len() == i,
            forall|k: int| 0 <= k < i ==> (#[trigger] r@[k]).0@ == names@[k]@,
        decreases names@.len() - i,
    {
        r.push((names[i].clone(), i));
        i = i + 1;
    }
    r
}

/// Attributes for the unchanged fields of a struct diff, by name, read from
/// the `from` value: falsy values are left out.
fn unchanged_attrs<F: DiffFlavor>(
    l: &mut Layout,
    t: &ValueTable,
    unchanged: &Vec<String>,
    from: usize,
    opts: &BuildOptions,
    flavor: &F,
) -> (attrs: Vec<Attr>)
    requires
        under_construction(*old(l)),
    ensures
        under_construction(*final(l)),
        final(l).tree == old(l).tree,
        final(l).root == old(l).root,
        arena_grew(old(l).strings.chars(), final(l).strings.chars()),
        final(l).strings.bytes().len() <= u32::MAX ==> forall|i: int| 0 <= i < attrs@.len() ==> attr_ok(*final(l), #[trigger] attrs@[i]),
        final(l).strings.bytes().len() <= u32::MAX ==> attrs_shown(*final(l), attrs@) == unchanged_shown(
            *t,
            name_views(unchanged@),
            sorted_order(name_views(unchanged@), unchanged@.len()),
            from,
            *opts,
            *flavor,
            unchanged@.len() as int,
        ),
{
    let ghost start = *l;
    let mut attrs: Vec<Attr> = Vec::new();
    let entries = named_positions(unchanged);
    let ghost names = name_views(unchanged@);
    proof {
        assert(entry_names(entries@) =~= names);
    }
    // The count of entries is a `usize`, which the order needs
    let n_entries = entries.len();
    let order = name_order(&entries);
    proof {
        crate::diff_text::lemma_order_in_range(entries@);
        assert(l.strings.chars().subrange(0, l.strings.chars().len() as int) =~= l.strings.chars());
    }
    let mut k: usize = 0;
    while k < order.len()
        invariant
            k <= order@.len(),
            forall|j: int| 0 <= j < order@.len() ==> order@[j] < entries@.len(),
            under_construction(*l),
            l.tree == start.tree,
            l.root == start.root,
            arena_grew(start.strings.chars(), l.strings.chars()),
            l.strings.bytes().len() <= u32::MAX ==> forall|i: int| 0 <= i < attrs@.len() ==> attr_ok(*l, #[trigger] attrs@[i]),
            names == entry_names(entries@),
            order@ == sorted_order(names, entries@.len()),
            entries@.len() == unchanged@.len(),
            names == name_views(unchanged@),
            l.strings.bytes().len() <= u32::MAX ==> attrs_shown(*l, attrs@) == unchanged_shown(*t, names, order@, from, *opts, *flavor, k as int),
        decreases order@.len() - k,
    {
        let name = entries[order[k]].0.as_str();
        let ghost step = unchanged_shown(*t, names, order@, from, *opts, *flavor, k + 1);
        let ghost upto = unchanged_shown(*t, names, order@, from, *opts, *flavor, k as int);
        proof {
            assert(names[order@[k as int] as int] == name@);
        }
        let found = field_by_name(t, from, name);
        if let Some(fv) = found {
            if !is_falsy(t, fv) {
                let ghost before = *l;
                let value = format_value(l, t, fv, opts, flavor);
                proof {
                    lemma_attrs_stay_ok(before, *l, attrs@);
                    lemma_attrs_shown_stay(before, *l, attrs@);
                    lemma_arena_grew_trans(start.strings.chars(), before.strings.chars(), l.strings.chars());
                }
                let ghost prev = attrs@;
                attrs.push(Attr::unchanged(name, name.len(), value));
                proof {
                    assert(attrs_shown(*l, attrs@) =~= attrs_shown(*l, prev).push(attr_shown(*l, attrs@.last())));
                    assert(step == upto.push((name@, 0int, shown_value(*t, fv, *opts, *flavor).0, Seq::<char>::empty())));
                    if l.strings.bytes().len() <= u32::MAX {
                        assert(attr_shown(*l, attrs@.last())
                            == (name@, 0int, shown_value(*t, fv, *opts, *flavor).0, Seq::<char>::empty()));
                    }
                }
            } else {
                proof {
                    assert(step == upto);
                }
            }
        } else {
            proof {
                assert(step == upto);
            }
        }
        k = k + 1;
    }
    attrs
}

/// Attributes for the deleted or inserted fields of a struct diff, by name.
fn removed_or_added_attrs<F: DiffFlavor>(
    l: &mut Layout,
    t: &ValueTable,
    entries: &Vec<(String, usize)>,
    change: ElementChange,
    attrs: &mut Vec<Attr>,
    opts: &BuildOptions,
    flavor: &F,
)
    requires
        under_construction(*old(l)),
        old(l).strings.bytes().len() <= u32::MAX ==> forall|i: int| 0 <= i < old(attrs)@.len() ==> attr_ok(*old(l), #[trigger] old(attrs)@[i]),
    ensures
        under_construction(*final(l)),
        final(l).tree == old(l).tree,
        final(l).root == old(l).root,
        arena_grew(old(l).strings.chars(), final(l).strings.chars()),
        final(l).strings.bytes().len() <= u32::MAX ==> forall|i: int| 0 <= i < final(attrs)@.len() ==> attr_ok(*final(l), #[trigger] final(attrs)@[i]),
        final(l).strings.bytes().len() <= u32::MAX ==> attrs_shown(*final(l), final(attrs)@) == attrs_shown(*old(l), old(attrs)@)
            + entries_shown(*t, entries@, sorted_order(entry_names(entries@), entries@.len()), change_kind(change), *opts, *flavor, entries@.len() as int),
        final(l).strings.bytes().len() <= u32::MAX ==> old(l).strings.bytes().len() <= u32::MAX,
{
    let ghost start = *l;
    let ghost attrs0 = attrs@;
    // The count of entries is a `usize`, which the order needs
    let n_entries = entries.len();
    let order = name_order(entries);
    proof {
        crate::diff_text::lemma_order_in_range(entries@);
        assert(l.strings.chars().subrange(0, l.strings.chars().len() as int) =~= l.strings.chars());
        assert(attrs_shown(start, attrs0) + entries_shown(*t, entries@, order@, change_kind(change), *opts, *flavor, 0)
            =~= attrs_shown(start, attrs0));
    }
    let mut k: usize = 0;
    while k < order.len()
        invariant
            k <= order@.len(),
            forall|j: int| 0 <= j < order@.len() ==> order@[j] < entries@.len(),
            under_construction(*l),
            l.tree == start.tree,
            l.root == start.root,
            arena_grew(start.strings.chars(), l.strings.chars()),
            l.strings.bytes().len() <= u32::MAX ==> forall|i: int| 0 <= i < attrs@.len() ==> attr_ok(*l, #[trigger] attrs@[i]),
            order@ == sorted_order(entry_names(entries@), entries@.len()),
            l.strings.bytes().len() <= u32::MAX ==> attrs_shown(*l, attrs@) == attrs_shown(start, attrs0)
                + entries_shown(*t, entries@, order@, change_kind(change), *opts, *flavor, k as int),
            l.strings.bytes().len() <= u32::MAX ==> start.strings.bytes().len() <= u32::MAX,
        decreases order@.len() - k,
    {
        let name = entries[order[k]].0.as_str();
        let v = entries[order[k]].1;
        let ghost before = *l;
        let value = format_value(l, t, v, opts, flavor);
        proof {
            lemma_attrs_stay_ok(before, *l, attrs@);
            lemma_attrs_shown_stay(before, *l, attrs@);
            lemma_arena_grew_trans(start.strings.chars(), before.strings.chars(), l.strings.chars());
        }
        let ghost prev = attrs@;
        attrs.push(attr_for(name, change, value));
        proof {
            assert(attrs_shown(*l, attrs@) =~= attrs_shown(*l, prev).push(attr_shown(*l, attrs@.last())));
            if l.strings.bytes().len() <= u32::MAX {
                assert(attr_shown(*l, attrs@.last())
                    == (name@, change_kind(change), shown_value(*t, v, *opts, *flavor).0, Seq::<char>::empty()));
                assert(entries_shown(*t, entries@, order@, change_kind(change), *opts, *flavor, k + 1)
                    == entries_shown(*t, entries@, order@, change_kind(change), *opts, *flavor, k as int).push(
                    (name@, change_kind(change), shown_value(*t, v, *opts, *flavor).0, Seq::<char>::empty())));
                assert(attrs_shown(*l, attrs@) =~= attrs_shown(start, attrs0)
                    + entries_shown(*t, entries@, order@, change_kind(change), *opts, *flavor, k + 1));
            }
        }
        k = k + 1;
    }
}

/// A changed attribute between two values, both formatted into the arena.
fn changed_attr<F: DiffFlavor>(
    l: &mut Layout,
    t: &ValueTable,
    name: &str,
    a: usize,
    b: usize,
    attrs: &mut Vec<Attr>,
    opts: &BuildOptions,
    flavor: &F,
)
    requires
        under_construction(*old(l)),
        old(l).strings.bytes().len() <= u32::MAX ==> forall|i: int| 0 <= i < old(attrs)@.len() ==> attr_ok(*old(l), #[trigger] old(attrs)@[i]),
    ensures
        under_construction(*final(l)),
        final(l).tree == old(l).tree,
        final(l).root == old(l).root,
        arena_grew(old(l).strings.chars(), final(l).strings.chars()),
        final(l).strings.bytes().len() <= u32::MAX ==> forall|i: int| 0 <= i < final(attrs)@.len() ==> attr_ok(*final(l), #[trigger] final(attrs)@[i]),
        final(l).strings.bytes().len() <= u32::MAX ==> attrs_shown(*final(l), final(attrs)@) == attrs_shown(*old(l), old(attrs)@).push(
            (name@, 1, shown_value(*t, a, *opts, *flavor).0, shown_value(*t, b, *opts, *flavor).0),
        ),
        final(l).strings.bytes().len() <= u32::MAX ==> old(l).strings.bytes().len() <= u32::MAX,
{
    let ghost start = *l;
    let old_value = format_value(l, t, a, opts, flavor);
    let ghost mid = *l;
    let new_value = format_value(l, t, b, opts, flavor);
    proof {
        lemma_attrs_stay_ok(start, mid, attrs@);
        lemma_attrs_stay_ok(mid, *l, attrs@);
        lemma_value_stays_ok(mid, *l, old_value);
        lemma_text_stays(mid, *l, old_value, shown_value(*t, a, *opts, *flavor).0);
        lemma_attrs_shown_stay(start, mid, attrs@);
        lemma_attrs_shown_stay(mid, *l, attrs@);
        lemma_arena_grew_trans(start.strings.chars(), mid.strings.chars(), l.strings.chars());
    }
    let ghost prev = attrs@;
    attrs.push(Attr::changed(name, name.len(), old_value, new_value));
    proof {
        assert(attrs_shown(*l, attrs@) =~= attrs_shown(*l, prev).push(attr_shown(*l, attrs@.last())));
    }
}

/// How an updated field of a struct diff is shown.
enum FieldShow {
    /// As a changed attribute between these two values
    Changed(usize, usize),
    /// As children: the removed and the added value
    Replaced(usize, usize),
    /// As a nested child of its own
    Nested,
}

/// How an updated field is shown: a replaced scalar, an option whose two
/// held values are scalars, or a wrapper struct whose single field was
/// replaced by a scalar, is a changed attribute; a replaced struct or enum
/// shows both values as children; any other change is a nested child.
fn field_show(t: &ValueTable, d: &Diff<usize, usize>, field_from: Option<usize>, field_to: Option<usize>) -> (r: FieldShow)
    ensures
        (match r {
            FieldShow::Changed(a, b) => field_shown_as(*t, *d, field_from, field_to) == (0int, a, b),
            FieldShow::Replaced(a, b) => field_shown_as(*t, *d, field_from, field_to) == (1int, a, b),
            FieldShow::Nested => field_shown_as(*t, *d, field_from, field_to).0 == 2,
        }),
{
    match d {
        Diff::Replace { from, to } => {
            if is_complex(t, *from) {
                FieldShow::Replaced(*from, *to)
            } else {
                FieldShow::Changed(*from, *to)
            }
        },
        Diff::User { from: s, value, .. } => {
            let is_option = match shape_at(t, *s) {
                Some(sd) => sd.is_option,
                None => false,
            };
            match value {
                Value::Tuple { .. } => {
                    if is_option {
                        if let (Some(ff), Some(ft)) = (field_from, field_to) {
                            if let (Some(a), Some(b)) = (option_inner(t, ff), option_inner(t, ft)) {
                                if !is_complex(t, a) {
                                    return FieldShow::Changed(a, b);
                                }
                            }
                        }
                    }
                    FieldShow::Nested
                },
                Value::Struct { updates, deletions, insertions, unchanged } => {
                    if updates.len() == 1 && deletions.len() == 0 && insertions.len() == 0 && unchanged.len() == 0 {
                        if let Diff::Replace { from: a, to: b } = &updates[0].1 {
                            if !is_complex(t, *a) {
                                return FieldShow::Changed(*a, *b);
                            }
                        }
                    }
                    FieldShow::Nested
                },
            }
        },
        _ => FieldShow::Nested,
    }
}

/// The value of a named field of a struct value, if both are there.
fn field_of(t: &ValueTable, v: Option<usize>, name: &str) -> (r: Option<usize>)
    ensures
        r == field_named(*t, v, name@),
{
    match v {
        Some(x) => field_by_name(t, x, name),
        None => None,
    }
}

/// Build a struct diff as an element under `parent`: unchanged fields (when
/// there are few, with their values from `from`), changed scalar fields,
/// deleted and inserted fields as attributes, each kind by name; other
/// changed fields as children, by name; many unchanged fields, or unchanged
/// fields without a `from` value to read them from, as a collapsed count.
fn build_struct<F: DiffFlavor>(
    l: &mut Layout,
    parent: NodeId,
    t: &ValueTable,
    tag: String,
    updates: &Vec<(String, Diff<usize, usize>)>,
    deletions: &Vec<(String, usize)>,
    insertions: &Vec<(String, usize)>,
    unchanged: &Vec<String>,
    from: Option<usize>,
    to: Option<usize>,
    change: ElementChange,
    field_name: Option<String>,
    opts: &BuildOptions,
    flavor: &F,
) -> (r: NodeId)
    requires
        under_construction(*old(l)),
        old(l).nodes().contains_key(parent),
    ensures
        built_under(*old(l), *final(l), parent, r),
        final(l).children_of()[parent] == old(l).children_of()[parent].push(r),
        final(l).nodes()[r] matches LayoutNode::Element { tag: tg, field_name: f, change: c, .. }
            && tg@ == tag@ && f == field_name && c == change,
        final(l).strings.bytes().len() <= u32::MAX ==> (final(l).nodes()[r] matches LayoutNode::Element { attrs, .. }
            && attrs_shown(*final(l), attrs@)
            == struct_attrs_shown(*t, updates@, deletions@, insertions@, unchanged@, from, to, *opts, *flavor)),
        final(l).children_of()[r].len() == struct_children(*t, updates@, unchanged@, from, to, *opts),
        fields_show(*final(l), old(l).nodes().dom().insert(r), final(l).children_of()[r], *t, updates@,
            sorted_order(entry_names(updates@), updates@.len()), from, to, *opts, *flavor, updates@.len() as int),
        node_grouped(*final(l), r, opts.max_line_width as int),
        (unchanged@.len() > opts.max_unchanged_fields || (unchanged@.len() > 0 && from is None))
            ==> final(l).nodes()[final(l).children_of()[r].last()] == (LayoutNode::Collapsed { count: unchanged@.len() as usize }),
    decreases updates@, 1nat,
{
    let ghost start = *l;
    let n_unchanged = unchanged.len();
    let ghost names = name_views(unchanged@);
    let ghost un_part = match from {
        Some(f) => if 0 < unchanged@.len() && unchanged@.len() <= opts.max_unchanged_fields && f < t.values@.len()
            && t.values@[f as int].kind is Struct {
            unchanged_shown(*t, names, sorted_order(names, unchanged@.len()), f, *opts, *flavor, unchanged@.len() as int)
        } else {
            Seq::empty()
        },
        None => Seq::empty(),
    };
    let mut attrs: Vec<Attr> = Vec::new();
    if n_unchanged > 0 && n_unchanged <= opts.max_unchanged_fields {
        if let Some(f) = from {
            if is_struct_value(t, f) {
                attrs = unchanged_attrs(l, t, unchanged, f, opts, flavor);
            }
        }
    }
    proof {
        assert(start.strings.chars().subrange(0, start.strings.chars().len() as int) =~= start.strings.chars());
        assert(attrs_shown(*l, Seq::<Attr>::empty()) =~= Seq::empty());
        assert(l.strings.bytes().len() <= u32::MAX ==> attrs_shown(*l, attrs@) == un_part);
    }
    // The count of updates is a `usize`, which the order needs
    let n_updates = updates.len();
    let order = name_order(updates);
    proof {
        crate::diff_text::lemma_order_in_range(updates@);
    }
    // Changed fields that are attributes come first; the others become children
    let mut k: usize = 0;
    while k < order.len()
        invariant
            k <= order@.len(),
            forall|j: int| 0 <= j < order@.len() ==> order@[j] < updates@.len(),
            under_construction(*l),
            l.tree == start.tree,
            l.root == start.root,
            arena_grew(start.strings.chars(), l.strings.chars()),
            l.strings.bytes().len() <= u32::MAX ==> forall|i: int| 0 <= i < attrs@.len() ==> attr_ok(*l, #[trigger] attrs@[i]),
            order@ == sorted_order(entry_names(updates@), updates@.len()),
            l.strings.bytes().len() <= u32::MAX ==> attrs_shown(*l, attrs@)
                == un_part + changed_shown(*t, updates@, order@, from, to, *opts, *flavor, k as int),
        decreases order@.len() - k,
    {
        let idx = order[k];
        let name = updates[idx].0.as_str();
        let field_from = field_of(t, from, name);
        let field_to = field_of(t, to, name);
        let ghost upto = changed_shown(*t, updates@, order@, from, to, *opts, *flavor, k as int);
        let ghost step = changed_shown(*t, updates@, order@, from, to, *opts, *flavor, k + 1);
        let shown = field_show(t, &updates[idx].1, field_from, field_to);
        if let FieldShow::Changed(a, b) = shown {
            let ghost before = *l;
            changed_attr(l, t, name, a, b, &mut attrs, opts, flavor);
            proof {
                lemma_arena_grew_trans(start.strings.chars(), before.strings.chars(), l.strings.chars());
                assert(step == upto.push((name@, 1int, shown_value(*t, a, *opts, *flavor).0, shown_value(*t, b, *opts, *flavor).0)));
            }
        } else {
            proof {
                assert(step == upto);
            }
        }
        k = k + 1;
    }
    let ghost before_removed = *l;
    let ghost changed_attrs = attrs@;
    proof {
        assert(k == updates@.len());
    }
    removed_or_added_attrs(l, t, deletions, ElementChange::Deleted, &mut attrs, opts, flavor);
    let ghost before_added = *l;
    let ghost removed_attrs = attrs@;
    removed_or_added_attrs(l, t, insertions, ElementChange::Inserted, &mut attrs, opts, flavor);
    proof {
        if l.strings.bytes().len() <= u32::MAX {
            assert(before_added.strings.bytes().len() <= u32::MAX);
            assert(before_removed.strings.bytes().len() <= u32::MAX);
            assert(attrs_shown(before_removed, changed_attrs)
                == un_part + changed_shown(*t, updates@, sorted_order(entry_names(updates@), updates@.len()), from, to, *opts, *flavor, updates@.len() as int));
        }
    }
    proof {
        lemma_arena_grew_trans(start.strings.chars(), before_removed.strings.chars(), before_added.strings.chars());
        lemma_arena_grew_trans(start.strings.chars(), before_added.strings.chars(), l.strings.chars());
        lemma_grew_text(start, *l, parent);
        if l.strings.bytes().len() <= u32::MAX {
            assert(attrs_shown(*l, attrs@)
                =~= struct_attrs_shown(*t, updates@, deletions@, insertions@, unchanged@, from, to, *opts, *flavor));
        }
    }
    let ghost texts = *l;
    let ghost final_attrs = attrs@;
    let node = add_element(l, parent, tag, field_name, attrs, change, opts);
    proof {
        lemma_grew_again(start, texts, *l, parent);
    }
    let ghost added = *l;
    let ghost bin = start.nodes().dom().insert(node);
    // Children, by name
    let mut k: usize = 0;
    proof {
        lemma_grew_nothing(added, node);
        assert(bin.subset_of(added.nodes().dom()));
    }
    while k < order.len()
        invariant
            k <= order@.len(),
            forall|j: int| 0 <= j < order@.len() ==> order@[j] < updates@.len(),
            under_construction(*l),
            added.nodes().contains_key(node),
            grew_under(added, *l, node),
            added.children_of()[node].len() == 0,
            order@ == sorted_order(entry_names(updates@), updates@.len()),
            l.children_of()[node].len() == field_children(*t, updates@, order@, from, to, k as int),
            bin == start.nodes().dom().insert(node),
            bin.subset_of(added.nodes().dom()),
            fields_show(*l, bin, l.children_of()[node], *t, updates@, order@, from, to, *opts, *flavor, k as int),
        decreases order@.len() - k,
    {
        let idx = order[k];
        let name = updates[idx].0.as_str();
        let field_from = field_of(t, from, name);
        let field_to = field_of(t, to, name);
        let ghost pre = *l;
        let ghost kids = l.children_of()[node];
        match field_show(t, &updates[idx].1, field_from, field_to) {
            FieldShow::Changed(_, _) => {},
            FieldShow::Replaced(a, b) => {
                assert(l.nodes().contains_key(node));
                let c1 = build_peek(l, node, t, a, ElementChange::Deleted, Some(name.to_owned()), opts, flavor);
                let ghost mid = *l;
                proof {
                    lemma_grew_again(added, pre, mid, node);
                }
                assert(l.nodes().contains_key(node));
                let c2 = build_peek(l, node, t, b, ElementChange::Inserted, Some(name.to_owned()), opts, flavor);
                proof {
                    lemma_grew_again(added, mid, *l, node);
                    lemma_grew_again(pre, mid, *l, node);
                    lemma_grew_kept(pre, *l, node);
                    lemma_grew_kept(mid, *l, node);
                    lemma_kept_same(*l);
                    lemma_fields_stay(pre, *l, bin, bin, Some(node), kids, l.children_of()[node], *t, updates@, order@,
                        from, to, *opts, *flavor, k as int);
                    lemma_peek_stays(mid, *l, pre.nodes().dom(), bin, Some(node), c1, *t, a, ElementChange::Deleted,
                        Some(name@), *opts, *flavor);
                    lemma_peek_stays(*l, *l, mid.nodes().dom(), bin, None, c2, *t, b, ElementChange::Inserted,
                        Some(name@), *opts, *flavor);
                    assert(l.children_of()[node] == kids.push(c1).push(c2));
                }
            },
            FieldShow::Nested => {
                assert(l.nodes().contains_key(node));
                let c = build_diff(l, node, t, &updates[idx].1, field_from, field_to, ElementChange::Unchanged, Some(name.to_owned()), opts, flavor);
                proof {
                    lemma_grew_again(added, pre, *l, node);
                    lemma_grew_kept(pre, *l, node);
                    lemma_kept_same(*l);
                    lemma_fields_stay(pre, *l, bin, bin, Some(node), kids, l.children_of()[node], *t, updates@, order@,
                        from, to, *opts, *flavor, k as int);
                    lemma_shows_stay(*l, *l, pre.nodes().dom(), bin, None, c, *t, updates@[idx as int].1, field_from, field_to,
                        ElementChange::Unchanged, Some(name@), *opts, *flavor);
                    assert(l.children_of()[node] == kids.push(c));
                }
            },
        }
        k = k + 1;
    }
    if n_unchanged > opts.max_unchanged_fields || (n_unchanged > 0 && from.is_none()) {
        let ghost pre = *l;
        assert(l.nodes().contains_key(node));
        let _ = add_node(l, node, LayoutNode::Collapsed { count: n_unchanged });
        proof {
            lemma_grew_again(added, pre, *l, node);
            lemma_grew_kept(pre, *l, node);
            lemma_fields_stay(pre, *l, bin, bin, Some(node), pre.children_of()[node], l.children_of()[node], *t, updates@, order@,
                from, to, *opts, *flavor, order@.len() as int);
        }
    }
    proof {
        lemma_built_below(start, added, *l, parent, node);
        assert(added.strings == texts.strings);
        assert(attrs_shown(added, final_attrs) =~= attrs_shown(texts, final_attrs));
        lemma_attrs_shown_stay(added, *l, final_attrs);
        assert(l.nodes()[node] == added.nodes()[node]);
    }
    node
}

/// Attributes comparing two struct values field by field (the fields of
/// `a`'s type): fields whose texts differ are changed, others unchanged
/// (unless falsy); a field that `b` does not have is deleted (unless falsy).
fn compared_field_attrs<F: DiffFlavor>(
    l: &mut Layout,
    t: &ValueTable,
    a: usize,
    b: usize,
    opts: &BuildOptions,
    flavor: &F,
) -> (attrs: Vec<Attr>)
    requires
        under_construction(*old(l)),
    ensures
        under_construction(*final(l)),
        final(l).tree == old(l).tree,
        final(l).root == old(l).root,
        arena_grew(old(l).strings.chars(), final(l).strings.chars()),
        final(l).strings.bytes().len() <= u32::MAX ==> forall|i: int| 0 <= i < attrs@.len() ==> attr_ok(*final(l), #[trigger] attrs@[i]),
        final(l).strings.bytes().len() <= u32::MAX ==> attrs_shown(*final(l), attrs@) == compared_attrs(*t, a, b, *opts, *flavor),
{
    let ghost start = *l;
    let mut attrs: Vec<Attr> = Vec::new();
    proof {
        assert(l.strings.chars().subrange(0, l.strings.chars().len() as int) =~= l.strings.chars());
        assert(attrs_shown(*l, attrs@) =~= Seq::empty());
    }
    if let (Some(da), Some(db)) = (value_at(t, a), value_at(t, b)) {
        if let (ValueKind::Struct { fields: fa, .. }, ValueKind::Struct { fields: fb, .. }) = (&da.kind, &db.kind) {
            let mut i: usize = 0;
            while i < fa.len()
                invariant
                    i <= fa@.len(),
                    under_construction(*l),
                    l.tree == start.tree,
                    l.root == start.root,
                    arena_grew(start.strings.chars(), l.strings.chars()),
                    l.strings.bytes().len() <= u32::MAX ==> forall|k: int| 0 <= k < attrs@.len() ==> attr_ok(*l, #[trigger] attrs@[k]),
                    l.strings.bytes().len() <= u32::MAX ==> attrs_shown(*l, attrs@) == compared_shown(*t, fa@, fb@, *opts, *flavor, i as int),
                decreases fa@.len() - i,
            {
                let (name, fv) = fa[i];
                let ghost before = *l;
                let ghost prev = attrs@;
                if i < fb.len() {
                    let tv = fb[i].1;
                    let (from_text, from_type) = value_text(t, fv, opts, flavor);
                    let from_value = push_value(l, from_text.as_str(), from_type);
                    let ghost mid = *l;
                    let (to_text, to_type) = value_text(t, tv, opts, flavor);
                    let to_value = push_value(l, to_text.as_str(), to_type);
                    proof {
                        lemma_attrs_stay_ok(before, mid, attrs@);
                        lemma_attrs_stay_ok(mid, *l, attrs@);
                        lemma_value_stays_ok(mid, *l, from_value);
                        lemma_arena_grew_trans(before.strings.chars(), mid.strings.chars(), l.strings.chars());
                        lemma_attrs_shown_stay(before, *l, attrs@);
                        lemma_text_stays(mid, *l, from_value, from_text@);
                    }
                    if !str_eq(from_text.as_str(), to_text.as_str()) {
                        attrs.push(Attr::changed(name, name.len(), from_value, to_value));
                    } else if !is_falsy(t, fv) {
                        attrs.push(Attr::unchanged(name, name.len(), from_value));
                    }
                } else if !is_falsy(t, fv) {
                    let value = format_value(l, t, fv, opts, flavor);
                    proof {
                        lemma_attrs_stay_ok(before, *l, attrs@);
                        lemma_attrs_shown_stay(before, *l, attrs@);
                    }
                    attrs.push(Attr::deleted(name, name.len(), value));
                } else {
                    proof {
                        assert(l.strings.chars().subrange(0, l.strings.chars().len() as int) =~= l.strings.chars());
                    }
                }
                proof {
                    lemma_arena_grew_trans(start.strings.chars(), before.strings.chars(), l.strings.chars());
                    if l.strings.bytes().len() <= u32::MAX {
                        if attrs@.len() > prev.len() {
                            assert(attrs@ == prev.push(attrs@.last()));
                            assert(attrs_shown(*l, attrs@) =~= attrs_shown(*l, prev).push(attr_shown(*l, attrs@.last())));
                        } else {
                            assert(attrs@ == prev);
                        }
                    }
                }
                i = i + 1;
            }
        }
    }
    attrs
}

/// The fields of a struct value as attributes with the given change, or
/// none when the value is not a struct.
fn whole_struct_attrs<F: DiffFlavor>(
    l: &mut Layout,
    t: &ValueTable,
    v: usize,
    change: ElementChange,
    attrs: &mut Vec<Attr>,
    opts: &BuildOptions,
    flavor: &F,
)
    requires
        under_construction(*old(l)),
        old(l).strings.bytes().len() <= u32::MAX ==> forall|i: int| 0 <= i < old(attrs)@.len() ==> attr_ok(*old(l), #[trigger] old(attrs)@[i]),
    ensures
        under_construction(*final(l)),
        final(l).tree == old(l).tree,
        final(l).root == old(l).root,
        arena_grew(old(l).strings.chars(), final(l).strings.chars()),
        final(l).strings.bytes().len() <= u32::MAX ==> forall|i: int| 0 <= i < final(attrs)@.len() ==> attr_ok(*final(l), #[trigger] final(attrs)@[i]),
        final(l).strings.bytes().len() <= u32::MAX ==> attrs_shown(*final(l), final(attrs)@)
            == attrs_shown(*old(l), old(attrs)@) + whole_attrs(*t, v, change, *opts, *flavor),
{
    let ghost start = *l;
    let ghost a_start = attrs@;
    proof {
        assert(l.strings.chars().subrange(0, l.strings.chars().len() as int) =~= l.strings.chars());
    }
    if let Some(d) = value_at(t, v) {
        if let ValueKind::Struct { fields, .. } = &d.kind {
            let ghost before = *l;
            let mut more = struct_field_attrs(l, t, fields, change, opts, flavor);
            proof {
                lemma_attrs_stay_ok(before, *l, attrs@);
            }
            let ghost a0 = attrs@;
            let ghost m0 = more@;
            attrs.append(&mut more);
            proof {
                assert(attrs@ =~= a0 + m0);
                lemma_attrs_shown_stay(before, *l, a0);
                if l.strings.bytes().len() <= u32::MAX {
                    assert(attrs_shown(*l, attrs@) =~= attrs_shown(*l, a0) + attrs_shown(*l, m0));
                }
                if l.strings.bytes().len() <= u32::MAX {
                    assert forall|i: int| 0 <= i < attrs@.len() implies attr_ok(*l, #[trigger] attrs@[i]) by {
                        if i < a0.len() {
                            assert(attrs@[i] == a0[i]);
                        } else {
                            assert(attrs@[i] == m0[i - a0.len()]);
                        }
                    }
                }
            }
        }
    }
}

/// Try to show a single nested diff of an enum's tuple variant with the
/// variant's tag: a struct diff becomes a struct element; a replacement
/// shows the old value's fields as deleted and the new one's as inserted.
/// Any other diff is not handled here, and nothing is added.
fn try_variant_diff<F: DiffFlavor>(
    l: &mut Layout,
    parent: NodeId,
    t: &ValueTable,
    tag: &String,
    d: &Diff<usize, usize>,
    inner_from: Option<usize>,
    inner_to: Option<usize>,
    change: ElementChange,
    field_name: &Option<String>,
    opts: &BuildOptions,
    flavor: &F,
) -> (r: Option<NodeId>)
    requires
        under_construction(*old(l)),
        old(l).nodes().contains_key(parent),
    ensures
        r matches Some(n) ==> built_under(*old(l), *final(l), parent, n),
        r matches Some(n) ==> final(l).children_of()[parent] == old(l).children_of()[parent].push(n),
        r matches Some(n) ==> (final(l).nodes()[n] matches LayoutNode::Element { tag: tg, field_name: f, change: c, .. }
            && tg@ == tag@ && name_view(f) == name_view(*field_name) && c == change),
        r is None ==> *final(l) == *old(l),
        r is Some <==> variant_diff_taken(*d),
        r matches Some(n) ==> variant_diff_show(*final(l), old(l).nodes().dom(), n, *t, tag@, *d, inner_from, inner_to, change,
            name_view(*field_name), *opts, *flavor),
    decreases d, 1nat,
{
    match d {
        Diff::User { value: Value::Struct { updates, deletions, insertions, unchanged }, .. } => {
            Some(build_struct(
                l,
                parent,
                t,
                tag.clone(),
                updates,
                deletions,
                insertions,
                unchanged,
                inner_from,
                inner_to,
                change,
                name_copy(field_name),
                opts,
                flavor,
            ))
        },
        Diff::Replace { from, to } => {
            let ghost start = *l;
            let mut attrs: Vec<Attr> = Vec::new();
            proof {
                assert(attrs_shown(start, attrs@) =~= Seq::empty());
            }
            whole_struct_attrs(l, t, *from, ElementChange::Deleted, &mut attrs, opts, flavor);
            let ghost mid = *l;
            let ghost mid_attrs = attrs@;
            whole_struct_attrs(l, t, *to, ElementChange::Inserted, &mut attrs, opts, flavor);
            proof {
                lemma_arena_grew_trans(start.strings.chars(), mid.strings.chars(), l.strings.chars());
                lemma_grew_text(start, *l, parent);
                lemma_attrs_shown_stay(mid, *l, Seq::empty());
                if l.strings.bytes().len() <= u32::MAX {
                    assert(Seq::<(Seq<char>, int, Seq<char>, Seq<char>)>::empty() + whole_attrs(*t, *from, ElementChange::Deleted, *opts, *flavor)
                        =~= whole_attrs(*t, *from, ElementChange::Deleted, *opts, *flavor));
                }
            }
            let ghost texts = *l;
            let ghost final_attrs = attrs@;
            let node = add_element(l, parent, tag.clone(), name_copy(field_name), attrs, change, opts);
            proof {
                lemma_grew_again(start, texts, *l, parent);
                lemma_same_text_shows(texts, *l, final_attrs);
            }
            Some(node)
        },
        _ => None,
    }
}

/// Build an enum's tuple variant under `parent`, named by the variant's tag:
/// a single replacement of the held value compares the two values field by
/// field; a single nested diff is shown with the tag (see
/// `try_variant_diff`); otherwise an element with the children the updates give.
fn build_enum_tuple_variant<F: DiffFlavor>(
    l: &mut Layout,
    parent: NodeId,
    t: &ValueTable,
    tag: String,
    updates: &Updates<usize, usize>,
    inner_from: Option<usize>,
    inner_to: Option<usize>,
    change: ElementChange,
    field_name: Option<String>,
    opts: &BuildOptions,
    flavor: &F,
) -> (r: NodeId)
    requires
        under_construction(*old(l)),
        old(l).nodes().contains_key(parent),
    ensures
        built_under(*old(l), *final(l), parent, r),
        final(l).children_of()[parent] == old(l).children_of()[parent].push(r),
        final(l).nodes()[r] matches LayoutNode::Element { tag: tg, field_name: f, change: c, .. }
            && tg@ == tag@ && name_view(f) == name_view(field_name) && c == change,
        enum_tuple_show(*final(l), old(l).nodes().dom(), r, *t, tag@, *updates, inner_from, inner_to, change, name_view(field_name),
            *opts, *flavor),
    decreases updates, 3nat,
{
    let ghost start = *l;
    let ghost tag_view = tag@;
    let ghost fv = name_view(field_name);
    if let Some(g) = &updates.0.first {
        // A single replacement of the held value
        if let Some(rg) = &g.0.first {
            if rg.removals.len() == 1 && rg.additions.len() == 1 {
                let attrs = compared_field_attrs(l, t, rg.removals[0], rg.additions[0], opts, flavor);
                proof {
                    lemma_grew_text(start, *l, parent);
                }
                let ghost texts = *l;
                let ghost final_attrs = attrs@;
                let node = add_element(l, parent, tag, field_name, attrs, change, opts);
                proof {
                    lemma_grew_again(start, texts, *l, parent);
                    lemma_same_text_shows(texts, *l, final_attrs);
                }
                return node;
            }
        }
        // A single nested diff: the trailing run if it holds one, else the first run that does
        if let Some(ds) = &g.0.last {
            if ds.len() == 1 {
                let found = try_variant_diff(l, parent, t, &tag, &ds[0], inner_from, inner_to, change, &field_name, opts, flavor);
                if let Some(n) = found {
                    return n;
                }
                return build_tuple(l, parent, t, tag, updates, change, field_name, opts, flavor);
            }
        }
        let mut k: usize = 0;
        while k < g.0.values.len()
            invariant
                k <= g.0.values@.len(),
                *l == start,
                *old(l) == start,
                under_construction(start),
                start.nodes().contains_key(parent),
                updates.0.first == Some(*g),
                forall|j: int| 0 <= j < k ==> (#[trigger] g.0.values@[j]).0@.len() != 1,
                tag_view == tag@,
                fv == name_view(field_name),
                !(g.0.first is Some && g.0.first->0.removals@.len() == 1 && g.0.first->0.additions@.len() == 1),
                !(g.0.last is Some && g.0.last->0@.len() == 1),
            decreases g.0.values@.len() - k,
        {
            if g.0.values[k].0.len() == 1 {
                proof {
                    assert(decreases_to!(*updates => updates.0));
                    assert(decreases_to!(updates.0 => updates.0.first));
                        assert(decreases_to!(updates.0.first => updates.0.first->0));
                    assert(decreases_to!(*g => g.0));
                    assert(decreases_to!(g.0 => g.0.values));
                    assert(decreases_to!(g.0.values => g.0.values@));
                    assert(decreases_to!(g.0.values@ => g.0.values@[k as int]));
                    assert(decreases_to!(g.0.values@[k as int] => g.0.values@[k as int].0));
                    assert(decreases_to!(g.0.values@[k as int].0 => g.0.values@[k as int].0@));
                    assert(decreases_to!(g.0.values@[k as int].0@ => g.0.values@[k as int].0@[0]));
                }
                let found = try_variant_diff(l, parent, t, &tag, &g.0.values[k].0[0], inner_from, inner_to, change, &field_name, opts, flavor);
                if let Some(n) = found {
                    proof {
                        let fb = {
                            &&& l.nodes()[n] matches LayoutNode::Element { tag: tg, field_name: f, change: c, .. }
                                && tg@ == tag_view && name_view(f) == fv && c == change
                            &&& node_grouped(*l, n, opts.max_line_width as int)
                            &&& updates_show(*l, start.nodes().dom(), n, *t, *updates, *opts, *flavor)
                        };
                        assert(enum_runs_show(*l, start.nodes().dom(), n, *t, tag_view, g.0.values@, inner_from, inner_to, change, fv,
                            fb, *opts, *flavor, k as int));
                        lemma_enum_runs_skip(*l, start.nodes().dom(), n, *t, tag_view, g.0.values@, inner_from, inner_to, change, fv,
                            fb, *opts, *flavor, 0, k as int);
                    }
                    return n;
                }
                let r = build_tuple(l, parent, t, tag, updates, change, field_name, opts, flavor);
                proof {
                    let fb = {
                        &&& l.nodes()[r] matches LayoutNode::Element { tag: tg, field_name: f, change: c, .. }
                            && tg@ == tag_view && name_view(f) == fv && c == change
                        &&& node_grouped(*l, r, opts.max_line_width as int)
                        &&& updates_show(*l, start.nodes().dom(), r, *t, *updates, *opts, *flavor)
                    };
                    lemma_enum_runs_skip(*l, start.nodes().dom(), r, *t, tag_view, g.0.values@, inner_from, inner_to, change, fv,
                        fb, *opts, *flavor, 0, k as int);
                }
                return r;
            }
            k = k + 1;
        }
        let r = build_tuple(l, parent, t, tag, updates, change, field_name, opts, flavor);
        proof {
            let fb = {
                &&& l.nodes()[r] matches LayoutNode::Element { tag: tg, field_name: f, change: c, .. }
                    && tg@ == tag_view && name_view(f) == fv && c == change
                &&& node_grouped(*l, r, opts.max_line_width as int)
                &&& updates_show(*l, start.nodes().dom(), r, *t, *updates, *opts, *flavor)
            };
            lemma_enum_runs_skip(*l, start.nodes().dom(), r, *t, tag_view, g.0.values@, inner_from, inner_to, change, fv,
                fb, *opts, *flavor, 0, g.0.values@.len() as int);
        }
        return r;
    }
    build_tuple(l, parent, t, tag, updates, change, field_name, opts, flavor)
}

/// The tag of an enum variant: its display name, found by the variant's name.
fn variant_tag(variants: &Vec<(&'static str, &'static str)>, name: &str) -> (r: String)
    ensures
        r@ == variant_display(variants@, name@),
{
    let mut i: usize = 0;
    proof {
        assert(variants@.subrange(0, variants@.len() as int) =~= variants@);
    }
    while i < variants.len()
        invariant
            i <= variants@.len(),
            variant_display(variants@, name@) == variant_display(variants@.subrange(i as int, variants@.len() as int), name@),
        decreases variants@.len() - i,
    {
        proof {
            let rest = variants@.subrange(i as int, variants@.len() as int);
            assert(rest.drop_first() =~= variants@.subrange(i + 1, variants@.len() as int));
            assert(rest[0] == variants@[i as int]);
        }
        if str_eq(variants[i].0, name) {
            return variants[i].1.to_owned();
        }
        i = i + 1;
    }
    proof {
        assert(variants@.subrange(i as int, variants@.len() as int).len() == 0);
    }
    name.to_owned()
}

/// The display name of the first item of the list-like value at `v`, if any.
pub open spec fn first_item_of(t: ValueTable, v: Option<usize>) -> Option<&'static str> {
    match v {
        Some(x) => if x < t.values@.len() { t.values@[x as int].first_item_name } else { None },
        None => None,
    }
}

/// The item type a sequence diff is shown with: the type of the first item
/// of `from`, else of `to`, else `item`.
pub open spec fn sequence_item_type(t: ValueTable, from: Option<usize>, to: Option<usize>) -> &'static str {
    match first_item_of(t, from) {
        Some(n) => n,
        None => match first_item_of(t, to) {
            Some(n) => n,
            None => "item",
        },
    }
}

/// The tag of an element shown for a value of the shape at `s`: its display
/// name, marked with `@` for a struct without XML attributes.
pub open spec fn shape_tag(t: ValueTable, s: usize) -> Seq<char> {
    if s < t.shapes@.len() {
        let sd = t.shapes@[s as int];
        if sd.is_struct && !sd.has_xml_attrs { seq!['@'] + sd.display_name@ } else { sd.display_name@ }
    } else {
        Seq::empty()
    }
}

/// Whether the shape at `s` is an enum's.
pub open spec fn shape_is_enum(t: ValueTable, s: usize) -> bool {
    s < t.shapes@.len() && t.shapes@[s as int].variants is Some
}

/// The tag of the element that holds a replacement.
pub open spec fn replace_tag() -> Seq<char> {
    seq!['_', 'r', 'e', 'p', 'l', 'a', 'c', 'e']
}

/// The display name of the first item of a list-like value.
fn first_item_name(t: &ValueTable, v: Option<usize>) -> (r: Option<&'static str>)
    ensures
        r == first_item_of(*t, v),
{
    match v {
        Some(x) => match value_at(t, x) {
            Some(d) => d.first_item_name,
            None => None,
        },
        None => None,
    }
}

/// Build the node for a diff under `parent`, walking the `from` and `to`
/// values alongside for context:
/// - equal values show whole (unchanged), or as `(equal)` with no value;
/// - a replacement is an element holding the old value (deleted) and the new one (inserted);
/// - an `Option` shows its updates without an element of its own;
/// - an enum variant is named by its tag: a tuple variant through
///   `build_enum_tuple_variant`, a struct variant as a struct;
/// - a struct or a tuple is an element named by its type (`@` marking a
///   struct without XML attributes);
/// - a sequence is a sequence node named by its first item's type (`item` if none).
/// The field name goes on the element or sequence built. What the node holds,
/// all the way down, is what `shows` says.
fn build_diff<F: DiffFlavor>(
    l: &mut Layout,
    parent: NodeId,
    t: &ValueTable,
    d: &Diff<usize, usize>,
    from: Option<usize>,
    to: Option<usize>,
    change: ElementChange,
    field_name: Option<String>,
    opts: &BuildOptions,
    flavor: &F,
) -> (r: NodeId)
    requires
        under_construction(*old(l)),
        old(l).nodes().contains_key(parent),
    ensures
        built_under(*old(l), *final(l), parent, r),
        final(l).children_of()[parent] == old(l).children_of()[parent].push(r),
        shows(*final(l), old(l).nodes().dom(), r, *t, *d, from, to, change, name_view(field_name), *opts, *flavor),
    decreases d, 0nat,
{
    let ghost start = *l;
    let ghost fname = field_name;
    match d {
        Diff::Equal { value } => match value {
            Some(p) => {
                let r = build_peek(l, parent, t, *p, ElementChange::Unchanged, field_name, opts, flavor);
                assert(shows(*l, start.nodes().dom(), r, *t, *d, from, to, change, name_view(fname), *opts, *flavor));
                r
            },
            None => {
                proof {
                    reveal_strlit("(equal)");
                    assert("(equal)"@ == super::shows::equal_text());
                }
                let value = push_value(l, "(equal)", ValueType::Other);
                proof {
                    lemma_grew_text(start, *l, parent);
                }
                let ghost texts = *l;
                let node = add_text(l, parent, value, ElementChange::Unchanged);
                proof {
                    lemma_grew_again(start, texts, *l, parent);
                }
                assert(shows(*l, start.nodes().dom(), node, *t, *d, from, to, change, name_view(fname), *opts, *flavor));
                node
            },
        },
        Diff::Replace { from: a, to: b } => {
            proof {
                reveal_strlit("_replace");
            }
            let node = add_element(l, parent, "_replace".to_owned(), field_name, Vec::new(), ElementChange::Unchanged, opts);
            let ghost added = *l;
            let c1 = build_peek(l, node, t, *a, ElementChange::Deleted, None, opts, flavor);
            let ghost mid = *l;
            let c2 = build_peek(l, node, t, *b, ElementChange::Inserted, None, opts, flavor);
            proof {
                lemma_grew_again(added, mid, *l, node);
                lemma_built_below(start, added, *l, parent, node);
                lemma_grew_kept(mid, *l, node);
                lemma_kept_same(*l);
                let bin = start.nodes().dom().insert(node);
                lemma_peek_stays(mid, *l, added.nodes().dom(), bin, Some(node), c1, *t, *a, ElementChange::Deleted, None, *opts, *flavor);
                lemma_peek_stays(*l, *l, mid.nodes().dom(), bin, None, c2, *t, *b, ElementChange::Inserted, None, *opts, *flavor);
                assert(l.children_of()[node] =~= seq![c1, c2]);
            }
            proof {
                let bin = start.nodes().dom().insert(node);
                assert(super::shows::fresh_node(*l, start.nodes().dom(), node));
                assert(peek_shows(*l, bin, l.children_of()[node][0], *t, *a, ElementChange::Deleted, None, *opts, *flavor));
                assert(peek_shows(*l, bin, l.children_of()[node][1], *t, *b, ElementChange::Inserted, None, *opts, *flavor));
                assert(l.nodes()[node] matches LayoutNode::Element { tag, field_name: f, change: c, .. }
                    && tag@ == replace_tag() && name_view(f) == name_view(fname) && c == ElementChange::Unchanged);
            }
            assert(shows(*l, start.nodes().dom(), node, *t, *d, from, to, change, name_view(fname), *opts, *flavor));
            node
        },
        Diff::User { from: s, variant, value, .. } => {
            let shape = shape_at(t, *s);
            let is_option = match shape {
                Some(sd) => sd.is_option,
                None => false,
            };
            if is_option {
                if let Value::Tuple { updates } = value {
                    return build_transparent(l, parent, t, updates, change, field_name, opts, flavor);
                }
            }
            if let (Some(vn), Some(sd)) = (variant, shape) {
                if let Some(vs) = &sd.variants {
                    let tag = variant_tag(vs, *vn);
                    match value {
                        Value::Tuple { updates } => {
                            let inner_from = match from {
                                Some(f) => enum_first_field(t, f),
                                None => None,
                            };
                            let inner_to = match to {
                                Some(x) => enum_first_field(t, x),
                                None => None,
                            };
                            return build_enum_tuple_variant(l, parent, t, tag, updates, inner_from, inner_to, change, field_name, opts, flavor);
                        },
                        Value::Struct { updates, deletions, insertions, unchanged } => {
                            return build_struct(l, parent, t, tag, updates, deletions, insertions, unchanged, from, to, change, field_name, opts, flavor);
                        },
                    }
                }
            }
            let tag = match shape {
                Some(sd) => xml_display_name(sd.display_name, sd.is_struct, sd.has_xml_attrs),
                None => String::new(),
            };
            match value {
                Value::Struct { updates, deletions, insertions, unchanged } => {
                    let r = build_struct(l, parent, t, tag, updates, deletions, insertions, unchanged, from, to, change, field_name, opts, flavor);
                    assert(shows(*l, start.nodes().dom(), r, *t, *d, from, to, change, name_view(fname), *opts, *flavor));
                    r
                },
                Value::Tuple { updates } => {
                    let r = build_tuple(l, parent, t, tag, updates, change, field_name, opts, flavor);
                    assert(shows(*l, start.nodes().dom(), r, *t, *d, from, to, change, name_view(fname), *opts, *flavor));
                    r
                },
            }
        },
        Diff::Sequence { updates, .. } => {
            let item_type = match first_item_name(t, from) {
                Some(n) => n,
                None => match first_item_name(t, to) {
                    Some(n) => n,
                    None => "item",
                },
            };
            let r = build_sequence(l, parent, t, updates, change, item_type, field_name, opts, flavor);
            assert(shows(*l, start.nodes().dom(), r, *t, *d, from, to, change, name_view(fname), *opts, *flavor));
            r
        },
    }
}

/// Build a layout from a diff of the values at handles `from` and `to`.
///
/// The layout is well formed, and it can be rendered whenever its arena's
/// text fits `u32` byte offsets (the spans of formatted values are `u32`
/// offsets). Its root is the node built for the diff itself, unchanged and
/// without a field name, and what it holds all the way down is what `shows`
/// says of the diff.
pub fn build_layout<F: DiffFlavor>(
    diff: &Diff<usize, usize>,
    t: &ValueTable,
    from: usize,
    to: usize,
    opts: &BuildOptions,
    flavor: &F,
) -> (l: Layout)
    ensures
        l.well_formed(),
        l.strings.bytes().len() <= u32::MAX ==> renderable(l),
        shows(l, Set::empty(), l.root, *t, *diff, Some(from), Some(to), ElementChange::Unchanged, None, *opts, *flavor),
{
    let mut l = Layout::with_root(FormatArena::new(), LayoutNode::Collapsed { count: 0 });
    proof {
        assert(l.children_of()[l.root].len() == 0);
        assert(super::render_spec::bounded_height(l, l.root, 1));
        assert forall|id: NodeId| #[trigger] l.nodes().contains_key(id) implies node_ok(l, l.nodes()[id]) by {
            assert(id == l.root);
        }
    }
    let holder = l.root;
    let ghost initial = l;
    let r = build_diff(&mut l, holder, t, diff, Some(from), Some(to), ElementChange::Unchanged, None, opts, flavor);
    let ghost built = l;
    l.root = r;
    proof {
        if l.strings.bytes().len() <= u32::MAX {
            lemma_construction_renders_child(built, l, built.children_of()[holder].len() - 1);
        }
        assert(l.strings.chars().subrange(0, l.strings.chars().len() as int) =~= l.strings.chars());
        assert(super::shows::kept_apart(built, l, None));
        lemma_shows_stay(built, l, initial.nodes().dom(), Set::empty(), None, r, *t, *diff, Some(from), Some(to),
            ElementChange::Unchanged, None, *opts, *flavor);
    }
    l
}

} // verus!
