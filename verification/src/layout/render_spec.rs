//! What rendering a layout writes, stated over the layout's model.
//!
//! Every piece of output is described by a spec function; the exec renderer
//! in `render` is proved to append exactly these characters.

use vstd::prelude::*;
use vstd::utf8::*;

use indextree::NodeId;

use super::attrs::{Attr, AttrStatus, ChangedGroup, FormattedValue, GroupModel, ValueType};
use super::backend::{ColorBackend, SemanticColor};
use super::flavor::DiffFlavor;
use super::node::{change_prefix, ElementChange, Layout, LayoutNode};
use super::render::{RenderOptions, SyntaxElement};
use crate::text::decimal;

verus! {

/// The number of UTF-8 bytes of a text, as `str::len` reports it (a `usize`).
pub open spec fn byte_len(s: Seq<char>) -> int {
    encode_utf8(s).len() as usize as int
}

/// `s` written `n` times.
pub open spec fn repeat(s: Seq<char>, n: nat) -> Seq<char>
    decreases n,
{
    if n == 0 {
        Seq::empty()
    } else {
        repeat(s, (n - 1) as nat) + s
    }
}

/// `n` spaces (none when `n` is not positive).
pub open spec fn spaces(n: int) -> Seq<char> {
    Seq::new(if n > 0 { n as nat } else { 0 }, |i: int| ' ')
}

/// The tag of elements that render only their children.
pub open spec fn transparent_tag() -> Seq<char> {
    seq!['_', 't', 'r', 'a', 'n', 's', 'p', 'a', 'r', 'e', 'n', 't']
}

/// The color of a syntax element in a change context.
pub open spec fn spec_syntax_color(base: SyntaxElement, context: ElementChange) -> SemanticColor {
    match (base, context) {
        (SyntaxElement::Key, ElementChange::Deleted) => SemanticColor::DeletedKey,
        (SyntaxElement::Key, ElementChange::Inserted) => SemanticColor::InsertedKey,
        (SyntaxElement::Key, _) => SemanticColor::Key,
        (SyntaxElement::Structure, ElementChange::Deleted) => SemanticColor::DeletedStructure,
        (SyntaxElement::Structure, ElementChange::Inserted) => SemanticColor::InsertedStructure,
        (SyntaxElement::Structure, _) => SemanticColor::Structure,
        (SyntaxElement::Comment, ElementChange::Deleted) => SemanticColor::DeletedComment,
        (SyntaxElement::Comment, ElementChange::Inserted) => SemanticColor::InsertedComment,
        (SyntaxElement::Comment, _) => SemanticColor::Comment,
    }
}

/// The color of a value of a type in a change context.
pub open spec fn spec_value_color(value_type: ValueType, context: ElementChange) -> SemanticColor {
    match (value_type, context) {
        (ValueType::String, ElementChange::Deleted) => SemanticColor::DeletedString,
        (ValueType::String, ElementChange::Inserted) => SemanticColor::InsertedString,
        (ValueType::String, _) => SemanticColor::String,
        (ValueType::Number, ElementChange::Deleted) => SemanticColor::DeletedNumber,
        (ValueType::Number, ElementChange::Inserted) => SemanticColor::InsertedNumber,
        (ValueType::Number, _) => SemanticColor::Number,
        (ValueType::Boolean, ElementChange::Deleted) => SemanticColor::DeletedBoolean,
        (ValueType::Boolean, ElementChange::Inserted) => SemanticColor::InsertedBoolean,
        (ValueType::Boolean, _) => SemanticColor::Boolean,
        (ValueType::Null, ElementChange::Deleted) => SemanticColor::DeletedNull,
        (ValueType::Null, ElementChange::Inserted) => SemanticColor::InsertedNull,
        (ValueType::Null, _) => SemanticColor::Null,
        (ValueType::Other, ElementChange::Deleted) => SemanticColor::Deleted,
        (ValueType::Other, ElementChange::Inserted) => SemanticColor::Inserted,
        (ValueType::Other, ElementChange::MovedFrom) => SemanticColor::Moved,
        (ValueType::Other, ElementChange::MovedTo) => SemanticColor::Moved,
        (ValueType::Other, ElementChange::Unchanged) => SemanticColor::Unchanged,
    }
}

/// The highlight color of a changed value of a type in a change context.
pub open spec fn spec_value_color_highlight(value_type: ValueType, context: ElementChange) -> SemanticColor {
    match (value_type, context) {
        (ValueType::String, ElementChange::Deleted) => SemanticColor::DeletedString,
        (ValueType::String, ElementChange::Inserted) => SemanticColor::InsertedString,
        (ValueType::Number, ElementChange::Deleted) => SemanticColor::DeletedNumber,
        (ValueType::Number, ElementChange::Inserted) => SemanticColor::InsertedNumber,
        (ValueType::Boolean, ElementChange::Deleted) => SemanticColor::DeletedBoolean,
        (ValueType::Boolean, ElementChange::Inserted) => SemanticColor::InsertedBoolean,
        (ValueType::Null, ElementChange::Deleted) => SemanticColor::DeletedNull,
        (ValueType::Null, ElementChange::Inserted) => SemanticColor::InsertedNull,
        (_, ElementChange::Deleted) => SemanticColor::DeletedHighlight,
        (_, ElementChange::Inserted) => SemanticColor::InsertedHighlight,
        (_, ElementChange::MovedFrom) => SemanticColor::MovedHighlight,
        (_, ElementChange::MovedTo) => SemanticColor::MovedHighlight,
        _ => SemanticColor::Unchanged,
    }
}

/// The accent color of an element's own change.
pub open spec fn spec_change_color(change: ElementChange) -> SemanticColor {
    match change {
        ElementChange::Unchanged => SemanticColor::Unchanged,
        ElementChange::Deleted => SemanticColor::Deleted,
        ElementChange::Inserted => SemanticColor::Inserted,
        ElementChange::MovedFrom => SemanticColor::Moved,
        ElementChange::MovedTo => SemanticColor::Moved,
    }
}

/// The color of an element's or sequence's brackets and tags.
pub open spec fn spec_tag_color(change: ElementChange) -> SemanticColor {
    match change {
        ElementChange::Unchanged => SemanticColor::Structure,
        ElementChange::Deleted => SemanticColor::DeletedStructure,
        ElementChange::Inserted => SemanticColor::InsertedStructure,
        ElementChange::MovedFrom => SemanticColor::Moved,
        ElementChange::MovedTo => SemanticColor::Moved,
    }
}

/// Styled text.
pub open spec fn sty<B: ColorBackend>(opts: RenderOptions<B>, text: Seq<char>, color: SemanticColor) -> Seq<char> {
    opts.backend.spec_styled(text, color)
}

/// The indentation of a line at `depth`: the indent string `depth` times.
pub open spec fn indent_text<B: ColorBackend>(opts: RenderOptions<B>, depth: nat) -> Seq<char> {
    repeat(opts.indent@, depth)
}

/// The indentation of a line that starts with a change prefix: two columns
/// less, so that the prefix and its space sit in the gutter.
pub open spec fn gutter_text<B: ColorBackend>(opts: RenderOptions<B>, depth: nat) -> Seq<char> {
    spaces(depth * byte_len(opts.indent@) - 2)
}

/// A change's prefix character and a space, or nothing for an unchanged item.
pub open spec fn prefix_text<B: ColorBackend>(opts: RenderOptions<B>, change: ElementChange) -> Seq<char> {
    match change_prefix(change) {
        Some(p) => sty(opts, seq![p], spec_change_color(change)) + seq![' '],
        None => Seq::empty(),
    }
}

/// The text a formatted value designates.
pub open spec fn value_text(l: Layout, v: FormattedValue) -> Seq<char> {
    l.strings.text_of(v.span)
}

// ---------------------------------------------------------------------------
// Inline element layout
// ---------------------------------------------------------------------------

/// Bytes that an attribute's slot takes on an inline line: field prefix,
/// the wider value, field suffix.
pub open spec fn slot_width<F: DiffFlavor>(flavor: F, a: Attr) -> int {
    byte_len(flavor.spec_format_field_prefix(a.name@)) + match a.status {
        AttrStatus::Changed { old, new } => if old.width >= new.width { old.width as int } else { new.width as int },
        AttrStatus::Unchanged { value } => value.width as int,
        AttrStatus::Deleted { value } => value.width as int,
        AttrStatus::Inserted { value } => value.width as int,
    } + byte_len(flavor.spec_format_field_suffix())
}

/// Width of the first `k` slots with the separators before them.
pub open spec fn inline_slots_width<F: DiffFlavor>(flavor: F, attrs: Seq<Attr>, k: int) -> int
    decreases k,
{
    if k <= 0 {
        0
    } else {
        inline_slots_width(flavor, attrs, k - 1) + (if k - 1 > 0 {
            byte_len(flavor.spec_field_separator())
        } else {
            1
        }) + slot_width(flavor, attrs[k - 1])
    }
}

/// Width of a whole inline element line (without indent and prefix).
pub open spec fn inline_width<F: DiffFlavor>(flavor: F, attrs: Seq<Attr>, tag: Seq<char>) -> int {
    byte_len(flavor.spec_struct_open(tag)) + inline_slots_width(flavor, attrs, attrs.len() as int) + 1
        + byte_len(flavor.spec_struct_close(tag, true))
}

/// Room left on a line of `max_line_width` columns after the indent and a
/// two-column prefix.
pub open spec fn available_width(max_line_width: int, indent_width: int) -> int {
    if max_line_width >= indent_width + 2 {
        max_line_width - indent_width - 2
    } else {
        0
    }
}

/// Whether an element's attributes all fit on one line per side.
pub open spec fn inline_fits<F: DiffFlavor>(
    flavor: F,
    attrs: Seq<Attr>,
    tag: Seq<char>,
    max_line_width: int,
    indent_width: int,
) -> bool {
    attrs.len() > 0 && inline_width(flavor, attrs, tag) <= available_width(max_line_width, indent_width)
}

/// Bytes written for an attribute's cell on one side of an inline element
/// (`deleted_side` for the old values).
pub open spec fn cell_written<F: DiffFlavor>(flavor: F, a: Attr, deleted_side: bool) -> int {
    let pre = byte_len(flavor.spec_format_field_prefix(a.name@));
    let suf = byte_len(flavor.spec_format_field_suffix());
    match a.status {
        AttrStatus::Unchanged { value } => pre + value.width + suf,
        AttrStatus::Changed { old, new } => pre + (if deleted_side { old.width } else { new.width }) + suf,
        AttrStatus::Deleted { value } => if deleted_side { pre + value.width + suf } else { 1 },
        AttrStatus::Inserted { value } => if deleted_side { 1 } else { pre + value.width + suf },
    }
}

/// The cell of an attribute on one side of an inline element.
pub open spec fn cell_text<B: ColorBackend, F: DiffFlavor>(
    l: Layout,
    opts: RenderOptions<B>,
    flavor: F,
    a: Attr,
    deleted_side: bool,
) -> Seq<char> {
    let side = if deleted_side { ElementChange::Deleted } else { ElementChange::Inserted };
    let key_color = if deleted_side { SemanticColor::DeletedKey } else { SemanticColor::InsertedKey };
    let structure = if deleted_side { SemanticColor::DeletedStructure } else { SemanticColor::InsertedStructure };
    let highlight = if deleted_side { SemanticColor::DeletedHighlight } else { SemanticColor::InsertedHighlight };
    let accent = if deleted_side { SemanticColor::Deleted } else { SemanticColor::Inserted };
    let pre = flavor.spec_format_field_prefix(a.name@);
    let suf = flavor.spec_format_field_suffix();
    match a.status {
        AttrStatus::Unchanged { value } => sty(opts, pre, key_color) + sty(opts, value_text(l, value), spec_value_color(value.value_type, side))
            + sty(opts, suf, structure),
        AttrStatus::Changed { old, new } => {
            let v = if deleted_side { old } else { new };
            sty(opts, pre, key_color) + sty(opts, value_text(l, v), spec_value_color_highlight(v.value_type, side)) + sty(opts, suf, structure)
        },
        AttrStatus::Deleted { value } => if deleted_side {
            sty(opts, pre, highlight) + sty(opts, value_text(l, value), spec_value_color_highlight(value.value_type, side))
                + sty(opts, suf, highlight)
        } else {
            sty(opts, seq!['\u{2205}'], accent)
        },
        AttrStatus::Inserted { value } => if deleted_side {
            sty(opts, seq!['\u{2205}'], accent)
        } else {
            sty(opts, pre, highlight) + sty(opts, value_text(l, value), spec_value_color_highlight(value.value_type, side))
                + sty(opts, suf, highlight)
        },
    }
}

/// Padding that brings a cell to its slot's width (nothing when there is none to add).
pub open spec fn pad_text<B: ColorBackend>(opts: RenderOptions<B>, n: int) -> Seq<char> {
    if n > 0 {
        sty(opts, spaces(n), SemanticColor::Whitespace)
    } else {
        Seq::empty()
    }
}

/// Cell `i` of one side of an inline element, with the separator before it
/// and its padding after it.
pub open spec fn inline_cell<B: ColorBackend, F: DiffFlavor>(
    l: Layout,
    opts: RenderOptions<B>,
    flavor: F,
    attrs: Seq<Attr>,
    deleted_side: bool,
    i: int,
) -> Seq<char> {
    let a = attrs[i];
    let accent = if deleted_side { SemanticColor::Deleted } else { SemanticColor::Inserted };
    (if i > 0 {
        sty(opts, flavor.spec_field_separator(), SemanticColor::Whitespace)
    } else {
        sty(opts, seq![' '], accent)
    }) + cell_text(l, opts, flavor, a, deleted_side) + pad_text(opts, slot_width(flavor, a) - cell_written(flavor, a, deleted_side))
}

/// The columns an attribute's cell takes on one side of an inline element:
/// what is written, padded up to the slot's width.
pub open spec fn cell_columns<F: DiffFlavor>(flavor: F, a: Attr, deleted_side: bool) -> int {
    let w = cell_written(flavor, a, deleted_side);
    let s = slot_width(flavor, a);
    if s > w { s } else { w }
}

/// The columns of the first `k` cells of one side of an inline element,
/// each with the separator before it.
pub open spec fn cells_columns<F: DiffFlavor>(flavor: F, attrs: Seq<Attr>, deleted_side: bool, k: int) -> int
    decreases k,
{
    if k <= 0 {
        0
    } else {
        cells_columns(flavor, attrs, deleted_side, k - 1) + (if k - 1 > 0 {
            byte_len(flavor.spec_field_separator())
        } else {
            1
        }) + cell_columns(flavor, attrs[k - 1], deleted_side)
    }
}

/// The `←` and `→` lines of an inline element line up: each attribute's
/// cell takes its slot's width on both sides, so the cells take the same
/// columns, provided every slot is at least one column wide (a missing
/// value is written as `∅`, one column).
pub proof fn lemma_inline_lines_align<F: DiffFlavor>(flavor: F, attrs: Seq<Attr>, k: int)
    requires
        0 <= k <= attrs.len(),
        forall|i: int| 0 <= i < attrs.len() ==> slot_width(flavor, #[trigger] attrs[i]) >= 1,
    ensures
        cells_columns(flavor, attrs, true, k) == cells_columns(flavor, attrs, false, k),
        cells_columns(flavor, attrs, true, k) == inline_slots_width(flavor, attrs, k),
    decreases k,
{
    if k > 0 {
        lemma_inline_lines_align(flavor, attrs, k - 1);
        let a = attrs[k - 1];
        assert(slot_width(flavor, a) >= 1);
        assert(byte_len(flavor.spec_format_field_prefix(a.name@)) >= 0);
        assert(byte_len(flavor.spec_format_field_suffix()) >= 0);
        assert(cell_columns(flavor, a, true) == slot_width(flavor, a));
        assert(cell_columns(flavor, a, false) == slot_width(flavor, a));
    }
}

/// The first `k` cells of one side of an inline element.
pub open spec fn inline_cells<B: ColorBackend, F: DiffFlavor>(
    l: Layout,
    opts: RenderOptions<B>,
    flavor: F,
    attrs: Seq<Attr>,
    deleted_side: bool,
    k: int,
) -> Seq<char>
    decreases k,
{
    if k <= 0 {
        Seq::empty()
    } else {
        inline_cells(l, opts, flavor, attrs, deleted_side, k - 1) + inline_cell(l, opts, flavor, attrs, deleted_side, k - 1)
    }
}

/// One side of an inline element: `←` with the old values, or `→` with the new.
pub open spec fn inline_line<B: ColorBackend, F: DiffFlavor>(
    l: Layout,
    opts: RenderOptions<B>,
    flavor: F,
    tag: Seq<char>,
    field_name: Option<String>,
    attrs: Seq<Attr>,
    depth: nat,
    deleted_side: bool,
) -> Seq<char> {
    let accent = if deleted_side { SemanticColor::Deleted } else { SemanticColor::Inserted };
    let structure = if deleted_side { SemanticColor::DeletedStructure } else { SemanticColor::InsertedStructure };
    let arrow = if deleted_side { '\u{2190}' } else { '\u{2192}' };
    gutter_text(opts, depth) + sty(opts, seq![arrow], accent) + sty(opts, seq![' '], accent) + (match field_name {
        Some(n) => {
            let p = flavor.spec_format_child_open(n@);
            if p.len() > 0 { sty(opts, p, accent) } else { Seq::empty() }
        },
        None => Seq::empty(),
    }) + sty(opts, flavor.spec_struct_open(tag), structure) + inline_cells(l, opts, flavor, attrs, deleted_side, attrs.len() as int)
        + sty(opts, seq![' '], accent) + sty(opts, flavor.spec_struct_close(tag, true), structure) + seq!['\n']
}

// ---------------------------------------------------------------------------
// Changed groups
// ---------------------------------------------------------------------------

/// Cell `i` of one side of a changed group, with the separator before it.
pub open spec fn group_cell<B: ColorBackend, F: DiffFlavor>(
    l: Layout,
    opts: RenderOptions<B>,
    flavor: F,
    attrs: Seq<Attr>,
    indices: Seq<usize>,
    deleted_side: bool,
    i: int,
) -> Seq<char> {
    let last = if indices.len() > 0 { indices.len() - 1 } else { 0 };
    let a = attrs[indices[i] as int];
    let side = if deleted_side { ElementChange::Deleted } else { ElementChange::Inserted };
    let key_color = if deleted_side { SemanticColor::DeletedKey } else { SemanticColor::InsertedKey };
    let structure = if deleted_side { SemanticColor::DeletedStructure } else { SemanticColor::InsertedStructure };
    (if i > 0 {
        flavor.spec_field_separator()
    } else {
        Seq::empty()
    }) + match a.status {
        AttrStatus::Changed { old, new } => {
            let v = if deleted_side { old } else { new };
            let widest = if old.width >= new.width { old.width as int } else { new.width as int };
            sty(opts, flavor.spec_format_field_prefix(a.name@), key_color) + sty(
                opts,
                value_text(l, v),
                spec_value_color_highlight(v.value_type, side),
            ) + sty(opts, flavor.spec_format_field_suffix(), structure) + (if i < last {
                spaces(widest - v.width)
            } else {
                Seq::empty()
            })
        },
        _ => Seq::empty(),
    }
}

/// The first `k` cells of one side of a changed group.
pub open spec fn group_cells<B: ColorBackend, F: DiffFlavor>(
    l: Layout,
    opts: RenderOptions<B>,
    flavor: F,
    attrs: Seq<Attr>,
    indices: Seq<usize>,
    deleted_side: bool,
    k: int,
) -> Seq<char>
    decreases k,
{
    if k <= 0 {
        Seq::empty()
    } else {
        group_cells(l, opts, flavor, attrs, indices, deleted_side, k - 1) + group_cell(l, opts, flavor, attrs, indices, deleted_side, k - 1)
    }
}

/// A changed group: its `←` line with the old values and its `→` line with the new.
pub open spec fn group_text<B: ColorBackend, F: DiffFlavor>(
    l: Layout,
    opts: RenderOptions<B>,
    flavor: F,
    attrs: Seq<Attr>,
    indices: Seq<usize>,
    depth: nat,
) -> Seq<char> {
    gutter_text(opts, depth) + sty(opts, seq!['\u{2190}'], SemanticColor::Deleted) + seq![' ']
        + group_cells(l, opts, flavor, attrs, indices, true, indices.len() as int) + seq!['\n']
        + gutter_text(opts, depth) + sty(opts, seq!['\u{2192}'], SemanticColor::Inserted) + seq![' ']
        + group_cells(l, opts, flavor, attrs, indices, false, indices.len() as int) + seq!['\n']
}

/// The first `k` changed groups.
pub open spec fn groups_text<B: ColorBackend, F: DiffFlavor>(
    l: Layout,
    opts: RenderOptions<B>,
    flavor: F,
    attrs: Seq<Attr>,
    groups: Seq<GroupModel>,
    depth: nat,
    k: int,
) -> Seq<char>
    decreases k,
{
    if k <= 0 {
        Seq::empty()
    } else {
        groups_text(l, opts, flavor, attrs, groups, depth, k - 1) + group_text(l, opts, flavor, attrs, groups[k - 1].indices, depth)
    }
}

// ---------------------------------------------------------------------------
// Attribute lines of a multi-line element
// ---------------------------------------------------------------------------

/// The models of a list of changed groups.
pub open spec fn groups_model(groups: Seq<ChangedGroup>) -> Seq<GroupModel> {
    groups.map_values(|g: ChangedGroup| g@)
}

/// Whether attribute `i` belongs to one of the changed groups.
pub open spec fn in_some_group(groups: Seq<GroupModel>, i: int) -> bool {
    exists|g: int, k: int| 0 <= g < groups.len() && 0 <= k < groups[g].indices.len() && #[trigger] groups[g].indices[k] == i
}

/// The line of attribute `i` if it was deleted (`deleted` true) or inserted
/// and belongs to no changed group; nothing otherwise.
pub open spec fn lone_attr_line<B: ColorBackend, F: DiffFlavor>(
    l: Layout,
    opts: RenderOptions<B>,
    flavor: F,
    attrs: Seq<Attr>,
    groups: Seq<GroupModel>,
    depth: nat,
    deleted: bool,
    i: int,
) -> Seq<char> {
    let a = attrs[i];
    let line = |v: FormattedValue, p: char, accent: SemanticColor, highlight: SemanticColor|
        gutter_text(opts, depth) + sty(opts, seq![p], accent) + seq![' '] + sty(
            opts,
            flavor.spec_format_field(a.name@, value_text(l, v)),
            highlight,
        ) + sty(opts, flavor.spec_trailing_separator(), SemanticColor::Whitespace) + seq!['\n'];
    if in_some_group(groups, i) {
        Seq::empty()
    } else {
        match a.status {
            AttrStatus::Deleted { value } => if deleted {
                line(value, '-', SemanticColor::Deleted, SemanticColor::DeletedHighlight)
            } else {
                Seq::empty()
            },
            AttrStatus::Inserted { value } => if !deleted {
                line(value, '+', SemanticColor::Inserted, SemanticColor::InsertedHighlight)
            } else {
                Seq::empty()
            },
            _ => Seq::empty(),
        }
    }
}

/// The lines of the first `k` attributes that were deleted (`deleted` true)
/// or inserted, outside the changed groups, each with its own prefix.
pub open spec fn lone_attr_lines<B: ColorBackend, F: DiffFlavor>(
    l: Layout,
    opts: RenderOptions<B>,
    flavor: F,
    attrs: Seq<Attr>,
    groups: Seq<GroupModel>,
    depth: nat,
    deleted: bool,
    k: int,
) -> Seq<char>
    decreases k,
{
    if k <= 0 {
        Seq::empty()
    } else {
        lone_attr_lines(l, opts, flavor, attrs, groups, depth, deleted, k - 1) + lone_attr_line(
            l,
            opts,
            flavor,
            attrs,
            groups,
            depth,
            deleted,
            k - 1,
        )
    }
}

/// The attributes that are unchanged, in order.
pub open spec fn unchanged_attrs(attrs: Seq<Attr>) -> Seq<Attr> {
    attrs.filter(|a: Attr| a.status is Unchanged)
}

/// An unchanged attribute as `name: value` (or the flavor's equivalent).
pub open spec fn unchanged_field<B: ColorBackend, F: DiffFlavor>(
    l: Layout,
    opts: RenderOptions<B>,
    flavor: F,
    a: Attr,
) -> Seq<char> {
    match a.status {
        AttrStatus::Unchanged { value } => sty(opts, flavor.spec_format_field(a.name@, value_text(l, value)), SemanticColor::Unchanged),
        _ => Seq::empty(),
    }
}

/// Attribute `i` of a line of fields, with the separator before it
/// (`first_sep` before the first one).
pub open spec fn field_on_line<B: ColorBackend, F: DiffFlavor>(
    l: Layout,
    opts: RenderOptions<B>,
    flavor: F,
    attrs: Seq<Attr>,
    first_sep: Seq<char>,
    i: int,
) -> Seq<char> {
    (if i > 0 {
        flavor.spec_field_separator()
    } else {
        first_sep
    }) + unchanged_field(l, opts, flavor, attrs[i])
}

/// The first `k` attributes of `attrs` on one line, separated by the
/// flavor's field separator (`first_sep` before the first one).
pub open spec fn fields_on_line<B: ColorBackend, F: DiffFlavor>(
    l: Layout,
    opts: RenderOptions<B>,
    flavor: F,
    attrs: Seq<Attr>,
    first_sep: Seq<char>,
    k: int,
) -> Seq<char>
    decreases k,
{
    if k <= 0 {
        Seq::empty()
    } else {
        fields_on_line(l, opts, flavor, attrs, first_sep, k - 1) + field_on_line(l, opts, flavor, attrs, first_sep, k - 1)
    }
}

/// Only the first `k` attributes matter to a line of `k` fields.
pub proof fn lemma_fields_on_line_prefix<B: ColorBackend, F: DiffFlavor>(
    l: Layout,
    opts: RenderOptions<B>,
    flavor: F,
    a1: Seq<Attr>,
    a2: Seq<Attr>,
    first_sep: Seq<char>,
    k: int,
)
    requires
        0 <= k <= a1.len(),
        k <= a2.len(),
        forall|i: int| 0 <= i < k ==> a1[i] == a2[i],
    ensures
        fields_on_line(l, opts, flavor, a1, first_sep, k) == fields_on_line(l, opts, flavor, a2, first_sep, k),
    decreases k,
{
    if k > 0 {
        lemma_fields_on_line_prefix(l, opts, flavor, a1, a2, first_sep, k - 1);
    }
}

/// The first `k` attributes each on a line of its own (used when an
/// unchanged element has children).
pub open spec fn attr_lines<B: ColorBackend, F: DiffFlavor>(
    l: Layout,
    opts: RenderOptions<B>,
    flavor: F,
    attrs: Seq<Attr>,
    depth: nat,
    k: int,
) -> Seq<char>
    decreases k,
{
    if k <= 0 {
        Seq::empty()
    } else {
        attr_lines(l, opts, flavor, attrs, depth, k - 1) + indent_text(opts, depth) + unchanged_field(l, opts, flavor, attrs[k - 1])
            + sty(opts, flavor.spec_trailing_separator(), SemanticColor::Whitespace) + seq!['\n']
    }
}

// ---------------------------------------------------------------------------
// Nodes
// ---------------------------------------------------------------------------

/// Whether some attribute has the given kind of status.
pub open spec fn any_deleted(attrs: Seq<Attr>) -> bool {
    exists|i: int| 0 <= i < attrs.len() && #[trigger] attrs[i].status is Deleted
}

/// Whether some attribute was inserted.
pub open spec fn any_inserted(attrs: Seq<Attr>) -> bool {
    exists|i: int| 0 <= i < attrs.len() && #[trigger] attrs[i].status is Inserted
}

/// The opening line of a multi-line or inline element, up to and with its type comment.
pub open spec fn element_open<B: ColorBackend, F: DiffFlavor>(
    opts: RenderOptions<B>,
    flavor: F,
    tag: Seq<char>,
    field_name: Option<String>,
    change: ElementChange,
    depth: nat,
) -> Seq<char> {
    indent_text(opts, depth) + prefix_text(opts, change) + (match field_name {
        Some(n) => {
            let p = flavor.spec_format_child_open(n@);
            if p.len() > 0 { sty(opts, p, SemanticColor::Unchanged) } else { Seq::empty() }
        },
        None => Seq::empty(),
    }) + sty(opts, flavor.spec_struct_open(tag), spec_tag_color(change)) + match flavor.spec_type_comment(tag) {
        Some(c) => seq![' '] + sty(opts, c, spec_syntax_color(SyntaxElement::Comment, change)),
        None => Seq::empty(),
    }
}

/// Whether an element's attribute changes show as one `←` line and one `→`
/// line holding the whole element: it has changes that are not a pure
/// insertion or deletion, no children, and the attributes fit.
pub open spec fn inline_case<B: ColorBackend, F: DiffFlavor>(
    opts: RenderOptions<B>,
    flavor: F,
    tag: Seq<char>,
    attrs: Seq<Attr>,
    groups: Seq<GroupModel>,
    depth: nat,
    has_children: bool,
) -> bool {
    let has_changed = groups.len() > 0;
    let has_deleted = any_deleted(attrs);
    let has_inserted = any_inserted(attrs);
    let pure_insertion = has_inserted && !has_changed && !has_deleted;
    let pure_deletion = has_deleted && !has_changed && !has_inserted;
    let has_attr_changes = has_changed || has_deleted || has_inserted;
    has_attr_changes && !has_children && !pure_insertion && !pure_deletion && inline_fits(
        flavor,
        attrs,
        tag,
        80,
        depth * byte_len(opts.indent@),
    )
}

/// The attribute lines of an element with attribute changes: the changed
/// groups, the lone deletions, the lone insertions, the unchanged attributes,
/// and the end of the opening.
pub open spec fn body_with_changes<B: ColorBackend, F: DiffFlavor>(
    l: Layout,
    opts: RenderOptions<B>,
    flavor: F,
    tag: Seq<char>,
    attrs: Seq<Attr>,
    groups: Seq<GroupModel>,
    change: ElementChange,
    depth: nat,
    has_children: bool,
) -> Seq<char> {
    let unchanged = unchanged_attrs(attrs);
    seq!['\n'] + groups_text(l, opts, flavor, attrs, groups, depth + 1, groups.len() as int) + lone_attr_lines(
        l,
        opts,
        flavor,
        attrs,
        groups,
        depth + 1,
        true,
        attrs.len() as int,
    ) + lone_attr_lines(l, opts, flavor, attrs, groups, depth + 1, false, attrs.len() as int) + (if unchanged.len() > 0 {
        indent_text(opts, depth + 1) + fields_on_line(l, opts, flavor, unchanged, Seq::empty(), unchanged.len() as int)
            + sty(opts, flavor.spec_trailing_separator(), SemanticColor::Whitespace) + seq!['\n']
    } else {
        Seq::empty()
    }) + indent_text(opts, depth) + sty(
        opts,
        if has_children { flavor.spec_struct_open_close() } else { flavor.spec_struct_close(tag, true) },
        spec_tag_color(change),
    ) + seq!['\n']
}

/// The attribute lines of an unchanged element with children: each attribute
/// on a line of its own, then the end of the opening if the flavor has one.
pub open spec fn body_attr_lines<B: ColorBackend, F: DiffFlavor>(
    l: Layout,
    opts: RenderOptions<B>,
    flavor: F,
    attrs: Seq<Attr>,
    change: ElementChange,
    depth: nat,
) -> Seq<char> {
    seq!['\n'] + attr_lines(l, opts, flavor, attrs, depth + 1, attrs.len() as int) + (if flavor.spec_struct_open_close().len() > 0 {
        indent_text(opts, depth) + sty(opts, flavor.spec_struct_open_close(), spec_tag_color(change)) + seq!['\n']
    } else {
        Seq::empty()
    })
}

/// The attributes of an element on its opening line, then the end of the
/// opening (or the self-closing end).
pub open spec fn body_inline_fields<B: ColorBackend, F: DiffFlavor>(
    l: Layout,
    opts: RenderOptions<B>,
    flavor: F,
    tag: Seq<char>,
    attrs: Seq<Attr>,
    change: ElementChange,
    has_children: bool,
) -> Seq<char> {
    fields_on_line(l, opts, flavor, attrs, seq![' '], attrs.len() as int) + sty(
        opts,
        if has_children { flavor.spec_struct_open_close() } else { flavor.spec_struct_close(tag, true) },
        spec_tag_color(change),
    ) + seq!['\n']
}

/// What follows an element's opening, up to its children: the attribute
/// lines and the end of the opening (or the whole element when it has no children).
pub open spec fn element_body<B: ColorBackend, F: DiffFlavor>(
    l: Layout,
    opts: RenderOptions<B>,
    flavor: F,
    tag: Seq<char>,
    attrs: Seq<Attr>,
    groups: Seq<GroupModel>,
    change: ElementChange,
    depth: nat,
    has_children: bool,
) -> Seq<char> {
    if groups.len() > 0 || any_deleted(attrs) || any_inserted(attrs) {
        body_with_changes(l, opts, flavor, tag, attrs, groups, change, depth, has_children)
    } else if has_children && attrs.len() > 0 {
        body_attr_lines(l, opts, flavor, attrs, change, depth)
    } else {
        body_inline_fields(l, opts, flavor, tag, attrs, change, has_children)
    }
}

/// The closing line of an element with children (nothing without children).
pub open spec fn element_close<B: ColorBackend, F: DiffFlavor>(
    opts: RenderOptions<B>,
    flavor: F,
    tag: Seq<char>,
    change: ElementChange,
    depth: nat,
    has_children: bool,
) -> Seq<char> {
    if has_children {
        indent_text(opts, depth) + prefix_text(opts, change) + sty(opts, flavor.spec_struct_close(tag, false), spec_tag_color(change))
            + seq!['\n']
    } else {
        Seq::empty()
    }
}

/// An element whose children render as `children`.
pub open spec fn element_text<B: ColorBackend, F: DiffFlavor>(
    l: Layout,
    opts: RenderOptions<B>,
    flavor: F,
    tag: Seq<char>,
    field_name: Option<String>,
    attrs: Seq<Attr>,
    groups: Seq<GroupModel>,
    change: ElementChange,
    depth: nat,
    has_children: bool,
    children: Seq<char>,
) -> Seq<char> {
    if tag == transparent_tag() {
        children
    } else if inline_case(opts, flavor, tag, attrs, groups, depth, has_children) {
        inline_line(l, opts, flavor, tag, field_name, attrs, depth, true) + inline_line(
            l,
            opts,
            flavor,
            tag,
            field_name,
            attrs,
            depth,
            false,
        )
    } else {
        element_open(opts, flavor, tag, field_name, change, depth) + element_body(
            l,
            opts,
            flavor,
            tag,
            attrs,
            groups,
            change,
            depth,
            has_children,
        ) + children + element_close(opts, flavor, tag, change, depth, has_children)
    }
}

/// A sequence whose children render as `children`.
pub open spec fn sequence_text<B: ColorBackend, F: DiffFlavor>(
    opts: RenderOptions<B>,
    flavor: F,
    change: ElementChange,
    field_name: Option<String>,
    depth: nat,
    has_children: bool,
    children: Seq<char>,
) -> Seq<char> {
    let tag_color = spec_tag_color(change);
    let open = match field_name {
        Some(n) => flavor.spec_format_seq_field_open(n@),
        None => flavor.spec_seq_open(),
    };
    let close = match field_name {
        Some(n) => flavor.spec_format_seq_field_close(n@),
        None => flavor.spec_seq_close(),
    };
    let trailing = if field_name is Some {
        sty(opts, flavor.spec_trailing_separator(), SemanticColor::Whitespace)
    } else {
        Seq::empty()
    };
    if !has_children {
        if change is Unchanged && field_name is None {
            Seq::empty()
        } else {
            indent_text(opts, depth) + prefix_text(opts, change) + sty(opts, open, tag_color) + sty(opts, close, tag_color)
                + trailing + seq!['\n']
        }
    } else {
        indent_text(opts, depth) + prefix_text(opts, change) + sty(opts, open, tag_color) + seq!['\n'] + children
            + indent_text(opts, depth) + prefix_text(opts, change) + sty(opts, close, tag_color) + trailing + seq!['\n']
    }
}

/// `N unchanged`, `N more` and the like.
pub open spec fn count_text(n: nat, words: Seq<char>) -> Seq<char> {
    decimal(n) + words
}

/// The words after the count of a collapsed run.
pub open spec fn unchanged_words() -> Seq<char> {
    seq![' ', 'u', 'n', 'c', 'h', 'a', 'n', 'g', 'e', 'd']
}

/// The words after the count of items left out of an item group.
pub open spec fn more_words() -> Seq<char> {
    seq![' ', 'm', 'o', 'r', 'e']
}

/// The first `k` items of an item group.
pub open spec fn items_text<B: ColorBackend, F: DiffFlavor>(
    l: Layout,
    opts: RenderOptions<B>,
    flavor: F,
    items: Seq<FormattedValue>,
    change: ElementChange,
    item_type: Seq<char>,
    k: int,
) -> Seq<char>
    decreases k,
{
    if k <= 0 {
        Seq::empty()
    } else {
        let v = items[k - 1];
        items_text(l, opts, flavor, items, change, item_type, k - 1) + (if k - 1 > 0 {
            flavor.spec_item_separator()
        } else {
            Seq::empty()
        }) + sty(opts, flavor.spec_format_seq_item(item_type, value_text(l, v)), spec_value_color(v.value_type, change))
    }
}

/// A node that has no children of its own to render: collapsed runs, text and item groups.
pub open spec fn leaf_text<B: ColorBackend, F: DiffFlavor>(
    l: Layout,
    opts: RenderOptions<B>,
    flavor: F,
    node: LayoutNode,
    depth: nat,
) -> Seq<char> {
    match node {
        LayoutNode::Collapsed { count } => indent_text(opts, depth) + sty(
            opts,
            flavor.spec_comment(count_text(count as nat, unchanged_words())),
            SemanticColor::Comment,
        ) + seq!['\n'],
        LayoutNode::Text { value, change } => indent_text(opts, depth) + prefix_text(opts, change) + sty(
            opts,
            value_text(l, value),
            spec_value_color(value.value_type, change),
        ) + seq!['\n'],
        LayoutNode::ItemGroup { items, change, collapsed_suffix, item_type } => (match change_prefix(change) {
            Some(p) => gutter_text(opts, depth) + sty(opts, seq![p], spec_change_color(change)) + seq![' '],
            None => indent_text(opts, depth),
        }) + items_text(l, opts, flavor, items@, change, item_type@, items@.len() as int) + (match collapsed_suffix {
            Some(c) => seq![' '] + sty(
                opts,
                flavor.spec_comment(count_text(c as nat, more_words())),
                spec_syntax_color(SyntaxElement::Comment, change),
            ),
            None => Seq::empty(),
        }) + seq!['\n'],
        _ => Seq::empty(),
    }
}

/// Whether every path down from `id` has fewer than `h` nodes, so that
/// rendering from `id` stops.
pub open spec fn bounded_height(l: Layout, id: NodeId, h: nat) -> bool
    decreases h,
{
    &&& h > 0
    &&& l.children_of().contains_key(id)
    &&& forall|k: int| 0 <= k < l.children_of()[id].len() ==> bounded_height(l, #[trigger] l.children_of()[id][k], (h - 1) as nat)
}

/// What rendering node `id` at `depth` writes, with `fuel` levels to go.
pub open spec fn node_text<B: ColorBackend, F: DiffFlavor>(
    l: Layout,
    opts: RenderOptions<B>,
    flavor: F,
    id: NodeId,
    depth: nat,
    fuel: nat,
) -> Seq<char>
    decreases fuel, 0nat,
{
    if fuel == 0 || !l.nodes().contains_key(id) {
        Seq::empty()
    } else {
        let kids = l.children_of()[id];
        match l.nodes()[id] {
            LayoutNode::Element { tag, field_name, attrs, changed_groups, change } => {
                let child_depth = if tag@ == transparent_tag() { depth } else { depth + 1 };
                element_text(
                    l,
                    opts,
                    flavor,
                    tag@,
                    field_name,
                    attrs@,
                    groups_model(changed_groups@),
                    change,
                    depth,
                    kids.len() > 0,
                    children_text(l, opts, flavor, kids, child_depth, (fuel - 1) as nat),
                )
            },
            LayoutNode::Sequence { change, item_type, field_name } => sequence_text(
                opts,
                flavor,
                change,
                field_name,
                depth,
                kids.len() > 0,
                children_text(l, opts, flavor, kids, depth + 1, (fuel - 1) as nat),
            ),
            n => leaf_text(l, opts, flavor, n, depth),
        }
    }
}

/// What rendering the nodes `kids` one after another at `depth` writes.
pub open spec fn children_text<B: ColorBackend, F: DiffFlavor>(
    l: Layout,
    opts: RenderOptions<B>,
    flavor: F,
    kids: Seq<NodeId>,
    depth: nat,
    fuel: nat,
) -> Seq<char>
    decreases fuel, kids.len() + 1,
{
    if kids.len() == 0 {
        Seq::empty()
    } else {
        children_text(l, opts, flavor, kids.drop_last(), depth, fuel) + node_text(l, opts, flavor, kids.last(), depth, fuel)
    }
}

/// A value whose span the layout's arena can read.
pub open spec fn value_ok(l: Layout, v: FormattedValue) -> bool {
    l.strings.valid_span(v.span)
}

/// An attribute whose values the layout's arena can read.
pub open spec fn attr_ok(l: Layout, a: Attr) -> bool {
    match a.status {
        AttrStatus::Unchanged { value } => value_ok(l, value),
        AttrStatus::Changed { old, new } => value_ok(l, old) && value_ok(l, new),
        AttrStatus::Deleted { value } => value_ok(l, value),
        AttrStatus::Inserted { value } => value_ok(l, value),
    }
}

/// A node that rendering can read: its values lie in the arena and its
/// changed groups index its own attributes.
pub open spec fn node_ok(l: Layout, n: LayoutNode) -> bool {
    match n {
        LayoutNode::Element { attrs, changed_groups, .. } => {
            &&& forall|i: int| 0 <= i < attrs@.len() ==> attr_ok(l, #[trigger] attrs@[i])
            &&& forall|g: int, k: int| 0 <= g < changed_groups@.len() && 0 <= k < changed_groups@[g].attr_indices@.len()
                ==> #[trigger] changed_groups@[g].attr_indices@[k] < attrs@.len()
        },
        LayoutNode::Text { value, .. } => value_ok(l, value),
        LayoutNode::ItemGroup { items, .. } => forall|i: int| 0 <= i < items@.len() ==> value_ok(l, #[trigger] items@[i]),
        _ => true,
    }
}

/// A layout that can be rendered: well formed, every node readable, and of
/// finite height below its root (a height that a `usize` depth counter can reach).
pub open spec fn renderable(l: Layout) -> bool {
    &&& l.well_formed()
    &&& forall|id: NodeId| #[trigger] l.nodes().contains_key(id) ==> node_ok(l, l.nodes()[id])
    &&& exists|h: nat| h < usize::MAX && bounded_height(l, l.root, h)
}

/// What rendering a whole layout writes: its root at depth 1, which leaves
/// a gutter for change prefixes.
pub open spec fn rendered<B: ColorBackend, F: DiffFlavor>(l: Layout, opts: RenderOptions<B>, flavor: F) -> Seq<char> {
    node_text(l, opts, flavor, l.root, 1, choose|h: nat| h < usize::MAX && bounded_height(l, l.root, h))
}

/// A layout whose root has no children yet, and whose nodes are all
/// readable, can be rendered.
pub proof fn lemma_fresh_layout_renderable(l: Layout)
    requires
        l.well_formed(),
        l.children_of()[l.root].len() == 0,
        forall|id: NodeId| #[trigger] l.nodes().contains_key(id) ==> node_ok(l, l.nodes()[id]),
    ensures
        renderable(l),
        bounded_height(l, l.root, 1),
{
    assert(bounded_height(l, l.root, 1));
}

/// Below a node, heights grow by at most one when a fresh leaf is added.
proof fn lemma_height_after_add(before: Layout, after: Layout, parent: NodeId, child: NodeId, id: NodeId, k: nat)
    requires
        before.well_formed(),
        before.nodes().contains_key(parent),
        !before.nodes().contains_key(child),
        after.children_of() == before.children_of().insert(child, Seq::<NodeId>::empty()).insert(
            parent,
            before.children_of()[parent].push(child),
        ),
        bounded_height(before, id, k),
    ensures
        bounded_height(after, id, k + 1),
    decreases k,
{
    let kids = before.children_of()[id];
    assert(kids.len() >= 0);
    assert forall|j: int| 0 <= j < after.children_of()[id].len() implies bounded_height(
        after,
        #[trigger] after.children_of()[id][j],
        k,
    ) by {
        let c = after.children_of()[id][j];
        if j < kids.len() {
            assert(c == kids[j]);
            assert(bounded_height(before, kids[j], (k - 1) as nat));
            lemma_height_after_add(before, after, parent, child, c, (k - 1) as nat);
        } else {
            assert(id == parent);
            assert(c == child);
            assert(after.children_of()[child].len() == 0);
            assert(bounded_height(after, child, 1));
            lemma_height_grows(after, child, 1, k);
        }
    }
    if id == child {
        assert(before.children_of().contains_key(id));
    }
}

/// A height bound stays a bound when raised.
proof fn lemma_height_grows(l: Layout, id: NodeId, a: nat, b: nat)
    requires
        bounded_height(l, id, a),
        a <= b,
    ensures
        bounded_height(l, id, b),
    decreases a,
{
    assert forall|j: int| 0 <= j < l.children_of()[id].len() implies bounded_height(
        l,
        #[trigger] l.children_of()[id][j],
        (b - 1) as nat,
    ) by {
        lemma_height_grows(l, l.children_of()[id][j], (a - 1) as nat, (b - 1) as nat);
    }
}

/// Adding a readable leaf under a node of a renderable layout (as
/// `Layout::add_child` does) keeps it renderable, one level higher at most.
pub proof fn lemma_add_child_keeps_renderable(
    before: Layout,
    after: Layout,
    parent: NodeId,
    child: NodeId,
    node: LayoutNode,
    h: nat,
)
    requires
        renderable(before),
        bounded_height(before, before.root, h),
        h + 1 < usize::MAX,
        before.nodes().contains_key(parent),
        !before.nodes().contains_key(child),
        after.well_formed(),
        after.root == before.root,
        after.strings == before.strings,
        after.nodes() == before.nodes().insert(child, node),
        after.children_of() == before.children_of().insert(child, Seq::<NodeId>::empty()).insert(
            parent,
            before.children_of()[parent].push(child),
        ),
        node_ok(after, node),
    ensures
        renderable(after),
        bounded_height(after, after.root, h + 1),
{
    lemma_height_after_add(before, after, parent, child, before.root, h);
    assert forall|id: NodeId| #[trigger] after.nodes().contains_key(id) implies node_ok(after, after.nodes()[id]) by {
        if id != child {
            assert(before.nodes().contains_key(id));
            assert(node_ok(before, before.nodes()[id]));
        }
    }
}

/// A value whose span the arena could read stays readable when more text is pushed.
proof fn lemma_value_ok_grows(before: Layout, after: Layout, s: Seq<char>, v: FormattedValue)
    requires
        after.strings.chars() == before.strings.chars() + s,
        value_ok(before, v),
    ensures
        value_ok(after, v),
{
    crate::layout::arena::lemma_push_keeps_span(before.strings, after.strings, s, v.span);
}

/// Heights depend on the tree alone.
proof fn lemma_height_same_tree(before: Layout, after: Layout, id: NodeId, k: nat)
    requires
        after.children_of() == before.children_of(),
        bounded_height(before, id, k),
    ensures
        bounded_height(after, id, k),
    decreases k,
{
    assert forall|j: int| 0 <= j < after.children_of()[id].len() implies bounded_height(
        after,
        #[trigger] after.children_of()[id][j],
        (k - 1) as nat,
    ) by {
        lemma_height_same_tree(before, after, before.children_of()[id][j], (k - 1) as nat);
    }
}

/// A node readable from one arena stays readable when more text is pushed.
proof fn lemma_node_ok_grows(before: Layout, after: Layout, s: Seq<char>, n: LayoutNode)
    requires
        after.strings.chars() == before.strings.chars() + s,
        node_ok(before, n),
    ensures
        node_ok(after, n),
{
    match n {
        LayoutNode::Element { attrs, changed_groups, .. } => {
            assert forall|i: int| 0 <= i < attrs@.len() implies attr_ok(after, #[trigger] attrs@[i]) by {
                assert(attr_ok(before, attrs@[i]));
                match attrs@[i].status {
                    AttrStatus::Unchanged { value } => lemma_value_ok_grows(before, after, s, value),
                    AttrStatus::Changed { old, new } => {
                        lemma_value_ok_grows(before, after, s, old);
                        lemma_value_ok_grows(before, after, s, new);
                    },
                    AttrStatus::Deleted { value } => lemma_value_ok_grows(before, after, s, value),
                    AttrStatus::Inserted { value } => lemma_value_ok_grows(before, after, s, value),
                }
            }
        },
        LayoutNode::Text { value, .. } => lemma_value_ok_grows(before, after, s, value),
        LayoutNode::ItemGroup { items, .. } => {
            assert forall|i: int| 0 <= i < items@.len() implies value_ok(after, #[trigger] items@[i]) by {
                lemma_value_ok_grows(before, after, s, items@[i]);
            }
        },
        _ => {},
    }
}

/// The text of `after` is that of `before` with more pushed after it.
pub open spec fn arena_grew(before: Seq<char>, after: Seq<char>) -> bool {
    &&& before.len() <= after.len()
    &&& after.subrange(0, before.len() as int) == before
}

/// Growth of the arena's text is transitive.
pub proof fn lemma_arena_grew_trans(a: Seq<char>, b: Seq<char>, c: Seq<char>)
    requires
        arena_grew(a, b),
        arena_grew(b, c),
    ensures
        arena_grew(a, c),
{
    assert(c.subrange(0, a.len() as int) =~= c.subrange(0, b.len() as int).subrange(0, a.len() as int));
}

/// A value readable once the text fits stays so as the arena grows.
pub proof fn lemma_value_stays_ok(before: Layout, after: Layout, v: FormattedValue)
    requires
        arena_grew(before.strings.chars(), after.strings.chars()),
        before.strings.bytes().len() <= u32::MAX ==> value_ok(before, v),
    ensures
        after.strings.bytes().len() <= u32::MAX ==> value_ok(after, v),
{
    let b = before.strings.chars();
    let s = after.strings.chars().subrange(b.len() as int, after.strings.chars().len() as int);
    assert(after.strings.chars() =~= b + s);
    if after.strings.bytes().len() <= u32::MAX {
        crate::utf8_facts::lemma_encode_concat(b, s);
        lemma_value_ok_grows(before, after, s, v);
    }
}

/// Attributes readable once the text fits stay so as the arena grows.
pub proof fn lemma_attrs_stay_ok(before: Layout, after: Layout, attrs: Seq<Attr>)
    requires
        arena_grew(before.strings.chars(), after.strings.chars()),
        before.strings.bytes().len() <= u32::MAX ==> forall|i: int| 0 <= i < attrs.len() ==> attr_ok(before, #[trigger] attrs[i]),
    ensures
        after.strings.bytes().len() <= u32::MAX ==> forall|i: int| 0 <= i < attrs.len() ==> attr_ok(after, #[trigger] attrs[i]),
{
    let b = before.strings.chars();
    let s = after.strings.chars().subrange(b.len() as int, after.strings.chars().len() as int);
    assert(after.strings.chars() =~= b + s);
    if after.strings.bytes().len() <= u32::MAX {
        crate::utf8_facts::lemma_encode_concat(b, s);
        assert forall|i: int| 0 <= i < attrs.len() implies attr_ok(after, #[trigger] attrs[i]) by {
            assert(attr_ok(before, attrs[i]));
            match attrs[i].status {
                AttrStatus::Unchanged { value } => lemma_value_ok_grows(before, after, s, value),
                AttrStatus::Changed { old, new } => {
                    lemma_value_ok_grows(before, after, s, old);
                    lemma_value_ok_grows(before, after, s, new);
                },
                AttrStatus::Deleted { value } => lemma_value_ok_grows(before, after, s, value),
                AttrStatus::Inserted { value } => lemma_value_ok_grows(before, after, s, value),
            }
        }
    }
}

/// A layout under construction: well formed, with finitely many nodes (at
/// most `isize::MAX`), no path down from the root holding more nodes than
/// the layout has, and every node readable once the arena's text fits
/// `u32` offsets.
pub open spec fn under_construction(l: Layout) -> bool {
    &&& l.well_formed()
    &&& l.nodes().dom().finite()
    &&& l.nodes().dom().len() <= isize::MAX
    &&& bounded_height(l, l.root, l.nodes().dom().len())
    &&& l.strings.bytes().len() <= u32::MAX ==> forall|id: NodeId| #[trigger] l.nodes().contains_key(id) ==> node_ok(l, l.nodes()[id])
}

/// Adding a fresh leaf (as `Layout::add_child` does) keeps a layout under
/// construction, given that the leaf is readable once the text fits.
pub proof fn lemma_construction_add(before: Layout, after: Layout, parent: NodeId, child: NodeId, node: LayoutNode)
    requires
        under_construction(before),
        before.nodes().contains_key(parent),
        !before.nodes().contains_key(child),
        after.well_formed(),
        after.root == before.root,
        after.strings == before.strings,
        after.nodes().dom().finite(),
        after.nodes().dom().len() <= isize::MAX,
        after.nodes() == before.nodes().insert(child, node),
        after.children_of() == before.children_of().insert(child, Seq::<NodeId>::empty()).insert(
            parent,
            before.children_of()[parent].push(child),
        ),
        after.strings.bytes().len() <= u32::MAX ==> node_ok(after, node),
    ensures
        under_construction(after),
{
    let n = before.nodes().dom().len();
    lemma_height_after_add(before, after, parent, child, before.root, n);
    assert(after.nodes().dom() =~= before.nodes().dom().insert(child));
    assert(after.nodes().dom().len() == n + 1);
    if after.strings.bytes().len() <= u32::MAX {
        assert forall|id: NodeId| #[trigger] after.nodes().contains_key(id) implies node_ok(after, after.nodes()[id]) by {
            if id != child {
                assert(node_ok(before, before.nodes()[id]));
            }
        }
    }
}

/// Pushing text into the arena keeps a layout under construction.
pub proof fn lemma_construction_push(before: Layout, after: Layout, s: Seq<char>)
    requires
        under_construction(before),
        after.tree == before.tree,
        after.root == before.root,
        after.strings.chars() == before.strings.chars() + s,
    ensures
        under_construction(after),
{
    lemma_height_same_tree(before, after, after.root, before.nodes().dom().len());
    if after.strings.bytes().len() <= u32::MAX {
        crate::utf8_facts::lemma_encode_concat(before.strings.chars(), s);
        assert forall|id: NodeId| #[trigger] after.nodes().contains_key(id) implies node_ok(after, after.nodes()[id]) by {
            assert(node_ok(before, before.nodes()[id]));
            lemma_node_ok_grows(before, after, s, after.nodes()[id]);
        }
    }
}

/// A layout under construction whose text fits `u32` offsets can be
/// rendered from any child of its root, the root's other nodes aside.
pub proof fn lemma_construction_renders_child(l: Layout, r: Layout, k: int)
    requires
        under_construction(l),
        l.strings.bytes().len() <= u32::MAX,
        0 <= k < l.children_of()[l.root].len(),
        r.tree == l.tree,
        r.strings == l.strings,
        r.root == l.children_of()[l.root][k],
    ensures
        renderable(r),
{
    let n = l.nodes().dom().len();
    assert(bounded_height(l, l.children_of()[l.root][k], (n - 1) as nat));
    lemma_height_same_tree(l, r, r.root, (n - 1) as nat);
    assert(bounded_height(r, r.root, (n - 1) as nat));
    assert forall|id: NodeId| #[trigger] r.nodes().contains_key(id) implies node_ok(r, r.nodes()[id]) by {
        assert(node_ok(l, l.nodes()[id]));
    }
}

/// Pushing more text into the arena of a renderable layout keeps it
/// renderable: every span it holds still reads the same.
pub proof fn lemma_more_text_keeps_renderable(before: Layout, after: Layout, s: Seq<char>)
    requires
        renderable(before),
        after.tree == before.tree,
        after.root == before.root,
        after.strings.chars() == before.strings.chars() + s,
    ensures
        renderable(after),
{
    let h = choose|h: nat| h < usize::MAX && bounded_height(before, before.root, h);
    lemma_height_same_tree(before, after, after.root, h);
    assert forall|id: NodeId| #[trigger] after.nodes().contains_key(id) implies node_ok(after, after.nodes()[id]) by {
        let n = after.nodes()[id];
        assert(node_ok(before, n));
        match n {
            LayoutNode::Element { attrs, changed_groups, .. } => {
                assert forall|i: int| 0 <= i < attrs@.len() implies attr_ok(after, #[trigger] attrs@[i]) by {
                    assert(attr_ok(before, attrs@[i]));
                    match attrs@[i].status {
                        AttrStatus::Unchanged { value } => lemma_value_ok_grows(before, after, s, value),
                        AttrStatus::Changed { old, new } => {
                            lemma_value_ok_grows(before, after, s, old);
                            lemma_value_ok_grows(before, after, s, new);
                        },
                        AttrStatus::Deleted { value } => lemma_value_ok_grows(before, after, s, value),
                        AttrStatus::Inserted { value } => lemma_value_ok_grows(before, after, s, value),
                    }
                }
            },
            LayoutNode::Text { value, .. } => lemma_value_ok_grows(before, after, s, value),
            LayoutNode::ItemGroup { items, .. } => {
                assert forall|i: int| 0 <= i < items@.len() implies value_ok(after, #[trigger] items@[i]) by {
                    lemma_value_ok_grows(before, after, s, items@[i]);
                }
            },
            _ => {},
        }
    }
}

} // verus!
