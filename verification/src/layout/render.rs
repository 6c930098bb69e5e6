//! Layout rendering to output.

use vstd::prelude::*;
use vstd::string::*;

use super::backend::{ColorBackend, PlainBackend, SemanticColor};
use super::attrs::{Attr, AttrStatus, ChangedGroup, ValueType};
use super::flavor::DiffFlavor;
use super::node::{change_prefix, ElementChange, Layout, LayoutNode};
use super::attrs::FormattedValue;
use indextree::NodeId;
use crate::text::{str_eq, usize_to_decimal};
use super::render_spec::{
    any_deleted, any_inserted, attr_lines, attr_ok, available_width, body_attr_lines,
    body_inline_fields, body_with_changes, bounded_height, byte_len, cell_text, cell_written,
    children_text, count_text, element_body, element_close, element_open, element_text,
    field_on_line, fields_on_line, group_cell, group_cells, group_text, groups_model, groups_text,
    gutter_text, in_some_group, indent_text, inline_case, inline_cell, inline_cells, inline_fits,
    inline_line, inline_slots_width, inline_width, items_text, leaf_text,
    lemma_fields_on_line_prefix, lone_attr_line, lone_attr_lines, more_words, node_ok, node_text,
    pad_text, prefix_text, renderable, rendered, repeat, sequence_text, slot_width, spaces,
    spec_change_color, spec_syntax_color, spec_tag_color, spec_value_color,
    spec_value_color_highlight, sty, transparent_tag, unchanged_attrs, unchanged_field,
    unchanged_words, value_text,
};
use crate::symbols::{standard_symbols, DiffSymbols};
use crate::std_calls::string_push;

verus! {

/// Syntax element type for context-aware coloring.
#[derive(Clone, Copy)]
pub enum SyntaxElement {
    /// A key or field name
    Key,
    /// Brackets, braces and tags
    Structure,
    /// Comments and type hints
    Comment,
}

/// Get the appropriate semantic color for a syntax element in a given context.
pub fn syntax_color(base: SyntaxElement, context: ElementChange) -> (r: SemanticColor)
    ensures
        r == spec_syntax_color(base, context),
{
    match (base, context) {
        (SyntaxElement::Key, ElementChange::Deleted) => SemanticColor::DeletedKey,
        (SyntaxElement::Key, ElementChange::Inserted) => SemanticColor::InsertedKey,
        (SyntaxElement::Key, _) => SemanticColor::Key,
        (SyntaxElement::Structure, ElementChange::Deleted) => SemanticColor::DeletedStructure,
        (SyntaxElement::Structure, ElementChange::Inserted) => SemanticColor::InsertedStructure,
        (SyntaxElement::Structure, _) => SemanticColor::Structure,
        (SyntaxElement::Comment, ElementChange::Deleted) => SemanticColor::DeletedComment,
        (SyntaxElement::Comment, ElementChange::Inserted) => SemanticColor::InsertedComment,
        (SyntaxElement::Comment, _) => SemanticColor::Comment,
    }
}

/// Get the appropriate semantic color for a value based on its type and context.
pub fn value_color(value_type: ValueType, context: ElementChange) -> (r: SemanticColor)
    ensures
        r == spec_value_color(value_type, context),
{
    match (value_type, context) {
        (ValueType::String, ElementChange::Deleted) => SemanticColor::DeletedString,
        (ValueType::String, ElementChange::Inserted) => SemanticColor::InsertedString,
        (ValueType::String, _) => SemanticColor::String,
        (ValueType::Number, ElementChange::Deleted) => SemanticColor::DeletedNumber,
        (ValueType::Number, ElementChange::Inserted) => SemanticColor::InsertedNumber,
        (ValueType::Number, _) => SemanticColor::Number,
        (ValueType::Boolean, ElementChange::Deleted) => SemanticColor::DeletedBoolean,
        (ValueType::Boolean, ElementChange::Inserted) => SemanticColor::InsertedBoolean,
        (ValueType::Boolean, _) => SemanticColor::Boolean,
        (ValueType::Null, ElementChange::Deleted) => SemanticColor::DeletedNull,
        (ValueType::Null, ElementChange::Inserted) => SemanticColor::InsertedNull,
        (ValueType::Null, _) => SemanticColor::Null,
        (ValueType::Other, ElementChange::Deleted) => SemanticColor::Deleted,
        (ValueType::Other, ElementChange::Inserted) => SemanticColor::Inserted,
        (ValueType::Other, ElementChange::MovedFrom) | (ValueType::Other, ElementChange::MovedTo) => SemanticColor::Moved,
        (ValueType::Other, ElementChange::Unchanged) => SemanticColor::Unchanged,
    }
}

/// Get semantic color for highlight background (changed values).
pub fn value_color_highlight(value_type: ValueType, context: ElementChange) -> (r: SemanticColor)
    ensures
        r == spec_value_color_highlight(value_type, context),
{
    match (value_type, context) {
        (ValueType::String, ElementChange::Deleted) => SemanticColor::DeletedString,
        (ValueType::String, ElementChange::Inserted) => SemanticColor::InsertedString,
        (ValueType::Number, ElementChange::Deleted) => SemanticColor::DeletedNumber,
        (ValueType::Number, ElementChange::Inserted) => SemanticColor::InsertedNumber,
        (ValueType::Boolean, ElementChange::Deleted) => SemanticColor::DeletedBoolean,
        (ValueType::Boolean, ElementChange::Inserted) => SemanticColor::InsertedBoolean,
        (ValueType::Null, ElementChange::Deleted) => SemanticColor::DeletedNull,
        (ValueType::Null, ElementChange::Inserted) => SemanticColor::InsertedNull,
        (_, ElementChange::Deleted) => SemanticColor::DeletedHighlight,
        (_, ElementChange::Inserted) => SemanticColor::InsertedHighlight,
        (_, ElementChange::MovedFrom) | (_, ElementChange::MovedTo) => SemanticColor::MovedHighlight,
        _ => SemanticColor::Unchanged,
    }
}

/// The accent color of an element's own change.
pub fn element_change_to_semantic(change: ElementChange) -> (r: SemanticColor)
    ensures
        r == spec_change_color(change),
{
    match change {
        ElementChange::Unchanged => SemanticColor::Unchanged,
        ElementChange::Deleted => SemanticColor::Deleted,
        ElementChange::Inserted => SemanticColor::Inserted,
        ElementChange::MovedFrom | ElementChange::MovedTo => SemanticColor::Moved,
    }
}

/// The color of an element's or sequence's brackets and tags.
fn tag_color(change: ElementChange) -> (r: SemanticColor)
    ensures
        r == spec_tag_color(change),
{
    match change {
        ElementChange::Unchanged => SemanticColor::Structure,
        ElementChange::Deleted => SemanticColor::DeletedStructure,
        ElementChange::Inserted => SemanticColor::InsertedStructure,
        ElementChange::MovedFrom | ElementChange::MovedTo => SemanticColor::Moved,
    }
}

/// Options for rendering a layout.
#[derive(Clone, Debug)]
pub struct RenderOptions<B: ColorBackend> {
    /// Symbols to use for diff markers.
    pub symbols: DiffSymbols,
    /// Color backend for styling output.
    pub backend: B,
    /// Indentation string (default: four spaces).
    pub indent: &'static str,
}

/// The default indentation: four spaces.
pub open spec fn default_indent() -> Seq<char> {
    seq![' ', ' ', ' ', ' ']
}

impl RenderOptions<PlainBackend> {
    /// Create options with plain backend (no colors).
    pub fn plain() -> (r: Self)
        ensures
            standard_symbols(r.symbols),
            r.backend == PlainBackend,
            r.indent@ == default_indent(),
    {
        let indent = "    ";
        proof {
            reveal_strlit("    ");
        }
        RenderOptions { symbols: DiffSymbols::standard(), backend: PlainBackend, indent }
    }
}

impl<B: ColorBackend> RenderOptions<B> {
    /// Create options with a custom backend.
    pub fn with_backend(backend: B) -> (r: Self)
        ensures
            standard_symbols(r.symbols),
            r.backend == backend,
            r.indent@ == default_indent(),
    {
        let indent = "    ";
        proof {
            reveal_strlit("    ");
        }
        RenderOptions { symbols: DiffSymbols::standard(), backend, indent }
    }
}

/// Write the indentation of a line at `depth`.
fn write_indent<B: ColorBackend>(w: &mut String, depth: usize, opts: &RenderOptions<B>)
    ensures
        final(w)@ == old(w)@ + indent_text(*opts, depth as nat),
{
    let ghost start = w@;
    let mut i: usize = 0;
    while i < depth
        invariant
            i <= depth,
            w@ == start + repeat(opts.indent@, i as nat),
        decreases depth - i,
    {
        w.append(opts.indent);
        i = i + 1;
        proof {
            assert(repeat(opts.indent@, i as nat) == repeat(opts.indent@, (i - 1) as nat) + opts.indent@);
            assert(w@ =~= start + repeat(opts.indent@, i as nat));
        }
    }
}

/// Write `n` spaces.
fn write_spaces(w: &mut String, n: usize)
    ensures
        final(w)@ == old(w)@ + spaces(n as int),
{
    let ghost start = w@;
    let mut i: usize = 0;
    while i < n
        invariant
            i <= n,
            w@ == start + spaces(i as int),
        decreases n - i,
    {
        string_push(w, ' ');
        i = i + 1;
        proof {
            assert(w@ =~= start + spaces(i as int));
        }
    }
}

/// Write indent minus 2 characters for the prefix gutter.
/// The "- " or "+ " prefix will occupy those 2 characters.
fn write_indent_minus_prefix<B: ColorBackend>(w: &mut String, depth: usize, opts: &RenderOptions<B>)
    ensures
        final(w)@ == old(w)@ + gutter_text(*opts, depth as nat),
{
    // The gutter is `depth * indent.len() - 2` columns; counting column by
    // column keeps the product from overflowing.
    let len = opts.indent.len();
    let ghost start = w@;
    let ghost ilen: int = len as int;
    let mut skip: usize = 2;
    let mut i: usize = 0;
    while i < depth
        invariant
            i <= depth,
            len == ilen,
            ilen == byte_len(opts.indent@),
            skip <= 2,
            skip == (if i * ilen >= 2 { 0 } else { 2 - i * ilen }),
            w@ == start + spaces(i * ilen - 2),
        decreases depth - i,
    {
        let mut j: usize = 0;
        while j < len
            invariant
                i < depth,
                j <= len,
                len == ilen,
                skip <= 2,
                skip == (if i * ilen + j >= 2 { 0 } else { 2 - (i * ilen + j) }),
                w@ == start + spaces(i * ilen + j - 2),
            decreases len - j,
        {
            if skip > 0 {
                skip = skip - 1;
            } else {
                string_push(w, ' ');
            }
            j = j + 1;
            proof {
                assert(w@ =~= start + spaces(i * ilen + j - 2));
            }
        }
        proof {
            assert(i * ilen + ilen == (i + 1) * ilen) by (nonlinear_arith);
        }
        i = i + 1;
    }
    proof {
        assert(gutter_text(*opts, depth as nat) == spaces(depth * ilen - 2));
    }
}

/// Information for inline element diff rendering.
/// When all attributes fit on one line, the full element is rendered on each -/+ line.
struct InlineElementInfo {
    /// Width of each attr slot (padded to max of old/new values)
    slot_widths: Vec<usize>,
}

/// A saturated sum: the value itself when it fits in a `usize`, `usize::MAX` otherwise.
spec fn sat(x: int) -> int {
    if x > usize::MAX { usize::MAX as int } else { x }
}

/// Slots and separators only add width.
proof fn lemma_slots_width_grows<F: DiffFlavor>(flavor: F, attrs: Seq<Attr>, j: int, k: int)
    requires
        0 <= j < k <= attrs.len(),
    ensures
        0 <= slot_width(flavor, attrs[j]) <= inline_slots_width(flavor, attrs, k),
        inline_slots_width(flavor, attrs, j) <= inline_slots_width(flavor, attrs, k),
    decreases k - j,
{
    lemma_slots_width_nonneg(flavor, attrs, k - 1);
    if j < k - 1 {
        lemma_slots_width_grows(flavor, attrs, j, k - 1);
    }
}

/// The width of any prefix of slots is not negative.
proof fn lemma_slots_width_nonneg<F: DiffFlavor>(flavor: F, attrs: Seq<Attr>, k: int)
    ensures
        0 <= inline_slots_width(flavor, attrs, k),
    decreases k,
{
    if k > 0 {
        lemma_slots_width_nonneg(flavor, attrs, k - 1);
    }
}

impl InlineElementInfo {
    /// Calculate inline element info if all attrs fit on one line.
    /// Returns None if the element is not suitable for inline rendering.
    fn calculate<F: DiffFlavor>(
        attrs: &[Attr],
        tag: &str,
        flavor: &F,
        max_line_width: usize,
        indent_width: usize,
    ) -> (r: Option<Self>)
        ensures
            r is Some <==> inline_fits(*flavor, attrs@, tag@, max_line_width as int, indent_width as int),
            r matches Some(info) ==> {
                &&& info.slot_widths@.len() == attrs@.len()
                &&& forall|i: int| 0 <= i < attrs@.len() ==> info.slot_widths@[i] == slot_width(*flavor, #[trigger] attrs@[i])
            },
    {
        if attrs.len() == 0 {
            return None;
        }
        let n = attrs.len();
        let mut slot_widths: Vec<usize> = Vec::new();
        // struct_open (e.g., "<Point" or "Point {")
        let open = flavor.struct_open(tag);
        let mut total: usize = open.as_str().len();
        let sep_len = flavor.field_separator().len();
        let suffix_len = flavor.format_field_suffix().len();
        let ghost f = *flavor;
        let ghost base: int = byte_len(f.spec_struct_open(tag@));
        let mut i: usize = 0;
        while i < n
            invariant
                n == attrs@.len(),
                i <= n,
                f == *flavor,
                base == byte_len(f.spec_struct_open(tag@)),
                sep_len == byte_len(f.spec_field_separator()),
                suffix_len == byte_len(f.spec_format_field_suffix()),
                total == sat(base + inline_slots_width(f, attrs@, i as int)),
                slot_widths@.len() == i,
                forall|j: int| 0 <= j < i ==> slot_widths@[j] == sat(slot_width(f, #[trigger] attrs@[j])),
            decreases n - i,
        {
            // Space or separator before the attribute
            if i > 0 {
                total = total.saturating_add(sep_len);
            } else {
                total = total.saturating_add(1);
            }
            let attr = &attrs[i];
            let prefix = flavor.format_field_prefix(attr.name.as_str());
            let value_width = match &attr.status {
                AttrStatus::Unchanged { value } => value.width,
                AttrStatus::Changed { old, new } => if old.width >= new.width { old.width } else { new.width },
                AttrStatus::Deleted { value } => value.width,
                AttrStatus::Inserted { value } => value.width,
            };
            let slot = prefix.as_str().len().saturating_add(value_width).saturating_add(suffix_len);
            slot_widths.push(slot);
            total = total.saturating_add(slot);
            proof {
                lemma_slots_width_nonneg(f, attrs@, i as int);
            }
            i = i + 1;
        }
        // space and struct_close (e.g., "/>" or "}")
        total = total.saturating_add(1);
        let close = flavor.struct_close(tag, true);
        total = total.saturating_add(close.as_str().len());
        // Check if it fits (account for "- " prefix and indent)
        let available = max_line_width.saturating_sub(indent_width).saturating_sub(2);
        proof {
            lemma_slots_width_nonneg(f, attrs@, n as int);
            assert(available == available_width(max_line_width as int, indent_width as int));
            assert(total == sat(inline_width(f, attrs@, tag@)));
        }
        if total > available {
            return None;
        }
        proof {
            assert forall|i: int| 0 <= i < attrs@.len() implies slot_widths@[i] == slot_width(f, #[trigger] attrs@[i]) by {
                lemma_slots_width_grows(f, attrs@, i, n as int);
            }
        }
        Some(InlineElementInfo { slot_widths })
    }
}

/// Write cell `i` of one side of a changed group, with the separator before it.
fn render_group_cell<B: ColorBackend, F: DiffFlavor>(
    layout: &Layout,
    w: &mut String,
    opts: &RenderOptions<B>,
    flavor: &F,
    attrs: &[Attr],
    group: &ChangedGroup,
    deleted_side: bool,
    i: usize,
)
    requires
        i < group.attr_indices@.len(),
        group.attr_indices@[i as int] < attrs@.len(),
        attr_ok(*layout, attrs@[group.attr_indices@[i as int] as int]),
    ensures
        final(w)@ == old(w)@ + group_cell(*layout, *opts, *flavor, attrs@, group.attr_indices@, deleted_side, i as int),
{
    let ghost before = w@;
    let n = group.attr_indices.len();
    let last_idx = n.saturating_sub(1);
    let side = if deleted_side { ElementChange::Deleted } else { ElementChange::Inserted };
    let key_color = if deleted_side { SemanticColor::DeletedKey } else { SemanticColor::InsertedKey };
    let structure = if deleted_side { SemanticColor::DeletedStructure } else { SemanticColor::InsertedStructure };
    if i > 0 {
        w.append(flavor.field_separator());
    }
    let idx = group.attr_indices[i];
    let attr = &attrs[idx];
    match &attr.status {
        AttrStatus::Changed { old, new } => {
            let v = if deleted_side { old } else { new };
            // Each field padded to max of its own old/new value width
            let field_max_width = if old.width >= new.width { old.width } else { new.width };
            let prefix = flavor.format_field_prefix(attr.name.as_str());
            opts.backend.write_styled(w, prefix.as_str(), key_color);
            // Changed value uses highlight background for contrast
            let text = layout.get_string(v.span);
            let color = value_color_highlight(v.value_type, side);
            opts.backend.write_styled(w, text, color);
            opts.backend.write_styled(w, flavor.format_field_suffix(), structure);
            // Pad to align with the other line's value (only between fields, not at end)
            if i < last_idx {
                write_spaces(w, field_max_width - v.width);
            }
        },
        _ => {},
    }
    proof {
        assert(w@ =~= before + group_cell(*layout, *opts, *flavor, attrs@, group.attr_indices@, deleted_side, i as int));
    }
}

/// Write one side of a changed group's cells: old values on the `←` line
/// (`deleted_side`), new values on the `→` line.
fn render_group_cells<B: ColorBackend, F: DiffFlavor>(
    layout: &Layout,
    w: &mut String,
    opts: &RenderOptions<B>,
    flavor: &F,
    attrs: &[Attr],
    group: &ChangedGroup,
    deleted_side: bool,
)
    requires
        forall|k: int| 0 <= k < group.attr_indices@.len() ==> #[trigger] group.attr_indices@[k] < attrs@.len(),
        forall|k: int| 0 <= k < group.attr_indices@.len() ==> attr_ok(*layout, attrs@[#[trigger] group.attr_indices@[k] as int]),
    ensures
        final(w)@ == old(w)@ + group_cells(*layout, *opts, *flavor, attrs@, group.attr_indices@, deleted_side, group.attr_indices@.len() as int),
{
    let ghost start = w@;
    let n = group.attr_indices.len();
    let mut i: usize = 0;
    while i < n
        invariant
            n == group.attr_indices@.len(),
            i <= n,
            forall|k: int| 0 <= k < group.attr_indices@.len() ==> #[trigger] group.attr_indices@[k] < attrs@.len(),
            forall|k: int| 0 <= k < group.attr_indices@.len() ==> attr_ok(*layout, attrs@[#[trigger] group.attr_indices@[k] as int]),
            w@ == start + group_cells(*layout, *opts, *flavor, attrs@, group.attr_indices@, deleted_side, i as int),
        decreases n - i,
    {
        proof {
            assert(group.attr_indices@[i as int] < attrs@.len());
            assert(attr_ok(*layout, attrs@[group.attr_indices@[i as int] as int]));
        }
        render_group_cell(layout, w, opts, flavor, attrs, group, deleted_side, i);
        proof {
            assert(w@ =~= start + group_cells(*layout, *opts, *flavor, attrs@, group.attr_indices@, deleted_side, i + 1));
        }
        i = i + 1;
    }
}

/// Write a changed group as a `←` line of old values and a `→` line of new values.
fn render_changed_group<B: ColorBackend, F: DiffFlavor>(
    layout: &Layout,
    w: &mut String,
    depth: usize,
    opts: &RenderOptions<B>,
    flavor: &F,
    attrs: &[Attr],
    group: &ChangedGroup,
)
    requires
        forall|k: int| 0 <= k < group.attr_indices@.len() ==> #[trigger] group.attr_indices@[k] < attrs@.len(),
        forall|k: int| 0 <= k < group.attr_indices@.len() ==> attr_ok(*layout, attrs@[#[trigger] group.attr_indices@[k] as int]),
    ensures
        final(w)@ == old(w)@ + group_text(*layout, *opts, *flavor, attrs@, group.attr_indices@, depth as nat),
{
    let ghost start = w@;
    // Before line - use ← for "changed from" (prefix uses indent gutter)
    write_indent_minus_prefix(w, depth, opts);
    opts.backend.write_prefix(w, '\u{2190}', SemanticColor::Deleted);
    string_push(w, ' ');
    render_group_cells(layout, w, opts, flavor, attrs, group, true);
    string_push(w, '\n');
    // After line - use → for "changed to" (prefix uses indent gutter)
    write_indent_minus_prefix(w, depth, opts);
    opts.backend.write_prefix(w, '\u{2192}', SemanticColor::Inserted);
    string_push(w, ' ');
    render_group_cells(layout, w, opts, flavor, attrs, group, false);
    string_push(w, '\n');
    proof {
        assert(w@ =~= start + group_text(*layout, *opts, *flavor, attrs@, group.attr_indices@, depth as nat));
    }
}

/// A single space.
fn one_space() -> (r: &'static str)
    ensures
        r@ == seq![' '],
{
    proof {
        reveal_strlit(" ");
    }
    " "
}

/// The placeholder for an attribute that one side of an inline element lacks.
fn empty_slot() -> (r: &'static str)
    ensures
        r@ == seq!['\u{2205}'],
{
    proof {
        reveal_strlit("\u{2205}");
    }
    "\u{2205}"
}

/// A string of `n` spaces.
fn spaces_string(n: usize) -> (r: String)
    ensures
        r@ == spaces(n as int),
{
    let mut s = String::new();
    write_spaces(&mut s, n);
    proof {
        assert(s@ =~= spaces(n as int));
    }
    s
}

/// Write cell `i` of one side of an inline element, with the separator
/// before it and its padding after it.
fn render_inline_cell<B: ColorBackend, F: DiffFlavor>(
    layout: &Layout,
    w: &mut String,
    opts: &RenderOptions<B>,
    flavor: &F,
    attrs: &[Attr],
    info: &InlineElementInfo,
    deleted_side: bool,
    i: usize,
)
    requires
        i < attrs@.len(),
        info.slot_widths@.len() == attrs@.len(),
        info.slot_widths@[i as int] == slot_width(*flavor, attrs@[i as int]),
        attr_ok(*layout, attrs@[i as int]),
    ensures
        final(w)@ == old(w)@ + inline_cell(*layout, *opts, *flavor, attrs@, deleted_side, i as int),
{
    let ghost before = w@;
    let side = if deleted_side { ElementChange::Deleted } else { ElementChange::Inserted };
    let accent = if deleted_side { SemanticColor::Deleted } else { SemanticColor::Inserted };
    let key_color = if deleted_side { SemanticColor::DeletedKey } else { SemanticColor::InsertedKey };
    let structure = if deleted_side { SemanticColor::DeletedStructure } else { SemanticColor::InsertedStructure };
    let highlight = if deleted_side { SemanticColor::DeletedHighlight } else { SemanticColor::InsertedHighlight };
    let space = one_space();
    let empty_set = empty_slot();
    if i > 0 {
        opts.backend.write_styled(w, flavor.field_separator(), SemanticColor::Whitespace);
    } else {
        opts.backend.write_styled(w, space, accent);
    }
    let ghost after_sep = w@;
    let attr = &attrs[i];
    let prefix = flavor.format_field_prefix(attr.name.as_str());
    let suffix = flavor.format_field_suffix();
    let written: usize = match &attr.status {
        AttrStatus::Unchanged { value } => {
            opts.backend.write_styled(w, prefix.as_str(), key_color);
            let text = layout.get_string(value.span);
            let color = value_color(value.value_type, side);
            opts.backend.write_styled(w, text, color);
            opts.backend.write_styled(w, suffix, structure);
            proof {
                assert(w@ =~= after_sep + cell_text(*layout, *opts, *flavor, attrs@[i as int], deleted_side));
            }
            prefix.as_str().len() + value.width + suffix.len()
        },
        AttrStatus::Changed { old, new } => {
            let v = if deleted_side { old } else { new };
            opts.backend.write_styled(w, prefix.as_str(), key_color);
            let text = layout.get_string(v.span);
            let color = value_color_highlight(v.value_type, side);
            opts.backend.write_styled(w, text, color);
            opts.backend.write_styled(w, suffix, structure);
            proof {
                assert(w@ =~= after_sep + cell_text(*layout, *opts, *flavor, attrs@[i as int], deleted_side));
            }
            prefix.as_str().len() + v.width + suffix.len()
        },
        AttrStatus::Deleted { value } => {
            if deleted_side {
                opts.backend.write_styled(w, prefix.as_str(), highlight);
                let text = layout.get_string(value.span);
                let color = value_color_highlight(value.value_type, side);
                opts.backend.write_styled(w, text, color);
                opts.backend.write_styled(w, suffix, highlight);
                proof {
                    assert(w@ =~= after_sep + cell_text(*layout, *opts, *flavor, attrs@[i as int], deleted_side));
                }
                prefix.as_str().len() + value.width + suffix.len()
            } else {
                // Empty slot on the plus line
                opts.backend.write_styled(w, empty_set, accent);
                proof {
                    assert(empty_set@ == seq!['\u{2205}']);
                    assert(cell_text(*layout, *opts, *flavor, attrs@[i as int], deleted_side) == sty(*opts, seq!['\u{2205}'], accent));
                    assert(w@ =~= after_sep + cell_text(*layout, *opts, *flavor, attrs@[i as int], deleted_side));
                }
                1
            }
        },
        AttrStatus::Inserted { value } => {
            if deleted_side {
                // Empty slot on the minus line
                opts.backend.write_styled(w, empty_set, accent);
                proof {
                    assert(empty_set@ == seq!['\u{2205}']);
                    assert(w@ =~= after_sep + cell_text(*layout, *opts, *flavor, attrs@[i as int], deleted_side));
                }
                1
            } else {
                opts.backend.write_styled(w, prefix.as_str(), highlight);
                let text = layout.get_string(value.span);
                let color = value_color_highlight(value.value_type, side);
                opts.backend.write_styled(w, text, color);
                opts.backend.write_styled(w, suffix, highlight);
                proof {
                    assert(w@ =~= after_sep + cell_text(*layout, *opts, *flavor, attrs@[i as int], deleted_side));
                }
                prefix.as_str().len() + value.width + suffix.len()
            }
        },
    };
    proof {
        assert(w@ =~= after_sep + cell_text(*layout, *opts, *flavor, attrs@[i as int], deleted_side));
    }
    let ghost after_cell = w@;
    // Pad to slot width
    let padding = info.slot_widths[i].saturating_sub(written);
    if padding > 0 {
        let pad = spaces_string(padding);
        opts.backend.write_styled(w, pad.as_str(), SemanticColor::Whitespace);
    }
    proof {
        assert(w@ =~= before + inline_cell(*layout, *opts, *flavor, attrs@, deleted_side, i as int));
    }
}

/// Write the cells of one side of an inline element: old values on the `←`
/// line (`deleted_side`), new values on the `→` line, each padded to its slot.
fn render_inline_cells<B: ColorBackend, F: DiffFlavor>(
    layout: &Layout,
    w: &mut String,
    opts: &RenderOptions<B>,
    flavor: &F,
    attrs: &[Attr],
    info: &InlineElementInfo,
    deleted_side: bool,
)
    requires
        info.slot_widths@.len() == attrs@.len(),
        forall|i: int| 0 <= i < attrs@.len() ==> info.slot_widths@[i] == slot_width(*flavor, #[trigger] attrs@[i]),
        forall|i: int| 0 <= i < attrs@.len() ==> attr_ok(*layout, #[trigger] attrs@[i]),
    ensures
        final(w)@ == old(w)@ + inline_cells(*layout, *opts, *flavor, attrs@, deleted_side, attrs@.len() as int),
{
    let ghost start = w@;
    let n = attrs.len();
    let mut i: usize = 0;
    while i < n
        invariant
            n == attrs@.len(),
            i <= n,
            info.slot_widths@.len() == attrs@.len(),
            forall|i: int| 0 <= i < attrs@.len() ==> info.slot_widths@[i] == slot_width(*flavor, #[trigger] attrs@[i]),
            forall|i: int| 0 <= i < attrs@.len() ==> attr_ok(*layout, #[trigger] attrs@[i]),
            w@ == start + inline_cells(*layout, *opts, *flavor, attrs@, deleted_side, i as int),
        decreases n - i,
    {
        proof {
            assert(attr_ok(*layout, attrs@[i as int]));
            assert(info.slot_widths@[i as int] == slot_width(*flavor, attrs@[i as int]));
        }
        render_inline_cell(layout, w, opts, flavor, attrs, info, deleted_side, i);
        proof {
            assert(w@ =~= start + inline_cells(*layout, *opts, *flavor, attrs@, deleted_side, i + 1));
        }
        i = i + 1;
    }
}

/// Write one side of an inline element: `←` with the old values
/// (`deleted_side`) or `→` with the new, the whole element on one line.
fn render_inline_line<B: ColorBackend, F: DiffFlavor>(
    layout: &Layout,
    w: &mut String,
    depth: usize,
    opts: &RenderOptions<B>,
    flavor: &F,
    tag: &str,
    field_name: &Option<String>,
    attrs: &[Attr],
    info: &InlineElementInfo,
    deleted_side: bool,
)
    requires
        info.slot_widths@.len() == attrs@.len(),
        forall|i: int| 0 <= i < attrs@.len() ==> info.slot_widths@[i] == slot_width(*flavor, #[trigger] attrs@[i]),
        forall|i: int| 0 <= i < attrs@.len() ==> attr_ok(*layout, #[trigger] attrs@[i]),
    ensures
        final(w)@ == old(w)@ + inline_line(*layout, *opts, *flavor, tag@, *field_name, attrs@, depth as nat, deleted_side),
{
    let ghost start = w@;
    let accent = if deleted_side { SemanticColor::Deleted } else { SemanticColor::Inserted };
    let structure = if deleted_side { SemanticColor::DeletedStructure } else { SemanticColor::InsertedStructure };
    let arrow = if deleted_side { '\u{2190}' } else { '\u{2192}' };
    let space = one_space();
    // Line background applies to structural parts, highlight background to changed values
    write_indent_minus_prefix(w, depth, opts);
    opts.backend.write_prefix(w, arrow, accent);
    opts.backend.write_styled(w, space, accent);
    let ghost head = w@;
    // Field name prefix (line bg)
    if let Some(name) = field_name {
        let prefix = flavor.format_child_open(name.as_str());
        if !prefix.as_str().is_empty() {
            opts.backend.write_styled(w, prefix.as_str(), accent);
        }
    }
    let ghost named = w@;
    // Opening tag
    let open = flavor.struct_open(tag);
    opts.backend.write_styled(w, open.as_str(), structure);
    let ghost opened = w@;
    // Attributes
    render_inline_cells(layout, w, opts, flavor, attrs, info, deleted_side);
    let ghost cells = w@;
    // Closing
    let close = flavor.struct_close(tag, true);
    opts.backend.write_styled(w, space, accent);
    opts.backend.write_styled(w, close.as_str(), structure);
    string_push(w, '\n');
    proof {
        let name_part = match field_name {
            Some(n) => {
                let p = flavor.spec_format_child_open(n@);
                if p.len() > 0 { sty(*opts, p, accent) } else { Seq::empty() }
            },
            None => Seq::empty(),
        };
        assert(named =~= head + name_part);
        assert(w@ =~= start + (gutter_text(*opts, depth as nat) + sty(*opts, seq![arrow], accent) + sty(*opts, seq![' '], accent)
            + name_part + sty(*opts, flavor.spec_struct_open(tag@), structure)
            + inline_cells(*layout, *opts, *flavor, attrs@, deleted_side, attrs@.len() as int)
            + sty(*opts, seq![' '], accent) + sty(*opts, flavor.spec_struct_close(tag@, true), structure) + seq!['\n']));
    }
}

/// Render an element with all attrs on one line per `←`/`→` row.
/// This is used when all attrs fit on a single line for a more compact diff.
fn render_inline_element<B: ColorBackend, F: DiffFlavor>(
    layout: &Layout,
    w: &mut String,
    depth: usize,
    opts: &RenderOptions<B>,
    flavor: &F,
    tag: &str,
    field_name: &Option<String>,
    attrs: &[Attr],
    info: &InlineElementInfo,
)
    requires
        info.slot_widths@.len() == attrs@.len(),
        forall|i: int| 0 <= i < attrs@.len() ==> info.slot_widths@[i] == slot_width(*flavor, #[trigger] attrs@[i]),
        forall|i: int| 0 <= i < attrs@.len() ==> attr_ok(*layout, #[trigger] attrs@[i]),
    ensures
        final(w)@ == old(w)@ + inline_line(*layout, *opts, *flavor, tag@, *field_name, attrs@, depth as nat, true)
            + inline_line(*layout, *opts, *flavor, tag@, *field_name, attrs@, depth as nat, false),
{
    let ghost start = w@;
    // Before line (old values); ← for "changed from" (vs - for "deleted entirely")
    render_inline_line(layout, w, depth, opts, flavor, tag, field_name, attrs, info, true);
    // After line (new values); → for "changed to" (vs + for "inserted entirely")
    render_inline_line(layout, w, depth, opts, flavor, tag, field_name, attrs, info, false);
    proof {
        assert(w@ =~= start + inline_line(*layout, *opts, *flavor, tag@, *field_name, attrs@, depth as nat, true)
            + inline_line(*layout, *opts, *flavor, tag@, *field_name, attrs@, depth as nat, false));
    }
}

/// Whether some attribute was deleted.
fn any_attr_deleted(attrs: &[Attr]) -> (r: bool)
    ensures
        r == any_deleted(attrs@),
{
    let mut i: usize = 0;
    while i < attrs.len()
        invariant
            i <= attrs@.len(),
            forall|j: int| 0 <= j < i ==> !(#[trigger] attrs@[j].status is Deleted),
        decreases attrs@.len() - i,
    {
        if matches!(attrs[i].status, AttrStatus::Deleted { .. }) {
            assert(attrs@[i as int].status is Deleted);
            return true;
        }
        i = i + 1;
    }
    false
}

/// Whether some attribute was inserted.
fn any_attr_inserted(attrs: &[Attr]) -> (r: bool)
    ensures
        r == any_inserted(attrs@),
{
    let mut i: usize = 0;
    while i < attrs.len()
        invariant
            i <= attrs@.len(),
            forall|j: int| 0 <= j < i ==> !(#[trigger] attrs@[j].status is Inserted),
        decreases attrs@.len() - i,
    {
        if matches!(attrs[i].status, AttrStatus::Inserted { .. }) {
            assert(attrs@[i as int].status is Inserted);
            return true;
        }
        i = i + 1;
    }
    false
}

/// Whether attribute `i` belongs to one of the changed groups.
fn in_any_group(groups: &[ChangedGroup], i: usize) -> (r: bool)
    ensures
        r == in_some_group(groups_model(groups@), i as int),
{
    let ghost gm = groups_model(groups@);
    let mut g: usize = 0;
    while g < groups.len()
        invariant
            g <= groups@.len(),
            gm == groups_model(groups@),
            forall|g2: int, k: int| 0 <= g2 < g && 0 <= k < gm[g2].indices.len() ==> #[trigger] gm[g2].indices[k] != i,
        decreases groups@.len() - g,
    {
        let indices = &groups[g].attr_indices;
        let mut k: usize = 0;
        while k < indices.len()
            invariant
                g < groups@.len(),
                k <= indices@.len(),
                *indices == groups@[g as int].attr_indices,
                gm == groups_model(groups@),
                gm[g as int].indices == indices@,
                forall|g2: int, k2: int| 0 <= g2 < g && 0 <= k2 < gm[g2].indices.len() ==> #[trigger] gm[g2].indices[k2] != i,
                forall|k2: int| 0 <= k2 < k ==> #[trigger] gm[g as int].indices[k2] != i,
            decreases indices@.len() - k,
        {
            if indices[k] == i {
                assert(gm[g as int].indices[k as int] == i);
                return true;
            }
            k = k + 1;
        }
        g = g + 1;
    }
    false
}

/// Write the line of attribute `i` if it was deleted (`deleted`) or
/// inserted and belongs to no changed group.
fn render_lone_attr_line<B: ColorBackend, F: DiffFlavor>(
    layout: &Layout,
    w: &mut String,
    depth: usize,
    opts: &RenderOptions<B>,
    flavor: &F,
    attrs: &[Attr],
    groups: &[ChangedGroup],
    deleted: bool,
    i: usize,
)
    requires
        i < attrs@.len(),
        attr_ok(*layout, attrs@[i as int]),
    ensures
        final(w)@ == old(w)@ + lone_attr_line(*layout, *opts, *flavor, attrs@, groups_model(groups@), depth as nat, deleted, i as int),
{
    let ghost before = w@;
    // Skip if already in a changed group
    if in_any_group(groups, i) {
        return;
    }
    let attr = &attrs[i];
    match &attr.status {
        AttrStatus::Deleted { value } => {
            if deleted {
                write_indent_minus_prefix(w, depth, opts);
                opts.backend.write_prefix(w, '-', SemanticColor::Deleted);
                string_push(w, ' ');
                let text = layout.get_string(value.span);
                // Entire field uses highlight background for deleted (better contrast)
                let formatted = flavor.format_field(attr.name.as_str(), text);
                opts.backend.write_styled(w, formatted.as_str(), SemanticColor::DeletedHighlight);
                // Trailing comma (no highlight background)
                opts.backend.write_styled(w, flavor.trailing_separator(), SemanticColor::Whitespace);
                string_push(w, '\n');
            }
        },
        AttrStatus::Inserted { value } => {
            if !deleted {
                write_indent_minus_prefix(w, depth, opts);
                opts.backend.write_prefix(w, '+', SemanticColor::Inserted);
                string_push(w, ' ');
                let text = layout.get_string(value.span);
                // Entire field uses highlight background for inserted (better contrast)
                let formatted = flavor.format_field(attr.name.as_str(), text);
                opts.backend.write_styled(w, formatted.as_str(), SemanticColor::InsertedHighlight);
                // Trailing comma (no highlight background)
                opts.backend.write_styled(w, flavor.trailing_separator(), SemanticColor::Whitespace);
                string_push(w, '\n');
            }
        },
        _ => {},
    }
    proof {
        assert(w@ =~= before + lone_attr_line(*layout, *opts, *flavor, attrs@, groups_model(groups@), depth as nat, deleted, i as int));
    }
}

/// Write the lines of the attributes that were deleted (`deleted`) or
/// inserted outside the changed groups.
fn render_lone_attr_lines<B: ColorBackend, F: DiffFlavor>(
    layout: &Layout,
    w: &mut String,
    depth: usize,
    opts: &RenderOptions<B>,
    flavor: &F,
    attrs: &[Attr],
    groups: &[ChangedGroup],
    deleted: bool,
)
    requires
        forall|i: int| 0 <= i < attrs@.len() ==> attr_ok(*layout, #[trigger] attrs@[i]),
    ensures
        final(w)@ == old(w)@ + lone_attr_lines(*layout, *opts, *flavor, attrs@, groups_model(groups@), depth as nat, deleted, attrs@.len() as int),
{
    let ghost start = w@;
    let mut i: usize = 0;
    while i < attrs.len()
        invariant
            i <= attrs@.len(),
            forall|i: int| 0 <= i < attrs@.len() ==> attr_ok(*layout, #[trigger] attrs@[i]),
            w@ == start + lone_attr_lines(*layout, *opts, *flavor, attrs@, groups_model(groups@), depth as nat, deleted, i as int),
        decreases attrs@.len() - i,
    {
        proof {
            assert(attr_ok(*layout, attrs@[i as int]));
        }
        render_lone_attr_line(layout, w, depth, opts, flavor, attrs, groups, deleted, i);
        proof {
            assert(w@ =~= start + lone_attr_lines(*layout, *opts, *flavor, attrs@, groups_model(groups@), depth as nat, deleted, i + 1));
        }
        i = i + 1;
    }
}

/// Write the changed groups as `←`/`→` line pairs.
fn render_groups<B: ColorBackend, F: DiffFlavor>(
    layout: &Layout,
    w: &mut String,
    depth: usize,
    opts: &RenderOptions<B>,
    flavor: &F,
    attrs: &[Attr],
    groups: &[ChangedGroup],
)
    requires
        forall|i: int| 0 <= i < attrs@.len() ==> attr_ok(*layout, #[trigger] attrs@[i]),
        forall|g: int, k: int| 0 <= g < groups@.len() && 0 <= k < groups@[g].attr_indices@.len()
            ==> #[trigger] groups@[g].attr_indices@[k] < attrs@.len(),
    ensures
        final(w)@ == old(w)@ + groups_text(*layout, *opts, *flavor, attrs@, groups_model(groups@), depth as nat, groups@.len() as int),
{
    let ghost start = w@;
    let mut g: usize = 0;
    while g < groups.len()
        invariant
            g <= groups@.len(),
            forall|i: int| 0 <= i < attrs@.len() ==> attr_ok(*layout, #[trigger] attrs@[i]),
            forall|g: int, k: int| 0 <= g < groups@.len() && 0 <= k < groups@[g].attr_indices@.len()
                ==> #[trigger] groups@[g].attr_indices@[k] < attrs@.len(),
            w@ == start + groups_text(*layout, *opts, *flavor, attrs@, groups_model(groups@), depth as nat, g as int),
        decreases groups@.len() - g,
    {
        let group = &groups[g];
        proof {
            assert forall|k: int| 0 <= k < group.attr_indices@.len() implies #[trigger] group.attr_indices@[k] < attrs@.len() by {
                assert(groups@[g as int].attr_indices@[k] < attrs@.len());
            }
            assert forall|k: int| 0 <= k < group.attr_indices@.len() implies attr_ok(*layout, attrs@[#[trigger] group.attr_indices@[k] as int]) by {
                assert(groups@[g as int].attr_indices@[k] < attrs@.len());
            }
        }
        render_changed_group(layout, w, depth, opts, flavor, attrs, group);
        proof {
            assert(groups_model(groups@)[g as int].indices == group.attr_indices@);
            assert(w@ =~= start + groups_text(*layout, *opts, *flavor, attrs@, groups_model(groups@), depth as nat, g + 1));
        }
        g = g + 1;
    }
}

/// Write an attribute as a field if it is unchanged; nothing otherwise.
fn render_unchanged_field<B: ColorBackend, F: DiffFlavor>(
    layout: &Layout,
    w: &mut String,
    opts: &RenderOptions<B>,
    flavor: &F,
    attr: &Attr,
)
    requires
        attr_ok(*layout, *attr),
    ensures
        final(w)@ == old(w)@ + unchanged_field(*layout, *opts, *flavor, *attr),
{
    if let AttrStatus::Unchanged { value } = &attr.status {
        let text = layout.get_string(value.span);
        let formatted = flavor.format_field(attr.name.as_str(), text);
        opts.backend.write_styled(w, formatted.as_str(), SemanticColor::Unchanged);
    }
}

/// Write the attributes on one line, `first_sep` before the first and the
/// flavor's field separator between them; only unchanged ones show a field.
fn render_fields_on_line<B: ColorBackend, F: DiffFlavor>(
    layout: &Layout,
    w: &mut String,
    opts: &RenderOptions<B>,
    flavor: &F,
    attrs: &[Attr],
    first_sep: &str,
)
    requires
        forall|i: int| 0 <= i < attrs@.len() ==> attr_ok(*layout, #[trigger] attrs@[i]),
    ensures
        final(w)@ == old(w)@ + fields_on_line(*layout, *opts, *flavor, attrs@, first_sep@, attrs@.len() as int),
{
    let ghost start = w@;
    let mut i: usize = 0;
    while i < attrs.len()
        invariant
            i <= attrs@.len(),
            forall|i: int| 0 <= i < attrs@.len() ==> attr_ok(*layout, #[trigger] attrs@[i]),
            w@ == start + fields_on_line(*layout, *opts, *flavor, attrs@, first_sep@, i as int),
        decreases attrs@.len() - i,
    {
        let ghost before = w@;
        if i > 0 {
            w.append(flavor.field_separator());
        } else {
            w.append(first_sep);
        }
        proof {
            assert(attr_ok(*layout, attrs@[i as int]));
        }
        render_unchanged_field(layout, w, opts, flavor, &attrs[i]);
        proof {
            assert(w@ =~= before + field_on_line(*layout, *opts, *flavor, attrs@, first_sep@, i as int));
            assert(w@ =~= start + fields_on_line(*layout, *opts, *flavor, attrs@, first_sep@, i + 1));
        }
        i = i + 1;
    }
}

/// The unchanged attributes of a prefix grow by one when the next attribute is unchanged.
proof fn lemma_unchanged_step(attrs: Seq<Attr>, i: int)
    requires
        0 <= i < attrs.len(),
    ensures
        unchanged_attrs(attrs.take(i + 1)) == (if attrs[i].status is Unchanged {
            unchanged_attrs(attrs.take(i)).push(attrs[i])
        } else {
            unchanged_attrs(attrs.take(i))
        }),
{
    reveal(Seq::filter);
    assert(attrs.take(i + 1).drop_last() =~= attrs.take(i));
    assert(attrs.take(i + 1).last() == attrs[i]);
}

/// Write the unchanged attributes on one line of their own at `depth`
/// (nothing when there are none).
fn render_unchanged_line<B: ColorBackend, F: DiffFlavor>(
    layout: &Layout,
    w: &mut String,
    depth: usize,
    opts: &RenderOptions<B>,
    flavor: &F,
    attrs: &[Attr],
)
    requires
        forall|i: int| 0 <= i < attrs@.len() ==> attr_ok(*layout, #[trigger] attrs@[i]),
    ensures
        final(w)@ == old(w)@ + ({
            let unchanged = unchanged_attrs(attrs@);
            if unchanged.len() > 0 {
                indent_text(*opts, depth as nat) + fields_on_line(*layout, *opts, *flavor, unchanged, Seq::empty(), unchanged.len() as int)
                    + sty(*opts, flavor.spec_trailing_separator(), SemanticColor::Whitespace) + seq!['\n']
            } else {
                Seq::empty()
            }
        }),
{
    let ghost start = w@;
    let ghost all = attrs@;
    // Is there any unchanged attribute?
    let mut any = false;
    let mut j: usize = 0;
    while j < attrs.len()
        invariant
            j <= attrs@.len(),
            any == (unchanged_attrs(attrs@.take(j as int)).len() > 0),
        decreases attrs@.len() - j,
    {
        proof {
            lemma_unchanged_step(attrs@, j as int);
        }
        if matches!(attrs[j].status, AttrStatus::Unchanged { .. }) {
            any = true;
        }
        j = j + 1;
    }
    proof {
        assert(attrs@.take(attrs@.len() as int) =~= attrs@);
    }
    if !any {
        return;
    }
    write_indent(w, depth, opts);
    let ghost line_start = w@;
    let mut first = true;
    let mut i: usize = 0;
    proof {
        assert(attrs@.take(0) =~= Seq::<Attr>::empty());
        reveal(Seq::filter);
    }
    while i < attrs.len()
        invariant
            i <= attrs@.len(),
            forall|i: int| 0 <= i < attrs@.len() ==> attr_ok(*layout, #[trigger] attrs@[i]),
            first == (unchanged_attrs(attrs@.take(i as int)).len() == 0),
            w@ == line_start + fields_on_line(*layout, *opts, *flavor, unchanged_attrs(attrs@.take(i as int)), Seq::empty(),
                unchanged_attrs(attrs@.take(i as int)).len() as int),
        decreases attrs@.len() - i,
    {
        let ghost u = unchanged_attrs(attrs@.take(i as int));
        let ghost before = w@;
        proof {
            lemma_unchanged_step(attrs@, i as int);
            assert(attr_ok(*layout, attrs@[i as int]));
        }
        if let AttrStatus::Unchanged { value } = &attrs[i].status {
            if !first {
                w.append(flavor.field_separator());
            }
            render_unchanged_field(layout, w, opts, flavor, &attrs[i]);
            first = false;
            proof {
                let u2 = u.push(attrs@[i as int]);
                lemma_fields_on_line_prefix(*layout, *opts, *flavor, u, u2, Seq::empty(), u.len() as int);
                assert(w@ =~= before + field_on_line(*layout, *opts, *flavor, u2, Seq::empty(), u.len() as int));
            }
        }
        i = i + 1;
    }
    proof {
        assert(attrs@.take(attrs@.len() as int) =~= attrs@);
    }
    opts.backend.write_styled(w, flavor.trailing_separator(), SemanticColor::Whitespace);
    string_push(w, '\n');
    proof {
        let unchanged = unchanged_attrs(attrs@);
        assert(w@ =~= start + (indent_text(*opts, depth as nat) + fields_on_line(*layout, *opts, *flavor, unchanged, Seq::empty(), unchanged.len() as int)
            + sty(*opts, flavor.spec_trailing_separator(), SemanticColor::Whitespace) + seq!['\n']));
    }
}

/// Write each attribute on a line of its own (an unchanged element with children).
fn render_attr_lines<B: ColorBackend, F: DiffFlavor>(
    layout: &Layout,
    w: &mut String,
    depth: usize,
    opts: &RenderOptions<B>,
    flavor: &F,
    attrs: &[Attr],
)
    requires
        forall|i: int| 0 <= i < attrs@.len() ==> attr_ok(*layout, #[trigger] attrs@[i]),
    ensures
        final(w)@ == old(w)@ + attr_lines(*layout, *opts, *flavor, attrs@, depth as nat, attrs@.len() as int),
{
    let ghost start = w@;
    let mut i: usize = 0;
    while i < attrs.len()
        invariant
            i <= attrs@.len(),
            forall|i: int| 0 <= i < attrs@.len() ==> attr_ok(*layout, #[trigger] attrs@[i]),
            w@ == start + attr_lines(*layout, *opts, *flavor, attrs@, depth as nat, i as int),
        decreases attrs@.len() - i,
    {
        let ghost before = w@;
        write_indent(w, depth, opts);
        proof {
            assert(attr_ok(*layout, attrs@[i as int]));
        }
        render_unchanged_field(layout, w, opts, flavor, &attrs[i]);
        // Trailing comma (no background)
        opts.backend.write_styled(w, flavor.trailing_separator(), SemanticColor::Whitespace);
        string_push(w, '\n');
        proof {
            assert(w@ =~= start + attr_lines(*layout, *opts, *flavor, attrs@, depth as nat, i + 1));
        }
        i = i + 1;
    }
}

/// Write the indentation and change prefix that open a line.
fn write_line_start<B: ColorBackend>(w: &mut String, depth: usize, opts: &RenderOptions<B>, change: ElementChange)
    ensures
        final(w)@ == old(w)@ + indent_text(*opts, depth as nat) + prefix_text(*opts, change),
{
    let ghost start = w@;
    write_indent(w, depth, opts);
    if let Some(prefix) = change.prefix() {
        opts.backend.write_prefix(w, prefix, element_change_to_semantic(change));
        string_push(w, ' ');
    }
    proof {
        assert(w@ =~= start + indent_text(*opts, depth as nat) + prefix_text(*opts, change));
    }
}

/// Write the opening of an element: indentation, prefix, field name, the
/// flavor's opening and its type comment.
fn render_element_open<B: ColorBackend, F: DiffFlavor>(
    w: &mut String,
    depth: usize,
    opts: &RenderOptions<B>,
    flavor: &F,
    tag: &str,
    field_name: &Option<String>,
    change: ElementChange,
)
    ensures
        final(w)@ == old(w)@ + element_open(*opts, *flavor, tag@, *field_name, change, depth as nat),
{
    let ghost start = w@;
    write_line_start(w, depth, opts, change);
    // Field name prefix if this element is a struct field (e.g., "point: " for Rust)
    if let Some(name) = field_name {
        let prefix = flavor.format_child_open(name.as_str());
        if !prefix.as_str().is_empty() {
            opts.backend.write_styled(w, prefix.as_str(), SemanticColor::Unchanged);
        }
    }
    let open = flavor.struct_open(tag);
    opts.backend.write_styled(w, open.as_str(), tag_color(change));
    // Type comment in muted color if present (context-aware)
    if let Some(comment) = flavor.type_comment(tag) {
        string_push(w, ' ');
        opts.backend.write_styled(w, comment.as_str(), syntax_color(SyntaxElement::Comment, change));
    }
    proof {
        assert(w@ =~= start + element_open(*opts, *flavor, tag@, *field_name, change, depth as nat));
    }
}

/// Write what follows an element's opening, up to its children.
/// Write the line that ends an element's opening (or the element itself
/// when it has no children).
fn write_opening_end<B: ColorBackend, F: DiffFlavor>(
    w: &mut String,
    depth: usize,
    opts: &RenderOptions<B>,
    flavor: &F,
    tag: &str,
    change: ElementChange,
    has_children: bool,
)
    ensures
        final(w)@ == old(w)@ + indent_text(*opts, depth as nat) + sty(
            *opts,
            if has_children { flavor.spec_struct_open_close() } else { flavor.spec_struct_close(tag@, true) },
            spec_tag_color(change),
        ) + seq!['\n'],
{
    let ghost start = w@;
    write_indent(w, depth, opts);
    if has_children {
        opts.backend.write_styled(w, flavor.struct_open_close(), tag_color(change));
    } else {
        let close = flavor.struct_close(tag, true);
        opts.backend.write_styled(w, close.as_str(), tag_color(change));
    }
    string_push(w, '\n');
    proof {
        assert(w@ =~= start + indent_text(*opts, depth as nat) + sty(
            *opts,
            if has_children { flavor.spec_struct_open_close() } else { flavor.spec_struct_close(tag@, true) },
            spec_tag_color(change),
        ) + seq!['\n']);
    }
}

/// Write the attribute lines of an element with attribute changes.
#[verifier::rlimit(50)]
fn render_body_with_changes<B: ColorBackend, F: DiffFlavor>(
    layout: &Layout,
    w: &mut String,
    depth: usize,
    opts: &RenderOptions<B>,
    flavor: &F,
    tag: &str,
    attrs: &[Attr],
    groups: &[ChangedGroup],
    change: ElementChange,
    has_children: bool,
)
    requires
        depth < usize::MAX,
        forall|i: int| 0 <= i < attrs@.len() ==> attr_ok(*layout, #[trigger] attrs@[i]),
        forall|g: int, k: int| 0 <= g < groups@.len() && 0 <= k < groups@[g].attr_indices@.len()
            ==> #[trigger] groups@[g].attr_indices@[k] < attrs@.len(),
    ensures
        final(w)@ == old(w)@ + body_with_changes(*layout, *opts, *flavor, tag@, attrs@, groups_model(groups@), change, depth as nat, has_children),
{
    let ghost start = w@;
    let ghost gm = groups_model(groups@);
    let ghost l = *layout;
    let ghost o = *opts;
    let ghost f = *flavor;
    let ghost d1 = (depth + 1) as nat;
    let tc = tag_color(change);
    // Multi-line attribute format
    string_push(w, '\n');
    let ghost p1 = seq!['\n'];
    // Changed groups as ←/→ line pairs
    render_groups(layout, w, depth + 1, opts, flavor, attrs, groups);
    let ghost p2 = p1 + groups_text(l, o, f, attrs@, gm, d1, gm.len() as int);
    proof { assert(w@ =~= start + p2); }
    // Deleted, then inserted attributes (prefix uses indent gutter)
    render_lone_attr_lines(layout, w, depth + 1, opts, flavor, attrs, groups, true);
    let ghost p3 = p2 + lone_attr_lines(l, o, f, attrs@, gm, d1, true, attrs@.len() as int);
    proof { assert(w@ =~= start + p3); }
    render_lone_attr_lines(layout, w, depth + 1, opts, flavor, attrs, groups, false);
    let ghost p4 = p3 + lone_attr_lines(l, o, f, attrs@, gm, d1, false, attrs@.len() as int);
    proof { assert(w@ =~= start + p4); }
    // Unchanged attributes on one line
    let ghost before_unchanged = w@;
    render_unchanged_line(layout, w, depth + 1, opts, flavor, attrs);
    let ghost p5 = w@.subrange(before_unchanged.len() as int, w@.len() as int);
    proof { assert(w@ =~= start + (p4 + p5)); }
    // Closing bracket
    let ghost before_end = w@;
    write_opening_end(w, depth, opts, flavor, tag, change, has_children);
    proof {
        let end_text = if has_children { f.spec_struct_open_close() } else { f.spec_struct_close(tag@, true) };
        assert(w@ =~= start + (p4 + p5 + indent_text(o, depth as nat) + sty(o, end_text, spec_tag_color(change)) + seq!['\n']));
    }
}

/// Write the attributes of an unchanged element with children, each on a line of its own.
fn render_body_attr_lines<B: ColorBackend, F: DiffFlavor>(
    layout: &Layout,
    w: &mut String,
    depth: usize,
    opts: &RenderOptions<B>,
    flavor: &F,
    attrs: &[Attr],
    change: ElementChange,
)
    requires
        depth < usize::MAX,
        forall|i: int| 0 <= i < attrs@.len() ==> attr_ok(*layout, #[trigger] attrs@[i]),
    ensures
        final(w)@ == old(w)@ + body_attr_lines(*layout, *opts, *flavor, attrs@, change, depth as nat),
{
    let ghost start = w@;
    string_push(w, '\n');
    render_attr_lines(layout, w, depth + 1, opts, flavor, attrs);
    // Close the opening (e.g., ">" for XML) - only if non-empty
    let open_close = flavor.struct_open_close();
    if !open_close.is_empty() {
        write_indent(w, depth, opts);
        opts.backend.write_styled(w, open_close, tag_color(change));
        string_push(w, '\n');
    }
    proof {
        assert(w@ =~= start + body_attr_lines(*layout, *opts, *flavor, attrs@, change, depth as nat));
    }
}

/// Write the attributes on the opening line, then the end of the opening.
fn render_body_inline_fields<B: ColorBackend, F: DiffFlavor>(
    layout: &Layout,
    w: &mut String,
    opts: &RenderOptions<B>,
    flavor: &F,
    tag: &str,
    attrs: &[Attr],
    change: ElementChange,
    has_children: bool,
)
    requires
        forall|i: int| 0 <= i < attrs@.len() ==> attr_ok(*layout, #[trigger] attrs@[i]),
    ensures
        final(w)@ == old(w)@ + body_inline_fields(*layout, *opts, *flavor, tag@, attrs@, change, has_children),
{
    let ghost start = w@;
    render_fields_on_line(layout, w, opts, flavor, attrs, one_space());
    if has_children {
        // Close the opening tag (e.g., ">" for XML)
        opts.backend.write_styled(w, flavor.struct_open_close(), tag_color(change));
    } else {
        // Self-closing
        let close = flavor.struct_close(tag, true);
        opts.backend.write_styled(w, close.as_str(), tag_color(change));
    }
    string_push(w, '\n');
    proof {
        assert(w@ =~= start + body_inline_fields(*layout, *opts, *flavor, tag@, attrs@, change, has_children));
    }
}

/// Write what follows an element's opening, up to its children.
fn render_element_body<B: ColorBackend, F: DiffFlavor>(
    layout: &Layout,
    w: &mut String,
    depth: usize,
    opts: &RenderOptions<B>,
    flavor: &F,
    tag: &str,
    attrs: &[Attr],
    groups: &[ChangedGroup],
    change: ElementChange,
    has_children: bool,
)
    requires
        depth < usize::MAX,
        forall|i: int| 0 <= i < attrs@.len() ==> attr_ok(*layout, #[trigger] attrs@[i]),
        forall|g: int, k: int| 0 <= g < groups@.len() && 0 <= k < groups@[g].attr_indices@.len()
            ==> #[trigger] groups@[g].attr_indices@[k] < attrs@.len(),
    ensures
        final(w)@ == old(w)@ + element_body(*layout, *opts, *flavor, tag@, attrs@, groups_model(groups@), change, depth as nat, has_children),
{
    let has_attr_changes = groups.len() > 0 || any_attr_deleted(attrs) || any_attr_inserted(attrs);
    if has_attr_changes {
        render_body_with_changes(layout, w, depth, opts, flavor, tag, attrs, groups, change, has_children);
    } else if has_children && attrs.len() > 0 {
        // Unchanged attributes with children: put attrs on their own lines
        render_body_attr_lines(layout, w, depth, opts, flavor, attrs, change);
    } else {
        // Inline attributes (no changes, no children) or no attrs
        render_body_inline_fields(layout, w, opts, flavor, tag, attrs, change, has_children);
    }
}

/// The facts about a layout that rendering any of its nodes relies on.
pub open spec fn layout_readable(l: Layout) -> bool {
    &&& l.well_formed()
    &&& forall|id: NodeId| #[trigger] l.nodes().contains_key(id) ==> node_ok(l, l.nodes()[id])
}

/// Write the nodes `kids` one after another at `depth`.
fn render_children<B: ColorBackend, F: DiffFlavor>(
    layout: &Layout,
    w: &mut String,
    kids: &Vec<NodeId>,
    depth: usize,
    opts: &RenderOptions<B>,
    flavor: &F,
    Ghost(fuel): Ghost<nat>,
)
    requires
        layout_readable(*layout),
        depth + fuel <= usize::MAX,
        forall|k: int| 0 <= k < kids@.len() ==> bounded_height(*layout, #[trigger] kids@[k], fuel),
    ensures
        final(w)@ == old(w)@ + children_text(*layout, *opts, *flavor, kids@, depth as nat, fuel),
    decreases fuel, 2nat,
{
    let ghost start = w@;
    let mut i: usize = 0;
    while i < kids.len()
        invariant
            i <= kids@.len(),
            layout_readable(*layout),
            depth + fuel <= usize::MAX,
            forall|k: int| 0 <= k < kids@.len() ==> bounded_height(*layout, #[trigger] kids@[k], fuel),
            w@ == start + children_text(*layout, *opts, *flavor, kids@.take(i as int), depth as nat, fuel),
        decreases kids@.len() - i,
    {
        proof {
            assert(bounded_height(*layout, kids@[i as int], fuel));
        }
        render_node(layout, w, kids[i], depth, opts, flavor, Ghost(fuel));
        proof {
            let t = kids@.take(i + 1);
            assert(t.drop_last() =~= kids@.take(i as int));
            assert(t.last() == kids@[i as int]);
            assert(w@ =~= start + children_text(*layout, *opts, *flavor, t, depth as nat, fuel));
        }
        i = i + 1;
    }
    proof {
        assert(kids@.take(kids@.len() as int) =~= kids@);
    }
}

/// Render an element node.
/// The inline layout of an element, when its changes show as one `←` line
/// and one `→` line.
fn inline_info<B: ColorBackend, F: DiffFlavor>(
    depth: usize,
    opts: &RenderOptions<B>,
    flavor: &F,
    tag: &str,
    attrs: &[Attr],
    groups: &[ChangedGroup],
    has_children: bool,
) -> (r: Option<InlineElementInfo>)
    ensures
        r is Some <==> inline_case(*opts, *flavor, tag@, attrs@, groups_model(groups@), depth as nat, has_children),
        r matches Some(info) ==> {
            &&& info.slot_widths@.len() == attrs@.len()
            &&& forall|i: int| 0 <= i < attrs@.len() ==> info.slot_widths@[i] == slot_width(*flavor, #[trigger] attrs@[i])
        },
{
    // Which kinds of attribute changes there are
    let has_changed_attrs = groups.len() > 0;
    let has_deleted_attrs = any_attr_deleted(attrs);
    let has_inserted_attrs = any_attr_inserted(attrs);
    // Pure insertion or deletion renders as a single +/- line, not ←/→ pairs
    let is_pure_insertion = has_inserted_attrs && !has_changed_attrs && !has_deleted_attrs;
    let is_pure_deletion = has_deleted_attrs && !has_changed_attrs && !has_inserted_attrs;
    let has_attr_changes = has_changed_attrs || has_deleted_attrs || has_inserted_attrs;
    // An inline element diff needs changes, no children, all attrs on one line,
    // and not a pure insertion or deletion
    if has_attr_changes && !has_children && !is_pure_insertion && !is_pure_deletion {
        let indent_width = match depth.checked_mul(opts.indent.len()) {
            Some(v) => v,
            None => usize::MAX,
        };
        let info = InlineElementInfo::calculate(attrs, tag, flavor, 80, indent_width);
        proof {
            lemma_slots_width_nonneg(*flavor, attrs@, attrs@.len() as int);
            assert(inline_fits(*flavor, attrs@, tag@, 80, indent_width as int)
                == inline_fits(*flavor, attrs@, tag@, 80, depth * byte_len(opts.indent@)));
        }
        info
    } else {
        None
    }
}

/// Render an element node.
#[verifier::rlimit(50)]
fn render_element<B: ColorBackend, F: DiffFlavor>(
    layout: &Layout,
    w: &mut String,
    node_id: NodeId,
    node: &LayoutNode,
    depth: usize,
    opts: &RenderOptions<B>,
    flavor: &F,
    Ghost(fuel): Ghost<nat>,
)
    requires
        layout_readable(*layout),
        layout.nodes().contains_key(node_id),
        layout.nodes()[node_id] == *node,
        node is Element,
        bounded_height(*layout, node_id, fuel),
        depth + fuel <= usize::MAX,
    ensures
        final(w)@ == old(w)@ + node_text(*layout, *opts, *flavor, node_id, depth as nat, fuel),
    decreases fuel, 0nat,
{
    let ghost start = w@;
    if let LayoutNode::Element { tag, field_name, attrs, changed_groups, change } = node {
        let kids = layout.children(node_id);
        proof {
            assert(node_ok(*layout, *node));
            assert forall|k: int| 0 <= k < kids@.len() implies bounded_height(*layout, #[trigger] kids@[k], (fuel - 1) as nat) by {
                assert(bounded_height(*layout, layout.children_of()[node_id][k], (fuel - 1) as nat));
            }
        }
        let has_children = kids.len() > 0;
        let attrs = attrs.as_slice();
        let groups = changed_groups.as_slice();
        let ghost gm = groups_model(groups@);
        let ghost child_depth = if tag@ == transparent_tag() { depth as nat } else { (depth + 1) as nat };
        let ghost children = children_text(*layout, *opts, *flavor, kids@, child_depth, (fuel - 1) as nat);
        proof {
            assert(node_text(*layout, *opts, *flavor, node_id, depth as nat, fuel) == element_text(
                *layout, *opts, *flavor, tag@, *field_name, attrs@, gm, *change, depth as nat, has_children, children));
        }
        // Transparent elements render their children only, without a wrapper
        let transparent = "_transparent";
        proof {
            reveal_strlit("_transparent");
            assert(transparent@ == transparent_tag());
        }
        if str_eq(tag.as_str(), transparent) {
            render_children(layout, w, &kids, depth, opts, flavor, Ghost((fuel - 1) as nat));
            return;
        }
        if let Some(info) = inline_info(depth, opts, flavor, tag.as_str(), attrs, groups, has_children) {
            render_inline_element(layout, w, depth, opts, flavor, tag.as_str(), field_name, attrs, &info);
            return;
        }
        render_element_open(w, depth, opts, flavor, tag.as_str(), field_name, *change);
        let ghost opened = w@;
        render_element_body(layout, w, depth, opts, flavor, tag.as_str(), attrs, groups, *change, has_children);
        let ghost bodied = w@;
        // Children
        render_children(layout, w, &kids, depth + 1, opts, flavor, Ghost((fuel - 1) as nat));
        let ghost listed = w@;
        // Closing tag (if we have children, we already printed opening part above)
        if has_children {
            write_line_start(w, depth, opts, *change);
            let close = flavor.struct_close(tag.as_str(), false);
            opts.backend.write_styled(w, close.as_str(), tag_color(*change));
            string_push(w, '\n');
        }
        proof {
            assert(w@ =~= listed + element_close(*opts, *flavor, tag@, *change, depth as nat, has_children));
            assert(w@ =~= start + element_text(
                *layout, *opts, *flavor, tag@, *field_name, attrs@, gm, *change, depth as nat, has_children, children));
        }
    }
}

/// Render a node with everything below it.
fn render_node<B: ColorBackend, F: DiffFlavor>(
    layout: &Layout,
    w: &mut String,
    node_id: NodeId,
    depth: usize,
    opts: &RenderOptions<B>,
    flavor: &F,
    Ghost(fuel): Ghost<nat>,
)
    requires
        layout_readable(*layout),
        bounded_height(*layout, node_id, fuel),
        depth + fuel <= usize::MAX,
    ensures
        final(w)@ == old(w)@ + node_text(*layout, *opts, *flavor, node_id, depth as nat, fuel),
    decreases fuel, 1nat,
{
    match layout.get(node_id) {
        None => {},
        Some(node) => {
            match node {
                LayoutNode::Element { .. } => render_element(layout, w, node_id, node, depth, opts, flavor, Ghost(fuel)),
                LayoutNode::Sequence { .. } => render_sequence(layout, w, node_id, node, depth, opts, flavor, Ghost(fuel)),
                _ => {
                    proof {
                        assert(node_ok(*layout, *node));
                    }
                    render_leaf(layout, w, node, depth, opts, flavor);
                },
            }
        },
    }
}

/// Write the line of an empty sequence (nothing for an unchanged one
/// without a field name) or the opening or closing line of a sequence.
fn render_sequence_line<B: ColorBackend, F: DiffFlavor>(
    w: &mut String,
    depth: usize,
    opts: &RenderOptions<B>,
    flavor: &F,
    change: ElementChange,
    field_name: &Option<String>,
    write_open: bool,
    write_close: bool,
)
    ensures
        final(w)@ == old(w)@ + indent_text(*opts, depth as nat) + prefix_text(*opts, change)
            + (if write_open {
                sty(*opts, match *field_name {
                    Some(n) => flavor.spec_format_seq_field_open(n@),
                    None => flavor.spec_seq_open(),
                }, spec_tag_color(change))
            } else {
                Seq::empty()
            }) + (if write_close {
                sty(*opts, match *field_name {
                    Some(n) => flavor.spec_format_seq_field_close(n@),
                    None => flavor.spec_seq_close(),
                }, spec_tag_color(change)) + (if *field_name is Some {
                    sty(*opts, flavor.spec_trailing_separator(), SemanticColor::Whitespace)
                } else {
                    Seq::empty()
                })
            } else {
                Seq::empty()
            }) + seq!['\n'],
{
    let ghost start = w@;
    let tc = tag_color(change);
    let ghost head = indent_text(*opts, depth as nat) + prefix_text(*opts, change);
    let ghost open_part = if write_open {
        sty(*opts, match field_name {
            Some(n) => flavor.spec_format_seq_field_open(n@),
            None => flavor.spec_seq_open(),
        }, spec_tag_color(change))
    } else {
        Seq::empty()
    };
    let ghost close_part = if write_close {
        sty(*opts, match field_name {
            Some(n) => flavor.spec_format_seq_field_close(n@),
            None => flavor.spec_seq_close(),
        }, spec_tag_color(change)) + (if *field_name is Some {
            sty(*opts, flavor.spec_trailing_separator(), SemanticColor::Whitespace)
        } else {
            Seq::empty()
        })
    } else {
        Seq::empty()
    };
    write_line_start(w, depth, opts, change);
    proof {
        assert(w@ =~= start + head);
    }
    if write_open {
        let open = match field_name {
            Some(name) => flavor.format_seq_field_open(name.as_str()),
            None => flavor.seq_open(),
        };
        opts.backend.write_styled(w, open.as_str(), tc);
    }
    proof {
        assert(w@ =~= start + head + open_part);
    }
    if write_close {
        let close = match field_name {
            Some(name) => flavor.format_seq_field_close(name.as_str()),
            None => flavor.seq_close(),
        };
        opts.backend.write_styled(w, close.as_str(), tc);
        // Trailing comma for fields (context-aware)
        if field_name.is_some() {
            opts.backend.write_styled(w, flavor.trailing_separator(), SemanticColor::Whitespace);
        }
    }
    proof {
        assert(w@ =~= start + head + open_part + close_part);
    }
    string_push(w, '\n');
    proof {
        assert(w@ =~= start + head + open_part + close_part + seq!['\n']);
    }
}

/// Render a sequence node.
#[verifier::rlimit(50)]
fn render_sequence<B: ColorBackend, F: DiffFlavor>(
    layout: &Layout,
    w: &mut String,
    node_id: NodeId,
    node: &LayoutNode,
    depth: usize,
    opts: &RenderOptions<B>,
    flavor: &F,
    Ghost(fuel): Ghost<nat>,
)
    requires
        layout_readable(*layout),
        layout.nodes().contains_key(node_id),
        layout.nodes()[node_id] == *node,
        node is Sequence,
        bounded_height(*layout, node_id, fuel),
        depth + fuel <= usize::MAX,
    ensures
        final(w)@ == old(w)@ + node_text(*layout, *opts, *flavor, node_id, depth as nat, fuel),
    decreases fuel, 0nat,
{
    let ghost start = w@;
    if let LayoutNode::Sequence { change, item_type, field_name } = node {
        let change = *change;
        
        let kids = layout.children(node_id);
        proof {
            assert forall|k: int| 0 <= k < kids@.len() implies bounded_height(*layout, #[trigger] kids@[k], (fuel - 1) as nat) by {
                assert(bounded_height(*layout, layout.children_of()[node_id][k], (fuel - 1) as nat));
            }
        }
        let ghost children = children_text(*layout, *opts, *flavor, kids@, (depth + 1) as nat, (fuel - 1) as nat);
        proof {
            assert(node_text(*layout, *opts, *flavor, node_id, depth as nat, fuel) == sequence_text(
                *opts, *flavor, change, *field_name, depth as nat, kids@.len() > 0, children));
        }
        // Empty sequences: render on single line
        if kids.len() == 0 {
            // Always render empty sequences with field name (e.g., "elements: []");
            // only skip if unchanged AND no field name
            if matches!(change, ElementChange::Unchanged) && field_name.is_none() {
                return;
            }
            render_sequence_line(w, depth, opts, flavor, change, field_name, true, true);
            proof {
                assert(w@ =~= start + node_text(*layout, *opts, *flavor, node_id, depth as nat, fuel));
            }
            return;
        }
        // Opening bracket with optional field name
        render_sequence_line(w, depth, opts, flavor, change, field_name, true, false);
        let ghost opened = w@;
        // Children
        render_children(layout, w, &kids, depth + 1, opts, flavor, Ghost((fuel - 1) as nat));
        let ghost listed = w@;
        // Closing bracket
        render_sequence_line(w, depth, opts, flavor, change, field_name, false, true);
        proof {
            assert(w@ =~= start + node_text(*layout, *opts, *flavor, node_id, depth as nat, fuel));
        }
    }
}

/// `N` followed by `words`, such as `5 unchanged`.
fn count_string(n: usize, words: &str) -> (r: String)
    ensures
        r@ == count_text(n as nat, words@),
{
    let mut s = usize_to_decimal(n);
    s.append(words);
    s
}

/// Write the items of an item group, separated by the flavor's item separator.
fn render_items<B: ColorBackend, F: DiffFlavor>(
    layout: &Layout,
    w: &mut String,
    opts: &RenderOptions<B>,
    flavor: &F,
    items: &Vec<FormattedValue>,
    change: ElementChange,
    item_type: &str,
)
    requires
        forall|i: int| 0 <= i < items@.len() ==> layout.strings.valid_span(#[trigger] items@[i].span),
    ensures
        final(w)@ == old(w)@ + items_text(*layout, *opts, *flavor, items@, change, item_type@, items@.len() as int),
{
    let ghost start = w@;
    let mut i: usize = 0;
    while i < items.len()
        invariant
            i <= items@.len(),
            forall|i: int| 0 <= i < items@.len() ==> layout.strings.valid_span(#[trigger] items@[i].span),
            w@ == start + items_text(*layout, *opts, *flavor, items@, change, item_type@, i as int),
        decreases items@.len() - i,
    {
        let ghost before = w@;
        if i > 0 {
            w.append(flavor.item_separator());
        }
        let item = &items[i];
        proof {
            assert(layout.strings.valid_span(items@[i as int].span));
        }
        let raw_value = layout.get_string(item.span);
        let formatted = flavor.format_seq_item(item_type, raw_value);
        let semantic = value_color(item.value_type, change);
        opts.backend.write_styled(w, formatted.as_str(), semantic);
        proof {
            assert(w@ =~= start + items_text(*layout, *opts, *flavor, items@, change, item_type@, i + 1));
        }
        i = i + 1;
    }
}

/// Render a collapsed run of unchanged siblings.
fn render_collapsed<B: ColorBackend, F: DiffFlavor>(
    w: &mut String,
    count: usize,
    depth: usize,
    opts: &RenderOptions<B>,
    flavor: &F,
)
    ensures
        final(w)@ == old(w)@ + indent_text(*opts, depth as nat) + sty(
            *opts,
            flavor.spec_comment(count_text(count as nat, unchanged_words())),
            SemanticColor::Comment,
        ) + seq!['\n'],
{
    let ghost start = w@;
    write_indent(w, depth, opts);
    let unchanged = " unchanged";
    proof {
        reveal_strlit(" unchanged");
        assert(unchanged@ == unchanged_words());
    }
    let comment = flavor.comment(count_string(count, unchanged).as_str());
    opts.backend.write_styled(w, comment.as_str(), SemanticColor::Comment);
    string_push(w, '\n');
    proof {
        assert(w@ =~= start + indent_text(*opts, depth as nat) + sty(
            *opts,
            flavor.spec_comment(count_text(count as nat, unchanged_words())),
            SemanticColor::Comment,
        ) + seq!['\n']);
    }
}

/// Render an item group: its items on one line, and the count of items left out.
fn render_item_group<B: ColorBackend, F: DiffFlavor>(
    layout: &Layout,
    w: &mut String,
    node: &LayoutNode,
    depth: usize,
    opts: &RenderOptions<B>,
    flavor: &F,
)
    requires
        node is ItemGroup,
        node_ok(*layout, *node),
    ensures
        final(w)@ == old(w)@ + leaf_text(*layout, *opts, *flavor, *node, depth as nat),
{
    let ghost start = w@;
    if let LayoutNode::ItemGroup { items, change, collapsed_suffix, item_type } = node {
        let change = *change;
        // For changed items, the prefix eats into the indent (goes in the "gutter")
        if let Some(prefix) = change.prefix() {
            write_indent_minus_prefix(w, depth, opts);
            opts.backend.write_prefix(w, prefix, element_change_to_semantic(change));
            string_push(w, ' ');
        } else {
            write_indent(w, depth, opts);
        }
        let ghost head = w@;
        proof {
            let h = match change_prefix(change) {
                Some(p) => gutter_text(*opts, depth as nat) + sty(*opts, seq![p], spec_change_color(change)) + seq![' '],
                None => indent_text(*opts, depth as nat),
            };
            assert(head =~= start + h);
        }
        // Items with the flavor's separator
        render_items(layout, w, opts, flavor, items, change, item_type);
        let ghost listed = w@;
        // Collapsed suffix if present (context-aware)
        if let Some(count) = collapsed_suffix {
            let more = " more";
            proof {
                reveal_strlit(" more");
                assert(more@ == more_words());
            }
            let suffix = flavor.comment(count_string(*count, more).as_str());
            string_push(w, ' ');
            opts.backend.write_styled(w, suffix.as_str(), syntax_color(SyntaxElement::Comment, change));
        }
        let ghost tail = w@;
        string_push(w, '\n');
        proof {
            assert(w@ =~= start + leaf_text(*layout, *opts, *flavor, *node, depth as nat));
        }
    }
}

/// Render a node without children of its own: a collapsed run, text, or an item group.
fn render_leaf<B: ColorBackend, F: DiffFlavor>(
    layout: &Layout,
    w: &mut String,
    node: &LayoutNode,
    depth: usize,
    opts: &RenderOptions<B>,
    flavor: &F,
)
    requires
        node_ok(*layout, *node),
    ensures
        final(w)@ == old(w)@ + leaf_text(*layout, *opts, *flavor, *node, depth as nat),
{
    let ghost start = w@;
    match node {
        LayoutNode::Collapsed { count } => {
            render_collapsed(w, *count, depth, opts, flavor);
        },
        LayoutNode::Text { value, change } => {
            let text = layout.get_string(value.span);
            write_line_start(w, depth, opts, *change);
            let semantic = value_color(value.value_type, *change);
            opts.backend.write_styled(w, text, semantic);
            string_push(w, '\n');
            proof {
                assert(w@ =~= start + leaf_text(*layout, *opts, *flavor, *node, depth as nat));
            }
        },
        LayoutNode::ItemGroup { .. } => {
            render_item_group(layout, w, node, depth, opts, flavor);
        },
        _ => {
            proof {
                assert(w@ =~= start + leaf_text(*layout, *opts, *flavor, *node, depth as nat));
            }
        },
    }
}

/// Render a layout to a string buffer, appending to it.
///
/// Starts at depth 1 to provide a gutter for change prefixes (- / +).
pub fn render<B: ColorBackend, F: DiffFlavor>(layout: &Layout, w: &mut String, opts: &RenderOptions<B>, flavor: &F)
    requires
        renderable(*layout),
    ensures
        final(w)@ == old(w)@ + rendered(*layout, *opts, *flavor),
{
    let ghost h = choose|h: nat| h < usize::MAX && bounded_height(*layout, layout.root, h);
    render_node(layout, w, layout.root, 1, opts, flavor, Ghost(h));
}

/// Render a layout to a String.
pub fn render_to_string<B: ColorBackend, F: DiffFlavor>(layout: &Layout, opts: &RenderOptions<B>, flavor: &F) -> (r: String)
    requires
        renderable(*layout),
    ensures
        r@ == rendered(*layout, *opts, *flavor),
{
    let mut out = String::new();
    render(layout, &mut out, opts, flavor);
    proof {
        assert(out@ =~= rendered(*layout, *opts, *flavor));
    }
    out
}

} // verus!
