//! Structural diff reporting: the verified core of a diff/compare library.
//!
//! The crate holds the data model of a structural diff, the layout tree that a
//! diff is turned into, and the rendering of that tree to text in several
//! output flavors (Rust-like, JSON-like, XML-like).

pub mod symbols;

pub use symbols::{ChangeKind, DiffSymbols};
pub mod layout;
mod std_calls;
pub mod utf8_facts;
pub mod width;

pub use layout::{FormatArena, Span};
pub mod text;
pub mod core_sequences;
pub mod types;
pub mod path;
pub mod colors;
pub mod display;
pub mod leaf;
pub mod format;
pub mod fields;
pub mod text_order;
pub mod diff_text;
pub mod route;
pub mod sequences;
pub mod theme;
pub mod same;

pub use core_sequences::{Interspersed, ReplaceGroup, Updates, UpdatesGroup};
pub use types::{Diff, Value};
pub use path::{Path, PathSegment};
pub use leaf::{collect_leaf_items, resolve_nested, LeafChange, LeafChangeKind, LeafItem};
pub use format::{format_diff, DiffFormat};
pub use fields::{diff_fields, finish_user_diff, keep_last_entries, same_name_sets};
pub use display::{explain_confusable_differences, format_char_with_codepoint};
pub use layout::{
    AnsiBackend, AnsiColors, ColorBackend, DiffFlavor, JsonFlavor, PlainBackend, RenderOptions, RustFlavor, XmlFlavor,
    render_to_string,
};
pub use route::{
    dynamic_route, dynamic_sides, equal_or_replace, finish_sequence_diff, mixed_route, route_for, variant_route, DynKind, DynRoute, FieldsKind,
    Route, ShapeForm, VariantRoute,
};
pub use sequences::{edit_script, sequence_updates, EditOp};
pub use theme::DiffTheme;
pub use same::Sameness;
pub use layout::{BackgroundSlot, BuildOptions, ForegroundSlot};
pub use layout::builder::{build_layout, ShapeDesc, ValueDesc, ValueKind, ValueTable};
