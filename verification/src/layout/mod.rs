//! Layout types and algorithms for diff rendering.
//!
//! 1. **Format phase**: scalar values are formatted into a [`FormatArena`].
//! 2. **Layout phase**: a tree of [`LayoutNode`]s is built, attributes are
//!    grouped and alignment is computed.
//! 3. **Render phase**: the tree is walked and text is emitted with prefixes,
//!    colors and padding.

pub mod arena;
pub mod attrs;
pub mod backend;
pub mod build_options;
pub mod builder;
pub mod flavor;
pub mod node;
pub mod render;
pub mod render_spec;
pub mod shows;
pub mod tree;

pub use arena::{FormatArena, Span};
pub use attrs::{Attr, AttrStatus, ChangedGroup, FormattedValue, ValueType, group_changed_attrs};
pub use node::{ElementChange, Layout, LayoutNode};
pub use flavor::{DiffFlavor, FieldInfo, FieldPresentation, JsonFlavor, RustFlavor, XmlFlavor};
pub use backend::{AnsiBackend, AnsiColors, BackgroundSlot, ColorBackend, ForegroundSlot, PlainBackend, SemanticColor};
pub use build_options::BuildOptions;
pub use render::{render, render_to_string, RenderOptions};
