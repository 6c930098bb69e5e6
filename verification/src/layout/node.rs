//! Layout tree nodes.

use vstd::prelude::*;
use indextree::{Arena, NodeId};

use super::arena::{FormatArena, Span};
use super::attrs::{Attr, AttrStatus, ChangedGroup, FormattedValue};
use super::tree::{arena_append, arena_children, arena_get, arena_new, arena_new_node, tree_children, tree_nodes};

verus! {

/// How an element changed (affects its prefix and color).
#[derive(Copy, Clone, Debug, Default, PartialEq, Eq, Structural)]
pub enum ElementChange {
    /// No change to the element itself (may have changed children/attrs)
    #[default]
    Unchanged,
    /// Element was deleted (- prefix, red)
    Deleted,
    /// Element was inserted (+ prefix, green)
    Inserted,
    /// Element was moved from this position (← prefix, blue)
    MovedFrom,
    /// Element was moved to this position (→ prefix, blue)
    MovedTo,
}

/// The prefix character of a change: none, `-`, `+`, `←` or `→`.
pub open spec fn change_prefix(c: ElementChange) -> Option<char> {
    match c {
        ElementChange::Unchanged => None,
        ElementChange::Deleted => Some('-'),
        ElementChange::Inserted => Some('+'),
        ElementChange::MovedFrom => Some('\u{2190}'),
        ElementChange::MovedTo => Some('\u{2192}'),
    }
}

impl ElementChange {
    /// Get the prefix character for this change type.
    pub fn prefix(self) -> (r: Option<char>)
        ensures
            r == change_prefix(self),
    {
        match self {
            ElementChange::Unchanged => None,
            ElementChange::Deleted => Some('-'),
            ElementChange::Inserted => Some('+'),
            ElementChange::MovedFrom => Some('\u{2190}'),
            ElementChange::MovedTo => Some('\u{2192}'),
        }
    }

    /// Check if this change type uses any prefix.
    pub fn has_prefix(self) -> (r: bool)
        ensures
            r == !(self is Unchanged),
            r == change_prefix(self) is Some,
    {
        !matches!(self, ElementChange::Unchanged)
    }
}

/// A node in the layout tree.
#[derive(Debug)]
pub enum LayoutNode {
    /// An element/struct with attributes and children.
    Element {
        /// Element tag name
        tag: String,
        /// Field name if this element is a struct field (e.g., "point" for `point: Inner`)
        field_name: Option<String>,
        /// All attributes (unchanged, changed, deleted, inserted)
        attrs: Vec<Attr>,
        /// Changed attributes grouped for -/+ line alignment
        changed_groups: Vec<ChangedGroup>,
        /// How this element itself changed
        change: ElementChange,
    },
    /// A sequence/array with children.
    Sequence {
        /// How this sequence itself changed
        change: ElementChange,
        /// The type name of items in this sequence (e.g., "i32", "Item")
        item_type: &'static str,
        /// Field name if this sequence is a struct field value
        field_name: Option<String>,
    },
    /// A collapsed run of unchanged siblings.
    Collapsed {
        /// Number of collapsed elements
        count: usize,
    },
    /// Text content.
    Text {
        /// Formatted text value
        value: FormattedValue,
        /// How this text changed
        change: ElementChange,
    },
    /// A group of items rendered on a single line (for sequences).
    ItemGroup {
        /// Formatted values for each visible item in the group.
        items: Vec<FormattedValue>,
        /// How these items changed (all have the same change type).
        change: ElementChange,
        /// Number of additional collapsed items (shown as "...N more").
        collapsed_suffix: Option<usize>,
        /// The type name of items (e.g., "i32", "Item") for XML wrapping.
        item_type: &'static str,
    },
}

/// The change of a node; collapsed runs count as unchanged.
pub open spec fn node_change(n: LayoutNode) -> ElementChange {
    match n {
        LayoutNode::Element { change, .. } => change,
        LayoutNode::Sequence { change, .. } => change,
        LayoutNode::Collapsed { .. } => ElementChange::Unchanged,
        LayoutNode::Text { change, .. } => change,
        LayoutNode::ItemGroup { change, .. } => change,
    }
}

/// Whether a node has anything to show as changed: a prefix of its own, or
/// (for elements) a changed group or a changed, deleted or inserted attribute.
pub open spec fn node_has_changes(n: LayoutNode) -> bool {
    match n {
        LayoutNode::Element { attrs, change, changed_groups, .. } => {
            ||| !(change is Unchanged)
            ||| changed_groups@.len() > 0
            ||| exists|i: int| 0 <= i < attrs@.len() && !(#[trigger] attrs@[i].status is Unchanged)
        },
        LayoutNode::Collapsed { .. } => false,
        _ => !(node_change(n) is Unchanged),
    }
}

impl LayoutNode {
    /// Create an element node with no changes.
    pub fn element(tag: &str) -> (r: Self)
        ensures
            r matches LayoutNode::Element { tag: t, field_name, attrs, changed_groups, change }
                && t@ == tag@ && field_name is None && attrs@.len() == 0
                && changed_groups@.len() == 0 && change is Unchanged,
    {
        LayoutNode::Element {
            tag: tag.to_owned(),
            field_name: None,
            attrs: Vec::new(),
            changed_groups: Vec::new(),
            change: ElementChange::Unchanged,
        }
    }

    /// Create an element node with a specific change type.
    pub fn element_with_change(tag: &str, change: ElementChange) -> (r: Self)
        ensures
            r matches LayoutNode::Element { tag: t, field_name, attrs, changed_groups, change: c }
                && t@ == tag@ && field_name is None && attrs@.len() == 0
                && changed_groups@.len() == 0 && c == change,
    {
        LayoutNode::Element {
            tag: tag.to_owned(),
            field_name: None,
            attrs: Vec::new(),
            changed_groups: Vec::new(),
            change,
        }
    }

    /// Create a sequence node.
    pub fn sequence(change: ElementChange, item_type: &'static str) -> (r: Self)
        ensures
            r == (LayoutNode::Sequence { change, item_type, field_name: None }),
    {
        LayoutNode::Sequence { change, item_type, field_name: None }
    }

    /// Create a collapsed node.
    pub fn collapsed(count: usize) -> (r: Self)
        ensures
            r == (LayoutNode::Collapsed { count }),
    {
        LayoutNode::Collapsed { count }
    }

    /// Create a text node.
    pub fn text(value: FormattedValue, change: ElementChange) -> (r: Self)
        ensures
            r == (LayoutNode::Text { value, change }),
    {
        LayoutNode::Text { value, change }
    }

    /// Create an item group node.
    pub fn item_group(
        items: Vec<FormattedValue>,
        change: ElementChange,
        collapsed_suffix: Option<usize>,
        item_type: &'static str,
    ) -> (r: Self)
        ensures
            r == (LayoutNode::ItemGroup { items, change, collapsed_suffix, item_type }),
    {
        LayoutNode::ItemGroup { items, change, collapsed_suffix, item_type }
    }

    /// Get the element change type (if applicable).
    pub fn change(&self) -> (r: ElementChange)
        ensures
            r == node_change(*self),
    {
        match self {
            LayoutNode::Element { change, .. } => *change,
            LayoutNode::Sequence { change, .. } => *change,
            LayoutNode::Collapsed { .. } => ElementChange::Unchanged,
            LayoutNode::Text { change, .. } => *change,
            LayoutNode::ItemGroup { change, .. } => *change,
        }
    }

    /// Check if this node has any actual changes to render.
    pub fn has_changes(&self) -> (r: bool)
        ensures
            r == node_has_changes(*self),
    {
        match self {
            LayoutNode::Element { attrs, change, changed_groups, .. } => {
                if change.has_prefix() || changed_groups.len() > 0 {
                    return true;
                }
                let mut i: usize = 0;
                #[verifier::loop_isolation(false)]
                while i < attrs.len()
                    invariant
                        0 <= i <= attrs@.len(),
                        forall|j: int| 0 <= j < i ==> (#[trigger] attrs@[j]).status is Unchanged,
                    decreases attrs@.len() - i,
                {
                    if !matches!(attrs[i].status, AttrStatus::Unchanged { .. }) {
                        assert(!(attrs@[i as int].status is Unchanged));
                        assert(exists|j: int| 0 <= j < attrs@.len() && !(#[trigger] attrs@[j].status is Unchanged));
                        return true;
                    }
                    i = i + 1;
                }
                false
            },
            LayoutNode::Sequence { change, .. } => change.has_prefix(),
            LayoutNode::Collapsed { .. } => false,
            LayoutNode::Text { change, .. } => change.has_prefix(),
            LayoutNode::ItemGroup { change, .. } => change.has_prefix(),
        }
    }
}

/// The complete layout ready for rendering.
pub struct Layout {
    /// Formatted strings arena
    pub strings: FormatArena,
    /// Tree of layout nodes
    pub tree: Arena<LayoutNode>,
    /// Root node ID
    pub root: NodeId,
}

impl Layout {
    /// The layout's nodes: every live node with its data.
    pub open spec fn nodes(&self) -> Map<NodeId, LayoutNode> {
        tree_nodes(self.tree)
    }

    /// The layout's edges: every live node with its children, in order.
    pub open spec fn children_of(&self) -> Map<NodeId, Seq<NodeId>> {
        tree_children(self.tree)
    }

    /// The shape a layout keeps: the root is live, every live node has a
    /// child list, and children are live nodes. (That no path down from the
    /// root comes back to a node is what the height bound of `renderable`
    /// adds.)
    pub open spec fn well_formed(&self) -> bool {
        &&& self.nodes().contains_key(self.root)
        &&& self.children_of().dom() == self.nodes().dom()
        &&& forall|p: NodeId, k: int| #[trigger] self.children_of().contains_key(p) && 0 <= k < self.children_of()[p].len()
            ==> self.nodes().contains_key(#[trigger] self.children_of()[p][k])
    }

    /// Create a new layout with the given root node.
    pub fn new(strings: FormatArena, tree: Arena<LayoutNode>, root_node: LayoutNode) -> (l: Self)
        requires
            tree_children(tree).dom() == tree_nodes(tree).dom(),
            forall|p: NodeId, k: int| #[trigger] tree_children(tree).contains_key(p) && 0 <= k < tree_children(tree)[p].len()
                ==> tree_nodes(tree).contains_key(#[trigger] tree_children(tree)[p][k]),
        ensures
            l.well_formed(),
            l.strings == strings,
            l.nodes() == tree_nodes(tree).insert(l.root, root_node),
            !tree_nodes(tree).contains_key(l.root),
            l.children_of() == tree_children(tree).insert(l.root, Seq::<NodeId>::empty()),
    {
        let mut tree = tree;
        let root = arena_new_node(&mut tree, root_node);
        Layout { strings, tree, root }
    }

    /// Create a layout whose arena holds the root node alone.
    pub fn with_root(strings: FormatArena, root_node: LayoutNode) -> (l: Self)
        ensures
            l.well_formed(),
            l.strings == strings,
            l.nodes() == Map::<NodeId, LayoutNode>::empty().insert(l.root, root_node),
            l.children_of() == Map::<NodeId, Seq<NodeId>>::empty().insert(l.root, Seq::<NodeId>::empty()),
            l.nodes().dom().finite(),
            l.nodes().dom().len() == 1,
    {
        let tree = arena_new();
        let l = Layout::new(strings, tree, root_node);
        proof {
            assert(l.nodes().dom() =~= set![l.root]);
            assert(l.nodes() =~= Map::<NodeId, LayoutNode>::empty().insert(l.root, root_node));
            assert(l.children_of() =~= Map::<NodeId, Seq<NodeId>>::empty().insert(l.root, Seq::<NodeId>::empty()));
        }
        l
    }

    /// Get a reference to a node by ID.
    pub fn get(&self, id: NodeId) -> (r: Option<&LayoutNode>)
        ensures
            r == (if self.nodes().contains_key(id) { Some(&self.nodes()[id]) } else { None }),
    {
        arena_get(&self.tree, id)
    }

    /// Add a new child (holding `child_node`) after the parent's existing children.
    pub fn add_child(&mut self, parent: NodeId, child_node: LayoutNode) -> (child: NodeId)
        requires
            old(self).well_formed(),
            old(self).nodes().contains_key(parent),
        ensures
            final(self).well_formed(),
            final(self).root == old(self).root,
            final(self).strings == old(self).strings,
            final(self).nodes().dom().finite(),
            final(self).nodes().dom().len() <= isize::MAX,
            !old(self).nodes().contains_key(child),
            final(self).nodes() == old(self).nodes().insert(child, child_node),
            final(self).children_of() == old(self).children_of().insert(child, Seq::<NodeId>::empty()).insert(
                parent,
                old(self).children_of()[parent].push(child),
            ),
    {
        let ghost before = self.children_of();
        let child = arena_new_node(&mut self.tree, child_node);
        proof {
            assert forall|p: NodeId| #[trigger] tree_children(self.tree).contains_key(p)
                implies !tree_children(self.tree)[p].contains(child) by {
                if p != child {
                    if tree_children(self.tree)[p].contains(child) {
                        let k = choose|k: int| 0 <= k < before[p].len() && before[p][k] == child;
                        assert(self.nodes().contains_key(before[p][k]));
                    }
                }
            }
        }
        arena_append(&mut self.tree, parent, child);
        proof {
            let cm = self.children_of();
            assert forall|p: NodeId, k: int| #[trigger] cm.contains_key(p) && 0 <= k < cm[p].len()
                implies self.nodes().contains_key(#[trigger] cm[p][k]) by {
                if p == parent {
                    if k < before[parent].len() {
                        assert(cm[p][k] == before[parent][k]);
                    }
                } else if p != child {
                    assert(cm[p] == before[p]);
                }
            }
            assert(cm.dom() =~= self.nodes().dom());
        }
        child
    }

    /// The children of a node, in order.
    pub fn children(&self, parent: NodeId) -> (r: Vec<NodeId>)
        requires
            self.children_of().contains_key(parent),
        ensures
            r@ == self.children_of()[parent],
    {
        arena_children(&self.tree, parent)
    }

    /// Get the string for a span from the arena.
    pub fn get_string(&self, span: Span) -> (r: &str)
        requires
            self.strings.valid_span(span),
        ensures
            r@ == self.strings.text_of(span),
    {
        self.strings.get(span)
    }
}

} // verus!
