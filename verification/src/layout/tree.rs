//! The `indextree` arena that holds layout nodes, as the library uses it.
//!
//! The arena is modelled by two named maps: the node data of every live node,
//! and the ordered children of every live node.

use vstd::prelude::*;
use indextree::{Arena, NodeId};

use super::node::LayoutNode;

verus! {

#[verifier::external_type_specification]
#[verifier::external_body]
#[verifier::reject_recursive_types(T)]
pub struct ExArena<T>(Arena<T>);

#[verifier::external_type_specification]
#[verifier::external_body]
pub struct ExNodeId(NodeId);

/// The data of every live node of the arena.
pub uninterp spec fn tree_nodes(a: Arena<LayoutNode>) -> Map<NodeId, LayoutNode>;

/// The children of every live node of the arena, in order.
pub uninterp spec fn tree_children(a: Arena<LayoutNode>) -> Map<NodeId, Seq<NodeId>>;

/// Calls `Arena::new`: the arena has no nodes.
#[verifier::external_body]
pub(crate) fn arena_new() -> (r: Arena<LayoutNode>)
    ensures
        tree_nodes(r).dom() == Set::<NodeId>::empty(),
        tree_children(r).dom() == Set::<NodeId>::empty(),
{
    Arena::new()
}

/// Calls `Arena::new_node`: a node that was not live before now holds `data`,
/// with no children; nothing else changes. The live nodes are slots of the
/// arena's `Vec` of nodes, whose size `Vec` keeps within `isize::MAX` bytes,
/// so there are finitely many and at most `isize::MAX` of them.
#[verifier::external_body]
pub(crate) fn arena_new_node(a: &mut Arena<LayoutNode>, data: LayoutNode) -> (id: NodeId)
    ensures
        tree_nodes(*final(a)).dom().finite(),
        tree_nodes(*final(a)).dom().len() <= isize::MAX,
        !tree_nodes(*old(a)).contains_key(id),
        tree_nodes(*final(a)) == tree_nodes(*old(a)).insert(id, data),
        tree_children(*final(a)) == tree_children(*old(a)).insert(id, Seq::<NodeId>::empty()),
{
    a.new_node(data)
}

/// Calls `NodeId::append` with a child that has neither children nor a
/// parent: the child is added after the parent's existing children.
#[verifier::external_body]
pub(crate) fn arena_append(a: &mut Arena<LayoutNode>, parent: NodeId, child: NodeId)
    requires
        tree_nodes(*old(a)).contains_key(parent),
        tree_nodes(*old(a)).contains_key(child),
        tree_children(*old(a)).contains_key(parent),
        parent != child,
        tree_children(*old(a))[child] == Seq::<NodeId>::empty(),
        forall|p: NodeId| #[trigger] tree_children(*old(a)).contains_key(p)
            ==> !tree_children(*old(a))[p].contains(child),
    ensures
        tree_nodes(*final(a)) == tree_nodes(*old(a)),
        tree_children(*final(a)) == tree_children(*old(a)).insert(
            parent,
            tree_children(*old(a))[parent].push(child),
        ),
{
    parent.append(child, a)
}

/// Calls `NodeId::children` and collects the iterator: the node's children in order.
#[verifier::external_body]
pub(crate) fn arena_children(a: &Arena<LayoutNode>, id: NodeId) -> (r: Vec<NodeId>)
    requires
        tree_children(*a).contains_key(id),
    ensures
        r@ == tree_children(*a)[id],
{
    id.children(a).collect()
}

/// Calls `Arena::get` and `Node::get`: the data of a live node, `None` otherwise.
#[verifier::external_body]
pub(crate) fn arena_get(a: &Arena<LayoutNode>, id: NodeId) -> (r: Option<&LayoutNode>)
    ensures
        r == (if tree_nodes(*a).contains_key(id) {
            Some(&tree_nodes(*a)[id])
        } else {
            None
        }),
{
    a.get(id).map(|n| n.get())
}

} // verus!
