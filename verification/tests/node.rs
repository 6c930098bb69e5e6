use indextree::Arena;
use rediff::layout::arena::FormatArena;
use rediff::layout::node::{ElementChange, Layout, LayoutNode};

#[test]
fn test_element_change_prefix() {
    assert_eq!(ElementChange::Unchanged.prefix(), None);
    assert_eq!(ElementChange::Deleted.prefix(), Some('-'));
    assert_eq!(ElementChange::Inserted.prefix(), Some('+'));
    assert_eq!(ElementChange::MovedFrom.prefix(), Some('←'));
    assert_eq!(ElementChange::MovedTo.prefix(), Some('→'));
}

#[test]
fn test_layout_tree() {
    let arena = FormatArena::new();
    let tree = Arena::new();

    let mut layout = Layout::new(arena, tree, LayoutNode::element("root"));

    let child1 = layout.add_child(layout.root, LayoutNode::element("child1"));
    let child2 = layout.add_child(layout.root, LayoutNode::element("child2"));

    let children: Vec<_> = layout.children(layout.root);
    assert_eq!(children.len(), 2);
    assert_eq!(children[0], child1);
    assert_eq!(children[1], child2);
}

#[test]
fn test_collapsed_node() {
    let node = LayoutNode::collapsed(5);
    assert!(!node.has_changes());

    if let LayoutNode::Collapsed { count } = node {
        assert_eq!(count, 5);
    } else {
        panic!("expected Collapsed node");
    }
}

#[test]
fn node_changes_and_prefixes() {
    assert!(!ElementChange::Unchanged.has_prefix());
    assert!(ElementChange::MovedTo.has_prefix());
    let e = LayoutNode::element_with_change("p", ElementChange::Inserted);
    assert_eq!(e.change(), ElementChange::Inserted);
    assert!(e.has_changes());
    let plain = LayoutNode::element("p");
    assert_eq!(plain.change(), ElementChange::Unchanged);
    assert!(!plain.has_changes());
    let seq = LayoutNode::sequence(ElementChange::Deleted, "i32");
    assert!(seq.has_changes());
    assert_eq!(LayoutNode::collapsed(2).change(), ElementChange::Unchanged);
}

#[test]
fn layout_get_and_strings() {
    let mut arena = FormatArena::new();
    let (span, _) = arena.push_str("value");
    let mut layout = Layout::new(arena, Arena::new(), LayoutNode::element("root"));
    let child = layout.add_child(layout.root, LayoutNode::collapsed(3));
    assert!(matches!(layout.get(child), Some(LayoutNode::Collapsed { count: 3 })));
    assert!(layout.children(child).is_empty());
    assert_eq!(layout.get_string(span), "value");
}

#[test]
fn layout_with_root_holds_the_root_alone() {
    let layout = Layout::with_root(FormatArena::new(), LayoutNode::Collapsed { count: 3 });
    assert!(matches!(layout.get(layout.root), Some(LayoutNode::Collapsed { count: 3 })));
    assert_eq!(layout.children(layout.root).len(), 0);
}
