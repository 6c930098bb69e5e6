use rediff::layout::flavor::ScalarText;
use rediff::layout::render::{render_to_string, RenderOptions};
use rediff::layout::{BuildOptions, LayoutNode, RustFlavor, ValueType, XmlFlavor};
use rediff::{build_layout, Diff, ShapeDesc, ValueDesc, ValueKind, ValueTable};

fn number(text: &str) -> ValueDesc {
    ValueDesc {
        kind: ValueKind::Other,
        display_name: "i32",
        has_xml_attrs: false,
        empty_collection: false,
        first_item_name: None,
        scalar: ScalarText::Other(text.to_string()),
        value_type: ValueType::Number,
        precise_float: None,
    }
}

fn table_of(values: Vec<ValueDesc>, shapes: Vec<ShapeDesc>) -> ValueTable {
    ValueTable { values, shapes }
}

#[test]
fn test_build_equal_diff() {
    let t = table_of(vec![number("42")], vec![]);
    let diff: Diff<usize, usize> = Diff::Equal { value: Some(0) };
    let layout = build_layout(&diff, &t, 0, 0, &BuildOptions::default(), &RustFlavor);
    let root = layout.get(layout.root).unwrap();
    assert!(matches!(root, LayoutNode::Text { .. }));
}

#[test]
fn test_build_replace_diff() {
    let t = table_of(vec![number("10"), number("20")], vec![]);
    let diff: Diff<usize, usize> = Diff::Replace { from: 0, to: 1 };
    let layout = build_layout(&diff, &t, 0, 1, &BuildOptions::default(), &RustFlavor);
    let root = layout.get(layout.root).unwrap();
    match root {
        LayoutNode::Element { tag, .. } => assert_eq!(tag.as_str(), "_replace"),
        _ => panic!("expected Element node"),
    }
    assert_eq!(layout.children(layout.root).len(), 2);
}

#[test]
fn test_build_and_render_replace() {
    let t = table_of(vec![number("10"), number("20")], vec![]);
    let diff: Diff<usize, usize> = Diff::Replace { from: 0, to: 1 };
    let layout = build_layout(&diff, &t, 0, 1, &BuildOptions::default(), &RustFlavor);
    let output = render_to_string(&layout, &RenderOptions::plain(), &XmlFlavor);
    assert!(output.contains("10"), "output should contain old value: {}", output);
    assert!(output.contains("20"), "output should contain new value: {}", output);
}

fn point(x: usize, y: usize) -> ValueDesc {
    ValueDesc {
        kind: ValueKind::Struct { named: true, fields: vec![("x", x), ("y", y)] },
        display_name: "Point",
        has_xml_attrs: false,
        empty_collection: false,
        first_item_name: None,
        scalar: ScalarText::Other("Point".to_string()),
        value_type: ValueType::Other,
        precise_float: None,
    }
}

fn point_shape() -> ShapeDesc {
    ShapeDesc { is_option: false, is_struct: true, display_name: "Point", has_xml_attrs: false, variants: None }
}

#[test]
fn struct_diff_shows_changed_and_unchanged_fields() {
    // values: 0 = 1, 1 = 2, 2 = 5, 3 = Point { x: 1, y: 2 }, 4 = Point { x: 1, y: 5 }
    let t = table_of(vec![number("1"), number("2"), number("5"), point(0, 1), point(0, 2)], vec![point_shape()]);
    let diff: Diff<usize, usize> = Diff::User {
        from: 0,
        to: 0,
        variant: None,
        value: rediff::Value::Struct {
            updates: vec![("y".to_string(), Diff::Replace { from: 1, to: 2 })],
            deletions: vec![],
            insertions: vec![],
            unchanged: vec!["x".to_string()],
        },
    };
    let layout = build_layout(&diff, &t, 3, 4, &BuildOptions::default(), &RustFlavor);
    match layout.get(layout.root).unwrap() {
        LayoutNode::Element { tag, attrs, changed_groups, .. } => {
            // A struct without XML attributes is marked as standing for something else
            assert_eq!(tag.as_str(), "@Point");
            assert_eq!(attrs.len(), 2);
            assert_eq!(attrs[0].name.as_str(), "x");
            assert_eq!(attrs[1].name.as_str(), "y");
            assert!(attrs[1].is_changed());
            assert!(!attrs[0].is_changed());
            assert_eq!(changed_groups.len(), 1);
        }
        _ => panic!("expected Element node"),
    }
    assert_eq!(layout.children(layout.root).len(), 0);
    let output = render_to_string(&layout, &RenderOptions::plain(), &RustFlavor);
    assert!(output.contains('2') && output.contains('5'), "{}", output);
}

#[test]
fn many_unchanged_fields_collapse() {
    let t = table_of(vec![point(0, 0), point(0, 0)], vec![point_shape()]);
    let names: Vec<String> = ["a", "b", "c", "d", "e", "f"].iter().map(|s| s.to_string()).collect();
    let diff: Diff<usize, usize> = Diff::User {
        from: 0,
        to: 0,
        variant: None,
        value: rediff::Value::Struct { updates: vec![], deletions: vec![], insertions: vec![], unchanged: names },
    };
    let layout = build_layout(&diff, &t, 0, 1, &BuildOptions::default(), &RustFlavor);
    let kids = layout.children(layout.root);
    assert_eq!(kids.len(), 1);
    assert!(matches!(layout.get(kids[0]).unwrap(), LayoutNode::Collapsed { count: 6 }));
}

#[test]
fn sequence_diff_lists_removed_and_added_items() {
    // values: 0 = 1, 1 = 2, 2 = 3
    let t = table_of(vec![number("1"), number("2"), number("3")], vec![]);
    let group = rediff::UpdatesGroup(rediff::Interspersed {
        first: Some(rediff::ReplaceGroup { removals: vec![1], additions: vec![2] }),
        values: vec![],
        last: None,
    });
    let updates = rediff::Updates(rediff::Interspersed { first: Some(group), values: vec![], last: Some(vec![0]) });
    let diff: Diff<usize, usize> = Diff::Sequence { from: 0, to: 0, updates };
    let layout = build_layout(&diff, &t, 0, 0, &BuildOptions::default(), &RustFlavor);
    match layout.get(layout.root).unwrap() {
        LayoutNode::Sequence { item_type, .. } => assert_eq!(*item_type, "item"),
        _ => panic!("expected Sequence node"),
    }
    let kids = layout.children(layout.root);
    assert_eq!(kids.len(), 3);
    let changes: Vec<_> = kids.iter().map(|k| layout.get(*k).unwrap().change()).collect();
    assert_eq!(
        changes,
        vec![
            rediff::layout::ElementChange::Deleted,
            rediff::layout::ElementChange::Inserted,
            rediff::layout::ElementChange::Unchanged
        ]
    );
}

/// The text of an attribute's value shown whole (deleted, inserted or unchanged).
fn attr_text(layout: &rediff::layout::Layout, a: &rediff::layout::Attr) -> String {
    match &a.status {
        rediff::layout::AttrStatus::Deleted { value }
        | rediff::layout::AttrStatus::Inserted { value }
        | rediff::layout::AttrStatus::Unchanged { value } => layout.strings.get(value.span).to_string(),
        rediff::layout::AttrStatus::Changed { .. } => panic!("expected a value shown whole"),
    }
}

#[test]
fn replaced_struct_field_shows_old_then_new() {
    // values: 0 = 1, 1 = 2, 2 = 3, 3 = 4, 4 = Point { x: 1, y: 2 }, 5 = Point { x: 3, y: 4 },
    // 6 = outer { p: Point { x: 1, y: 2 } }, 7 = outer { p: Point { x: 3, y: 4 } }
    let outer = |p: usize| ValueDesc {
        kind: ValueKind::Struct { named: true, fields: vec![("p", p)] },
        display_name: "Outer",
        has_xml_attrs: false,
        empty_collection: false,
        first_item_name: None,
        scalar: ScalarText::Other("Outer".to_string()),
        value_type: ValueType::Other,
        precise_float: None,
    };
    let t = table_of(
        vec![number("1"), number("2"), number("3"), number("4"), point(0, 1), point(2, 3), outer(4), outer(5)],
        vec![ShapeDesc { is_option: false, is_struct: true, display_name: "Outer", has_xml_attrs: false, variants: None }],
    );
    let diff: Diff<usize, usize> = Diff::User {
        from: 0,
        to: 0,
        variant: None,
        value: rediff::Value::Struct {
            updates: vec![("p".to_string(), Diff::Replace { from: 4, to: 5 })],
            deletions: vec![],
            insertions: vec![],
            unchanged: vec![],
        },
    };
    let layout = build_layout(&diff, &t, 6, 7, &BuildOptions::default(), &RustFlavor);
    let kids = layout.children(layout.root);
    assert_eq!(kids.len(), 2);
    let expected = [(rediff::layout::ElementChange::Deleted, ["1", "2"]), (rediff::layout::ElementChange::Inserted, ["3", "4"])];
    for (kid, (change, texts)) in kids.iter().zip(expected.iter()) {
        match layout.get(*kid).unwrap() {
            LayoutNode::Element { tag, field_name, attrs, change: c, .. } => {
                assert_eq!(tag.as_str(), "@Point");
                assert_eq!(field_name.as_deref(), Some("p"));
                assert_eq!(c, change);
                assert_eq!(attrs.len(), 2);
                assert_eq!(attr_text(&layout, &attrs[0]), texts[0]);
                assert_eq!(attr_text(&layout, &attrs[1]), texts[1]);
            }
            _ => panic!("expected Element node"),
        }
    }
}

#[test]
fn sequence_nested_diff_comes_before_items() {
    // values: 0 = 1, 1 = 2, 2 = 3
    let t = table_of(vec![number("1"), number("2"), number("3")], vec![]);
    let group = rediff::UpdatesGroup(rediff::Interspersed {
        first: None,
        values: vec![],
        last: Some(vec![Diff::Replace { from: 0, to: 1 }]),
    });
    let updates = rediff::Updates(rediff::Interspersed { first: Some(group), values: vec![], last: Some(vec![2]) });
    let diff: Diff<usize, usize> = Diff::Sequence { from: 0, to: 0, updates };
    let layout = build_layout(&diff, &t, 0, 0, &BuildOptions::default(), &RustFlavor);
    let kids = layout.children(layout.root);
    assert_eq!(kids.len(), 2);
    match layout.get(kids[0]).unwrap() {
        LayoutNode::Element { tag, .. } => assert_eq!(tag.as_str(), "_replace"),
        _ => panic!("expected Element node"),
    }
    let inner = layout.children(kids[0]);
    assert_eq!(inner.len(), 2);
    let texts: Vec<String> = inner
        .iter()
        .map(|k| match layout.get(*k).unwrap() {
            LayoutNode::Text { value, .. } => layout.strings.get(value.span).to_string(),
            _ => panic!("expected Text node"),
        })
        .collect();
    assert_eq!(texts, vec!["1".to_string(), "2".to_string()]);
    match layout.get(kids[1]).unwrap() {
        LayoutNode::Text { value, change } => {
            assert_eq!(layout.strings.get(value.span), "3");
            assert_eq!(*change, rediff::layout::ElementChange::Unchanged);
        }
        _ => panic!("expected Text node"),
    }
}

#[test]
fn option_with_one_nested_change_stands_for_itself() {
    // values: 0 = 1, 1 = 2
    let t = table_of(
        vec![number("1"), number("2")],
        vec![ShapeDesc { is_option: true, is_struct: false, display_name: "Option", has_xml_attrs: false, variants: None }],
    );
    let group = rediff::UpdatesGroup(rediff::Interspersed {
        first: None,
        values: vec![],
        last: Some(vec![Diff::Replace { from: 0, to: 1 }]),
    });
    let updates = rediff::Updates(rediff::Interspersed { first: Some(group), values: vec![], last: None });
    let diff: Diff<usize, usize> =
        Diff::User { from: 0, to: 0, variant: Some("Some"), value: rediff::Value::Tuple { updates } };
    let layout = build_layout(&diff, &t, 0, 1, &BuildOptions::default(), &RustFlavor);
    match layout.get(layout.root).unwrap() {
        LayoutNode::Element { tag, .. } => assert_eq!(tag.as_str(), "_replace"),
        _ => panic!("expected Element node"),
    }
    assert_eq!(layout.children(layout.root).len(), 2);
}

#[test]
fn enum_variant_replacing_its_struct_compares_fields() {
    // values: 0 = 1, 1 = 2, 2 = 5, 3 = Point { x: 1, y: 2 }, 4 = Point { x: 1, y: 5 }
    let t = table_of(
        vec![number("1"), number("2"), number("5"), point(0, 1), point(0, 2)],
        vec![ShapeDesc {
            is_option: false,
            is_struct: false,
            display_name: "Shape",
            has_xml_attrs: false,
            variants: Some(vec![("Circle", "round")]),
        }],
    );
    let group = rediff::UpdatesGroup(rediff::Interspersed {
        first: Some(rediff::ReplaceGroup { removals: vec![3], additions: vec![4] }),
        values: vec![],
        last: None,
    });
    let updates = rediff::Updates(rediff::Interspersed { first: Some(group), values: vec![], last: None });
    let diff: Diff<usize, usize> =
        Diff::User { from: 0, to: 0, variant: Some("Circle"), value: rediff::Value::Tuple { updates } };
    let layout = build_layout(&diff, &t, 3, 4, &BuildOptions::default(), &RustFlavor);
    match layout.get(layout.root).unwrap() {
        LayoutNode::Element { tag, attrs, .. } => {
            assert_eq!(tag.as_str(), "round");
            assert_eq!(attrs.len(), 2);
            assert_eq!(attrs[0].name.as_str(), "x");
            assert!(!attrs[0].is_changed());
            assert_eq!(attr_text(&layout, &attrs[0]), "1");
            assert_eq!(attrs[1].name.as_str(), "y");
            match &attrs[1].status {
                rediff::layout::AttrStatus::Changed { old, new } => {
                    assert_eq!(layout.strings.get(old.span), "2");
                    assert_eq!(layout.strings.get(new.span), "5");
                }
                _ => panic!("expected a changed attribute"),
            }
        }
        _ => panic!("expected Element node"),
    }
    assert_eq!(layout.children(layout.root).len(), 0);
}
