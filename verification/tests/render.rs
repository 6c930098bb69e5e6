use indextree::Arena;
use rediff::layout::arena::FormatArena;
use rediff::layout::attrs::{group_changed_attrs, Attr, FormattedValue, ValueType};
use rediff::layout::backend::{AnsiBackend, AnsiColors};
use rediff::layout::flavor::{JsonFlavor, RustFlavor, XmlFlavor};
use rediff::layout::node::{ElementChange, Layout, LayoutNode};
use rediff::layout::render::{render, render_to_string, RenderOptions};

fn make_test_layout() -> Layout {
    let mut strings = FormatArena::new();
    let tree = Arena::new();

    // Create a simple element with one changed attribute
    let (red_span, red_width) = strings.push_str("red");
    let (blue_span, blue_width) = strings.push_str("blue");

    let fill_attr = Attr::changed(
        "fill",
        4,
        FormattedValue::new(red_span, red_width),
        FormattedValue::new(blue_span, blue_width),
    );

    let attrs = vec![fill_attr];
    let changed_groups = group_changed_attrs(&attrs, 80, 0);

    let root = LayoutNode::Element {
        tag: "rect".to_string(),
        field_name: None,
        attrs,
        changed_groups,
        change: ElementChange::Unchanged,
    };

    Layout::new(strings, tree, root)
}

#[test]
fn test_render_simple_change() {
    let layout = make_test_layout();
    let opts = RenderOptions::plain();
    let output = render_to_string(&layout, &opts, &XmlFlavor);

    // With inline element diff, the format uses ← / → for changed state:
    // ← <rect fill="red"  />
    // → <rect fill="blue" />
    assert!(output.contains("← <rect fill=\"red\""));
    assert!(output.contains("→ <rect fill=\"blue\""));
    assert!(output.contains("/>"));
}

#[test]
fn render_simple_change_exact() {
    let layout = make_test_layout();
    let output = render_to_string(&layout, &RenderOptions::plain(), &XmlFlavor);
    // the old value is padded to the slot of the wider new value
    assert_eq!(output, "  ← <rect fill=\"red\"  />\n  → <rect fill=\"blue\" />\n");
}

#[test]
fn test_render_collapsed() {
    let strings = FormatArena::new();
    let tree = Arena::new();

    let root = LayoutNode::collapsed(5);
    let layout = Layout::new(strings, tree, root);

    let opts = RenderOptions::plain();
    let output = render_to_string(&layout, &opts, &XmlFlavor);

    assert!(output.contains("<!-- 5 unchanged -->"));
}

#[test]
fn render_collapsed_exact_per_flavor() {
    let layout = Layout::new(FormatArena::new(), Arena::new(), LayoutNode::collapsed(12));
    assert_eq!(render_to_string(&layout, &RenderOptions::plain(), &RustFlavor), "    /* 12 unchanged */\n");
    assert_eq!(render_to_string(&layout, &RenderOptions::plain(), &JsonFlavor), "    // 12 unchanged\n");
}

#[test]
fn test_render_with_children() {
    let mut strings = FormatArena::new();
    let mut tree = Arena::new();

    // Parent element
    let parent = tree.new_node(LayoutNode::Element {
        tag: "svg".to_string(),
        field_name: None,
        attrs: vec![],
        changed_groups: vec![],
        change: ElementChange::Unchanged,
    });

    // Child element with change
    let (red_span, red_width) = strings.push_str("red");
    let (blue_span, blue_width) = strings.push_str("blue");

    let fill_attr = Attr::changed(
        "fill",
        4,
        FormattedValue::new(red_span, red_width),
        FormattedValue::new(blue_span, blue_width),
    );
    let attrs = vec![fill_attr];
    let changed_groups = group_changed_attrs(&attrs, 80, 0);

    let child = tree.new_node(LayoutNode::Element {
        tag: "rect".to_string(),
        field_name: None,
        attrs,
        changed_groups,
        change: ElementChange::Unchanged,
    });

    parent.append(child, &mut tree);

    let layout = Layout { strings, tree, root: parent };

    let opts = RenderOptions::plain();
    let output = render_to_string(&layout, &opts, &XmlFlavor);

    assert!(output.contains("<svg>"));
    assert!(output.contains("</svg>"));
    assert!(output.contains("<rect"));
}

#[test]
fn render_with_children_exact() {
    let mut strings = FormatArena::new();
    let (v, w) = strings.push_str("7");
    let mut layout = Layout::new(strings, Arena::new(), LayoutNode::element("Point"));
    let root = layout.root;
    layout.add_child(root, LayoutNode::text(FormattedValue::with_type(v, w, ValueType::Number), ElementChange::Inserted));
    let out = render_to_string(&layout, &RenderOptions::plain(), &RustFlavor);
    // opening line, the child one level deeper with its prefix, closing line
    assert_eq!(out, "    Point {\n        + 7\n    }\n");
}

#[test]
fn render_sequence_and_items() {
    let mut strings = FormatArena::new();
    let (a, wa) = strings.push_str("1");
    let (b, wb) = strings.push_str("2");
    let mut layout = Layout::new(strings, Arena::new(), LayoutNode::sequence(ElementChange::Unchanged, "i32"));
    let root = layout.root;
    let items = vec![FormattedValue::new(a, wa), FormattedValue::new(b, wb)];
    layout.add_child(root, LayoutNode::item_group(items, ElementChange::Deleted, Some(4), "i32"));
    let out = render_to_string(&layout, &RenderOptions::plain(), &RustFlavor);
    // items in the gutter with their prefix, then the count left out
    assert_eq!(out, "    [\n      - 1, 2 /* 4 more */\n    ]\n");
    let xml = render_to_string(&layout, &RenderOptions::plain(), &XmlFlavor);
    assert_eq!(xml, "    \n      - <i32>1</i32> <i32>2</i32> <!-- 4 more -->\n    \n");
}

#[test]
fn render_empty_sequence() {
    // An unchanged empty sequence without a field name renders nothing
    let layout = Layout::new(FormatArena::new(), Arena::new(), LayoutNode::sequence(ElementChange::Unchanged, "i32"));
    assert_eq!(render_to_string(&layout, &RenderOptions::plain(), &RustFlavor), "");
    // A deleted one shows its brackets
    let gone = Layout::new(FormatArena::new(), Arena::new(), LayoutNode::sequence(ElementChange::Deleted, "i32"));
    assert_eq!(render_to_string(&gone, &RenderOptions::plain(), &RustFlavor), "    - []\n");
}

fn attrs_layout(attrs: Vec<Attr>, strings: FormatArena) -> Layout {
    let root = LayoutNode::Element {
        tag: "P".to_string(),
        field_name: None,
        attrs,
        changed_groups: vec![],
        change: ElementChange::Unchanged,
    };
    Layout::new(strings, Arena::new(), root)
}

#[test]
fn render_deleted_and_inserted_attrs_inline() {
    let mut strings = FormatArena::new();
    let (x, wx) = strings.push_str("1");
    let (y, wy) = strings.push_str("2");
    let (z, wz) = strings.push_str("3");
    let attrs = vec![
        Attr::deleted("x", 1, FormattedValue::new(x, wx)),
        Attr::inserted("y", 1, FormattedValue::new(y, wy)),
        Attr::unchanged("z", 1, FormattedValue::new(z, wz)),
    ];
    let layout = attrs_layout(attrs, strings);
    let out = render_to_string(&layout, &RenderOptions::plain(), &RustFlavor);
    // A deletion and an insertion fit one line: each side marks the missing slot
    assert_eq!(out, "  ← P { x: 1, ∅   , z: 3 }\n  → P { ∅   , y: 2, z: 3 }\n");
}

#[test]
fn render_pure_deletion_on_own_lines() {
    let mut strings = FormatArena::new();
    let (x, wx) = strings.push_str("1");
    let (z, wz) = strings.push_str("3");
    let attrs = vec![
        Attr::deleted("x", 1, FormattedValue::new(x, wx)),
        Attr::unchanged("z", 1, FormattedValue::new(z, wz)),
    ];
    let layout = attrs_layout(attrs, strings);
    let out = render_to_string(&layout, &RenderOptions::plain(), &RustFlavor);
    // A pure deletion: the deleted field on its own - line, the unchanged ones together
    assert_eq!(out, "    P {\n      - x: 1,\n        z: 3,\n    }\n");
}

#[test]
fn render_changed_group_lines() {
    let mut strings = FormatArena::new();
    let (a0, wa0) = strings.push_str("1");
    let (a1, wa1) = strings.push_str("100");
    let (b0, wb0) = strings.push_str("xx");
    let (b1, wb1) = strings.push_str("y");
    let attrs = vec![
        Attr::changed("a", 1, FormattedValue::new(a0, wa0), FormattedValue::new(a1, wa1)),
        Attr::changed("b", 1, FormattedValue::new(b0, wb0), FormattedValue::new(b1, wb1)),
    ];
    let groups = group_changed_attrs(&attrs, 80, 4);
    let root = LayoutNode::Element {
        tag: "Q".to_string(),
        field_name: None,
        attrs,
        changed_groups: groups,
        change: ElementChange::Unchanged,
    };
    let mut layout = Layout::new(strings, Arena::new(), root);
    let r = layout.root;
    // A child keeps the element from the inline form
    layout.add_child(r, LayoutNode::collapsed(2));
    let out = render_to_string(&layout, &RenderOptions::plain(), &RustFlavor);
    // each value padded to the wider of its old and new value, but not the last
    assert_eq!(
        out,
        "    Q {\n      ← a: 1  , b: xx\n      → a: 100, b: y\n    \n        /* 2 unchanged */\n    }\n"
    );
}

#[test]
fn render_appends_to_buffer() {
    let layout = Layout::new(FormatArena::new(), Arena::new(), LayoutNode::collapsed(1));
    let mut out = String::from(">>");
    render(&layout, &mut out, &RenderOptions::plain(), &XmlFlavor);
    assert_eq!(out, ">>    <!-- 1 unchanged -->\n");
}

#[test]
fn test_ansi_backend_produces_escapes() {
    let layout = make_test_layout();
    let colors = AnsiColors {
        foregrounds: (0..25u8).map(|i| (i, i, i)).collect(),
        backgrounds: vec![Some((1, 2, 3)); 6],
    };
    let opts = RenderOptions::with_backend(AnsiBackend::new(colors).unwrap());
    let output = render_to_string(&layout, &opts, &XmlFlavor);

    // Should contain ANSI escape codes
    assert!(output.contains("\x1b["), "output should contain ANSI escapes");
}
