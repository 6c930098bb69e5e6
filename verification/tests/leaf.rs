use rediff::{
    collect_leaf_items, format_diff, resolve_nested, Diff, DiffFormat, Interspersed, LeafChange, LeafChangeKind,
    LeafItem, Path, PathSegment, ReplaceGroup, Updates, UpdatesGroup, Value,
};

/// Values are integers; a shape is `true` when it is an `Option` type.
type D = Diff<i32, bool>;

fn describe(items: &[LeafItem<i32>]) -> Vec<String> {
    items
        .iter()
        .map(|i| match i {
            LeafItem::Change(c) => match c.kind {
                LeafChangeKind::Replace { from, to } => format!("{}: {} -> {}", c.path.to_display_string(), from, to),
                LeafChangeKind::Delete { value } => format!("{}: - {}", c.path.to_display_string(), value),
                LeafChangeKind::Insert { value } => format!("{}: + {}", c.path.to_display_string(), value),
            },
            LeafItem::Nested { path, from, to } => format!("{}: ? {} {}", path.to_display_string(), from, to),
        })
        .collect()
}

fn group(first: Option<ReplaceGroup<i32>>, values: Vec<(Vec<D>, ReplaceGroup<i32>)>, last: Option<Vec<D>>) -> UpdatesGroup<i32, bool> {
    UpdatesGroup(Interspersed { first, values, last })
}

fn repl(removals: Vec<i32>, additions: Vec<i32>) -> ReplaceGroup<i32> {
    ReplaceGroup { removals, additions }
}

#[test]
fn leaves_of_a_struct() {
    // [1, 2, 5, 9] -> [1, 2, 6, 9]: the third element is replaced
    let seq_updates: Updates<i32, bool> = Updates(Interspersed {
        first: None,
        values: vec![(vec![1, 2], group(Some(repl(vec![5], vec![6])), vec![], None))],
        last: Some(vec![9]),
    });
    let diff: D = Diff::User {
        from: false,
        to: false,
        variant: None,
        value: Value::Struct {
            updates: vec![
                ("a".to_string(), Diff::Replace { from: 1, to: 2 }),
                ("b".to_string(), Diff::Sequence { from: false, to: false, updates: seq_updates }),
                ("e".to_string(), Diff::Equal { value: Some(0) }),
            ],
            deletions: vec![("c".to_string(), 3)],
            insertions: vec![("d".to_string(), 4)],
            unchanged: vec![],
        },
    };
    let items = collect_leaf_items(&diff, &Path::new(), |s: bool| s);
    assert_eq!(describe(&items), vec!["a: 1 -> 2", "b.2: ? 5 6", "c: - 3", "d: + 4"]);
}

#[test]
fn leaves_of_sequences_with_uneven_groups() {
    // two removals, one addition: deletions then the insertion, indices advancing
    let u: Updates<i32, bool> = Updates(Interspersed {
        first: Some(group(Some(repl(vec![7, 8], vec![9])), vec![], Some(vec![Diff::Replace { from: 1, to: 2 }]))),
        values: vec![],
        last: None,
    });
    let diff: D = Diff::Sequence { from: false, to: false, updates: u };
    let items = collect_leaf_items(&diff, &Path::new().with(PathSegment::Field("xs".to_string())), |s: bool| s);
    assert_eq!(describe(&items), vec!["xs.0: - 7", "xs.1: - 8", "xs.2: + 9", "xs.3: 1 -> 2"]);
}

#[test]
fn option_some_is_left_out_of_the_path() {
    let u: Updates<i32, bool> = Updates(Interspersed {
        first: Some(group(Some(repl(vec![1], vec![2])), vec![], None)),
        values: vec![],
        last: None,
    });
    let diff: D = Diff::User { from: true, to: true, variant: Some("Some"), value: Value::Tuple { updates: u } };
    let base = Path::new().with(PathSegment::Field("opt".to_string()));
    let items = collect_leaf_items(&diff, &base, |s: bool| s);
    assert_eq!(describe(&items), vec!["opt: ? 1 2"]);
    // For a shape that is not an Option the variant and the index show
    let u2: Updates<i32, bool> = Updates(Interspersed {
        first: Some(group(Some(repl(vec![1], vec![2])), vec![], None)),
        values: vec![],
        last: None,
    });
    let tuple: D = Diff::User { from: false, to: false, variant: Some("Some"), value: Value::Tuple { updates: u2 } };
    let items = collect_leaf_items(&tuple, &base, |s: bool| s);
    assert_eq!(describe(&items), vec!["opt::Some.0: ? 1 2"]);
}

#[test]
fn equal_diff_has_no_leaves() {
    let diff: D = Diff::Equal { value: Some(3) };
    assert!(collect_leaf_items(&diff, &Path::new(), |s: bool| s).is_empty());
}

#[test]
fn nested_items_resolve_by_their_diff() {
    let path = Path::new().with(PathSegment::Index(4));
    let replaced: D = Diff::Replace { from: 1, to: 2 };
    assert_eq!(describe(&resolve_nested(&path, 1, 2, &replaced, |s: bool| s)), vec!["4: 1 -> 2"]);
    let inner: D = Diff::User {
        from: false,
        to: false,
        variant: None,
        value: Value::Struct {
            updates: vec![("x".to_string(), Diff::Replace { from: 5, to: 6 })],
            deletions: vec![],
            insertions: vec![],
            unchanged: vec!["y".to_string()],
        },
    };
    assert_eq!(describe(&resolve_nested(&path, 1, 2, &inner, |s: bool| s)), vec!["4.x: 5 -> 6"]);
}

fn change(path: Path, kind: LeafChangeKind<String>) -> LeafChange<String> {
    LeafChange { path, kind }
}

#[test]
fn leaf_change_formats() {
    let p = Path::new().with(PathSegment::Field("a".to_string()));
    let c = change(p.clone(), LeafChangeKind::Replace { from: "1".to_string(), to: "2".to_string() });
    assert_eq!(c.format_plain(), "a: 1 → 2");
    assert_eq!(
        c.format_colored(),
        "\x1b[38;2;115;218;202ma\x1b[39m: \x1b[38;2;247;118;142m1\x1b[39m \x1b[38;2;86;95;137m→\x1b[39m \x1b[38;2;115;218;202m2\x1b[39m"
    );
    let d = change(Path::new(), LeafChangeKind::Delete { value: "x".to_string() });
    assert_eq!(d.format_plain(), "- x");
    let i = change(p, LeafChangeKind::Insert { value: "y".to_string() });
    assert_eq!(i.format_plain(), "a: + y");
}

#[test]
fn compact_formatting() {
    let diff: D = Diff::Replace { from: 1, to: 2 };
    let plain = DiffFormat { colors: false, max_inline_changes: 2, prefer_compact: true };
    let changes: Vec<LeafChange<String>> = (0..3)
        .map(|i| change(Path::new().with(PathSegment::Index(i)), LeafChangeKind::Delete { value: i.to_string() }))
        .collect();
    // more changes than the limit: the first ones and a summary
    assert_eq!(format_diff(&diff, &changes, &plain), Some("0: - 0\n1: - 1\n... and 1 more change".to_string()));
    // within the limit: all of them
    let wide = DiffFormat { max_inline_changes: 3, ..plain };
    assert_eq!(format_diff(&diff, &changes, &wide), Some("0: - 0\n1: - 1\n2: - 2".to_string()));
    // within the limit without preferring compact: the tree format
    let tree = DiffFormat { prefer_compact: false, ..wide };
    assert_eq!(format_diff(&diff, &changes, &tree), None);
    // an equal diff has no changes
    let eq: D = Diff::Equal { value: None };
    assert_eq!(format_diff(&eq, &changes, &plain), Some("(no changes)".to_string()));
    assert_eq!(format_diff(&diff, &vec![], &plain), Some("(no changes)".to_string()));
    let colored = DiffFormat::default();
    assert_eq!(format_diff(&eq, &changes, &colored), Some("\x1b[38;2;86;95;137m(no changes)\x1b[39m".to_string()));
    let none_inline = DiffFormat { max_inline_changes: 0, ..plain };
    assert_eq!(format_diff(&diff, &changes, &none_inline), Some("\n... and 3 more changes".to_string()));
}
