use rediff::{explain_confusable_differences, Diff, Interspersed, ReplaceGroup, Updates, UpdatesGroup, Value};

fn fg(text: &str, rgb: (u8, u8, u8)) -> String {
    format!("\x1b[38;2;{};{};{}m{}\x1b[39m", rgb.0, rgb.1, rgb.2, text)
}

fn muted(t: &str) -> String {
    fg(t, (86, 95, 137))
}

fn deleted(t: &str) -> String {
    fg(t, (247, 118, 142))
}

fn inserted(t: &str) -> String {
    fg(t, (115, 218, 202))
}

fn field(t: &str) -> String {
    fg(t, (115, 218, 202))
}

fn punct(t: &str) -> String {
    fg(t, (86, 95, 137))
}

fn show_num(p: i32) -> String {
    format!("{}", p)
}

fn no_text(_p: i32) -> Option<String> {
    None
}

fn num_eq(a: i32, b: i32) -> bool {
    a == b
}

fn render(d: &Diff<i32, ()>) -> String {
    d.to_display_string(show_num, no_text, num_eq)
}

fn single_replace(from: i32, to: i32) -> Updates<i32, ()> {
    Updates(Interspersed {
        first: Some(UpdatesGroup(Interspersed {
            first: Some(ReplaceGroup { removals: vec![from], additions: vec![to] }),
            values: vec![],
            last: None,
        })),
        values: vec![],
        last: None,
    })
}

#[test]
fn equal_diff_is_structurally_equal() {
    let d: Diff<i32, ()> = Diff::Equal { value: Some(1) };
    assert_eq!(render(&d), muted("(structurally equal)"));
}

#[test]
fn replace_is_shown_inline() {
    let d: Diff<i32, ()> = Diff::Replace { from: 1, to: 2 };
    assert_eq!(render(&d), format!("{} \u{2192} {}", deleted("1"), inserted("2")));
}

#[test]
fn confusable_strings_are_explained() {
    let d: Diff<&str, ()> = Diff::Replace { from: "p\u{0430}yp\u{0430}l", to: "paypal" };
    let out = d.to_display_string(|p: &str| format!("{:?}", p), |p: &str| Some(p.to_string()), |a: &str, b: &str| a == b);
    let expected = format!(
        "{} \u{2192} {}\n{}",
        deleted("\"p\u{0430}yp\u{0430}l\""),
        inserted("\"paypal\""),
        explain_confusable_differences("p\u{0430}yp\u{0430}l", "paypal")
    );
    assert_eq!(out, expected);
    assert!(out.contains("differ in 2 positions"));
}

#[test]
fn unrelated_strings_get_no_explanation() {
    let d: Diff<&str, ()> = Diff::Replace { from: "abc", to: "xyz" };
    let out = d.to_display_string(|p: &str| format!("{:?}", p), |p: &str| Some(p.to_string()), |a: &str, b: &str| a == b);
    assert_eq!(out, format!("{} \u{2192} {}", deleted("\"abc\""), inserted("\"xyz\"")));
}

#[test]
fn struct_fields_are_sorted_and_indented() {
    let d: Diff<i32, ()> = Diff::User {
        from: (),
        to: (),
        variant: None,
        value: Value::Struct {
            updates: vec![("b".to_string(), Diff::Replace { from: 1, to: 2 }), ("a".to_string(), Diff::Replace { from: 3, to: 4 })],
            deletions: vec![("z".to_string(), 5)],
            insertions: vec![("y".to_string(), 6)],
            unchanged: vec!["c".to_string(), "d".to_string()],
        },
    };
    let expected = format!(
        "{}\n    {}\n    {}{} {} \u{2192} {}\n    {}{} {} \u{2192} {}\n    {} {}{} {}\n    {} {}{} {}\n{}",
        punct("{"),
        muted(".. 2 unchanged fields"),
        field("a"),
        punct(":"),
        deleted("3"),
        inserted("4"),
        field("b"),
        punct(":"),
        deleted("1"),
        inserted("2"),
        deleted("-"),
        field("z"),
        punct(":"),
        deleted("5"),
        inserted("+"),
        field("y"),
        punct(":"),
        inserted("6"),
        punct("}")
    );
    assert_eq!(render(&d), expected);
}

#[test]
fn struct_without_changes_is_structurally_equal() {
    let d: Diff<i32, ()> = Diff::User {
        from: (),
        to: (),
        variant: Some("Point"),
        value: Value::Struct { updates: vec![], deletions: vec![], insertions: vec![], unchanged: vec!["x".to_string()] },
    };
    assert_eq!(render(&d), format!("\x1b[1mPoint\x1b[0m{}", muted("(structurally equal)")));
}

#[test]
fn one_unchanged_field_is_singular() {
    let d: Diff<i32, ()> = Diff::User {
        from: (),
        to: (),
        variant: Some("V"),
        value: Value::Struct {
            updates: vec![("x".to_string(), Diff::Replace { from: 1, to: 2 })],
            deletions: vec![],
            insertions: vec![],
            unchanged: vec!["y".to_string()],
        },
    };
    let expected = format!(
        "\x1b[1mV\x1b[0m {}\n    {}\n    {}{} {} \u{2192} {}\n{}",
        punct("{"),
        muted(".. 1 unchanged field"),
        field("x"),
        punct(":"),
        deleted("1"),
        inserted("2"),
        punct("}")
    );
    assert_eq!(render(&d), expected);
}

#[test]
fn option_some_stays_on_one_line() {
    let d: Diff<i32, ()> = Diff::User { from: (), to: (), variant: Some("Some"), value: Value::Tuple { updates: single_replace(1, 2) } };
    assert_eq!(render(&d), format!("\x1b[1mSome\x1b[0m {} \u{2192} {}\n", deleted("1"), inserted("2")));
}

#[test]
fn tuple_with_several_changes_is_parenthesized() {
    let updates = Updates(Interspersed {
        first: Some(UpdatesGroup(Interspersed {
            first: Some(ReplaceGroup { removals: vec![1], additions: vec![2] }),
            values: vec![],
            last: None,
        })),
        values: vec![(vec![7], UpdatesGroup(Interspersed {
            first: Some(ReplaceGroup { removals: vec![3], additions: vec![4] }),
            values: vec![],
            last: None,
        }))],
        last: None,
    });
    let d: Diff<i32, ()> = Diff::User { from: (), to: (), variant: None, value: Value::Tuple { updates } };
    let expected = format!(
        "(\n    {} \u{2192} {}\n    {}\n    {} \u{2192} {}\n)",
        deleted("1"),
        inserted("2"),
        muted(".. 1 unchanged item"),
        deleted("3"),
        inserted("4")
    );
    assert_eq!(render(&d), expected);
}

#[test]
fn sequence_collapses_unchanged_runs() {
    let updates: Updates<i32, ()> = Updates(Interspersed {
        first: None,
        values: vec![(vec![10, 11], UpdatesGroup(Interspersed {
            first: None,
            values: vec![],
            last: Some(vec![Diff::Equal { value: None }, Diff::Equal { value: None }, Diff::Replace { from: 3, to: 4 }]),
        }))],
        last: Some(vec![12]),
    });
    let d: Diff<i32, ()> = Diff::Sequence { from: (), to: (), updates };
    let expected = format!(
        "{}\n    {}\n    {}\n    {} \u{2192} {}\n    {}\n{}",
        punct("["),
        muted(".. 2 unchanged items"),
        muted(".. 2 unchanged items"),
        deleted("3"),
        inserted("4"),
        muted(".. 1 unchanged item"),
        punct("]")
    );
    assert_eq!(render(&d), expected);
}

#[test]
fn nested_structures_indent_further() {
    let inner = Diff::Sequence {
        from: (),
        to: (),
        updates: Updates(Interspersed {
            first: Some(UpdatesGroup(Interspersed {
                first: Some(ReplaceGroup { removals: vec![1], additions: vec![] }),
                values: vec![],
                last: None,
            })),
            values: vec![],
            last: None,
        }),
    };
    let d: Diff<i32, ()> = Diff::User {
        from: (),
        to: (),
        variant: None,
        value: Value::Struct { updates: vec![("xs".to_string(), inner)], deletions: vec![], insertions: vec![], unchanged: vec![] },
    };
    let expected = format!(
        "{}\n    {}{} {}\n        {}\n    {}\n{}",
        punct("{"),
        field("xs"),
        punct(":"),
        punct("["),
        deleted("- 1"),
        punct("]"),
        punct("}")
    );
    assert_eq!(render(&d), expected);
}

#[test]
fn replace_group_lines() {
    let g = ReplaceGroup { removals: vec![1, 2], additions: vec![3] };
    assert_eq!(
        g.to_display_string(show_num, num_eq),
        format!("{}\n{}\n{}\n", deleted("- 1"), deleted("- 2"), inserted("+ 3"))
    );
}

#[test]
fn equal_one_for_one_replacement_is_muted() {
    let g = ReplaceGroup { removals: vec![5], additions: vec![5] };
    assert_eq!(g.to_display_string(show_num, num_eq), format!("{}\n", muted("5")));
    let g = ReplaceGroup { removals: vec![5], additions: vec![6] };
    assert_eq!(g.to_display_string(show_num, num_eq), format!("{} \u{2192} {}\n", deleted("5"), inserted("6")));
}

#[test]
fn updates_text_counts_trailing_items() {
    let u: Updates<i32, ()> = Updates(Interspersed { first: None, values: vec![], last: Some(vec![1, 2, 3]) });
    assert_eq!(u.to_display_string(show_num, no_text, num_eq), format!("{}\n", muted(".. 3 unchanged items")));
    let g: UpdatesGroup<i32, ()> = UpdatesGroup(Interspersed { first: None, values: vec![], last: Some(vec![Diff::Equal { value: None }]) });
    assert_eq!(g.to_display_string(show_num, no_text, num_eq), format!("{}\n", muted(".. 1 unchanged item")));
}
