use rediff::layout::arena::Span;
use rediff::layout::attrs::{group_changed_attrs, Attr, AttrStatus, ChangedGroup, FormattedValue, ValueType};

fn make_changed_attr(name: &'static str, old_width: usize, new_width: usize) -> Attr {
    Attr::changed(
        name,
        name.len(),
        FormattedValue::new(Span::default(), old_width),
        FormattedValue::new(Span::default(), new_width),
    )
}

#[test]
fn test_attr_line_width() {
    // fill="red" -> 4 + 2 + 3 + 1 = 10
    let attr = make_changed_attr("fill", 3, 4);
    assert_eq!(attr.line_width(), 4 + 2 + 4 + 1); // uses max(old, new)
}

#[test]
fn test_group_single_attr() {
    let attrs = vec![make_changed_attr("fill", 3, 4)];
    let groups = group_changed_attrs(&attrs, 80, 0);

    assert_eq!(groups.len(), 1);
    assert_eq!(groups[0].attr_indices, vec![0]);
}

#[test]
fn test_group_multiple_fit_one_line() {
    // fill="red" x="10" -> fits in 80 chars
    let attrs = vec![make_changed_attr("fill", 3, 4), make_changed_attr("x", 2, 2)];
    let groups = group_changed_attrs(&attrs, 80, 0);

    assert_eq!(groups.len(), 1);
    assert_eq!(groups[0].attr_indices, vec![0, 1]);
}

#[test]
fn test_group_overflow_to_second_line() {
    // Very narrow width forces split
    let attrs = vec![make_changed_attr("fill", 3, 4), make_changed_attr("x", 2, 2)];
    // fill="xxxx" = 4 + 2 + 4 + 1 = 11
    // With "- " prefix = 13
    // x="xx" = 1 + 2 + 2 + 1 = 6
    // Total = 19 + 1 (space) = 20
    let groups = group_changed_attrs(&attrs, 15, 0);

    assert_eq!(groups.len(), 2);
    assert_eq!(groups[0].attr_indices, vec![0]);
    assert_eq!(groups[1].attr_indices, vec![1]);
}

#[test]
fn test_group_skips_unchanged() {
    let attrs = vec![
        make_changed_attr("fill", 3, 4),
        Attr::unchanged("x", 1, FormattedValue::new(Span::default(), 2)),
        make_changed_attr("y", 2, 2),
    ];
    let groups = group_changed_attrs(&attrs, 80, 0);

    assert_eq!(groups.len(), 1);
    assert_eq!(groups[0].attr_indices, vec![0, 2]); // skipped index 1
}

#[test]
fn test_group_max_widths() {
    let attrs = vec![
        make_changed_attr("fill", 3, 4),   // old=3, new=4
        make_changed_attr("stroke", 5, 3), // old=5, new=3
    ];
    let groups = group_changed_attrs(&attrs, 80, 0);

    assert_eq!(groups.len(), 1);
    assert_eq!(groups[0].max_name_width, 6); // "stroke"
    assert_eq!(groups[0].max_old_width, 5);
    assert_eq!(groups[0].max_new_width, 4);
}

#[test]
fn grouping_keeps_every_changed_attr_in_order() {
    // Narrow lines: each group holds what fits; together they hold every
    // changed attribute once, in order
    let attrs = vec![
        make_changed_attr("a", 1, 1),
        Attr::unchanged("u", 1, FormattedValue::new(Span::default(), 1)),
        make_changed_attr("b", 1, 1),
        make_changed_attr("c", 1, 1),
        Attr::deleted("d", 1, FormattedValue::new(Span::default(), 1)),
        make_changed_attr("e", 1, 1),
    ];
    // each changed attr is 1 + 2 + 1 + 1 = 5 wide; room is 13 - 2 = 11
    let groups = group_changed_attrs(&attrs, 13, 0);
    let all: Vec<usize> = groups.iter().flat_map(|g| g.attr_indices.clone()).collect();
    assert_eq!(all, vec![0, 2, 3, 5]);
    assert_eq!(groups.len(), 2);
    assert_eq!(groups[0].attr_indices, vec![0, 2]);
    assert_eq!(groups[1].attr_indices, vec![3, 5]);
    for g in &groups {
        assert!(!g.attr_indices.is_empty());
    }
}

#[test]
fn grouping_with_indent_and_no_room() {
    // An indent wider than the line leaves no room: every attribute alone
    let attrs = vec![make_changed_attr("fill", 3, 4), make_changed_attr("x", 2, 2)];
    let groups = group_changed_attrs(&attrs, 10, 20);
    assert_eq!(groups.len(), 2);
    assert_eq!(groups[0].attr_indices, vec![0]);
    assert_eq!(groups[1].attr_indices, vec![1]);
    // No changed attribute at all: no group
    let none = vec![Attr::unchanged("x", 1, FormattedValue::new(Span::default(), 2))];
    assert!(group_changed_attrs(&none, 80, 0).is_empty());
}

#[test]
fn group_line_widths_pad_to_group_maxima() {
    let attrs = vec![make_changed_attr("fill", 3, 4), make_changed_attr("stroke", 5, 3)];
    let mut g = ChangedGroup::new();
    assert!(g.is_empty());
    assert_eq!(g.minus_line_width(&attrs), 0);
    g.add(0, &attrs[0]);
    g.add(1, &attrs[1]);
    assert!(!g.is_empty());
    // two cells of max name 6 + 2 + value + 1, one space between
    assert_eq!(g.minus_line_width(&attrs), 2 * (6 + 2 + 5 + 1) + 1);
    assert_eq!(g.plus_line_width(&attrs), 2 * (6 + 2 + 4 + 1) + 1);
}

#[test]
fn attr_constructors_and_kinds() {
    let v = FormattedValue::with_type(Span { start: 1, end: 3 }, 2, ValueType::Number);
    assert_eq!(v.value_type, ValueType::Number);
    assert_eq!(FormattedValue::new(Span::default(), 7).value_type, ValueType::Other);
    let i = Attr::inserted("n", 1, v);
    assert!(!i.is_changed());
    assert!(matches!(i.status, AttrStatus::Inserted { .. }));
    // n="xx" -> 1 + 2 + 2 + 1
    assert_eq!(i.line_width(), 6);
    let d = Attr::deleted("name", 4, v);
    assert_eq!(d.line_width(), 4 + 2 + 2 + 1);
    assert!(make_changed_attr("q", 1, 1).is_changed());
}
