use rediff::text_order::{name_order, str_before};

#[test]
fn order_is_by_code_point() {
    assert!(str_before("", "a"));
    assert!(!str_before("a", ""));
    assert!(str_before("a", "ab"));
    assert!(!str_before("ab", "a"));
    assert!(str_before("A", "a"));
    assert!(str_before("z", "\u{e9}"));
    assert!(!str_before("same", "same"));
}

#[test]
fn names_sorted_stably() {
    let entries: Vec<(String, i32)> =
        vec![("b".to_string(), 1), ("a".to_string(), 2), ("b".to_string(), 3), ("A".to_string(), 4)];
    assert_eq!(name_order(&entries), vec![3, 1, 0, 2]);
    let none: Vec<(String, i32)> = vec![];
    assert_eq!(name_order(&none), Vec::<usize>::new());
}
