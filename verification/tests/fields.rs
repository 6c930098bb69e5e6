use rediff::{diff_fields, finish_user_diff, keep_last_entries, same_name_sets, Diff, Value};

type D = Diff<i32, &'static str>;

fn entries(v: &[(&str, i32)]) -> Vec<(String, i32)> {
    v.iter().map(|(n, x)| (n.to_string(), *x)).collect()
}

fn compare(a: i32, b: i32) -> D {
    if a == b { Diff::Equal { value: Some(a) } } else { Diff::Replace { from: a, to: b } }
}

#[test]
fn fields_split_four_ways() {
    let from = entries(&[("a", 1), ("b", 2), ("c", 3)]);
    let to = entries(&[("b", 2), ("a", 9), ("d", 4)]);
    let v = diff_fields(&from, &to, compare);
    match v {
        Value::Struct { updates, deletions, insertions, unchanged } => {
            assert_eq!(updates.len(), 1);
            assert_eq!(updates[0].0, "a");
            assert!(matches!(updates[0].1, Diff::Replace { from: 1, to: 9 }));
            assert_eq!(unchanged, vec!["b".to_string()]);
            assert_eq!(deletions, entries(&[("c", 3)]));
            assert_eq!(insertions, entries(&[("d", 4)]));
        },
        Value::Tuple { .. } => panic!("expected struct value"),
    }
}

#[test]
fn finishing_a_struct_diff() {
    let same = diff_fields(&entries(&[("a", 1)]), &entries(&[("a", 1)]), compare);
    assert!(matches!(finish_user_diff(same, 7, "S", "S", None), Diff::Equal { value: Some(7) }));
    let changed = diff_fields(&entries(&[("a", 1)]), &entries(&[]), compare);
    match finish_user_diff(changed, 7, "S", "T", Some("V")) {
        Diff::User { from, to, variant, .. } => {
            assert_eq!(from, "S");
            assert_eq!(to, "T");
            assert_eq!(variant, Some("V"));
        },
        _ => panic!("expected a user diff"),
    }
}

#[test]
fn last_entry_wins() {
    let e = entries(&[("k", 1), ("j", 2), ("k", 3)]);
    assert_eq!(keep_last_entries(&e), entries(&[("j", 2), ("k", 3)]));
}

#[test]
fn name_sets() {
    let a = vec!["x".to_string(), "y".to_string(), "x".to_string()];
    let b = vec!["y".to_string(), "x".to_string()];
    assert!(same_name_sets(&a, &b));
    let c = vec!["y".to_string()];
    assert!(!same_name_sets(&a, &c));
    assert!(!same_name_sets(&c, &a));
    assert!(same_name_sets(&vec![], &vec![]));
}

#[test]
fn entries_against_themselves_are_unchanged() {
    let e = entries(&[("a", 1), ("b", 2), ("c", 3)]);
    match diff_fields(&e, &e, compare) {
        Value::Struct { updates, deletions, insertions, unchanged } => {
            assert!(updates.is_empty());
            assert!(deletions.is_empty());
            assert!(insertions.is_empty());
            assert_eq!(unchanged, vec!["a".to_string(), "b".to_string(), "c".to_string()]);
        }
        _ => panic!("expected a struct value"),
    }
}

#[test]
fn field_names_come_out_once_each() {
    let from = entries(&[("a", 1), ("b", 2), ("c", 3), ("e", 5)]);
    let to = entries(&[("e", 6), ("b", 2), ("a", 9), ("d", 4), ("f", 0)]);
    match diff_fields(&from, &to, compare) {
        Value::Struct { updates, deletions, insertions, unchanged } => {
            let mut all: Vec<String> = updates.iter().map(|(n, _)| n.clone()).collect();
            all.extend(unchanged.iter().cloned());
            all.extend(deletions.iter().map(|(n, _)| n.clone()));
            all.extend(insertions.iter().map(|(n, _)| n.clone()));
            let mut sorted = all.clone();
            sorted.sort();
            sorted.dedup();
            assert_eq!(sorted.len(), all.len());
            assert_eq!(sorted, vec!["a", "b", "c", "d", "e", "f"]);
        },
        Value::Tuple { .. } => panic!("expected struct value"),
    }
}
