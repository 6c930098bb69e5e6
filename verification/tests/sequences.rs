use rediff::{Diff, Interspersed, ReplaceGroup, Updates, UpdatesGroup, Value};

type D = Diff<i32, &'static str>;

fn close(a: i32, b: i32) -> usize {
    if a / 10 == b / 10 { 1 } else { 0 }
}

fn pair(a: i32, b: i32) -> D {
    Diff::Replace { from: a, to: b }
}

#[test]
fn replace_group_pushes_at_front() {
    let mut g: ReplaceGroup<i32> = ReplaceGroup::default();
    g.push_add(2);
    g.push_add(1);
    g.push_remove(9);
    assert_eq!(g.additions, vec![1, 2]);
    assert_eq!(g.removals, vec![9]);
}

#[test]
fn updates_push_order() {
    let mut u: Updates<i32, &'static str> = Updates::default();
    assert!(u.is_empty());
    // a sequence diff walks back to front
    u.push_keep(5);
    u.push_add(4);
    u.push_remove(3);
    u.push_keep(2);
    u.push_keep(1);
    assert!(!u.is_empty());
    assert!(u.0.first.is_none());
    assert_eq!(u.0.values.len(), 1);
    assert_eq!(u.0.values[0].0, vec![1, 2]);
    let g = &u.0.values[0].1;
    let r = g.0.first.as_ref().unwrap();
    assert_eq!(r.removals, vec![3]);
    assert_eq!(r.additions, vec![4]);
    assert_eq!(u.0.last, Some(vec![5]));
    // closeness counts the unchanged items
    assert_eq!(u.closeness(), 3);
    assert!(!u.is_single_replace());
}

#[test]
fn single_replace() {
    let mut u: Updates<i32, &'static str> = Updates::default();
    u.push_add(1);
    u.push_remove(0);
    assert!(u.is_single_replace());
    assert_eq!(u.closeness(), 0);
}

#[test]
fn flatten_pairs_similar_values() {
    // removals 10, 20, 30 against additions 11, 35
    let mut g: UpdatesGroup<i32, &'static str> = UpdatesGroup::default();
    for a in [35, 11] {
        g.push_add(a);
    }
    for r in [30, 20, 10] {
        g.push_remove(r);
    }
    assert_eq!(g.0.first.as_ref().unwrap().removals, vec![10, 20, 30]);
    g.flatten_with(close, pair);
    // Walking back: 30 and 35 pair up; keeping 11 as an addition loses
    // nothing in the table, so 10 and 20 stay removals
    let r = g.0.first.as_ref().unwrap();
    assert_eq!(r.removals, vec![10, 20]);
    assert_eq!(r.additions, vec![11]);
    assert!(g.0.values.is_empty());
    let last = g.0.last.as_ref().unwrap();
    assert_eq!(last.len(), 1);
    assert!(matches!(last[0], Diff::Replace { from: 30, to: 35 }));
}

#[test]
fn flatten_pairs_in_the_middle() {
    // removals 1, 15 against additions 16, 99: 15~16 pair, 1 and 99 stay
    let mut g: UpdatesGroup<i32, &'static str> = UpdatesGroup::default();
    for a in [99, 16] {
        g.push_add(a);
    }
    for r in [15, 1] {
        g.push_remove(r);
    }
    g.flatten_with(close, pair);
    let r = g.0.first.as_ref().unwrap();
    assert_eq!(r.removals, vec![1]);
    assert!(r.additions.is_empty());
    assert_eq!(g.0.values.len(), 1);
    let (diffs, after) = &g.0.values[0];
    assert!(matches!(diffs[0], Diff::Replace { from: 15, to: 16 }));
    assert!(after.removals.is_empty());
    assert_eq!(after.additions, vec![99]);
    assert!(g.0.last.is_none());
}

#[test]
fn flatten_keeps_everything_when_nothing_is_close() {
    let mut g: UpdatesGroup<i32, &'static str> = UpdatesGroup::default();
    g.push_add(99);
    g.push_remove(2);
    g.push_remove(1);
    g.flatten_with(close, pair);
    // nothing paired: all removals and the addition stay, in order
    let r = g.0.first.as_ref().unwrap();
    assert_eq!(r.removals, vec![1, 2]);
    assert_eq!(r.additions, vec![99]);
    assert!(g.0.values.is_empty());
    assert!(g.0.last.is_none());
}

#[test]
fn updates_flatten_each_group() {
    let mut u: Updates<i32, &'static str> = Updates::default();
    u.push_add(12);
    u.push_remove(10);
    u.push_keep(7);
    u.push_add(3);
    u.push_remove(4);
    u.flatten_with(close, pair);
    // both groups were flattened into nested diffs
    let first = u.0.first.as_ref().unwrap();
    assert!(first.0.first.is_none());
    assert!(matches!(first.0.last.as_ref().unwrap()[0], Diff::Replace { from: 4, to: 3 }));
    let (kept, g) = &u.0.values[0];
    assert_eq!(kept, &vec![7]);
    assert!(matches!(g.0.last.as_ref().unwrap()[0], Diff::Replace { from: 10, to: 12 }));
}

#[test]
fn interspersed_fronts() {
    let mut it: Interspersed<i32, i32> = Interspersed::default();
    *it.front_a() += 5;
    assert_eq!(it.first, Some(5));
    *it.front_b() += 7;
    // the A in front moved into a pair with a fresh B
    assert!(it.first.is_none());
    assert_eq!(it.values, vec![(7, 5)]);
    assert!(it.last.is_none());
    let mut only_b: Interspersed<i32, i32> = Interspersed::default();
    *only_b.front_b() += 1;
    assert_eq!(only_b.last, Some(1));
}

#[test]
fn diff_equality_and_closeness() {
    let e: D = Diff::Equal { value: Some(1) };
    assert!(e.is_equal());
    assert!(!pair(1, 2).is_equal());
    let v: Value<i32, &'static str> = Value::Struct {
        updates: vec![],
        deletions: vec![],
        insertions: vec![],
        unchanged: vec!["a".to_string(), "b".to_string()],
    };
    assert_eq!(v.closeness(), 2);
}
