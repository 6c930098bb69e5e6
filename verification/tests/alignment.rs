use rediff::{edit_script, sequence_updates, EditOp, Updates};

fn matches(from: &[i32], to: &[i32]) -> Vec<Vec<bool>> {
    from.iter().map(|a| to.iter().map(|b| a == b).collect()).collect()
}

#[test]
fn script_keeps_a_longest_common_subsequence() {
    let from = [1, 2, 3];
    let to = [1, 3, 4];
    let ops = edit_script(&matches(&from, &to), 3, 3);
    assert_eq!(ops, vec![EditOp::Keep(0, 0), EditOp::Remove(1), EditOp::Keep(2, 1), EditOp::Add(2)]);
}

#[test]
fn script_prefers_additions_on_ties() {
    let ops = edit_script(&matches(&[1], &[2]), 1, 1);
    assert_eq!(ops, vec![EditOp::Add(0), EditOp::Remove(0)]);
}

#[test]
fn script_of_empty_sides() {
    assert_eq!(edit_script(&vec![], 0, 2), vec![EditOp::Add(0), EditOp::Add(1)]);
    assert_eq!(edit_script(&vec![vec![], vec![]], 2, 0), vec![EditOp::Remove(0), EditOp::Remove(1)]);
    assert_eq!(edit_script(&vec![], 0, 0), vec![]);
}

#[test]
fn updates_group_changes_between_kept_runs() {
    let from = vec![1, 2, 3];
    let to = vec![1, 3, 4];
    let u: Updates<i32, ()> = sequence_updates(&from, &to, &matches(&from, &to));
    assert!(u.0.first.is_none());
    assert!(u.0.last.is_none());
    assert_eq!(u.0.values.len(), 2);
    assert_eq!(u.0.values[0].0, vec![1]);
    let g = u.0.values[0].1 .0.first.as_ref().unwrap();
    assert_eq!(g.removals, vec![2]);
    assert_eq!(g.additions, Vec::<i32>::new());
    assert_eq!(u.0.values[1].0, vec![3]);
    let g = u.0.values[1].1 .0.first.as_ref().unwrap();
    assert_eq!(g.removals, Vec::<i32>::new());
    assert_eq!(g.additions, vec![4]);
}

#[test]
fn identical_sequences_have_no_changes() {
    let from = vec![5, 6, 7];
    let u: Updates<i32, ()> = sequence_updates(&from, &from, &matches(&from, &from));
    assert!(u.is_empty());
    assert_eq!(u.0.last, Some(vec![5, 6, 7]));
}

#[test]
fn leading_change_stays_in_front() {
    let from = vec![9, 1];
    let to = vec![1];
    let u: Updates<i32, ()> = sequence_updates(&from, &to, &matches(&from, &to));
    let g = u.0.first.as_ref().unwrap().0.first.as_ref().unwrap();
    assert_eq!(g.removals, vec![9]);
    assert!(u.0.values.is_empty());
    assert_eq!(u.0.last, Some(vec![1]));
}
