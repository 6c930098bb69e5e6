use rediff::{ChangeKind, DiffSymbols};

#[test]
fn change_kind_symbols() {
    let s = DiffSymbols::standard();
    assert_eq!(ChangeKind::Unchanged.symbol(&s), None);
    assert_eq!(ChangeKind::Deleted.symbol(&s), Some("-"));
    assert_eq!(ChangeKind::Modified.symbol(&s), Some("-"));
    assert_eq!(ChangeKind::Inserted.symbol(&s), Some("+"));
    assert_eq!(ChangeKind::MovedFrom.symbol(&s), Some("←"));
    assert_eq!(ChangeKind::MovedTo.symbol(&s), Some("→"));
    let a = DiffSymbols::ascii();
    assert_eq!(ChangeKind::MovedFrom.symbol(&a), Some("<-"));
    assert_eq!(ChangeKind::MovedTo.symbol(&a), Some("->"));
    assert_eq!(DiffSymbols::default().deleted, "-");
}

#[test]
fn change_kind_is_changed() {
    assert!(!ChangeKind::Unchanged.is_changed());
    assert!(ChangeKind::Deleted.is_changed());
    assert!(ChangeKind::Modified.is_changed());
    assert!(ChangeKind::MovedTo.is_changed());
}
