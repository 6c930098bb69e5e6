use rediff::{ChangeKind, DiffTheme, Sameness};

#[test]
fn default_theme_is_colorblind_with_backgrounds() {
    let t = DiffTheme::default();
    assert_eq!(t.deleted, (229, 192, 123));
    assert_eq!(t.inserted, (97, 175, 239));
    assert_eq!(t.deleted_line_bg, Some((55, 48, 35)));
    assert_eq!(t.moved_highlight_bg, Some((80, 55, 95)));
}

#[test]
fn themes_without_backgrounds() {
    for t in [DiffTheme::colorblind_orange_blue(), DiffTheme::pastel(), DiffTheme::one_dark_pro(), DiffTheme::tokyo_night()] {
        assert_eq!(t.deleted_line_bg, None);
        assert_eq!(t.inserted_highlight_bg, None);
    }
    assert_eq!(DiffTheme::tokyo_night().null, (125, 207, 255));
    assert_eq!(DiffTheme::one_dark_pro().comment, (92, 99, 112));
}

#[test]
fn color_for_change_kinds() {
    let t = DiffTheme::pastel();
    assert_eq!(t.color_for(ChangeKind::Unchanged), t.unchanged);
    assert_eq!(t.color_for(ChangeKind::Deleted), t.deleted);
    assert_eq!(t.color_for(ChangeKind::Inserted), t.inserted);
    assert_eq!(t.color_for(ChangeKind::MovedFrom), t.moved);
    assert_eq!(t.color_for(ChangeKind::MovedTo), t.moved);
    // The old value of a modification takes the deleted color
    assert_eq!(t.color_for(ChangeKind::Modified), t.deleted);
}

#[test]
fn sameness_summary() {
    assert!(Sameness::Same.is_same());
    assert!(!Sameness::Different("x".to_string()).is_same());
    assert!(!Sameness::Opaque { type_id: "Opaque" }.is_same());
}
