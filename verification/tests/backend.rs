use rediff::layout::backend::{AnsiBackend, AnsiColors, ColorBackend, PlainBackend, SemanticColor};

#[test]
fn test_plain_backend() {
    let backend = PlainBackend;
    let mut out = String::new();

    backend.write_styled(&mut out, "hello", SemanticColor::Deleted);
    assert_eq!(out, "hello");

    out.clear();
    backend.write_styled(&mut out, "world", SemanticColor::Inserted);
    assert_eq!(out, "world");
}

#[test]
fn test_prefix() {
    let backend = PlainBackend;
    let mut out = String::new();

    backend.write_prefix(&mut out, '-', SemanticColor::Deleted);
    assert_eq!(out, "-");
}

/// Colors of a theme, resolved by hand: every foreground a shade of its
/// slot number, deleted and inserted lines with a background.
fn sample_colors() -> AnsiColors {
    let foregrounds = (0..25u8).map(|i| (i, 100 + i, 200)).collect();
    let backgrounds = vec![Some((55, 48, 35)), Some((90, 75, 50)), Some((35, 48, 60)), Some((45, 70, 95)), None, None];
    AnsiColors { foregrounds, backgrounds }
}

#[test]
fn test_ansi_backend() {
    let backend = AnsiBackend::new(sample_colors()).unwrap();
    let mut out = String::new();

    backend.write_styled(&mut out, "deleted", SemanticColor::Deleted);
    // Should contain ANSI escape codes
    assert!(out.contains("\x1b["));
    assert!(out.contains("deleted"));
}

#[test]
fn ansi_backend_exact_escapes() {
    let backend = AnsiBackend::new(sample_colors()).unwrap();
    // Deleted: the deleted accent (slot 0) on the deleted line background
    let mut out = String::new();
    backend.write_styled(&mut out, "x", SemanticColor::Deleted);
    assert_eq!(out, "\x1b[38;2;0;100;200;48;2;55;48;35mx\x1b[0m");
    // Key: no background
    let mut out = String::new();
    backend.write_styled(&mut out, "k", SemanticColor::Key);
    assert_eq!(out, "\x1b[38;2;5;105;200mk\x1b[39m");
    // Whitespace uses the comment color (slot 11), no background
    let mut out = String::new();
    backend.write_styled(&mut out, ",", SemanticColor::Whitespace);
    assert_eq!(out, "\x1b[38;2;11;111;200m,\x1b[39m");
    // Moved: a theme without a moved background writes the foreground only
    let mut out = String::new();
    backend.write_styled(&mut out, "m", SemanticColor::Moved);
    assert_eq!(out, "\x1b[38;2;2;102;200mm\x1b[39m");
    // The prefix is styled the same way
    let mut out = String::new();
    backend.write_prefix(&mut out, '+', SemanticColor::InsertedHighlight);
    assert_eq!(out, "\x1b[38;2;1;101;200;48;2;45;70;95m+\x1b[0m");
}

#[test]
fn ansi_backend_needs_every_slot() {
    let mut short = sample_colors();
    short.foregrounds.pop();
    assert!(AnsiBackend::new(short).is_none());
    let mut short_bg = sample_colors();
    short_bg.backgrounds.push(None);
    assert!(AnsiBackend::new(short_bg).is_none());
}
