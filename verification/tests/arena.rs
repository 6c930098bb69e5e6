use rediff::layout::arena::{FormatArena, Span};

#[test]
fn test_format_simple() {
    let mut arena = FormatArena::new();
    let (span, width) = arena.format(|| "hello".to_string());
    assert_eq!(arena.get(span), "hello");
    assert_eq!(width, 5);
}

#[test]
fn test_format_multiple() {
    let mut arena = FormatArena::new();

    let (s1, w1) = arena.format(|| "hello".to_string());
    let (s2, w2) = arena.format(|| "world".to_string());

    assert_eq!(arena.get(s1), "hello");
    assert_eq!(arena.get(s2), "world");
    assert_eq!(w1, 5);
    assert_eq!(w2, 5);

    // Spans don't overlap
    assert_eq!(s1.end, s2.start);
}

#[test]
fn test_format_unicode() {
    let mut arena = FormatArena::new();

    // CJK characters are typically 2 columns wide
    let (span, width) = arena.format(|| "日本語".to_string());
    assert_eq!(arena.get(span), "日本語");
    assert_eq!(width, 6); // 3 chars * 2 columns each

    // Emoji
    let (span, width) = arena.format(|| "🦀".to_string());
    assert_eq!(arena.get(span), "🦀");
    assert_eq!(width, 2); // emoji is typically 2 columns
}

#[test]
fn test_push_str() {
    let mut arena = FormatArena::new();
    let (span, width) = arena.push_str("test");
    assert_eq!(arena.get(span), "test");
    assert_eq!(width, 4);
}

#[test]
fn test_span_len() {
    let span = Span { start: 10, end: 20 };
    assert_eq!(span.len(), 10);
    assert!(!span.is_empty());

    let empty = Span { start: 5, end: 5 };
    assert_eq!(empty.len(), 0);
    assert!(empty.is_empty());
}

#[test]
fn push_then_get_gives_back_each_string() {
    // Every span read back gives what was pushed, whatever was pushed after it
    let mut arena = FormatArena::new();
    let (a, _) = arena.push_str("αβ");
    let (b, wb) = arena.push_str("");
    let (c, _) = arena.push_str("xyz");
    assert_eq!(arena.get(a), "αβ");
    assert_eq!(arena.get(b), "");
    assert_eq!(wb, 0);
    assert_eq!(arena.get(c), "xyz");
    // Byte offsets: "αβ" takes four bytes
    assert_eq!(a.start, 0);
    assert_eq!(a.end, 4);
    assert_eq!(c.start, 4);
    assert_eq!(c.end, 7);
    assert_eq!(arena.len(), 7);
    assert!(!arena.is_empty());
}

#[test]
fn new_arena_is_empty() {
    let arena = FormatArena::default();
    assert_eq!(arena.len(), 0);
    assert!(arena.is_empty());
    let with_cap = FormatArena::with_capacity(16);
    assert!(with_cap.is_empty());
}
