use rediff::{explain_confusable_differences, format_char_with_codepoint};

const MUTED: &str = "\x1b[38;2;86;95;137m";
const RED: &str = "\x1b[38;2;247;118;142m";
const GREEN: &str = "\x1b[38;2;115;218;202m";
const RESET: &str = "\x1b[39m";

#[test]
fn char_with_codepoint() {
    assert_eq!(format_char_with_codepoint('a'), "'a' (U+0061)");
    assert_eq!(format_char_with_codepoint('~'), "'~' (U+007E)");
    assert_eq!(format_char_with_codepoint(' '), "'\\u{0020}'");
    assert_eq!(format_char_with_codepoint('\u{200B}'), "'\\u{200B}'");
    assert_eq!(format_char_with_codepoint('а'), "'\\u{0430}'");
    assert_eq!(format_char_with_codepoint('\u{1F980}'), "'\\u{1F980}'");
}

#[test]
fn identical_strings() {
    assert_eq!(
        explain_confusable_differences("abc", "abc"),
        format!("{MUTED}(strings are identical){RESET}")
    );
}

#[test]
fn one_confusable_position() {
    // Latin a versus Cyrillic а
    let out = explain_confusable_differences("abc", "аbc");
    let expected = format!(
        "{MUTED}(strings are visually confusable but differ in 1 position):{RESET}\n  [0]: {RED}'a' (U+0061){RESET} vs {GREEN}'\\u{{0430}}'{RESET}"
    );
    assert_eq!(out, expected);
}

#[test]
fn missing_characters() {
    let out = explain_confusable_differences("ab", "a");
    let expected = format!(
        "{MUTED}(strings are visually confusable but differ in 1 position):{RESET}\n  [1]: {RED}'b' (U+0062){RESET} vs (missing)"
    );
    assert_eq!(out, expected);
    let out = explain_confusable_differences("", "xy");
    let expected = format!(
        "{MUTED}(strings are visually confusable but differ in 2 positions):{RESET}\n  [0]: (missing) vs {GREEN}'x' (U+0078){RESET}\n  [1]: (missing) vs {GREEN}'y' (U+0079){RESET}"
    );
    assert_eq!(out, expected);
}

#[test]
fn nul_character_is_not_taken_for_a_missing_one() {
    let out = explain_confusable_differences("a\0", "ab");
    assert!(!out.contains("(missing)"), "{}", out);
    assert!(out.contains("[1]"), "{}", out);
}
