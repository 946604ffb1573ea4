use status_glow::text::{contains_text, same_text, strip_bom, trim_text};

#[test]
fn trim_removes_unicode_white_space_at_both_ends() {
    assert_eq!(trim_text("  a b \n"), "a b");
    assert_eq!(trim_text("\u{3000}x\u{a0}"), "x");
    assert_eq!(trim_text(" \t "), "");
    assert_eq!(trim_text("\u{feff}x"), "\u{feff}x");
}

#[test]
fn byte_order_marks_are_stripped_from_the_start_only() {
    assert_eq!(strip_bom("\u{feff}\u{feff}a\u{feff}"), "a\u{feff}");
    assert_eq!(strip_bom("a"), "a");
}

#[test]
fn contains_and_same_text() {
    assert!(contains_text("abc--setdef", "--set"));
    assert!(contains_text("abc", ""));
    assert!(!contains_text("ab", "abc"));
    assert!(same_text("é", "é"));
    assert!(!same_text("a", "ab"));
}
