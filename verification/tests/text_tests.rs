use useproxy::text::{
    append_str, chars_of, contains_text, is_white_space_char, push_decimal, same_text, starts_with,
    string_of, trim_end_char_text, trim_text,
};

#[test]
fn chars_and_slices() {
    let cs = chars_of("héllo");
    assert_eq!(cs, vec!['h', 'é', 'l', 'l', 'o']);
    assert_eq!(string_of(&cs, 1, 4), "éll");
    assert_eq!(string_of(&cs, 2, 2), "");
}

#[test]
fn appending_and_comparing() {
    let mut s = "ab".to_string();
    append_str(&mut s, "cд");
    assert_eq!(s, "abcд");
    assert!(same_text("abc", "abc"));
    assert!(!same_text("abc", "abd"));
    assert!(!same_text("abc", "ab"));
}

#[test]
fn prefixes_and_substrings() {
    assert!(starts_with("/api/github/x", "/api/github"));
    assert!(starts_with("/api", ""));
    assert!(!starts_with("/ap", "/api"));
    assert!(contains_text("/api/users", "users"));
    assert!(contains_text("abc", ""));
    assert!(contains_text("", ""));
    assert!(!contains_text("", "a"));
    assert!(!contains_text("abc", "abcd"));
    assert!(contains_text("aab", "ab"));
}

#[test]
fn trimming() {
    assert_eq!(trim_text("  a b \t\n"), "a b");
    assert_eq!(trim_text("\u{2003}x\u{3000}"), "x");
    assert_eq!(trim_text("   "), "");
    assert_eq!(trim_text(""), "");
    assert!(is_white_space_char('\u{85}'));
    assert!(!is_white_space_char('\u{200b}'));
    assert_eq!(trim_end_char_text("https://x.com///", '/'), "https://x.com");
    assert_eq!(trim_end_char_text("///", '/'), "");
    assert_eq!(trim_end_char_text("a/b", '/'), "a/b");
}

#[test]
fn decimal_notation() {
    for n in [0u64, 7, 10, 3000, 65535, u64::MAX] {
        let mut s = "p:".to_string();
        push_decimal(&mut s, n);
        assert_eq!(s, format!("p:{}", n));
    }
}
