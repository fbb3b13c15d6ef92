use todone::text::{
    align_left, align_right, chars_of, copy_lines, is_before, is_whitespace, join, repeat_char,
    same_lines, same_text, spaces_string, starts_with, to_decimal, trim,
};

#[test]
fn white_space_is_that_of_unicode() {
    for n in 0..=0x10ffffu32 {
        if let Some(c) = char::from_u32(n) {
            assert_eq!(is_whitespace(c), c.is_whitespace(), "{n:x}");
        }
    }
}

#[test]
fn trimming_is_that_of_strings() {
    for s in ["", " ", " a", "a ", "\u{a0}a b\u{3000}\n", "ab", "\u{200b}x "] {
        assert_eq!(trim(s), s.trim());
    }
}

#[test]
fn numbers_in_decimal() {
    for n in [0, 7, 10, 99, 100, 12_345, u64::MAX] {
        assert_eq!(to_decimal(n), n.to_string());
    }
}

#[test]
fn strings_are_ordered_by_code_points() {
    let words = ["", "a", "ab", "b", "B", "é", "z", "\u{1f600}", "a/b"];
    for a in words {
        for b in words {
            assert_eq!(is_before(a, b), a < b, "{a:?} {b:?}");
        }
    }
}

#[test]
fn pieces_are_put_together() {
    let parts = vec!["a".to_string(), "".into(), "c".into()];
    assert_eq!(join(&parts, ", "), "a, , c");
    assert_eq!(join(&[], ", "), "");
    assert_eq!(copy_lines(&parts), parts);
    assert!(same_lines(&parts, &copy_lines(&parts)));
    assert!(!same_lines(&parts, &parts[..2]));
    assert!(!same_lines(&["a".to_string()], &["b".to_string()]));
    assert_eq!(chars_of("aé"), vec!['a', 'é']);
}

#[test]
fn columns_are_filled_with_spaces() {
    assert_eq!(spaces_string(3), "   ");
    assert_eq!(repeat_char('•', 2), "••");
    assert_eq!(align_right("7", 3), "  7");
    assert_eq!(align_right("1234", 3), "1234");
    assert_eq!(align_left("é", 3), "é  ");
    assert_eq!(align_left("abcd", 3), "abcd");
}

#[test]
fn prefixes_are_found() {
    assert!(starts_with("http://x", "http://"));
    assert!(!starts_with("http:/", "http://"));
    assert!(starts_with("x", ""));
}

#[test]
fn texts_are_compared_by_characters() {
    assert!(same_text("", ""));
    assert!(same_text("naïve", "naïve"));
    assert!(!same_text("ab", "abc"));
    assert!(!same_text("abc", "ab"));
    assert!(!same_text("abc", "abd"));
}
