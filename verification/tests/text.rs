use tako::text::{
    append_decimal, chars_of, find_line_end, is_whitespace, parse_integer, same_text,
    split_first_word, strip_prefix, trim, trim_start,
};

fn text(chars: &[char]) -> String {
    chars.iter().collect()
}

#[test]
fn whitespace_is_that_of_unicode() {
    for n in 0..=0x10ffff {
        if let Some(c) = char::from_u32(n) {
            assert_eq!(is_whitespace(c), c.is_whitespace(), "{n:x}");
        }
    }
}

#[test]
fn numbers_are_written_in_decimal() {
    for n in [0, 7, 9, 10, 11, 99, 100, 4294967295, u64::MAX] {
        let mut out = "n=".to_string();
        append_decimal(&mut out, n);
        assert_eq!(out, format!("n={n}"));
    }
}

#[test]
fn numbers_are_read_within_their_bounds() {
    let read = |s: &str, min, max| parse_integer(&chars_of(s), min, max);
    assert_eq!(read("10", 0, 10), Some(10));
    assert_eq!(read("11", 0, 10), None);
    assert_eq!(read("-5", -5, 10), Some(-5));
    assert_eq!(read("-6", -5, 10), None);
    assert_eq!(read("-0", 0, 10), None);
    assert_eq!(read("3", 4, 10), None);
}

#[test]
fn trimming_agrees_with_the_standard_library() {
    for s in ["", " ", "a", " a", "a ", "\t a b \u{3000}", "\u{200b}a"] {
        let chars = chars_of(s);
        assert_eq!(text(trim(&chars)), s.trim());
        assert_eq!(text(trim_start(&chars)), s.trim_start());
        assert_eq!(
            split_first_word(&chars).map(text),
            s.split_whitespace().next().map(|w| w.to_string())
        );
    }
}

#[test]
fn prefixes_are_stripped() {
    let chars = chars_of("Uid:\t1");
    assert_eq!(strip_prefix(&chars, "Uid:").map(text), Some("\t1".to_string()));
    assert_eq!(strip_prefix(&chars, "").map(text), Some("Uid:\t1".to_string()));
    assert_eq!(strip_prefix(&chars, "Uid;"), None);
    assert_eq!(strip_prefix(&chars, "Uid:\t12"), None);
}

#[test]
fn line_ends_are_found() {
    let chars = chars_of("ab\ncd");
    assert_eq!(find_line_end(&chars, 0), 2);
    assert_eq!(find_line_end(&chars, 2), 2);
    assert_eq!(find_line_end(&chars, 3), 5);
    assert_eq!(find_line_end(&chars, 5), 5);
}

#[test]
fn texts_are_compared() {
    assert!(same_text("", ""));
    assert!(same_text("a\u{e9}", "a\u{e9}"));
    assert!(!same_text("a", "b"));
    assert!(!same_text("a", "ab"));
    assert!(!same_text("ab", "a"));
}
