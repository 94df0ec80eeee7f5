use discord_anti_scam_bot::paths::extension;
use discord_anti_scam_bot::text::{
    comes_before, contains, decimal_text, ends_with, join, longer_than, parse_u64, split,
    starts_with,
};
use discord_anti_scam_bot::unicode::split_whitespace;

#[test]
fn numbers_as_text() {
    assert_eq!(decimal_text(0), "0");
    assert_eq!(decimal_text(u64::MAX), u64::MAX.to_string());
    for text in ["0", "42", "+7", "007", "18446744073709551615", "18446744073709551616", "", "+", "-1", " 1", "1 ", "١"] {
        assert_eq!(parse_u64(text), text.parse::<u64>().ok(), "{text:?}");
    }
}

#[test]
fn texts_are_cut_and_joined() {
    assert_eq!(split("a,,b,", ','), vec!["a", "", "b", ""]);
    assert_eq!(split("", ','), vec![""]);
    assert_eq!(join(&["a".to_string(), "b".to_string()], ", "), "a, b");
    assert_eq!(join(&[], ", "), "");
    assert_eq!(split_whitespace(" a\u{2003}b\n"), vec!["a", "b"]);
    assert!(split_whitespace("  ").is_empty());
}

#[test]
fn parts_of_texts() {
    assert!(starts_with("image/png", "image/"));
    assert!(!starts_with("ima", "image/"));
    assert!(ends_with("a.png", ".png"));
    assert!(ends_with("a", ""));
    assert!(contains("a big bonus", "big b"));
    assert!(!contains("a", "aa"));
    assert!(contains("", ""));
}

#[test]
fn lengths_in_bytes() {
    assert!(!longer_than("abc", 3));
    assert!(longer_than("abcd", 3));
    assert!(longer_than("é€", 4));
    assert!(!longer_than("é€", 5));
    assert!(longer_than("🚨", 3));
}

#[test]
fn dictionary_order() {
    for (a, b) in [("a", "b"), ("a", "ab"), ("", "a"), ("Z", "a"), ("é", "€")] {
        assert!(comes_before(a, b));
        assert!(!comes_before(b, a));
        assert!(a < b);
    }
    assert!(!comes_before("a", "a"));
}

#[test]
fn extensions_of_paths() {
    for path in [
        "image.jpg", "no_extension", ".hidden", "a/b.c/d", "a/b.c/", "x.tar.gz", "..", "a..b", "dot.",
        "", "/", "a/.", "a.b/.", "a.b/..",
    ] {
        let expected = std::path::Path::new(path)
            .extension()
            .and_then(|e| e.to_str())
            .map(|e| e.to_string());
        assert_eq!(extension(path), expected, "{path:?}");
    }
}
