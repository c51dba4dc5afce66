use poem_api::text::{contains_str, is_blank, is_whitespace, strip_prefix, to_ascii_lowercase, trim};

#[test]
fn whitespace_agrees_with_std() {
    for u in 0u32..=0x10ffff {
        if let Some(c) = char::from_u32(u) {
            assert_eq!(is_whitespace(c), c.is_whitespace(), "U+{u:04X}");
        }
    }
    for c in ['\u{feff}', '\u{10ffff}', 'a', '月'] {
        assert_eq!(is_whitespace(c), c.is_whitespace());
    }
}

#[test]
fn trim_agrees_with_std() {
    for s in ["", "  ", " a ", "a", "\u{3000}静夜思\u{3000}", "\t\nx y\r\n", "\u{a0}b"] {
        assert_eq!(trim(s), s.trim());
        assert_eq!(is_blank(s), s.trim().is_empty());
    }
}

#[test]
fn lowercase_agrees_with_std() {
    for s in ["", "TRUE", "YeS", "Ünïcode ABC", "月ABC"] {
        assert_eq!(to_ascii_lowercase(s), s.to_ascii_lowercase());
    }
}

#[test]
fn prefix_and_contains() {
    assert_eq!(strip_prefix("sqlite://data/a.db", "sqlite://"), Some("data/a.db"));
    assert_eq!(strip_prefix("abc", "abcd"), None);
    assert_eq!(strip_prefix("abc", ""), Some("abc"));
    assert!(contains_str("sqlite::memory:", ":memory:"));
    assert!(!contains_str("sqlite://memory.db", ":memory:"));
    assert!(contains_str("x", ""));
}
