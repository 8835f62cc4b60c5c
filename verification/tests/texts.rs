use udx710_ota::decimal::{decimal, parse_decimal};
use udx710_ota::order::{no_later, sort};
use udx710_ota::text::{concat3, join, same_text, split, trim, white_space};

#[test]
fn white_space_agrees_with_std() {
    for code in 0..=0x10ffffu32 {
        if let Some(c) = char::from_u32(code) {
            assert_eq!(white_space(c), c.is_whitespace(), "{:x}", code);
        }
    }
}

#[test]
fn trimming_agrees_with_std() {
    for s in ["", " ", " a ", "\t\u{85}a b\u{2003}\n", "a", "\u{180e}a", "   "] {
        assert_eq!(trim(s), s.trim());
        assert_eq!(trim(trim(s)), s.trim());
    }
}

#[test]
fn splitting_agrees_with_std() {
    for s in ["", ".", "a", "a.b", ".a..b.", "\u{e9}.\u{1f600}"] {
        assert_eq!(split(s, '.'), s.split('.').collect::<Vec<_>>());
    }
}

#[test]
fn joining_texts() {
    let parts = vec!["a".to_string(), "".to_string(), "b".to_string()];
    assert_eq!(join(&parts, "; "), "a; ; b");
    assert_eq!(join(&vec![], "; "), "");
    assert_eq!(concat3("x", "y", "z"), "xyz");
}

#[test]
fn comparing_texts() {
    assert!(same_text("abc", "abc"));
    assert!(!same_text("abc", "abd"));
    assert!(!same_text("abc", "ab"));
}

#[test]
fn decimals_agree_with_std() {
    for s in [
        "0", "7", "255", "256", "+5", "++5", "+", "-0", "-1", "", " 1", "1 ", "007", "1_0",
        "99999999999999999999", "4294967295", "4294967296", "1a", "\u{661}",
    ] {
        assert_eq!(parse_decimal(s, 255), s.parse::<u8>().ok().map(u32::from), "{}", s);
        assert_eq!(parse_decimal(s, u32::MAX), s.parse::<u32>().ok(), "{}", s);
    }
}

#[test]
fn decimals_are_read_back() {
    for n in 0..=255u8 {
        assert_eq!(decimal(n), n.to_string());
        assert_eq!(parse_decimal(&decimal(n), 255), Some(n as u32));
    }
}

#[test]
fn sorting_agrees_with_std() {
    let texts: Vec<String> = ["b", "a", "", "ab", "a", "\u{ff5e}", "\u{1f600}", "B"]
        .iter()
        .map(|s| s.to_string())
        .collect();
    let mut expected = texts.clone();
    expected.sort();
    assert_eq!(sort(texts.clone()), expected);
    let mut reversed = texts;
    reversed.reverse();
    assert_eq!(sort(reversed), expected);
    assert!(no_later("a", "a"));
    assert!(!no_later("b", "ab"));
}
