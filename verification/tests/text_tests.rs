use sofka::text::{is_whitespace, trim_chars};

#[test]
fn whitespace_agrees_with_std() {
    for c in ['\t', '\n', '\u{b}', '\u{c}', '\r', ' ', '\u{85}', '\u{a0}', '\u{1680}', '\u{2000}', '\u{200a}', '\u{2028}', '\u{2029}', '\u{202f}', '\u{205f}', '\u{3000}'] {
        assert!(is_whitespace(c), "{c:?}");
    }
    for c in ['a', '0', '\u{8}', '\u{e}', '\u{200b}', '\u{feff}', '\u{180e}', '_'] {
        assert!(!is_whitespace(c), "{c:?}");
    }
    for u in 0..0x3100u32 {
        if let Some(c) = char::from_u32(u) {
            assert_eq!(is_whitespace(c), c.is_whitespace(), "{u:#x}");
        }
    }
}

#[test]
fn trim_drops_unicode_space_at_both_ends() {
    let t: String = trim_chars("\u{3000} a b\u{a0}\n").into_iter().collect();
    assert_eq!(t, "a b");
}
