use sheets_mcp::text::{trim, white_space};

#[test]
fn trim_matches_std() {
    for s in [
        "",
        "   ",
        "abc",
        "  abc  ",
        "\t\n a b \r\n",
        "\u{a0}x\u{3000}",
        "\u{200b}x\u{200b}",
        " \u{2028}mid dle\u{2029} ",
        "\u{85}\u{1680}",
    ] {
        assert_eq!(trim(s), s.trim(), "{s:?}");
    }
}

#[test]
fn white_space_matches_std() {
    for c in ['\t', '\n', '\u{b}', '\u{c}', '\r', ' ', '\u{85}', '\u{a0}', '\u{1680}', '\u{2000}', '\u{200a}', '\u{2028}', '\u{2029}', '\u{202f}', '\u{205f}', '\u{3000}'] {
        assert!(white_space(c), "{c:?}");
        assert_eq!(white_space(c), c.is_whitespace());
    }
    for c in ['a', '0', '\u{200b}', '\u{180e}', '\u{feff}', '\u{2060}', '\u{0}'] {
        assert!(!white_space(c), "{c:?}");
        assert_eq!(white_space(c), c.is_whitespace());
    }
}
