use doc_server::text::{trim, white_space};

#[test]
fn trim_removes_surrounding_white_space() {
    assert_eq!(trim("  /r/toolchains/stable/share/doc/rust/html/index.html\n"), "/r/toolchains/stable/share/doc/rust/html/index.html");
    assert_eq!(trim("\u{3000}a b\u{a0}\t"), "a b");
    assert_eq!(trim(" \n\t "), "");
    assert_eq!(trim(""), "");
    assert_eq!(trim("x"), "x");
}

#[test]
fn trim_agrees_with_str_trim() {
    for s in ["\u{85}x\u{2028}", "\u{180e}x", "\u{200b}y\u{200b}", " a\u{205f}b ", "\r\n\x0b\x0cz\u{2000}\u{200a}"] {
        assert_eq!(trim(s), s.trim(), "{:?}", s);
    }
}

#[test]
fn white_space_agrees_with_char() {
    for code in 0u32..0x3100 {
        if let Some(c) = char::from_u32(code) {
            assert_eq!(white_space(c), c.is_whitespace(), "{:#x}", code);
        }
    }
}
