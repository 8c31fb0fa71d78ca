use nlp_stack::whitespace::{is_blank_str, is_white_space_char, trim_white_space};

#[test]
fn trimming_matches_str_trim() {
    for text in ["", "  ", " a ", "\u{a0}b\u{2028}", "\u{3000}中 文\t", "x", "\r\nline\r\n"] {
        assert_eq!(trim_white_space(text), text.trim());
        assert_eq!(is_blank_str(text), text.trim().is_empty());
    }
}

#[test]
fn white_space_matches_char_is_whitespace() {
    for value in 0u32..0x3100 {
        if let Some(c) = char::from_u32(value) {
            assert_eq!(is_white_space_char(c), c.is_whitespace(), "{value:#x}");
        }
    }
    assert_eq!(is_white_space_char('\u{feff}'), '\u{feff}'.is_whitespace());
}

#[test]
fn trimming_twice_changes_nothing() {
    let once = trim_white_space("  déjà vu \n");
    assert_eq!(trim_white_space(&once), once);
}
