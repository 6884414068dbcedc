use medieval::input::accept_browser_sequence;
use medieval::text::is_blank_text;

#[test]
fn white_space_matches_the_standard_library_on_every_char() {
    let mut buffer = [0u8; 4];
    for code in 0u32..=0x10FFFF {
        if let Some(c) = char::from_u32(code) {
            let text: &str = c.encode_utf8(&mut buffer);
            assert_eq!(is_blank_text(text), c.is_whitespace(), "code point {code:#x}");
        }
    }
}

#[test]
fn blank_text_needs_only_whitespace() {
    assert!(is_blank_text(""));
    assert!(is_blank_text(" \t\u{3000}\u{85}"));
    assert!(!is_blank_text(" a "));
    assert!(!is_blank_text("\u{200B}"));
}

#[test]
fn numbers_in_messages_are_decimal_numerals() {
    for (expected, received) in [(0u64, 9u64), (10, 109), (u64::MAX, 1_000_000_007)] {
        let message = accept_browser_sequence(expected, received).unwrap_err();
        assert_eq!(
            message,
            format!(
                "desktop tactical input sequence mismatch: expected {}, received {}",
                expected.to_string(),
                received.to_string()
            )
        );
    }
}
