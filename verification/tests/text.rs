use wlmatrix::text::{chars_of, is_white_space, position, same_text, spells, text_of, trim};

#[test]
fn white_space_is_that_of_unicode() {
    for n in 0..=0x10_ffffu32 {
        if let Some(c) = char::from_u32(n) {
            assert_eq!(is_white_space(c), c.is_whitespace(), "{n:x}");
        }
    }
}

#[test]
fn characters_and_text_convert_back() {
    for s in ["", "abc", "ｦｧ€\u{1f600}z"] {
        let chars = chars_of(s);
        assert_eq!(chars, s.chars().collect::<Vec<char>>());
        assert_eq!(text_of(&chars), s);
    }
}

#[test]
fn trimming_takes_both_ends() {
    for s in ["", "  ", " a b ", "\u{3000}x\u{85}\t\r\n", "x", "\u{200b}x\u{200b}"] {
        assert_eq!(text_of(trim(&chars_of(s))), s.trim());
    }
}

#[test]
fn trimming_again_changes_nothing() {
    let chars = chars_of(" \t a  b \u{a0}");
    let once = trim(&chars);
    assert_eq!(trim(once), once);
    assert_eq!(text_of(once), "a  b");
}

#[test]
fn position_is_the_first() {
    assert_eq!(position(&chars_of("a=b=c"), '='), 1);
    assert_eq!(position(&chars_of("abc"), '='), 3);
    assert_eq!(position(&chars_of(""), '='), 0);
}

#[test]
fn texts_are_compared_whole() {
    assert!(spells(&chars_of("fps"), "fps"));
    assert!(!spells(&chars_of("fp"), "fps"));
    assert!(!spells(&chars_of("fpt"), "fps"));
    assert!(same_text("ｦ", "ｦ"));
    assert!(!same_text("a", "A"));
    assert!(same_text("", ""));
}
