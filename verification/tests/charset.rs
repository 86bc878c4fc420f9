use wlmatrix::charset::{charset_from_lowercase, resolve_charset, DEFAULT_CHARSET};

const LETTERS_AND_DIGITS: &str = "ABCDEFGHIJKLMNOPQRSTUVWXYZabcdefghijklmnopqrstuvwxyz0123456789";

#[test]
fn presets_have_names_in_any_case() {
    assert_eq!(resolve_charset("ascii"), DEFAULT_CHARSET);
    assert_eq!(resolve_charset("ALNUM"), LETTERS_AND_DIGITS);
    assert_eq!(resolve_charset("Binary"), "01");
    assert_eq!(resolve_charset("digits"), "0123456789");
    assert_eq!(
        resolve_charset("KataKana"),
        ('\u{FF66}'..='\u{FF9D}').collect::<String>()
    );
}

#[test]
fn the_default_has_signs_too() {
    assert_eq!(DEFAULT_CHARSET, format!("{LETTERS_AND_DIGITS}@#$%&*+-/<>=?!:"));
}

#[test]
fn other_texts_are_the_characters_themselves() {
    assert_eq!(resolve_charset("Xyz"), "Xyz");
    assert_eq!(resolve_charset(" binary"), " binary");
    assert_eq!(resolve_charset("ÄÖ"), "ÄÖ");
}

#[test]
fn an_empty_setting_asks_for_the_default() {
    assert_eq!(resolve_charset(""), DEFAULT_CHARSET);
    assert_eq!(charset_from_lowercase("", ""), DEFAULT_CHARSET);
}

#[test]
fn resolving_twice_changes_nothing() {
    let settings = ["ascii", "alnum", "binary", "digits", "katakana", "", "Xyz", "ÄÖ", "ｦｱ", "01"];
    for s in settings {
        let once = resolve_charset(s);
        assert_eq!(resolve_charset(&once), once, "{s}");
        assert!(!once.is_empty());
    }
}

#[test]
fn katakana_has_no_case() {
    for c in '\u{FF66}'..='\u{FF9D}' {
        assert_eq!(c.to_string().to_lowercase(), c.to_string());
    }
}

#[test]
fn the_lower_case_form_picks_the_preset() {
    // The Kelvin sign lowers to an ordinary k.
    assert_eq!(resolve_charset("\u{212a}ATA\u{212a}ANA").chars().count(), 56);
    assert_eq!(charset_from_lowercase("binary", "whatever"), "01");
    assert_eq!(charset_from_lowercase("x", "X"), "X");
}
