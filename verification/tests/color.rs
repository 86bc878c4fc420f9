use wlmatrix::color::{
    color_from_lowercase, is_color_text, is_readable_color, resolve_color, try_resolve_color,
    CutCharacter,
};

#[test]
fn names_stand_for_their_colours() {
    let green = Some(((220, 255, 220), (0, 255, 40)));
    let amber = Some(((255, 240, 200), (255, 176, 0)));
    let cyan = Some(((210, 255, 255), (0, 255, 210)));
    let red = Some(((255, 210, 210), (255, 40, 40)));
    let purple = Some(((245, 210, 255), (200, 0, 255)));
    assert_eq!(resolve_color("green"), green);
    assert_eq!(resolve_color("amber"), amber);
    assert_eq!(resolve_color("orange"), amber);
    assert_eq!(resolve_color("cyan"), cyan);
    assert_eq!(resolve_color("blue"), cyan);
    assert_eq!(resolve_color("white"), Some(((255, 255, 255), (170, 170, 170))));
    assert_eq!(resolve_color("red"), red);
    assert_eq!(resolve_color("crimson"), red);
    assert_eq!(resolve_color("purple"), purple);
    assert_eq!(resolve_color("magenta"), purple);
}

#[test]
fn case_and_white_space_do_not_matter() {
    assert_eq!(resolve_color("  GrEeN\t"), resolve_color("green"));
    assert_eq!(resolve_color(" #FF8000 "), resolve_color("#ff8000"));
}

#[test]
fn hexadecimal_colours_are_brightened_for_the_leader() {
    assert_eq!(resolve_color("#ff8000"), Some(((255, 191, 127), (255, 128, 0))));
    assert_eq!(resolve_color("010203"), Some(((128, 128, 129), (1, 2, 3))));
    assert_eq!(resolve_color("###0a0b0c"), Some(((132, 133, 133), (10, 11, 12))));
}

#[test]
fn every_colour_can_be_written_as_hash_text() {
    for v in 0..=255u8 {
        let c = (v, 255 - v, v ^ 0x5a);
        let text = format!("#{:02x}{:02X}{:02x}", c.0, c.1, c.2);
        let (head, trail) = resolve_color(&text).unwrap();
        assert_eq!(trail, c);
        assert!(head.0 >= c.0 && head.1 >= c.1 && head.2 >= c.2);
    }
}

#[test]
fn other_texts_are_no_colours() {
    let texts = [
        "", "#", "grey", "#fff", "#1234567", "12345g", "gg0000", "-1-2-3", "00 000", "++0000",
        "+1+2+f", "#+f+f+f", "+f0000", "00+f00", "0000+f",
    ];
    for s in texts {
        assert_eq!(resolve_color(s), None, "{s}");
    }
}

#[test]
fn longer_characters_are_no_digits() {
    // Two bytes, or six characters of more than six bytes.
    for s in ["é0000", "00é00", "0000é", "éééééé", "\u{1f600}\u{1f600}"] {
        assert_eq!(try_resolve_color(s), Ok(None), "{s}");
    }
}

#[test]
fn a_cut_character_is_an_error() {
    for s in ["€€", "#0é000", "00€0", "\u{1f600}00", "000é0"] {
        assert_eq!(try_resolve_color(s), Err(CutCharacter), "{s}");
        assert!(!is_color_text(s));
    }
    // The first pair is no number, so the rest is not looked at.
    assert_eq!(try_resolve_color("zz€0"), Ok(None));
    // Not six bytes long.
    assert_eq!(try_resolve_color("€"), Ok(None));
}

#[test]
fn readable_text_is_what_can_be_cut_in_pairs() {
    let texts = ["€€", "0é000", "00€0", "000é0", "zz€0", "é0000", "00é00", "0000é", "€", "123456"];
    for s in texts {
        let panics = {
            let b = s.len() == 6;
            let pair = |i: usize| s.get(i..i + 2);
            b && (pair(0).is_none()
                || (u8::from_str_radix(pair(0).unwrap(), 16).is_ok()
                    && (pair(2).is_none()
                        || (u8::from_str_radix(pair(2).unwrap(), 16).is_ok()
                            && pair(4).is_none()))))
        };
        assert_eq!(is_readable_color(s), !panics, "{s}");
    }
}

#[test]
fn lower_case_goes_through_unicode() {
    // The Kelvin sign is a capital of an ordinary k.
    assert_eq!("BLAC\u{212a}".to_lowercase(), "black");
    assert_eq!(try_resolve_color("\u{212a}"), Ok(None));
    assert_eq!(try_resolve_color("É0000"), Ok(None));
    assert_eq!(color_from_lowercase("green"), Some(((220, 255, 220), (0, 255, 40))));
    assert_eq!(color_from_lowercase("GREEN"), None);
}
