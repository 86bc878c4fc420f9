use wlmatrix::charset::DEFAULT_CHARSET;
use wlmatrix::color::CutCharacter;
use wlmatrix::config::{
    apply_key, apply_settings, densify, numbers_in, parse_config_text, settings_in, try_apply_key,
    try_apply_settings, try_parse_config_text, Config, Setting,
};
use wlmatrix::number::{Reading, Single};

fn reading(text: &str) -> Option<Reading> {
    let v = text.parse::<f32>().ok()?;
    Some(Reading {
        value: Single { bits: v.to_bits() },
        four_tenths: Single { bits: (v * 0.4).to_bits() },
    })
}

fn readings(key: &str, val: &str) -> Vec<Option<Reading>> {
    numbers_in(key, val).iter().map(|t| reading(t)).collect()
}

fn all_readings(settings: &[Setting]) -> Vec<Vec<Option<Reading>>> {
    settings.iter().map(|s| readings(&s.key, &s.val)).collect()
}

fn set(cfg: &mut Config, key: &str, val: &str) {
    apply_key(cfg, key, val, &readings(key, val));
}

fn with(settings: &[(&str, &str)]) -> Config {
    let mut cfg = Config::default();
    for (key, val) in settings {
        set(&mut cfg, key, val);
    }
    cfg
}

fn from_file(text: &str) -> Config {
    let mut cfg = Config::default();
    parse_config_text(text, &mut cfg, &all_readings(&settings_in(text)));
    cfg
}

fn speeds(cfg: &Config) -> (f32, f32) {
    (f32::from_bits(cfg.speed_min.bits), f32::from_bits(cfg.speed_max.bits))
}

fn font_px(cfg: &Config) -> f32 {
    f32::from_bits(cfg.font_px.bits)
}

fn settings(text: &str) -> Vec<(String, String)> {
    settings_in(text).into_iter().map(|s| (s.key, s.val)).collect()
}

fn pairs(list: &[(&str, &str)]) -> Vec<(String, String)> {
    list.iter().map(|(k, v)| (k.to_string(), v.to_string())).collect()
}

#[test]
fn the_default_configuration() {
    let cfg = Config::default();
    assert_eq!(font_px(&cfg), 26.0);
    assert_eq!(cfg.fps, 30);
    assert_eq!(speeds(&cfg), (6.0, 24.0));
    assert_eq!(cfg.head, (220, 255, 220));
    assert_eq!(cfg.trail, (0, 255, 40));
    assert_eq!(cfg.charset, DEFAULT_CHARSET);
    assert_eq!(cfg.font_path, None);
}

#[test]
fn a_file_is_read_line_by_line() {
    let text = "# rain\n[look]\n\nfps = 60\r\n  color=\"#ff8000\" # orange\nno value\n\
                charset = \"a#b\"\nfont = /x y/z.ttf # here\n=5\nspeed = 4 - 20";
    assert_eq!(
        settings(text),
        pairs(&[
            ("fps", "60"),
            ("color", "#ff8000"),
            ("charset", "a#b"),
            ("font", "/x y/z.ttf"),
            ("", "5"),
            ("speed", "4 - 20"),
        ])
    );
    let cfg = from_file(text);
    assert_eq!(cfg.fps, 60);
    assert_eq!(cfg.trail, (255, 128, 0));
    assert_eq!(cfg.charset, "a#b");
    assert_eq!(cfg.font_path.as_deref(), Some("/x y/z.ttf"));
    assert_eq!(speeds(&cfg), (4.0, 20.0));
    assert_eq!(font_px(&cfg), 26.0);
}

#[test]
fn values_end_at_the_quote_or_at_the_comment() {
    assert_eq!(settings("k = \"a = b # c\" tail"), pairs(&[("k", "a = b # c")]));
    assert_eq!(settings("k = \"open"), pairs(&[("k", "open")]));
    assert_eq!(settings("k = \"\""), pairs(&[("k", "")]));
    assert_eq!(settings("k = a \"b\" # c"), pairs(&[("k", "a \"b\"")]));
    assert_eq!(settings("k = # c"), pairs(&[("k", "")]));
    assert_eq!(settings("k ="), pairs(&[("k", "")]));
    assert_eq!(settings("a = b = c"), pairs(&[("a", "b = c")]));
    assert_eq!(settings("k = \" a \""), pairs(&[("k", " a ")]));
}

#[test]
fn quoted_and_bare_values_read_back() {
    for v in ["a", "a b", "4-20", "=x=", "#"] {
        assert_eq!(settings(&format!("key = \"{v}\"")), pairs(&[("key", v)]));
    }
    for v in ["a", "a b", "4-20", "x\"y"] {
        assert_eq!(settings(&format!("key = {v}")), pairs(&[("key", v)]));
        assert_eq!(settings(&format!("key = {v} # note")), pairs(&[("key", v)]));
    }
}

#[test]
fn idle_lines_change_nothing() {
    let bare = "fps = 1\nfont = f";
    for line in ["", "   ", "# fps = 2", "[fps = 2]", "\t# x"] {
        assert_eq!(settings(&format!("fps = 1\n{line}\nfont = f")), settings(bare));
        assert_eq!(settings(&format!("{line}\n{bare}")), settings(bare));
        assert_eq!(settings(&format!("{bare}\n{line}")), settings(bare));
    }
    assert_eq!(settings(""), pairs(&[]));
}

#[test]
fn the_frame_rate_is_kept_in_bounds() {
    assert_eq!(with(&[("fps", "60")]).fps, 60);
    assert_eq!(with(&[("fps", "0")]).fps, 1);
    assert_eq!(with(&[("fps", "1000")]).fps, 240);
    assert_eq!(with(&[("fps", "99999999999999999999")]).fps, 30);
    assert_eq!(with(&[("fps", "12.5")]).fps, 30);
    assert_eq!(with(&[("fps", " 60")]).fps, 30);
}

#[test]
fn small_glyphs_are_refused() {
    assert_eq!(font_px(&with(&[("font_size", "12.5")])), 12.5);
    assert_eq!(font_px(&with(&[("font-size", "4")])), 4.0);
    assert_eq!(font_px(&with(&[("font_size", "3.99")])), 26.0);
    assert_eq!(font_px(&with(&[("font_size", "-5")])), 26.0);
    assert_eq!(font_px(&with(&[("font_size", "nan")])), 26.0);
    assert_eq!(font_px(&with(&[("font_size", "big")])), 26.0);
    assert_eq!(font_px(&with(&[("font_size", "inf")])), f32::INFINITY);
}

#[test]
fn speeds_are_a_range_or_a_greatest() {
    assert_eq!(speeds(&with(&[("speed", "4-20")])), (4.0, 20.0));
    assert_eq!(speeds(&with(&[("speed", " 4 - 20 ")])), (4.0, 20.0));
    assert_eq!(speeds(&with(&[("speed", "20-4")])), (4.0, 20.0));
    assert_eq!(speeds(&with(&[("speed", "10")])), (10.0f32 * 0.4, 10.0));
    assert_eq!(speeds(&with(&[("speed", "4-x")])), (6.0, 24.0));
    assert_eq!(speeds(&with(&[("speed", "-4-20")])), (6.0, 24.0));
    assert_eq!(speeds(&with(&[("speed", "fast")])), (6.0, 24.0));
    assert_eq!(speeds(&with(&[("speed_min", "9")])), (9.0, 24.0));
    assert_eq!(speeds(&with(&[("speed_max", "9")])), (6.0, 9.0));
}

#[test]
fn the_least_speed_is_at_least_one_half() {
    assert_eq!(speeds(&with(&[("speed", "0.1-5")])), (0.5, 5.0));
    assert_eq!(speeds(&with(&[("speed_min", "-3")])), (0.5, 24.0));
    assert_eq!(speeds(&with(&[("speed_min", "nan")])), (0.5, 24.0));
    // Both are slower: the least ends up above the greatest until the next setting.
    assert_eq!(speeds(&with(&[("speed", "0.1-0.2")])), (0.5, 0.2));
    assert_eq!(speeds(&with(&[("speed", "0.1-0.2"), ("fps", "1")])), (0.5, 0.5));
}

#[test]
fn speeds_come_out_in_order() {
    assert_eq!(speeds(&with(&[("speed_min", "30")])), (24.0, 30.0));
    assert_eq!(speeds(&with(&[("speed_max", "2")])), (2.0, 6.0));
}

#[test]
fn colours_set_leader_and_trail() {
    let cfg = with(&[("color", "Amber")]);
    assert_eq!((cfg.head, cfg.trail), ((255, 240, 200), (255, 176, 0)));
    let cfg = with(&[("color", "no such")]);
    assert_eq!((cfg.head, cfg.trail), ((220, 255, 220), (0, 255, 40)));
}

#[test]
fn characters_and_font_are_taken_as_they_are() {
    assert_eq!(with(&[("charset", "binary")]).charset, "01");
    assert_eq!(with(&[("charset", "")]).charset, DEFAULT_CHARSET);
    assert_eq!(with(&[("font", "")]).font_path.as_deref(), Some(""));
}

#[test]
fn unknown_keys_set_nothing() {
    for key in ["idle_ms", "FPS", "colour", ""] {
        assert!(numbers_in(key, "5").is_empty());
        let cfg = with(&[(key, "5")]);
        assert_eq!(cfg.fps, 30);
        assert_eq!(speeds(&cfg), (6.0, 24.0));
        assert_eq!(font_px(&cfg), 26.0);
        assert_eq!(cfg.charset, DEFAULT_CHARSET);
        assert_eq!(cfg.font_path, None);
    }
}

#[test]
fn numbers_are_taken_out_of_the_value() {
    assert_eq!(numbers_in("font_size", " 5"), vec![" 5"]);
    assert_eq!(numbers_in("font-size", "5"), vec!["5"]);
    assert_eq!(numbers_in("speed_min", "5"), vec!["5"]);
    assert_eq!(numbers_in("speed_max", "5"), vec!["5"]);
    assert_eq!(numbers_in("speed", "5"), vec!["5"]);
    assert_eq!(numbers_in("speed", " 4 - 20-x"), vec!["4", "20-x"]);
    assert_eq!(numbers_in("speed", "-"), vec!["", ""]);
    assert!(numbers_in("fps", "5").is_empty());
    assert!(numbers_in("color", "5").is_empty());
}

#[test]
fn flags_win_over_the_file() {
    let flags = vec![
        Setting { key: "fps".to_string(), val: "10".to_string() },
        Setting { key: "color".to_string(), val: "red".to_string() },
        Setting { key: "speed".to_string(), val: "1-2".to_string() },
        Setting { key: "fps".to_string(), val: "what".to_string() },
    ];
    for file in ["", "fps = 90\ncolor = blue\nspeed = 7-9\nfont_size = 8", "fps = x"] {
        let mut cfg = from_file(file);
        let size = font_px(&cfg);
        apply_settings(&mut cfg, &flags, &all_readings(&flags));
        assert_eq!(cfg.fps, 10);
        assert_eq!(cfg.trail, (255, 40, 40));
        assert_eq!(speeds(&cfg), (1.0, 2.0));
        assert_eq!(font_px(&cfg), size);
    }
}

#[test]
fn cut_characters_leave_the_configuration_alone() {
    let mut cfg = Config::default();
    assert_eq!(try_apply_key(&mut cfg, "color", "€€", &vec![]), Err(CutCharacter));
    assert_eq!(try_apply_key(&mut cfg, "font", "€€", &vec![]), Ok(()));
    assert_eq!(cfg.font_path.as_deref(), Some("€€"));
    assert_eq!(try_apply_key(&mut cfg, "color", "red", &vec![]), Ok(()));
    assert_eq!(cfg.trail, (255, 40, 40));

    let mut cfg = Config::default();
    let text = "fps = 5\ncolor = €€";
    let numbers = all_readings(&settings_in(text));
    assert_eq!(try_parse_config_text(text, &mut cfg, &numbers), Err(CutCharacter));
    assert_eq!(cfg.fps, 30);
    let list = settings_in(text);
    assert_eq!(try_apply_settings(&mut cfg, &list, &numbers), Err(CutCharacter));
    assert_eq!(cfg.fps, 30);

    let text = "fps = 5\ncolor = €";
    let numbers = all_readings(&settings_in(text));
    assert_eq!(try_parse_config_text(text, &mut cfg, &numbers), Ok(()));
    assert_eq!(cfg.fps, 5);
}

#[test]
fn animations_have_small_glyphs() {
    let cfg = with(&[("font_size", "26"), ("font", "f"), ("charset", "xy"), ("fps", "7")]);
    let dense = densify(&cfg);
    assert_eq!(font_px(&dense), 15.0);
    assert_eq!(dense.fps, 7);
    assert_eq!(dense.charset, "xy");
    assert_eq!(dense.font_path.as_deref(), Some("f"));
    assert_eq!((dense.head, dense.trail), (cfg.head, cfg.trail));
    assert_eq!(speeds(&dense), speeds(&cfg));
    assert_eq!(font_px(&densify(&with(&[("font_size", "9")]))), 9.0);
}
