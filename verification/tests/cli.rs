use wlmatrix::cli::{config_path, default_config_path, next_val, plan, Action};

fn args(words: &[&str]) -> Vec<String> {
    words.iter().map(|w| w.to_string()).collect()
}

fn some(s: &str) -> Option<String> {
    Some(s.to_string())
}

fn settings(words: &[&str]) -> Vec<(String, String)> {
    plan(&args(words)).settings.into_iter().map(|s| (s.key, s.val)).collect()
}

fn action(words: &[&str]) -> String {
    match plan(&args(words)).action {
        Action::Help => "help".to_string(),
        Action::Version => "version".to_string(),
        Action::Fail(m) => format!("fail: {m}"),
        Action::Run => "run".to_string(),
        Action::Shot(p) => format!("shot: {p}"),
        Action::Gif(p) => format!("gif: {p}"),
    }
}

fn pair(key: &str, val: &str) -> (String, String) {
    (key.to_string(), val.to_string())
}

#[test]
fn the_next_argument_is_the_value() {
    let line = args(&["--fps", "60"]);
    let mut i = 0;
    assert_eq!(next_val(&line, &mut i, "none"), Ok("60".to_string()));
    assert_eq!(i, 1);
    assert_eq!(next_val(&line, &mut i, "none"), Err("none".to_string()));
    assert_eq!(i, 2);
}

#[test]
fn the_default_file_is_under_the_configuration_home() {
    assert_eq!(default_config_path(&some("/x"), &some("/h")), some("/x/wlmatrix/config.toml"));
    assert_eq!(default_config_path(&some("/x/"), &None), some("/x/wlmatrix/config.toml"));
}

#[test]
fn otherwise_it_is_under_the_home() {
    let expected = some("/h/.config/wlmatrix/config.toml");
    assert_eq!(default_config_path(&None, &some("/h")), expected);
    assert_eq!(default_config_path(&some(""), &some("/h")), expected);
    assert_eq!(default_config_path(&None, &some("")), some(".config/wlmatrix/config.toml"));
    assert_eq!(default_config_path(&None, &None), None);
    assert_eq!(default_config_path(&some(""), &None), None);
}

#[test]
fn paths_are_joined_as_the_standard_library_does() {
    for base in ["/a", "/a/", "a", "", "/", "a//", "ä"] {
        let joined = std::path::Path::new(base).join(".config/wlmatrix/config.toml");
        assert_eq!(default_config_path(&None, &some(base)), some(joined.to_str().unwrap()));
    }
}

#[test]
fn the_first_config_flag_names_the_file() {
    let none = None;
    let home = some("/h");
    let default = some("/h/.config/wlmatrix/config.toml");
    let path = |words: &[&str]| config_path(&args(words), &none, &home);
    assert_eq!(path(&["--config", "a", "--config", "b"]), some("a"));
    assert_eq!(path(&["--fps", "--config", "c"]), some("c"));
    assert_eq!(path(&["--config"]), default);
    assert_eq!(path(&["x", "--config"]), default);
    assert_eq!(path(&[]), default);
}

#[test]
fn flags_become_settings_in_order() {
    let line = [
        "--fps", "60", "--font-size", "12", "--speed", "4-20", "--color", "red", "--charset",
        "binary", "--fps", "x",
    ];
    assert_eq!(
        settings(&line),
        vec![
            pair("fps", "60"),
            pair("font_size", "12"),
            pair("speed", "4-20"),
            pair("color", "red"),
            pair("charset", "binary"),
            pair("fps", "x"),
        ]
    );
    assert_eq!(action(&line), "run");
}

#[test]
fn a_value_may_look_like_a_flag() {
    assert_eq!(settings(&["--color", "--help"]), vec![pair("color", "--help")]);
    assert_eq!(action(&["--color", "--help"]), "run");
}

#[test]
fn without_arguments_it_runs() {
    assert_eq!(action(&[]), "run");
    assert_eq!(action(&["--config", "file"]), "run");
    assert_eq!(action(&["--config"]), "run");
    assert_eq!(action(&["--config", "--help"]), "run");
}

#[test]
fn help_and_version_end_the_reading() {
    assert_eq!(action(&["-h"]), "help");
    assert_eq!(action(&["--help", "--nonsense"]), "help");
    assert_eq!(action(&["-V"]), "version");
    assert_eq!(action(&["--fps", "1", "--version"]), "version");
    assert_eq!(settings(&["--fps", "1", "-h", "--fps", "2"]), vec![pair("fps", "1")]);
}

#[test]
fn the_last_picture_is_the_one_written() {
    assert_eq!(action(&["--shot", "a.png"]), "shot: a.png");
    assert_eq!(action(&["--gif", "a.gif"]), "gif: a.gif");
    assert_eq!(action(&["--shot", "a.png", "--gif", "b.gif"]), "gif: b.gif");
    assert_eq!(action(&["--gif", "b.gif", "--shot", "a.png"]), "shot: a.png");
}

#[test]
fn flags_want_their_values() {
    assert_eq!(action(&["--fps"]), "fail: --fps requires a number");
    assert_eq!(action(&["--font-size"]), "fail: --font-size requires a number");
    assert_eq!(action(&["--speed"]), "fail: --speed requires MIN-MAX");
    assert_eq!(action(&["--color"]), "fail: --color requires a value");
    assert_eq!(action(&["--charset"]), "fail: --charset requires a value");
    assert_eq!(action(&["--shot"]), "fail: --shot requires a file path");
    assert_eq!(action(&["--gif"]), "fail: --gif requires a file path");
}

#[test]
fn unknown_arguments_are_refused() {
    assert_eq!(action(&["--nope"]), "fail: unknown argument '--nope'. Try --help.");
    assert_eq!(action(&[""]), "fail: unknown argument ''. Try --help.");
    assert_eq!(settings(&["--fps", "1", "x"]), vec![pair("fps", "1")]);
}
