use evdev::Key;
use sensor_core::rewrite::rewrite_setting;
use sensor_core::config::{
    config_path, default_hotkey, default_model_path, hotkey_by_name, key_by_name, key_short_name,
    strip_key_prefix, Config, ConfigError, Hotkey, DEFAULT_MODIFIER, DEFAULT_TRIGGER,
};

#[test]
fn empty_config_is_the_default() {
    assert_eq!(Config::parse("").unwrap(), Config::default());
    assert_eq!(Config::parse("\n\n   \n").unwrap(), Config::default());
}

#[test]
fn parses_each_setting() {
    let cfg = Config::parse("hotkey = F12\nmodel = /tmp/m.bin\npaste_shift = true").unwrap();
    assert_eq!(cfg.hotkey, Hotkey::single(Key::KEY_F12.code()));
    assert_eq!(cfg.model, Some("/tmp/m.bin".to_string()));
    assert!(cfg.paste_shift);
}

#[test]
fn ignores_comments_and_whitespace() {
    let cfg = Config::parse("# a comment\n  hotkey=RIGHTALT   # trailing\n").unwrap();
    assert_eq!(cfg.hotkey, Hotkey::single(Key::KEY_RIGHTALT.code()));
}

#[test]
fn rejects_bad_input_with_line_numbers() {
    for bad in [
        "hotkey = NOSUCHKEY",
        "nonsense",
        "unknown = 1",
        "paste_shift = yes",
    ] {
        assert!(Config::parse(bad).is_err(), "{bad:?} should not parse");
    }
    let err = Config::parse("hotkey = F12\nbroken").unwrap_err().message();
    assert!(err.contains("line 2"), "{err}");
}

#[test]
fn config_resolves_keys_with_or_without_prefix() {
    assert_eq!(key_by_name("F12"), Some(Key::KEY_F12.code()));
    assert_eq!(key_by_name("key_f12"), Some(Key::KEY_F12.code()));
    assert_eq!(key_by_name("rightalt"), Some(Key::KEY_RIGHTALT.code()));
    assert_eq!(key_by_name("NOPE"), None);
}

#[test]
fn main_resolves_keys_with_or_without_prefix() {
    assert_eq!(key_by_name("F12"), Some(Key::KEY_F12.code()));
    assert_eq!(key_by_name("key_f12"), Some(Key::KEY_F12.code()));
    assert_eq!(key_by_name("SCROLLLOCK"), Some(Key::KEY_SCROLLLOCK.code()));
    assert_eq!(key_by_name("RIGHTCTRL"), Some(Key::KEY_RIGHTCTRL.code()));
}

#[test]
fn rejects_unknown_keys() {
    assert_eq!(key_by_name("NOPE"), None);
}

#[test]
fn default_hotkey_is_right_alt_and_dot() {
    assert_eq!(DEFAULT_MODIFIER, Key::KEY_RIGHTALT.code());
    assert_eq!(DEFAULT_TRIGGER, Key::KEY_DOT.code());
    let chord = Hotkey::chord(Key::KEY_RIGHTALT.code(), Key::KEY_DOT.code());
    assert_eq!(default_hotkey(), chord);
    let d = Config::default();
    assert_eq!(d.hotkey, chord);
    assert_eq!(d.model, None);
    assert!(!d.paste_shift);
}

#[test]
fn chords_parse_as_modifier_plus_key() {
    let chord = Hotkey::chord(Key::KEY_RIGHTALT.code(), Key::KEY_DOT.code());
    assert_eq!(hotkey_by_name("RIGHTALT + DOT"), Some(chord));
    assert_eq!(hotkey_by_name("rightalt+dot"), Some(chord));
    assert_eq!(hotkey_by_name(" KEY_RIGHTALT +KEY_DOT "), Some(chord));
    assert_eq!(hotkey_by_name("F12"), Some(Hotkey::single(Key::KEY_F12.code())));
    assert_eq!(hotkey_by_name("RIGHTALT + NOPE"), None);
    assert_eq!(hotkey_by_name("NOPE + DOT"), None);
    assert_eq!(hotkey_by_name("+"), None);
    assert_eq!(hotkey_by_name(""), None);
    let cfg = Config::parse("hotkey = LEFTCTRL + SPACE").unwrap();
    assert_eq!(cfg.hotkey, Hotkey::chord(Key::KEY_LEFTCTRL.code(), Key::KEY_SPACE.code()));
    assert_eq!(
        Config::parse("\nhotkey = RIGHTALT + NOPE").unwrap_err(),
        ConfigError::NoSuchKey { line: 2, name: "RIGHTALT + NOPE".to_string() }
    );
}

#[test]
fn hotkeys_encode_as_the_config_writes_them() {
    let chord = Hotkey::chord(Key::KEY_RIGHTALT.code(), Key::KEY_DOT.code());
    assert_eq!(chord.encode(), "RIGHTALT + DOT");
    assert_eq!(Hotkey::single(Key::KEY_F12.code()).encode(), "F12");
    assert_eq!(chord.describe(), "KEY_RIGHTALT + KEY_DOT");
    assert_eq!(Hotkey::single(Key::KEY_F12.code()).describe(), "KEY_F12");
    assert_eq!(key_short_name(Key::KEY_SCROLLLOCK.code()), "SCROLLLOCK");
    assert_eq!(strip_key_prefix("KEY_A"), "A");
    assert_eq!(strip_key_prefix("unknown key: 700"), "unknown key: 700");
    assert_eq!(strip_key_prefix("KEY"), "KEY");
    // What encode writes reads back as the same hotkey.
    for h in [chord, Hotkey::single(Key::KEY_PAUSE.code())] {
        assert_eq!(hotkey_by_name(&h.encode()), Some(h));
        let cfg = Config::parse(&rewrite_setting("", "hotkey", &h.encode())).unwrap();
        assert_eq!(cfg.hotkey, h);
    }
}

#[test]
fn model_path_prefers_xdg_data_home() {
    assert_eq!(
        default_model_path(Some("/d".to_string()), Some("/home/u".to_string())),
        Some("/d/sensor/ggml-tiny.en.bin".to_string())
    );
    assert_eq!(
        default_model_path(Some(String::new()), Some("/home/u".to_string())),
        Some("/home/u/.local/share/sensor/ggml-tiny.en.bin".to_string())
    );
    assert_eq!(
        default_model_path(None, Some("/home/u/".to_string())),
        Some("/home/u/.local/share/sensor/ggml-tiny.en.bin".to_string())
    );
    assert_eq!(default_model_path(None, None), None);
    assert_eq!(default_model_path(Some(String::new()), None), None);
}

#[test]
fn key_names_trim_and_ignore_case() {
    assert_eq!(key_by_name("  KeY_a \t"), Some(Key::KEY_A.code()));
    assert_eq!(key_by_name("dot"), Some(Key::KEY_DOT.code()));
    assert_eq!(key_by_name(""), None);
    assert_eq!(key_by_name("KEY_"), None);
}

#[test]
fn later_settings_win() {
    let cfg = Config::parse("paste_shift = true\npaste_shift = false\nhotkey = F12\nhotkey = A").unwrap();
    assert!(!cfg.paste_shift);
    assert_eq!(cfg.hotkey, Hotkey::single(Key::KEY_A.code()));
}

#[test]
fn crlf_lines_and_comment_only_values() {
    let cfg = Config::parse("model = m.bin\r\npaste_shift = true\r\n").unwrap();
    assert_eq!(cfg.model, Some("m.bin".to_string()));
    assert!(cfg.paste_shift);
    // A value may be empty once its comment is cut.
    let cfg = Config::parse("model = # none").unwrap();
    assert_eq!(cfg.model, Some(String::new()));
}

#[test]
fn each_error_names_its_line() {
    assert_eq!(
        Config::parse("\n\nnonsense").unwrap_err(),
        ConfigError::Syntax { line: 3, text: "nonsense".to_string() }
    );
    assert_eq!(
        Config::parse("hotkey = NOSUCHKEY").unwrap_err(),
        ConfigError::NoSuchKey { line: 1, name: "NOSUCHKEY".to_string() }
    );
    assert_eq!(
        Config::parse("# c\npaste_shift = yes").unwrap_err(),
        ConfigError::PasteShift { line: 2 }
    );
    assert_eq!(
        Config::parse("unknown = 1").unwrap_err(),
        ConfigError::UnknownSetting { line: 1, name: "unknown".to_string() }
    );
    // The first bad line is the one reported.
    assert_eq!(
        Config::parse("a\nb").unwrap_err(),
        ConfigError::Syntax { line: 1, text: "a".to_string() }
    );
}

#[test]
fn error_messages() {
    assert_eq!(
        ConfigError::Syntax { line: 2, text: "broken".to_string() }.message(),
        "line 2: expected `key = value`, got \"broken\""
    );
    assert_eq!(
        ConfigError::NoSuchKey { line: 12, name: "NOPE".to_string() }.message(),
        "line 12: no such key \"NOPE\""
    );
    assert_eq!(
        ConfigError::PasteShift { line: 1 }.message(),
        "line 1: paste_shift must be true or false"
    );
    assert_eq!(
        ConfigError::UnknownSetting { line: 4, name: "x".to_string() }.message(),
        "line 4: unknown setting \"x\""
    );
    assert_eq!(
        ConfigError::NoHome.message(),
        "neither XDG_CONFIG_HOME nor HOME is set"
    );
}

#[test]
fn config_path_prefers_xdg() {
    assert_eq!(
        config_path(Some("/x/cfg".to_string()), Some("/home/u".to_string())).unwrap(),
        "/x/cfg/sensor/config"
    );
    assert_eq!(
        config_path(Some("/x/cfg/".to_string()), None).unwrap(),
        "/x/cfg/sensor/config"
    );
    assert_eq!(
        config_path(Some(String::new()), Some("/home/u".to_string())).unwrap(),
        "/home/u/.config/sensor/config"
    );
    assert_eq!(
        config_path(None, Some("/home/u".to_string())).unwrap(),
        "/home/u/.config/sensor/config"
    );
    assert_eq!(config_path(None, None).unwrap_err(), ConfigError::NoHome);
}

#[test]
fn rewrite_keeps_other_lines() {
    let before = "# my settings\nhotkey = F12 # old\nmodel = m.bin\nhotkey = A\n";
    let after = rewrite_setting(before, "hotkey", "RIGHTALT");
    assert_eq!(after, "# my settings\nhotkey = RIGHTALT\nmodel = m.bin\n");
    let cfg = Config::parse(&after).unwrap();
    assert_eq!(cfg.hotkey, Hotkey::single(Key::KEY_RIGHTALT.code()));
    assert_eq!(cfg.model, Some("m.bin".to_string()));
}

#[test]
fn rewrite_adds_missing_setting() {
    assert_eq!(rewrite_setting("", "paste_shift", "true"), "paste_shift = true\n");
    assert_eq!(
        rewrite_setting("model = m\n# hotkey = F1", "hotkey", "F2"),
        "model = m\n# hotkey = F1\nhotkey = F2\n"
    );
}

#[test]
fn target_gets_the_prefix_once() {
    let t = |s: &str| sensor_core::config::key_target_of(s).into_iter().collect::<String>();
    assert_eq!(t("F12"), "KEY_F12");
    assert_eq!(t("KEY_F12"), "KEY_F12");
    assert_eq!(t("KEY"), "KEY_KEY");
    assert_eq!(t(""), "KEY_");
}

#[test]
fn render_puts_the_quote_in_place() {
    let e = ConfigError::NoSuchKey { line: 3, name: "ignored".to_string() };
    assert_eq!(e.render("«X»"), "line 3: no such key «X»");
    assert_eq!(ConfigError::PasteShift { line: 9 }.render("q"), "line 9: paste_shift must be true or false");
}
