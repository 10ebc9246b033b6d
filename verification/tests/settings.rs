use device_query::Keycode;
use flitter::rotty::Color;
use flitter::settings::bind_hotkeys;
use flitter::settings::default_settings;
use flitter::settings::flitter_theme;
use flitter::settings::post_parse_settings;
use flitter::settings::read_settings_file;
use flitter::settings::Action;
use flitter::settings::ParsedSettings;
use flitter::settings::SettingsError;
use flitter::settings::ThemeName;
use flitter::utils::parse_color;

fn code(key: Keycode) -> u32 {
    key as u32
}

#[test]
fn default_hotkeys_are_bound() {
    let settings = default_settings().expect("the default keys have names");
    assert_eq!(settings.global_hotkeys.len(), 6);
    assert_eq!(settings.global_hotkeys[&code(Keycode::Space)], Action::Split);
    assert_eq!(settings.global_hotkeys[&code(Keycode::PageUp)], Action::UndoSplit);
    assert_eq!(settings.global_hotkeys[&code(Keycode::End)], Action::DeleteSplit);
    assert_eq!(settings.global_hotkeys[&code(Keycode::P)], Action::Pause);
    assert_eq!(settings.global_hotkeys[&code(Keycode::Backspace)], Action::ResetAndSave);
    assert_eq!(settings.global_hotkeys[&code(Keycode::Delete)], Action::ResetAndDelete);
    assert!(settings.draw_background);
    assert_eq!(settings.theme.bg, "#060604");
}

#[test]
fn default_parsed_settings() {
    let parsed = ParsedSettings::default();
    assert_eq!(parsed.theme, ThemeName::Flitter);
    assert!(parsed.draw_background);
    assert_eq!(
        parsed.global_hotkeys,
        vec![
            ("Space".to_string(), Action::Split),
            ("PageUp".to_string(), Action::UndoSplit),
            ("End".to_string(), Action::DeleteSplit),
            ("P".to_string(), Action::Pause),
            ("Backspace".to_string(), Action::ResetAndSave),
            ("Delete".to_string(), Action::ResetAndDelete),
        ]
    );
}

#[test]
fn unknown_key_names_fail_with_the_name() {
    let parsed = ParsedSettings {
        theme: ThemeName::Flitter,
        global_hotkeys: vec![
            ("A".to_string(), Action::Split),
            ("NoSuchKey".to_string(), Action::Pause),
            ("AlsoNone".to_string(), Action::Pause),
        ],
        draw_background: false,
    };
    match post_parse_settings(&parsed) {
        Err(SettingsError::InvalidHotkey(name)) => assert_eq!(name, "NoSuchKey"),
        Ok(_) => panic!("an unknown key name was accepted"),
    }
    match read_settings_file(parsed) {
        Err(SettingsError::InvalidHotkey(name)) => assert_eq!(name, "NoSuchKey"),
        Ok(_) => panic!("an unknown key name was accepted"),
    }
}

#[test]
fn later_hotkeys_replace_earlier_ones() {
    let parsed = ParsedSettings {
        theme: ThemeName::Flitter,
        global_hotkeys: vec![
            ("A".to_string(), Action::Split),
            ("B".to_string(), Action::Pause),
            ("A".to_string(), Action::UndoSplit),
        ],
        draw_background: false,
    };
    let settings = post_parse_settings(&parsed).expect("the keys have names");
    assert_eq!(settings.global_hotkeys.len(), 2);
    assert_eq!(settings.global_hotkeys[&code(Keycode::A)], Action::UndoSplit);
    assert_eq!(settings.global_hotkeys[&code(Keycode::B)], Action::Pause);
    assert!(!settings.draw_background);
}

#[test]
fn binding_goes_by_the_codes_given() {
    let hotkeys = vec![
        ("one".to_string(), Action::Split),
        ("two".to_string(), Action::Pause),
        ("three".to_string(), Action::UndoSplit),
    ];
    let bound = bind_hotkeys(&hotkeys, &vec![Some(7), Some(9), Some(7)]).expect("all have codes");
    assert_eq!(bound.len(), 2);
    assert_eq!(bound[&7], Action::UndoSplit);
    assert_eq!(bound[&9], Action::Pause);
    match bind_hotkeys(&hotkeys, &vec![Some(7), None, None]) {
        Err(SettingsError::InvalidHotkey(name)) => assert_eq!(name, "two"),
        Ok(_) => panic!("a key without a code was bound"),
    }
    assert_eq!(bind_hotkeys(&vec![], &vec![]).expect("nothing to bind").len(), 0);
}

#[test]
fn theme_colours_parse() {
    let theme = flitter_theme();
    assert_eq!(parse_color(theme.bg), Color::Rgb { r: 0x06, g: 0x06, b: 0x04 });
    assert_eq!(parse_color(theme.normal_text), Color::Rgb { r: 0xF8, g: 0xF8, b: 0xF3 });
    assert_eq!(parse_color(theme.highlight), Color::Rgb { r: 0x5B, g: 0x60, b: 0xFF });
    assert_eq!(parse_color(theme.ahead_gain), Color::Rgb { r: 0x1C, g: 0xE8, b: 0x2C });
}

#[test]
fn colours_parse_as_hexadecimal_numbers() {
    let black = Color::Rgb { r: 0, g: 0, b: 0 };
    assert_eq!(parse_color("#abcdef"), Color::Rgb { r: 0xab, g: 0xcd, b: 0xef });
    assert_eq!(parse_color("ABCDEF"), Color::Rgb { r: 0xab, g: 0xcd, b: 0xef });
    assert_eq!(parse_color("###12"), Color::Rgb { r: 0, g: 0, b: 0x12 });
    assert_eq!(parse_color("#+12"), Color::Rgb { r: 0, g: 0, b: 0x12 });
    assert_eq!(parse_color("#FF123456"), Color::Rgb { r: 0x12, g: 0x34, b: 0x56 });
    assert_eq!(parse_color("#FFFFFFFF"), Color::Rgb { r: 0xff, g: 0xff, b: 0xff });
    assert_eq!(parse_color("#000000000001"), Color::Rgb { r: 0, g: 0, b: 1 });
    for text in ["", "#", "#+", "#-1", "#12345G", "#100000000", "# 12", "12#", "#1 ", "++1"] {
        assert_eq!(parse_color(text), black, "{}", text);
        let number = u32::from_str_radix(text.trim_start_matches('#'), 16).unwrap_or(0);
        assert_eq!(number, 0, "{}", text);
    }
}
