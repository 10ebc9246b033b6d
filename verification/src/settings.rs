//! Themes, hotkeys and what the keys do.

use vstd::prelude::*;
use std::collections::HashMap;
use device_query::Keycode;

verus! {

/// The colours of the timer, each as `#RRGGBB`.
#[derive(Clone, Copy, Debug)]
pub struct Theme {
    pub bg: &'static str,
    pub normal_text: &'static str,
    pub label_text: &'static str,
    pub paused_text: &'static str,
    pub behind_lose: &'static str,
    pub behind_gain: &'static str,
    pub ahead_lose: &'static str,
    pub ahead_gain: &'static str,
    pub highlight: &'static str,
}

/// The theme that the timer comes with.
pub open spec fn flitter_theme_spec() -> Theme {
    Theme {
        bg: "#060604",
        normal_text: "#F8F8F3",
        label_text: "#9E9E9B",
        paused_text: "#808080",
        behind_lose: "#F92572",
        behind_gain: "#F87AA6",
        ahead_lose: "#ABF7B3",
        ahead_gain: "#1CE82C",
        highlight: "#5B60FF",
    }
}

/// The theme that the timer comes with.
pub fn flitter_theme() -> (theme: Theme)
    ensures
        theme == flitter_theme_spec(),
{
    Theme {
        bg: "#060604",
        normal_text: "#F8F8F3",
        label_text: "#9E9E9B",
        paused_text: "#808080",
        behind_lose: "#F92572",
        behind_gain: "#F87AA6",
        ahead_lose: "#ABF7B3",
        ahead_gain: "#1CE82C",
        highlight: "#5B60FF",
    }
}

/// What a key press asks of the timer.
#[derive(Clone, Copy, Debug, PartialEq, Eq, Hash, Structural)]
pub enum Action {
    Split,
    UndoSplit,
    DeleteSplit,
    ResetAndSave,
    ResetAndDelete,
    Pause,
}

/// The themes by name.
#[derive(Clone, Copy, Debug, PartialEq, Eq, Structural)]
pub enum ThemeName {
    Flitter,
}

/// The settings as they are written down: the theme by its name, the
/// hotkeys by the names of their keys.
#[derive(Debug)]
pub struct ParsedSettings {
    pub theme: ThemeName,
    pub global_hotkeys: Vec<(String, Action)>,
    pub draw_background: bool,
}

/// The settings as the timer uses them: the theme itself, the hotkeys by the
/// codes of their keys.
#[derive(Debug)]
pub struct Settings {
    pub theme: Theme,
    pub global_hotkeys: HashMap<u32, Action>,
    pub draw_background: bool,
}

/// Why settings are refused.
#[derive(Debug)]
pub enum SettingsError {
    /// No key has this name.
    InvalidHotkey(String),
}

/// The code of the key that device_query knows by `name`, if it knows one. A
/// key's code is the number that its `Keycode` turns into as an integer.
pub uninterp spec fn key_code(name: Seq<char>) -> Option<u32>;

/// The code of the key named `name`.
///
/// Trusted: `Keycode::from_str` of device_query matches the name against the
/// names of its keys and returns the key of that name or an error; the
/// result, a key's number among the keys or nothing, depends on the name
/// alone.
#[verifier::external_body]
fn key_named(name: &str) -> (code: Option<u32>)
    ensures
        code == key_code(name@),
{
    match <Keycode as std::str::FromStr>::from_str(name) {
        Ok(key) => Some(key as u32),
        Err(_) => None,
    }
}

/// The hotkeys as plain data: the name of each one's key, and its action.
pub open spec fn hotkey_views(hotkeys: Seq<(String, Action)>) -> Seq<(Seq<char>, Action)> {
    hotkeys.map_values(|hotkey: (String, Action)| (hotkey.0@, hotkey.1))
}

impl ParsedSettings {
    /// The hotkeys as plain data.
    pub open spec fn hotkeys(&self) -> Seq<(Seq<char>, Action)> {
        hotkey_views(self.global_hotkeys@)
    }
}

/// What the first `n` hotkeys bind, given the code of each one's key: every
/// key's code to its action, a later hotkey taking the place of an earlier
/// one for the same key.
pub open spec fn bindings(
    hotkeys: Seq<(Seq<char>, Action)>,
    codes: Seq<Option<u32>>,
    n: nat,
) -> Map<u32, Action>
    decreases n,
{
    if n == 0 || n > hotkeys.len() || n > codes.len() {
        Map::empty()
    } else {
        match codes[n - 1] {
            Some(code) => bindings(hotkeys, codes, (n - 1) as nat).insert(code, hotkeys[n - 1].1),
            None => bindings(hotkeys, codes, (n - 1) as nat),
        }
    }
}

/// The codes that device_query gives the keys of the hotkeys.
pub open spec fn hotkey_codes(hotkeys: Seq<(Seq<char>, Action)>) -> Seq<Option<u32>> {
    Seq::new(hotkeys.len(), |i: int| key_code(hotkeys[i].0))
}

/// Whether `i` is the first hotkey whose key has no code.
pub open spec fn first_unknown(codes: Seq<Option<u32>>, i: int) -> bool {
    &&& 0 <= i < codes.len()
    &&& codes[i] is None
    &&& forall|j: int| 0 <= j < i ==> (#[trigger] codes[j]) is Some
}

/// Whether `bound` is what binding the hotkeys gives, given the code of each
/// one's key: the bindings where every key has a code, else the name of the
/// first key that has none.
pub open spec fn binds_to(
    hotkeys: Seq<(Seq<char>, Action)>,
    codes: Seq<Option<u32>>,
    bound: Result<Map<u32, Action>, Seq<char>>,
) -> bool {
    match bound {
        Ok(map) => {
            &&& forall|i: int| 0 <= i < codes.len() ==> (#[trigger] codes[i]) is Some
            &&& map == bindings(hotkeys, codes, hotkeys.len())
        },
        Err(name) => exists|i: int| #[trigger] first_unknown(codes, i) && name == hotkeys[i].0,
    }
}

/// Binds the hotkeys, given the code of each one's key: every key's code to
/// its action, a later hotkey taking the place of an earlier one for the
/// same key. Fails on the first hotkey whose key has no code, with the name
/// of that key.
pub fn bind_hotkeys(hotkeys: &Vec<(String, Action)>, codes: &Vec<Option<u32>>) -> (bound: Result<
    HashMap<u32, Action>,
    SettingsError,
>)
    requires
        codes.len() == hotkeys.len(),
    ensures
        binds_to(
            hotkey_views(hotkeys@),
            codes@,
            match bound {
                Ok(map) => Ok(map@),
                Err(SettingsError::InvalidHotkey(name)) => Err(name@),
            },
        ),
{
    let ghost views = hotkey_views(hotkeys@);
    let mut map: HashMap<u32, Action> = HashMap::new();
    let mut i: usize = 0;
    while i < hotkeys.len()
        invariant
            i <= hotkeys.len() == codes.len(),
            views == hotkey_views(hotkeys@),
            forall|j: int| 0 <= j < i ==> (#[trigger] codes[j]) is Some,
            map@ == bindings(views, codes@, i as nat),
        decreases hotkeys.len() - i,
    {
        match codes[i] {
            Some(code) => {
                map.insert(code, hotkeys[i].1);
            },
            None => {
                assert(first_unknown(codes@, i as int));
                return Err(SettingsError::InvalidHotkey(hotkeys[i].0.clone()));
            },
        }
        i += 1;
    }
    Ok(map)
}

/// Whether `settings` is what the written settings come to: the theme of
/// their name, their hotkeys bound by the codes that device_query gives
/// their keys, and their choice of background; or the name of the first key
/// that device_query does not know.
pub open spec fn parses_to(
    theme: ThemeName,
    hotkeys: Seq<(Seq<char>, Action)>,
    draw_background: bool,
    settings: Result<Settings, SettingsError>,
) -> bool {
    &&& binds_to(
        hotkeys,
        hotkey_codes(hotkeys),
        match settings {
            Ok(settings) => Ok(settings.global_hotkeys@),
            Err(SettingsError::InvalidHotkey(name)) => Err(name@),
        },
    )
    &&& settings matches Ok(settings) ==> settings.theme == theme_of(theme)
        && settings.draw_background == draw_background
}

/// Turns settings as written down into settings as used: looks up the theme
/// by its name and every hotkey's key by its name. Fails on the first key
/// name that is not the name of a key.
pub fn post_parse_settings(parsed: &ParsedSettings) -> (settings: Result<Settings, SettingsError>)
    ensures
        parses_to(parsed.theme, parsed.hotkeys(), parsed.draw_background, settings),
{
    let theme = theme_named(parsed.theme);
    let ghost views = parsed.hotkeys();
    let mut codes: Vec<Option<u32>> = Vec::new();
    let mut i: usize = 0;
    while i < parsed.global_hotkeys.len()
        invariant
            i <= parsed.global_hotkeys.len(),
            views == parsed.hotkeys(),
            codes.len() == i,
            forall|j: int| 0 <= j < i ==> #[trigger] codes[j] == key_code(views[j].0),
        decreases parsed.global_hotkeys.len() - i,
    {
        codes.push(key_named(parsed.global_hotkeys[i].0.as_str()));
        i += 1;
    }
    assert(codes@ =~= hotkey_codes(views));
    match bind_hotkeys(&parsed.global_hotkeys, &codes) {
        Ok(global_hotkeys) => Ok(
            Settings { theme, global_hotkeys, draw_background: parsed.draw_background },
        ),
        Err(e) => Err(e),
    }
}

/// The hotkeys of a timer that has no settings written down.
pub open spec fn default_hotkeys() -> Seq<(Seq<char>, Action)> {
    seq![
        ("Space"@, Action::Split),
        ("PageUp"@, Action::UndoSplit),
        ("End"@, Action::DeleteSplit),
        ("P"@, Action::Pause),
        ("Backspace"@, Action::ResetAndSave),
        ("Delete"@, Action::ResetAndDelete),
    ]
}

/// The settings of a timer that has none written down.
pub fn default_settings() -> (settings: Result<Settings, SettingsError>)
    ensures
        parses_to(ThemeName::Flitter, default_hotkeys(), true, settings),
{
    post_parse_settings(&ParsedSettings::default())
}

/// Takes in settings as they were decoded from a file and makes them ready
/// for use.
pub fn read_settings_file(parsed: ParsedSettings) -> (settings: Result<Settings, SettingsError>)
    ensures
        parses_to(parsed.theme, parsed.hotkeys(), parsed.draw_background, settings),
{
    post_parse_settings(&parsed)
}

/// The theme of a name.
pub open spec fn theme_of(name: ThemeName) -> Theme {
    match name {
        ThemeName::Flitter => flitter_theme_spec(),
    }
}

/// The theme of a name.
pub fn theme_named(name: ThemeName) -> (theme: Theme)
    ensures
        theme == theme_of(name),
{
    match name {
        ThemeName::Flitter => flitter_theme(),
    }
}

impl Default for ParsedSettings {
    /// The settings of a timer that has none written down.
    fn default() -> (parsed: ParsedSettings)
        ensures
            parsed.theme == ThemeName::Flitter,
            parsed.draw_background,
            parsed.hotkeys() == default_hotkeys(),
    {
        let mut global_hotkeys: Vec<(String, Action)> = Vec::new();
        global_hotkeys.push((String::from_str("Space"), Action::Split));
        global_hotkeys.push((String::from_str("PageUp"), Action::UndoSplit));
        global_hotkeys.push((String::from_str("End"), Action::DeleteSplit));
        global_hotkeys.push((String::from_str("P"), Action::Pause));
        global_hotkeys.push((String::from_str("Backspace"), Action::ResetAndSave));
        global_hotkeys.push((String::from_str("Delete"), Action::ResetAndDelete));
        assert(hotkey_views(global_hotkeys@) =~= default_hotkeys());
        ParsedSettings { theme: ThemeName::Flitter, global_hotkeys, draw_background: true }
    }
}

} // verus!
