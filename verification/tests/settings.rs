use serde_json::Value;
use whisper_lite::settings::{
    dir, path, Activation, HudPosition, Settings, Snippet, StoredSettings, Theme,
};

fn text(v: &Value, key: &str) -> Option<String> {
    v.get(key).map(|x| x.as_str().unwrap().to_string())
}

fn flag(v: &Value, key: &str) -> Option<bool> {
    v.get(key).map(|x| x.as_bool().unwrap())
}

fn stored(raw: &str) -> StoredSettings {
    let v: Value = serde_json::from_str(raw).unwrap();
    StoredSettings {
        shortcut: text(&v, "shortcut"),
        activation: text(&v, "activation"),
        tap_threshold_ms: v.get("tapThresholdMs").map(|x| x.as_u64().unwrap()),
        remove_fillers: flag(&v, "removeFillers"),
        language: text(&v, "language"),
        hud_position: text(&v, "hudPosition"),
        theme: text(&v, "theme"),
        play_sounds: flag(&v, "playSounds"),
        launch_at_login: flag(&v, "launchAtLogin"),
        model: text(&v, "model"),
        accurate: flag(&v, "accurate"),
        dictionary: v.get("dictionary").map(|x| {
            x.as_array().unwrap().iter().map(|w| w.as_str().unwrap().to_string()).collect()
        }),
        snippets: v.get("snippets").map(|x| {
            x.as_array()
                .unwrap()
                .iter()
                .map(|s| Snippet {
                    trigger: text(s, "trigger").unwrap(),
                    replacement: text(s, "replacement").unwrap(),
                })
                .collect()
        }),
        sound_start: text(&v, "soundStart"),
        sound_stop: text(&v, "soundStop"),
        input_device: text(&v, "inputDevice"),
        autocapitalize: flag(&v, "autocapitalize"),
        show_in_dock: flag(&v, "showInDock"),
        menubar_click_records: flag(&v, "menubarClickRecords"),
        history_enabled: flag(&v, "historyEnabled"),
        history_days: v.get("historyDays").map(|x| x.as_u64().unwrap() as u32),
    }
}

fn written(s: &StoredSettings) -> String {
    let mut m: serde_json::Map<String, Value> = serde_json::Map::new();
    m.insert("shortcut".into(), s.shortcut.clone().into());
    m.insert("activation".into(), s.activation.clone().into());
    m.insert("tapThresholdMs".into(), s.tap_threshold_ms.into());
    m.insert("removeFillers".into(), s.remove_fillers.into());
    m.insert("language".into(), s.language.clone().into());
    m.insert("hudPosition".into(), s.hud_position.clone().into());
    m.insert("theme".into(), s.theme.clone().into());
    m.insert("playSounds".into(), s.play_sounds.into());
    m.insert("launchAtLogin".into(), s.launch_at_login.into());
    m.insert("model".into(), s.model.clone().into());
    m.insert("accurate".into(), s.accurate.into());
    m.insert("dictionary".into(), s.dictionary.clone().into());
    let snippets: Vec<Value> = s
        .snippets
        .clone()
        .unwrap()
        .into_iter()
        .map(|x| {
            let mut o: serde_json::Map<String, Value> = serde_json::Map::new();
            o.insert("trigger".into(), x.trigger.into());
            o.insert("replacement".into(), x.replacement.into());
            Value::Object(o)
        })
        .collect();
    m.insert("snippets".into(), snippets.into());
    m.insert("soundStart".into(), s.sound_start.clone().into());
    m.insert("soundStop".into(), s.sound_stop.clone().into());
    m.insert("inputDevice".into(), s.input_device.clone().into());
    m.insert("autocapitalize".into(), s.autocapitalize.into());
    m.insert("showInDock".into(), s.show_in_dock.into());
    m.insert("menubarClickRecords".into(), s.menubar_click_records.into());
    m.insert("historyEnabled".into(), s.history_enabled.into());
    m.insert("historyDays".into(), s.history_days.into());
    Value::Object(m).to_string()
}

fn read(raw: &str) -> Settings {
    Settings::from_stored(stored(raw)).unwrap()
}

#[test]
fn default_shortcut_avoids_the_finder_conflict() {
    assert_ne!(Settings::default().shortcut, "Cmd+Option+Space");
}

#[test]
fn defaults_match_the_prd() {
    let s = Settings::default();
    assert_eq!(s.activation, Activation::Hold);
    assert_eq!(s.hud_position, HudPosition::BottomRight);
    assert!(s.remove_fillers);
    assert!(!s.launch_at_login);
}

#[test]
fn partial_json_fills_in_defaults() {
    let s = read(r#"{"shortcut":"Alt+X"}"#);
    assert_eq!(s.shortcut, "Alt+X");
    assert_eq!(s.activation, Activation::Hold);
    assert_eq!(s.tap_threshold_ms, 200);
}

#[test]
fn empty_json_is_all_defaults() {
    let s = read("{}");
    assert_eq!(s.shortcut, Settings::default().shortcut);
    assert_eq!(s.shortcut, "Ctrl+Shift+Space");
}

#[test]
fn old_settings_files_get_the_new_model_field() {
    let s = read(r#"{"shortcut":"Ctrl+Shift+Space"}"#);
    assert_eq!(s.model, "base");
    assert!(s.accurate);
}

#[test]
fn missing_input_device_means_system_default() {
    let s = read(r#"{"shortcut":"Ctrl+Shift+Space"}"#);
    assert_eq!(s.input_device, "");
}

#[test]
fn round_trips_through_json() {
    let mut s = Settings::default();
    s.hud_position = HudPosition::TopLeft;
    s.activation = Activation::Toggle;
    let json = written(&s.save());
    let back = read(&json);
    assert_eq!(back.hud_position, HudPosition::TopLeft);
    assert_eq!(back.activation, Activation::Toggle);
}

#[test]
fn everything_that_is_written_comes_back() {
    let mut s = Settings::default();
    s.shortcut = "Fn".into();
    s.activation = Activation::Both;
    s.tap_threshold_ms = 350;
    s.remove_fillers = false;
    s.language = "auto".into();
    s.theme = Theme::Dark;
    s.play_sounds = false;
    s.launch_at_login = true;
    s.model = "small".into();
    s.accurate = false;
    s.dictionary = vec!["Tauri".into(), "cpal".into()];
    s.snippets = vec![Snippet { trigger: "brb".into(), replacement: "be right back".into() }];
    s.sound_start = "Pop".into();
    s.sound_stop = String::new();
    s.input_device = "USB".into();
    s.autocapitalize = false;
    s.show_in_dock = true;
    s.menubar_click_records = true;
    s.history_enabled = false;
    s.history_days = 7;
    let back = read(&written(&s.save()));
    assert_eq!(format!("{back:?}"), format!("{s:?}"));
    assert_eq!(format!("{:?}", s.copy()), format!("{s:?}"));
}

#[test]
fn all_the_defaults() {
    let s = Settings::default();
    assert_eq!(s.language, "en");
    assert_eq!(s.theme, Theme::System);
    assert!(s.play_sounds);
    assert!(s.dictionary.is_empty());
    assert!(s.snippets.is_empty());
    assert_eq!(s.sound_start, "Tink");
    assert_eq!(s.sound_stop, "Purr");
    assert!(s.autocapitalize);
    assert!(!s.show_in_dock);
    assert!(!s.menubar_click_records);
    assert!(s.history_enabled);
    assert_eq!(s.history_days, 30);
    assert_eq!(Theme::default(), Theme::System);
    assert_eq!(Activation::default(), Activation::Hold);
    assert_eq!(HudPosition::default(), HudPosition::BottomRight);
}

#[test]
fn a_choice_that_does_not_exist_makes_a_file_unreadable() {
    assert!(Settings::from_stored(stored(r#"{"theme":"sepia"}"#)).is_none());
    assert!(Settings::from_stored(stored(r#"{"activation":"Hold"}"#)).is_none());
    let s = Settings::load(Ok(Some(stored(r#"{"shortcut":"Alt+X","hudPosition":"left"}"#))));
    assert_eq!(s.shortcut, "Ctrl+Shift+Space");
}

#[test]
fn an_unreadable_file_means_defaults() {
    assert_eq!(Settings::load(Err("broken".into())).model, "base");
    assert_eq!(Settings::load(Ok(None)).model, "base");
    assert_eq!(Settings::load(Ok(Some(stored(r#"{"model":"tiny"}"#)))).model, "tiny");
}

#[test]
fn names_of_choices() {
    assert_eq!(HudPosition::TopCenter.name(), "top-center");
    assert_eq!(HudPosition::MiddleRight.name(), "middle-right");
    assert_eq!(HudPosition::parse("bottom-left"), Some(HudPosition::BottomLeft));
    assert_eq!(HudPosition::parse("hidden"), Some(HudPosition::Hidden));
    assert_eq!(HudPosition::parse("BottomLeft"), None);
    assert_eq!(Activation::parse("both"), Some(Activation::Both));
    assert_eq!(Theme::parse("light"), Some(Theme::Light));
}

#[test]
fn where_settings_live() {
    assert_eq!(dir("/Users/me"), "/Users/me/Library/Application Support/whisper-lite");
    assert_eq!(dir(""), "Library/Application Support/whisper-lite");
    assert_eq!(path("/"), "/Library/Application Support/whisper-lite/settings.json");
}
