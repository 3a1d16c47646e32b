use whisper_lite::commands::{
    about, activation_policy, disk_bytes, log_path, may_open_url, save_settings, set_active_model,
    Followup, Policy, SaveAction, SaveEvent, SwitchAction, SwitchEvent,
};
use whisper_lite::engine::Engine;
use whisper_lite::settings::{HudPosition, Settings, Theme};
use whisper_lite::tray::{
    build_microphone_submenu, build_tray_menu, click_toggles, menu_event, menu_on_left_click,
    pick_microphone, starts_with, MenuCommand, MenuEntry,
};

fn devices() -> Vec<String> {
    vec!["Built-in".to_string(), "USB".to_string()]
}

#[test]
fn the_active_microphone_is_ticked() {
    let items = build_microphone_submenu("USB", &devices());
    let shown: Vec<(&str, &str, bool)> =
        items.iter().map(|i| (i.id.as_str(), i.label.as_str(), i.ticked)).collect();
    assert_eq!(
        shown,
        vec![
            ("mic:", "System default", false),
            ("mic:Built-in", "Built-in", false),
            ("mic:USB", "USB", true)
        ]
    );
    let items = build_microphone_submenu("", &devices());
    assert!(items[0].ticked && !items[1].ticked && !items[2].ticked);
}

#[test]
fn the_menu() {
    let menu = build_tray_menu("Fn", "1.2.3", "", &devices());
    let shown: Vec<String> = menu
        .iter()
        .map(|e| match e {
            MenuEntry::Item { id, text, enabled, shortcut } => {
                format!("{id}|{text}|{enabled}|{}", shortcut.unwrap_or("-"))
            }
            MenuEntry::Separator => "--".to_string(),
            MenuEntry::Microphones(items) => format!("mics {}", items.len()),
        })
        .collect();
    assert_eq!(
        shown,
        vec![
            "status|Ready — hold Fn|false|-",
            "--",
            "toggle|Toggle Recording|true|-",
            "history|History…|true|-",
            "settings|Settings…|true|cmd+,",
            "--",
            "mics 3",
            "--",
            "version|Version 1.2.3|false|-",
            "quit|Quit Whisper Lite|true|cmd+q"
        ]
    );
}

#[test]
fn choosing_from_the_menu() {
    assert!(matches!(menu_event("toggle"), MenuCommand::Toggle));
    assert!(matches!(menu_event("settings"), MenuCommand::Settings));
    assert!(matches!(menu_event("history"), MenuCommand::History));
    assert!(matches!(menu_event("quit"), MenuCommand::Quit));
    assert!(matches!(menu_event("status"), MenuCommand::Nothing));
    assert!(matches!(menu_event("mic"), MenuCommand::Nothing));
    assert!(matches!(menu_event("mic:"), MenuCommand::Microphone(d) if d.is_empty()));
    assert!(matches!(menu_event("mic:Ünï:x"), MenuCommand::Microphone(d) if d == "Ünï:x"));
}

#[test]
fn picking_a_microphone() {
    let mut s = Settings::default();
    assert!(!pick_microphone(&mut s, ""));
    assert!(pick_microphone(&mut s, "USB"));
    assert_eq!(s.input_device, "USB");
    assert!(!pick_microphone(&mut s, "USB"));
}

#[test]
fn clicks_on_the_icon() {
    assert!(click_toggles(true, true, true));
    assert!(!click_toggles(true, true, false));
    assert!(!click_toggles(true, false, true));
    assert!(!click_toggles(false, true, true));
    assert!(menu_on_left_click(false) && !menu_on_left_click(true));
}

fn shown(action: SaveAction) -> Vec<String> {
    match action {
        SaveAction::SetLaunch(b) => vec![format!("launch {b}")],
        SaveAction::Refuse(e) => vec![format!("refuse {e}")],
        SaveAction::Adopt(v) => v
            .iter()
            .map(|f| match f {
                Followup::Rebind(s) => format!("rebind {s}"),
                Followup::MoveHud(p) => format!("hud {p:?}"),
                Followup::SwapDevice(d) => format!("device {d}"),
                Followup::MenuOnLeftClick(b) => format!("left {b}"),
                Followup::ApplyPolicy => "policy".to_string(),
                Followup::RefreshTray(s) => format!("tray {s}"),
            })
            .collect(),
    }
}

#[test]
fn saving_carries_out_what_changed() {
    let old = Settings::default();
    let mut new = Settings::default();
    assert!(shown(save_settings(&old, &new, SaveEvent::Stored(Ok(())))).is_empty());
    new.theme = Theme::Dark;
    new.language = "tr".into();
    assert!(shown(save_settings(&old, &new, SaveEvent::Stored(Ok(())))).is_empty());
    new.shortcut = "Fn".into();
    new.hud_position = HudPosition::Hidden;
    new.input_device = "USB".into();
    new.show_in_dock = true;
    new.menubar_click_records = true;
    let all = vec!["rebind Fn", "hud Hidden", "device USB", "left false", "policy", "tray Fn"];
    assert_eq!(shown(save_settings(&old, &new, SaveEvent::Stored(Ok(())))), all);
    new.launch_at_login = true;
    assert_eq!(shown(save_settings(&old, &new, SaveEvent::Stored(Ok(())))), vec!["launch true"]);
    assert_eq!(shown(save_settings(&old, &new, SaveEvent::LaunchSet(Ok(())))), all);
    assert_eq!(
        shown(save_settings(&old, &new, SaveEvent::LaunchSet(Err("denied".into())))),
        vec!["refuse could not change launch-at-login: denied"]
    );
    assert_eq!(
        shown(save_settings(&old, &new, SaveEvent::Stored(Err("disk full".into())))),
        vec!["refuse disk full"]
    );
}

#[test]
fn a_device_change_alone_refreshes_the_tray() {
    let old = Settings::default();
    let mut new = Settings::default();
    new.input_device = "USB".into();
    assert_eq!(
        shown(save_settings(&old, &new, SaveEvent::Stored(Ok(())))),
        vec!["device USB", "tray Ctrl+Shift+Space"]
    );
}

#[test]
fn a_model_is_loaded_before_it_is_named() {
    let s = Settings::default();
    let base = Engine::load("base", "/b", true).unwrap();
    assert!(matches!(
        set_active_model(Some(&base), &s, "small", SwitchEvent::Asked),
        SwitchAction::Load
    ));
    assert!(matches!(set_active_model(None, &s, "base", SwitchEvent::Asked), SwitchAction::Load));
    assert!(matches!(
        set_active_model(Some(&base), &s, "base", SwitchEvent::Asked),
        SwitchAction::Store(n) if n.model == "base"
    ));
    assert!(matches!(
        set_active_model(Some(&base), &s, "small", SwitchEvent::Loaded(Err("bad file".into()))),
        SwitchAction::Refuse(e) if e == "bad file"
    ));
    assert!(matches!(
        set_active_model(Some(&base), &s, "small", SwitchEvent::Loaded(Ok(()))),
        SwitchAction::Store(n) if n.model == "small" && n.shortcut == s.shortcut
    ));
    assert!(matches!(
        set_active_model(Some(&base), &s, "small", SwitchEvent::Stored(Ok(()))),
        SwitchAction::Adopt(n) if n.model == "small"
    ));
    assert!(matches!(
        set_active_model(Some(&base), &s, "small", SwitchEvent::Stored(Err("full".into()))),
        SwitchAction::Refuse(e) if e == "full"
    ));
}

#[test]
fn the_dock_icon() {
    assert_eq!(activation_policy(false, false), Policy::Accessory);
    assert_eq!(activation_policy(true, false), Policy::Regular);
    assert_eq!(activation_policy(false, true), Policy::Regular);
}

#[test]
fn only_the_web_is_opened() {
    assert!(may_open_url("https://example.com"));
    assert!(may_open_url("http://example.com"));
    assert!(!may_open_url("file:///etc/hosts"));
    assert!(!may_open_url("HTTPS://example.com"));
    assert!(!may_open_url("https:/"));
    assert!(!may_open_url(""));
    assert!(starts_with("ab", "") && !starts_with("a", "ab"));
}

#[test]
fn the_about_page() {
    let mut s = Settings::default();
    let a = about(&s, "/h", "0.1.0", &[1_048_575, 1_048_576, 1]);
    assert_eq!(a.disk_mb, 2);
    assert_eq!(a.model, "Base");
    assert_eq!(a.shortcut, "Ctrl+Shift+Space");
    assert_eq!(a.version, "0.1.0");
    assert_eq!(a.data_dir, "/h/Library/Application Support/whisper-lite");
    assert_eq!(a.log_path, log_path("/h"));
    assert_eq!(a.models_dir, "/h/Library/Application Support/whisper-lite/models");
    s.model = "mine".into();
    assert_eq!(about(&s, "/h", "0", &[]).model, "mine");
    assert_eq!(disk_bytes(&[]), 0);
}
