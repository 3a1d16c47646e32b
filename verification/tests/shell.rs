use whisper_lite::audio::{choose_device, input_devices, Device, Recorder, SampleFormat};
use whisper_lite::engine::{model_path, needs_load, transcript, Engine, Strategy};
use whisper_lite::hotkey::{BindAction, Binding};
use whisper_lite::hud::{
    generation, hud_state, reposition, set_state, show_at, Anchor, Hud, HudStep, Placement,
};
use whisper_lite::inject::{insert, InsertAction, InsertEvent, Insertion};
use whisper_lite::settings::HudPosition;
use whisper_lite::sound::{choices, play};
use whisper_lite::specialkey::{Fate, Monitor, SpecialKey, TapEvent, Turn};

#[test]
fn sounds_on_offer() {
    let all = choices();
    assert_eq!(all.len(), 11);
    assert_eq!(all[0], (String::new(), "None".to_string()));
    assert_eq!(all[1].1, "Tink — short, crisp");
    assert_eq!(all[10].0, "Submarine");
    assert_eq!(play("Pop").unwrap(), "/System/Library/Sounds/Pop.aiff");
    assert!(play("").is_none());
}

#[test]
fn special_keys_have_names() {
    assert_eq!(SpecialKey::parse("Fn"), Some(SpecialKey::Fn));
    assert_eq!(SpecialKey::parse("CapsLock"), Some(SpecialKey::CapsLock));
    assert_eq!(SpecialKey::parse("fn"), None);
    assert_eq!(SpecialKey::parse("Ctrl+Fn"), None);
}

#[test]
fn a_tap_tells_edges() {
    let mut m = Monitor::start(SpecialKey::CapsLock);
    // The first event carries the flag: no press.
    let r = m.event(TapEvent::Flags { down: true }, 700);
    assert_eq!((r.change, r.fate), (None, Fate::Drop));
    assert_eq!(m.event(TapEvent::Flags { down: false }, 800).change, Some(false));
    assert_eq!(m.event(TapEvent::Flags { down: false }, 900).change, None);
    assert_eq!(m.event(TapEvent::Flags { down: true }, 950).change, Some(true));

    let mut early = Monitor::start(SpecialKey::Fn);
    let r = early.event(TapEvent::Flags { down: false }, 600);
    assert_eq!((r.change, r.fate), (None, Fate::Keep));
    assert_eq!(early.event(TapEvent::Flags { down: true }, 601).change, Some(true));
}

#[test]
fn a_disabled_tap_is_switched_on_again() {
    let mut m = Monitor::start(SpecialKey::CapsLock);
    assert_eq!(m.turn(), Turn::Run);
    let r = m.event(TapEvent::Disabled, 5);
    assert_eq!((r.change, r.fate), (None, Fate::Keep));
    assert_eq!(m.turn(), Turn::Reenable);
    assert_eq!(m.turn(), Turn::Run);
    m.stop();
    assert_eq!(m.turn(), Turn::Stop);
}

fn steps(v: &[HudStep]) -> Vec<String> {
    v.iter()
        .map(|s| match s {
            HudStep::Show => "show".to_string(),
            HudStep::Hide => "hide".to_string(),
            HudStep::Move(p) => format!("move {p:?}"),
            HudStep::Emit(p) => format!("emit {} {:?}", p.state, p.label),
        })
        .collect()
}

#[test]
fn the_pill_shows_before_it_is_told() {
    let mut hud = Hud::new();
    assert_eq!(
        steps(&set_state(&mut hud, true, false, "error", Some("x".into()))),
        vec!["show", "emit error Some(\"x\")"]
    );
    assert_eq!(steps(&set_state(&mut hud, true, true, "working", None)), vec!["emit working None"]);
    assert_eq!(steps(&set_state(&mut hud, true, true, "idle", None)), vec!["emit idle None", "hide"]);
    assert!(set_state(&mut hud, false, false, "error", None).is_empty());
    assert_eq!(generation(&hud), 4);
    hud.generation = u64::MAX;
    set_state(&mut hud, true, true, "idle", None);
    assert_eq!(generation(&hud), 0);
}

#[test]
fn a_hidden_pill_stays_hidden() {
    let mut hud = Hud::new();
    assert!(show_at(&mut hud, HudPosition::Hidden, true, false, "listening", None).is_empty());
    assert!(hud_state(&mut hud, HudPosition::Hidden, true, false, "error", None).is_empty());
    assert_eq!(generation(&hud), 0);
    assert_eq!(
        steps(&hud_state(&mut hud, HudPosition::Hidden, true, true, "idle", None)),
        vec!["emit idle None", "hide"]
    );
    assert_eq!(
        steps(&show_at(&mut hud, HudPosition::Center, true, false, "listening", None)),
        vec!["move Center", "show", "emit listening None", "move Center"]
    );
    assert_eq!(
        steps(&hud_state(&mut hud, HudPosition::Center, true, true, "error", None)),
        vec!["emit error None"]
    );
}

#[test]
fn a_stale_timer_gives_up() {
    let mut hud = Hud::new();
    let then = generation(&hud);
    assert!(hud.clears(then));
    set_state(&mut hud, true, true, "listening", None);
    assert!(!hud.clears(then));
}

#[test]
fn nine_places() {
    assert_eq!(
        reposition(HudPosition::BottomRight),
        Placement::At { across: Anchor::End, down: Anchor::End }
    );
    assert_eq!(
        reposition(HudPosition::TopCenter),
        Placement::At { across: Anchor::Middle, down: Anchor::Start }
    );
    assert_eq!(
        reposition(HudPosition::MiddleLeft),
        Placement::At { across: Anchor::Start, down: Anchor::Middle }
    );
    assert_eq!(reposition(HudPosition::Hidden), Placement::Hide);
}

#[test]
fn what_the_decoder_is_asked() {
    let engine = Engine::load("base", "/m/base.bin", true).unwrap();
    assert_eq!(engine.model_id(), "base");
    assert!(engine.transcribe(5_332, "en", true, "").is_none());
    let r = engine.transcribe(5_333, "en", true, "  Tauri, cpal ").unwrap();
    assert_eq!(r.strategy, Strategy::Beam { size: 5 });
    assert_eq!(r.language.as_deref(), Some("en"));
    assert_eq!(r.prompt.as_deref(), Some("Tauri, cpal"));
    assert_eq!(r.threads, 4);
    assert!(r.suppress_blank && r.suppress_non_speech && !r.translate && !r.keep_context);
    let r = engine.transcribe(16_000, "auto", false, " \t ").unwrap();
    assert_eq!(r.strategy, Strategy::Greedy { best_of: 1 });
    assert!(r.language.is_none() && r.prompt.is_none());
    let long = "é".repeat(900);
    assert_eq!(engine.transcribe(16_000, "en", true, &long).unwrap().prompt.unwrap(), "é".repeat(800));
}

#[test]
fn a_missing_model_is_named() {
    let e = Engine::load("tiny", "/m/t.bin", false).unwrap_err();
    assert_eq!(e, "model 'tiny' is not downloaded.\n  Expected at /m/t.bin");
}

#[test]
fn segments_make_a_transcript() {
    assert_eq!(transcript(&[Some(" a".into()), None, Some(" b.".into())]), " a b.");
    assert_eq!(transcript(&[]), "");
}

#[test]
fn where_a_model_is_loaded_from() {
    let dir = "/h/Library/Application Support/whisper-lite/models";
    assert_eq!(model_path("/h", "tiny", None), format!("{dir}/ggml-tiny.bin"));
    assert_eq!(model_path("/h", "nope", None), format!("{dir}/ggml-base.bin"));
    assert_eq!(model_path("/h", "tiny", Some("/x.bin")), "/x.bin");
}

#[test]
fn only_another_model_is_loaded() {
    let engine = Engine::load("base", "/m/base.bin", true).unwrap();
    assert!(needs_load(None, "base"));
    assert!(!needs_load(Some(&engine), "base"));
    assert!(needs_load(Some(&engine), "small"));
}

#[test]
fn devices_are_chosen_by_name() {
    let names = vec![Some("Built-in".to_string()), None, Some("USB".into()), Some("USB".into())];
    assert_eq!(choose_device("USB", &names, true), Ok(Device::Listed(2)));
    assert_eq!(choose_device("", &names, true), Ok(Device::SystemDefault));
    assert_eq!(choose_device("Gone", &names, true), Ok(Device::SystemDefault));
    assert_eq!(choose_device("Gone", &names, false), Err("no input device available".to_string()));
    assert_eq!(choose_device("USB", &names, false), Ok(Device::Listed(2)));
    assert_eq!(input_devices(&names), vec!["Built-in", "USB", "USB"]);
}

#[test]
fn a_recording_is_capped() {
    let mut r: Recorder<f32> = Recorder::open(SampleFormat::F32, "f32", 1, 2).unwrap();
    assert_eq!(r.layout(), (1, 2));
    r.append(&[0.5; 239]);
    r.append(&[0.25; 10]);
    r.append(&[0.125; 10]);
    let got = r.stop();
    assert_eq!(got.len(), 249);
    assert_eq!(got[248], 0.25);
    assert!(r.stop().is_empty());
    r.append(&[1.0]);
    r.start();
    assert!(r.stop().is_empty());
    let bad: Result<Recorder<f32>, String> = Recorder::open(SampleFormat::Other, "I24", 1, 1);
    assert_eq!(bad.unwrap_err(), "unsupported sample format: I24");
}

/// Runs an insertion, answering each action, and lists the actions.
fn inserted(text: &str, held: Option<&str>, failing: &str) -> (Vec<String>, Result<(), String>) {
    let (mut run, mut action): (Insertion, InsertAction) = insert(text);
    let mut seen: Vec<String> = Vec::new();
    loop {
        let name = match &action {
            InsertAction::Open => "open".to_string(),
            InsertAction::Write(t) => format!("write {t}"),
            InsertAction::Wait(ms) => format!("wait {ms}"),
            InsertAction::Simulate => "simulate".to_string(),
            InsertAction::Press => "press".to_string(),
            InsertAction::Click => "click".to_string(),
            InsertAction::Release => "release".to_string(),
            InsertAction::Restore(t) => format!("restore {t}"),
            InsertAction::Done(r) => return (seen, r.clone()),
        };
        let fails = failing.split(',').any(|f| !f.is_empty() && name.starts_with(f));
        let did = if fails { Err("no".to_string()) } else { Ok(()) };
        let event = if name == "open" {
            InsertEvent::Opened(did.map(|_| held.map(|h| h.to_string())))
        } else {
            InsertEvent::Did(did)
        };
        seen.push(name);
        action = run.next(event);
    }
}

#[test]
fn inserting_pastes_and_restores() {
    let (seen, r) = inserted("hi", Some("mine"), "");
    assert_eq!(
        seen,
        vec![
            "open", "write hi", "wait 30", "simulate", "press", "click", "release", "wait 150",
            "restore mine"
        ]
    );
    assert_eq!(r, Ok(()));
    let (seen, r) = inserted("", Some("mine"), "");
    assert!(seen.is_empty());
    assert_eq!(r, Ok(()));
}

#[test]
fn a_failed_click_still_releases() {
    let (seen, r) = inserted("hi", None, "click,release");
    assert_eq!(seen, vec!["open", "write hi", "wait 30", "simulate", "press", "click", "release", "wait 150"]);
    assert_eq!(r, Err("pressing V: no".to_string()));
    assert_eq!(inserted("hi", None, "release").1, Err("releasing Cmd: no".to_string()));
}

#[test]
fn failures_on_the_way_to_the_paste() {
    assert_eq!(inserted("hi", None, "open"), (vec!["open".into()], Err("opening clipboard: no".into())));
    let (seen, r) = inserted("hi", Some("mine"), "write");
    assert_eq!(seen, vec!["open", "write hi"]);
    assert_eq!(r, Err("writing to clipboard: no".to_string()));
    let (seen, r) = inserted("hi", Some("mine"), "press");
    assert_eq!(seen, vec!["open", "write hi", "wait 30", "simulate", "press", "wait 150"]);
    assert_eq!(r, Err("pressing Cmd — is Accessibility granted?: no".to_string()));
    assert_eq!(inserted("hi", None, "simulate").1, Err("creating input simulator: no".to_string()));
}

#[test]
fn words_are_never_lost_when_the_paste_fails() {
    for failing in ["simulate", "press", "click", "release", "click,release"] {
        let (seen, r) = inserted("hi", Some("mine"), failing);
        assert!(r.is_err());
        assert_eq!(seen.iter().filter(|a| a.starts_with("write")).count(), 1);
        assert!(!seen.iter().any(|a| a.starts_with("restore")));
    }
    // A restore that fails is of no consequence.
    let (seen, r) = inserted("hi", Some("mine"), "restore");
    assert_eq!(seen.last().unwrap(), "restore mine");
    assert_eq!(r, Ok(()));
}

fn bound(v: &[BindAction]) -> Vec<String> {
    v.iter()
        .map(|a| match a {
            BindAction::Unregister(s) => format!("unregister {s}"),
            BindAction::StopTap => "stop tap".to_string(),
            BindAction::StartTap(k) => format!("tap {k:?}"),
            BindAction::Register(s) => format!("register {s}"),
            BindAction::Ready => "ready".to_string(),
            BindAction::Status(s) => format!("status {s}"),
        })
        .collect()
}

#[test]
fn binding_takes_the_old_one_down() {
    let mut b = Binding::new();
    assert_eq!(bound(&b.rebind("Ctrl+Shift+Space", true)), vec!["register Ctrl+Shift+Space"]);
    assert_eq!(bound(&[b.registered("Ctrl+Shift+Space", true)]), vec!["ready"]);
    assert_eq!(
        bound(&b.rebind("Fn", true)),
        vec!["unregister Ctrl+Shift+Space", "tap Fn", "ready"]
    );
    assert_eq!(bound(&b.set_capture_mode(true, "Fn", true)), vec!["stop tap"]);
    assert_eq!(bound(&b.set_capture_mode(false, "CapsLock", true)), vec!["tap CapsLock", "ready"]);
    assert_eq!(bound(&b.rebind("Alt+X", false)), vec!["stop tap", "register Alt+X"]);
    assert_eq!(bound(&[b.registered("Alt+X", false)]), vec!["status Shortcut unavailable"]);
    assert!(b.bound.is_none());
}

#[test]
fn what_is_no_accelerator_is_refused() {
    let mut b = Binding::new();
    for bad in ["", "Ctrl+", "Ctrl+C+A", "Nonsense", "Ctrl"] {
        assert_eq!(bound(&b.rebind(bad, true)), vec!["status Invalid shortcut"]);
    }
    for good in ["F5", "cmd+option+space", "CmdOrCtrl+A"] {
        assert_eq!(bound(&b.rebind(good, true)), vec![format!("register {good}")]);
    }
    assert_eq!(bound(&b.bind("anything", true, true)), vec!["register anything"]);
    assert_eq!(bound(&b.bind("anything", true, false)), vec!["status Invalid shortcut"]);
}
