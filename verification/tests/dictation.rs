use whisper_lite::dictation::{deliver, idle_status, inserted, Action, Captured, Job, Outcome, Session};
use whisper_lite::settings::{Activation, HudPosition, Settings, Snippet};

/// Base, whole.
const LEN: Option<u64> = Some(147_951_465);

fn shown(actions: &[Action]) -> Vec<String> {
    actions
        .iter()
        .map(|a| match a {
            Action::Status(s) => format!("status {s}"),
            Action::Hud { state, label } => format!("hud {state} {label}"),
            Action::ShowHud { position, state } => format!("show {position:?} {state}"),
            Action::HideHud => "hide".to_string(),
            Action::ClearHudAfter(ms) => format!("clear {ms}"),
            Action::OpenSettings => "settings".to_string(),
            Action::StartCapture => "start".to_string(),
            Action::Meter => "meter".to_string(),
            Action::StopCapture => "stop".to_string(),
            Action::Cue(file) => format!("cue {file}"),
            Action::Transcribe(_) => "transcribe".to_string(),
            Action::Insert(t) => format!("insert {t}"),
        })
        .collect()
}

fn job(actions: Vec<Action>) -> Job {
    for a in actions {
        if let Action::Transcribe(job) = a {
            return job;
        }
    }
    panic!("nothing to transcribe")
}

#[test]
fn a_whole_dictation() {
    let mut s = Settings::default();
    s.dictionary = vec!["Tauri".into(), "cpal".into()];
    s.snippets = vec![Snippet { trigger: "sign off".into(), replacement: "Best".into() }];
    let mut session = Session::new();

    assert_eq!(shown(&session.on_press(&s, LEN, 1_000)), vec!["start"]);
    assert_eq!(
        shown(&session.capture_started(&s, true)),
        vec![
            "cue /System/Library/Sounds/Tink.aiff",
            "status Listening…",
            "show BottomRight listening",
            "meter"
        ]
    );
    assert!(session.recording && !session.may_swap_device());
    assert_eq!(
        shown(&session.on_release(&s, 2_000)),
        vec!["cue /System/Library/Sounds/Purr.aiff", "stop"]
    );
    assert!(session.busy && !session.recording);
    // Nothing can begin in the meantime.
    assert!(session.on_press(&s, LEN, 3_000).is_empty());
    let actions = session.capture_stopped(&s, Captured::Speech);
    assert_eq!(
        shown(&actions),
        vec!["status Transcribing…", "hud working Transcribing…", "transcribe"]
    );
    let job = job(actions);
    assert_eq!(job.dictionary, "Tauri, cpal");
    assert_eq!(job.language, "en");
    assert!(job.accurate);
    let (outcome, remember) =
        session.transcribed(&job, &s, Ok(" um ship it. sign off (wind) ".into()));
    assert!(remember && !session.busy);
    assert_eq!(shown(&deliver(outcome, &s, LEN)), vec!["insert Ship it. Best"]);
    assert_eq!(
        shown(&inserted(&s, LEN, true)),
        vec!["status Ready — hold Ctrl+Shift+Space", "hide"]
    );
}

#[test]
fn without_a_model_nothing_is_recorded() {
    let s = Settings::default();
    let session = Session::new();
    let want = vec![
        "status No model — open Settings",
        "hud error No model — opening Settings",
        "clear 2600",
        "settings",
    ];
    assert_eq!(shown(&session.begin(&s, None)), want);
    assert_eq!(shown(&session.begin(&s, Some(5))), want);
    assert_eq!(idle_status(&s, None), "No model — open Settings");
    assert_eq!(idle_status(&s, LEN), "Ready — hold Ctrl+Shift+Space");
}

#[test]
fn a_microphone_that_does_not_start() {
    let s = Settings::default();
    let mut session = Session::new();
    assert_eq!(
        shown(&session.capture_started(&s, false)),
        vec!["status Microphone error", "hud error Microphone unavailable", "clear 3000"]
    );
    assert!(!session.recording);
}

#[test]
fn a_microphone_that_does_not_stop() {
    let s = Settings::default();
    let mut session = Session::new();
    session.capture_started(&s, true);
    session.finish(&s);
    assert_eq!(
        shown(&session.capture_stopped(&s, Captured::Failed)),
        vec!["hud error Microphone error", "clear 3000"]
    );
    assert!(!session.busy);
}

#[test]
fn silence_is_not_transcribed() {
    let s = Settings::default();
    let mut session = Session::new();
    session.capture_started(&s, true);
    session.finish(&s);
    assert_eq!(
        shown(&session.capture_stopped(&s, Captured::Silence)),
        vec![
            "status Transcribing…",
            "hud working Transcribing…",
            "status No audio",
            "hud error No audio — check your microphone",
            "clear 2600"
        ]
    );
    assert!(!session.busy);
    assert_eq!(shown(&session.begin(&s, LEN)), vec!["start"]);
}

#[test]
fn failures_and_blanks() {
    let s = Settings::default();
    let mut session = Session::new();
    session.capture_started(&s, true);
    session.finish(&s);
    let job = job(session.capture_stopped(&s, Captured::Speech));
    let (failed, kept) = session.transcribed(&job, &s, Err("out of memory".into()));
    assert!(matches!(failed, Outcome::Failed) && !kept);
    assert_eq!(
        shown(&deliver(failed, &s, LEN)),
        vec!["status Failed", "hud error Transcription failed", "clear 3000"]
    );
    let (nothing, kept) = session.transcribed(&job, &s, Ok("Thank you.".into()));
    assert!(matches!(nothing, Outcome::Nothing) && !kept);
    assert_eq!(
        shown(&deliver(nothing, &s, LEN)),
        vec!["status Ready — hold Ctrl+Shift+Space", "hud error Didn't catch that", "clear 1800"]
    );
    assert_eq!(
        shown(&inserted(&s, LEN, false)),
        vec!["status Copied to clipboard", "hud error Copied — press ⌘V", "clear 3000"]
    );
}

#[test]
fn history_can_be_off() {
    let mut s = Settings::default();
    let mut session = Session::new();
    session.capture_started(&s, true);
    session.finish(&s);
    let job = job(session.capture_stopped(&s, Captured::Speech));
    s.history_enabled = false;
    let (outcome, remember) = session.transcribed(&job, &s, Ok("hello".into()));
    assert!(matches!(outcome, Outcome::Text(t) if t == "Hello") && !remember);
}

#[test]
fn a_tap_latches_in_both_mode() {
    let mut s = Settings::default();
    s.activation = Activation::Both;
    let ms = 1_000_000;
    let mut session = Session::new();
    session.on_press(&s, LEN, 0);
    session.capture_started(&s, true);
    // 199.9 ms is a tap.
    assert!(session.on_release(&s, 199 * ms + 900_000).is_empty());
    assert!(session.recording);
    assert_eq!(shown(&session.on_press(&s, LEN, 500 * ms)).last().unwrap(), "stop");

    let mut held = Session::new();
    held.on_press(&s, LEN, 0);
    held.capture_started(&s, true);
    assert_eq!(shown(&held.on_release(&s, 200 * ms)).last().unwrap(), "stop");

    // A release without a press counts as a long hold.
    let mut lost = Session::new();
    lost.capture_started(&s, true);
    assert_eq!(shown(&lost.on_release(&s, 1)).last().unwrap(), "stop");
}

#[test]
fn toggle_mode_ignores_releases() {
    let mut s = Settings::default();
    s.activation = Activation::Toggle;
    s.play_sounds = false;
    let mut session = Session::new();
    session.on_press(&s, LEN, 0);
    assert_eq!(
        shown(&session.capture_started(&s, true)),
        vec!["status Listening…", "show BottomRight listening", "meter"]
    );
    assert!(session.on_release(&s, u64::MAX).is_empty());
    assert_eq!(shown(&session.on_press(&s, LEN, 9)), vec!["stop"]);
}

#[test]
fn holding_again_does_not_stop() {
    let s = Settings::default();
    let mut session = Session::new();
    session.capture_started(&s, true);
    assert!(session.on_press(&s, LEN, 9).is_empty());
    assert!(session.recording);
}

#[test]
fn the_menu_bar_toggles() {
    let mut s = Settings::default();
    s.sound_stop = String::new();
    s.hud_position = HudPosition::Hidden;
    let mut session = Session::new();
    assert_eq!(shown(&session.toggle_dictation(&s, LEN)), vec!["start"]);
    session.capture_started(&s, true);
    assert_eq!(shown(&session.toggle_dictation(&s, LEN)), vec!["stop"]);
    assert!(session.toggle_dictation(&s, LEN).is_empty());
}

#[test]
fn quitting_releases_the_microphone() {
    let s = Settings::default();
    let mut session = Session::new();
    assert!(!session.shutdown());
    session.capture_started(&s, true);
    assert!(session.shutdown());
    assert!(!session.recording);
}
