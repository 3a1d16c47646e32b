//! One dictation, from the key that starts it to the text that is typed.
//!
//! The session decides; the application carries the decisions out and comes back with how they
//! went. Two dictations never overlap: while one is being recorded or transcribed, a second one
//! cannot begin.

use vstd::prelude::*;

use crate::inject;
use crate::inject::{InsertAction, InsertEvent, Insertion};
use crate::models;
use crate::models::is_installed;
use crate::settings;
use crate::settings::{Activation, HudPosition, Settings, Snippet};
use crate::snippets;
use crate::snippets::expand_snippets;
use crate::sound;
use crate::sound::play;
use crate::text;
use crate::text::clean;
use crate::words;
use crate::words::join_strings;

verus! {

/// Where a dictation stands.
#[derive(Debug, Clone, Copy, PartialEq, Eq, Structural)]
pub struct Session {
    /// True while capturing, which is what toggle mode flips.
    pub recording: bool,
    /// True from the end of a recording until its transcript is there.
    pub busy: bool,
    /// When the current press began, in nanoseconds of the application's own clock.
    pub pressed_at: Option<u64>,
}

/// What is to be transcribed, and what becomes of the transcript. The settings are those of the
/// moment the recording ended.
#[derive(Debug)]
pub struct Job {
    pub remove_fillers: bool,
    pub autocapitalize: bool,
    pub language: String,
    pub accurate: bool,
    /// The dictionary, as the decoder's vocabulary.
    pub dictionary: String,
    pub snippets: Vec<(String, String)>,
}

/// What to do, in order.
#[derive(Debug)]
pub enum Action {
    /// Set the status line of the tray.
    Status(String),
    /// Set the state of the pill, if the indicator is on.
    Hud { state: &'static str, label: &'static str },
    /// Show the pill at a position.
    ShowHud { position: HudPosition, state: &'static str },
    /// Take the pill down.
    HideHud,
    /// Take the pill down after this many milliseconds, unless its state changes before.
    ClearHudAfter(u64),
    OpenSettings,
    /// Start the microphone.
    StartCapture,
    /// Feed the level meter for as long as the session records.
    Meter,
    /// Stop the microphone.
    StopCapture,
    /// Play this sound file.
    Cue(String),
    /// Transcribe what was captured.
    Transcribe(Job),
    /// Put this text into the field that has the focus.
    Insert(String),
}

/// What an action holds.
pub enum ActionView {
    Status(Seq<char>),
    Hud { state: Seq<char>, label: Seq<char> },
    ShowHud { position: HudPosition, state: Seq<char> },
    HideHud,
    ClearHudAfter(int),
    OpenSettings,
    StartCapture,
    Meter,
    StopCapture,
    Cue(Seq<char>),
    Transcribe(JobView),
    Insert(Seq<char>),
}

/// What a job holds.
pub struct JobView {
    pub remove_fillers: bool,
    pub autocapitalize: bool,
    pub language: Seq<char>,
    pub accurate: bool,
    pub dictionary: Seq<char>,
    pub snippets: Seq<(String, String)>,
}

impl View for Job {
    type V = JobView;

    open spec fn view(&self) -> JobView {
        JobView {
            remove_fillers: self.remove_fillers,
            autocapitalize: self.autocapitalize,
            language: self.language@,
            accurate: self.accurate,
            dictionary: self.dictionary@,
            snippets: self.snippets@,
        }
    }
}

impl View for Action {
    type V = ActionView;

    open spec fn view(&self) -> ActionView {
        match *self {
            Action::Status(s) => ActionView::Status(s@),
            Action::Hud { state, label } => ActionView::Hud { state: state@, label: label@ },
            Action::ShowHud { position, state } => ActionView::ShowHud { position, state: state@ },
            Action::HideHud => ActionView::HideHud,
            Action::ClearHudAfter(ms) => ActionView::ClearHudAfter(ms as int),
            Action::OpenSettings => ActionView::OpenSettings,
            Action::StartCapture => ActionView::StartCapture,
            Action::Meter => ActionView::Meter,
            Action::StopCapture => ActionView::StopCapture,
            Action::Cue(file) => ActionView::Cue(file@),
            Action::Transcribe(job) => ActionView::Transcribe(job@),
            Action::Insert(t) => ActionView::Insert(t@),
        }
    }
}

/// What a list of actions holds.
pub open spec fn views(actions: Seq<Action>) -> Seq<ActionView> {
    Seq::new(actions.len(), |i: int| actions[i]@)
}

/// The snippets as pairs of trigger and replacement.
pub open spec fn pairs_of(list: Seq<Snippet>) -> Seq<(String, String)> {
    Seq::new(list.len(), |i: int| (list[i].trigger, list[i].replacement))
}

/// The resting status line, which doubles as the shortcut reminder. Without a model the shortcut
/// cannot work, and the line says so.
pub open spec fn resting(s: Settings, model_len: Option<u64>) -> Seq<char> {
    if models::installed(s.model@, model_len) {
        "Ready — hold "@ + s.shortcut@
    } else {
        "No model — open Settings"@
    }
}

/// The cue that a sound setting asks for.
pub open spec fn cue(s: Settings, name: Seq<char>) -> Seq<ActionView> {
    if s.play_sounds && name.len() > 0 {
        seq![ActionView::Cue(sound::sound_file(name))]
    } else {
        seq![]
    }
}

/// A message that stays just long enough to be read.
pub open spec fn message(label: Seq<char>, ms: int) -> Seq<ActionView> {
    seq![ActionView::Hud { state: "error"@, label }, ActionView::ClearHudAfter(ms)]
}

/// Beginning a dictation. `model_len` is the length of the active model's file, if it is there.
///
/// A missing model is refused before recording rather than after: letting someone talk and only
/// then saying that nothing can be done wastes their time and loses what they said.
pub open spec fn begun(session: Session, s: Settings, model_len: Option<u64>) -> Seq<ActionView> {
    if session.busy || session.recording {
        seq![]
    } else if !models::installed(s.model@, model_len) {
        seq![ActionView::Status("No model — open Settings"@)] + message(
            "No model — opening Settings"@,
            2600,
        ) + seq![ActionView::OpenSettings]
    } else {
        seq![ActionView::StartCapture]
    }
}

/// After the microphone was started.
pub open spec fn capture_began(s: Settings, ok: bool) -> Seq<ActionView> {
    if ok {
        cue(s, s.sound_start@) + seq![
            ActionView::Status("Listening…"@),
            ActionView::ShowHud { position: s.hud_position, state: "listening"@ },
            ActionView::Meter,
        ]
    } else {
        seq![ActionView::Status("Microphone error"@)] + message("Microphone unavailable"@, 3000)
    }
}

/// Ending a recording: nothing happens where nothing is recorded, or where another dictation is
/// still being transcribed.
pub open spec fn ended(session: Session, s: Settings) -> Seq<ActionView> {
    if session.recording && !session.busy {
        cue(s, s.sound_stop@) + seq![ActionView::StopCapture]
    } else {
        seq![]
    }
}

/// The session once a recording was ended.
pub open spec fn after_end(session: Session) -> Session {
    if session.recording {
        Session { recording: false, busy: true, ..session }
    } else {
        session
    }
}

/// The session once the microphone was started, or could not be.
pub open spec fn after_start(session: Session, ok: bool) -> Session {
    if ok {
        Session { recording: true, ..session }
    } else {
        session
    }
}

/// The session once the microphone was stopped: only speech keeps it busy.
pub open spec fn after_capture(session: Session, captured: Captured) -> Session {
    match captured {
        Captured::Speech => session,
        _ => Session { busy: false, ..session },
    }
}

/// The session once the transcript is there.
pub open spec fn after_transcript(session: Session) -> Session {
    Session { busy: false, ..session }
}

/// What was captured, as far as decisions go.
#[derive(Debug, Clone, Copy, PartialEq, Eq, Structural)]
pub enum Captured {
    /// The microphone could not be stopped.
    Failed,
    /// Nothing but silence: a dead microphone rather than a user who did not speak up.
    Silence,
    Speech,
}

/// What the settings make of a recording.
pub open spec fn job(s: Settings) -> JobView {
    JobView {
        remove_fillers: s.remove_fillers,
        autocapitalize: s.autocapitalize,
        language: s.language@,
        accurate: s.accurate,
        dictionary: words::joined(words::strings(s.dictionary@), ", "@),
        snippets: pairs_of(s.snippets@),
    }
}

/// After the microphone was stopped.
pub open spec fn capture_ended(s: Settings, captured: Captured) -> Seq<ActionView> {
    let working = seq![
        ActionView::Status("Transcribing…"@),
        ActionView::Hud { state: "working"@, label: "Transcribing…"@ },
    ];
    match captured {
        Captured::Failed => message("Microphone error"@, 3000),
        Captured::Silence => working + seq![ActionView::Status("No audio"@)] + message(
            "No audio — check your microphone"@,
            2600,
        ),
        Captured::Speech => working + seq![ActionView::Transcribe(job(s))],
    }
}

/// What transcription produced.
#[derive(Debug)]
pub enum Outcome {
    Text(String),
    /// The model itself failed.
    Failed,
    /// There was audio, and it yielded nothing usable.
    Nothing,
}

/// The text that a transcript becomes: cleaned, then with its snippets expanded.
pub open spec fn typed(job: JobView, raw: Seq<char>) -> Seq<char> {
    snippets::expanded(text::cleaned(raw, job.remove_fillers, job.autocapitalize), job.snippets)
}

/// What a transcription comes to.
pub open spec fn comes_to(outcome: Outcome, job: JobView, transcript: Result<String, String>) -> bool {
    match transcript {
        Err(_) => outcome is Failed,
        Ok(raw) => if typed(job, raw@).len() == 0 {
            outcome is Nothing
        } else {
            outcome matches Outcome::Text(t) && t@ == typed(job, raw@)
        },
    }
}

/// What is done about an outcome.
pub open spec fn delivered(outcome: Outcome, s: Settings, model_len: Option<u64>) -> Seq<ActionView> {
    match outcome {
        Outcome::Failed => seq![ActionView::Status("Failed"@)] + message(
            "Transcription failed"@,
            3000,
        ),
        Outcome::Nothing => seq![ActionView::Status(resting(s, model_len))] + message(
            "Didn't catch that"@,
            1800,
        ),
        Outcome::Text(t) => seq![ActionView::Insert(t@)],
    }
}

/// After the text was put in, or was not.
pub open spec fn insertion_ended(s: Settings, model_len: Option<u64>, ok: bool) -> Seq<ActionView> {
    if ok {
        seq![ActionView::Status(resting(s, model_len)), ActionView::HideHud]
    } else {
        seq![ActionView::Status("Copied to clipboard"@)] + message("Copied — press ⌘V"@, 3000)
    }
}

/// How long a key was held, in milliseconds: a release without a press counts as held forever.
pub open spec fn held_ms(pressed_at: Option<u64>, now: u64) -> int {
    match pressed_at {
        Some(t) => if now >= t {
            (now - t) / 1_000_000
        } else {
            0
        },
        None => u64::MAX as int,
    }
}

/// The session with the key down.
pub open spec fn pressed(session: Session, now: u64) -> Session {
    Session { pressed_at: Some(now), ..session }
}

/// The session with the key up.
pub open spec fn released(session: Session) -> Session {
    Session { pressed_at: None, ..session }
}

/// Whether a press ends the recording: in any mode that can latch.
pub open spec fn press_ends(session: Session, s: Settings) -> bool {
    s.activation != Activation::Hold && session.recording
}

/// Whether a release ends the recording: always when holding, never when toggling, and after
/// more than a tap where both are allowed.
pub open spec fn release_ends(session: Session, s: Settings, now: u64) -> bool {
    match s.activation {
        Activation::Toggle => false,
        Activation::Hold => true,
        Activation::Both => held_ms(session.pressed_at, now) >= s.tap_threshold_ms,
    }
}

/// What a press of the hotkey makes of the session, and what is done.
pub open spec fn key_down(session: Session, s: Settings, model_len: Option<u64>, now: u64) -> (
    Session,
    Seq<ActionView>,
) {
    if press_ends(session, s) {
        (after_end(pressed(session, now)), ended(pressed(session, now), s))
    } else {
        (pressed(session, now), begun(pressed(session, now), s, model_len))
    }
}

/// What a release of the hotkey makes of the session, and what is done.
pub open spec fn key_up(session: Session, s: Settings, now: u64) -> (Session, Seq<ActionView>) {
    if release_ends(session, s, now) {
        (after_end(released(session)), ended(released(session), s))
    } else {
        (released(session), seq![])
    }
}

/// What the menu's own toggle makes of the session, and what is done.
pub open spec fn toggled(session: Session, s: Settings, model_len: Option<u64>) -> (
    Session,
    Seq<ActionView>,
) {
    if session.recording {
        (after_end(session), ended(session, s))
    } else {
        (session, begun(session, s, model_len))
    }
}

fn status(text: &str) -> (a: Action)
    ensures
        a@ == ActionView::Status(text@),
{
    Action::Status(text.to_owned())
}

fn push_message(actions: &mut Vec<Action>, label: &'static str, ms: u64)
    ensures
        views(final(actions)@) == views(old(actions)@) + message(label@, ms as int),
{
    actions.push(Action::Hud { state: "error", label });
    actions.push(Action::ClearHudAfter(ms));
    assert(views(actions@) =~= views(old(actions)@) + message(label@, ms as int));
}

fn push_cue(actions: &mut Vec<Action>, s: &Settings, name: &str)
    ensures
        views(final(actions)@) == views(old(actions)@) + cue(*s, name@),
{
    if s.play_sounds {
        if let Some(file) = play(name) {
            actions.push(Action::Cue(file));
        }
    }
    assert(views(actions@) =~= views(old(actions)@) + cue(*s, name@));
}

fn push(actions: &mut Vec<Action>, action: Action)
    ensures
        views(final(actions)@) == views(old(actions)@).push(action@),
{
    actions.push(action);
    assert(views(actions@) =~= views(old(actions)@).push(action@));
}

/// The resting status line. `model_len` is the length of the active model's file, if it is there.
pub fn idle_status(s: &Settings, model_len: Option<u64>) -> (line: String)
    ensures
        line@ == resting(*s, model_len),
{
    if !is_installed(s.model.as_str(), model_len) {
        return "No model — open Settings".to_owned();
    }
    let mut line: String = "Ready — hold ".to_owned();
    line.append(s.shortcut.as_str());
    line
}

impl Session {
    /// A recording that is still being transcribed is not also being made.
    pub open spec fn wf(self) -> bool {
        !(self.recording && self.busy)
    }

    /// Nothing is going on.
    pub fn new() -> (session: Session)
        ensures
            session == (Session { recording: false, busy: false, pressed_at: None }),
            session.wf(),
    {
        Session { recording: false, busy: false, pressed_at: None }
    }

    /// Begins a dictation.
    pub fn begin(&self, s: &Settings, model_len: Option<u64>) -> (actions: Vec<Action>)
        ensures
            views(actions@) == begun(*self, *s, model_len),
    {
        let mut actions: Vec<Action> = Vec::new();
        assert(views(actions@) =~= seq![]);
        if self.busy || self.recording {
            return actions;
        }
        if !is_installed(s.model.as_str(), model_len) {
            push(&mut actions, status("No model — open Settings"));
            push_message(&mut actions, "No model — opening Settings", 2600);
            push(&mut actions, Action::OpenSettings);
            assert(views(actions@) =~= begun(*self, *s, model_len));
            return actions;
        }
        push(&mut actions, Action::StartCapture);
        actions
    }

    /// The microphone was started, or could not be.
    pub fn capture_started(&mut self, s: &Settings, ok: bool) -> (actions: Vec<Action>)
        requires
            old(self).wf(),
            !old(self).busy,
        ensures
            final(self).wf(),
            *final(self) == after_start(*old(self), ok),
            views(actions@) == capture_began(*s, ok),
    {
        let mut actions: Vec<Action> = Vec::new();
        assert(views(actions@) =~= seq![]);
        if !ok {
            push(&mut actions, status("Microphone error"));
            // Without the timer the pill would stay for good: it is always on top, and clicks
            // pass through it.
            push_message(&mut actions, "Microphone unavailable", 3000);
            assert(views(actions@) =~= capture_began(*s, ok));
            return actions;
        }
        push_cue(&mut actions, s, s.sound_start.as_str());
        self.recording = true;
        push(&mut actions, status("Listening…"));
        push(&mut actions, Action::ShowHud { position: s.hud_position, state: "listening" });
        push(&mut actions, Action::Meter);
        assert(views(actions@) =~= capture_began(*s, ok));
        actions
    }

    /// Ends a recording.
    pub fn finish(&mut self, s: &Settings) -> (actions: Vec<Action>)
        ensures
            *final(self) == after_end(*old(self)),
            views(actions@) == ended(*old(self), *s),
    {
        let mut actions: Vec<Action> = Vec::new();
        assert(views(actions@) =~= seq![]);
        if !self.recording {
            return actions;
        }
        self.recording = false;
        if self.busy {
            return actions;
        }
        self.busy = true;
        push_cue(&mut actions, s, s.sound_stop.as_str());
        push(&mut actions, Action::StopCapture);
        assert(views(actions@) =~= ended(*old(self), *s));
        actions
    }

    /// The microphone was stopped, or could not be.
    pub fn capture_stopped(&mut self, s: &Settings, captured: Captured) -> (actions: Vec<Action>)
        requires
            old(self).wf(),
        ensures
            final(self).wf(),
            *final(self) == after_capture(*old(self), captured),
            views(actions@) == capture_ended(*s, captured),
    {
        let mut actions: Vec<Action> = Vec::new();
        assert(views(actions@) =~= seq![]);
        if captured == Captured::Failed {
            self.busy = false;
            push_message(&mut actions, "Microphone error", 3000);
            assert(views(actions@) =~= capture_ended(*s, captured));
            return actions;
        }
        push(&mut actions, status("Transcribing…"));
        push(&mut actions, Action::Hud { state: "working", label: "Transcribing…" });
        // A dead microphone and a user who did not speak would otherwise look the same.
        if captured == Captured::Silence {
            self.busy = false;
            push(&mut actions, status("No audio"));
            push_message(&mut actions, "No audio — check your microphone", 2600);
            assert(views(actions@) =~= capture_ended(*s, captured));
            return actions;
        }
        push(&mut actions, Action::Transcribe(job_of(s)));
        assert(views(actions@) =~= capture_ended(*s, captured));
        actions
    }

    /// The transcript is there, or transcription failed: what it comes to, and whether the text
    /// goes into the history. `s` holds the settings of this moment.
    pub fn transcribed(&mut self, job: &Job, s: &Settings, transcript: Result<String, String>) -> (r: (
        Outcome,
        bool,
    ))
        requires
            old(self).wf(),
        ensures
            final(self).wf(),
            *final(self) == after_transcript(*old(self)),
            comes_to(r.0, job@, transcript),
            r.1 == (r.0 is Text && s.history_enabled),
    {
        self.busy = false;
        match transcript {
            Err(_) => (Outcome::Failed, false),
            Ok(raw) => {
                let cleaned: String = clean(raw.as_str(), job.remove_fillers, job.autocapitalize);
                let expanded: String = expand_snippets(cleaned.as_str(), job.snippets.as_slice());
                if expanded.as_str().is_empty() {
                    (Outcome::Nothing, false)
                } else {
                    (Outcome::Text(expanded), s.history_enabled)
                }
            },
        }
    }

    /// The hotkey went down at the moment `now`.
    pub fn on_press(&mut self, s: &Settings, model_len: Option<u64>, now: u64) -> (actions: Vec<
        Action,
    >)
        requires
            old(self).wf(),
        ensures
            final(self).wf(),
            ({
                let pressed = pressed(*old(self), now);
                if press_ends(*old(self), *s) {
                    &&& *final(self) == after_end(pressed)
                    &&& views(actions@) == ended(pressed, *s)
                } else {
                    &&& *final(self) == pressed
                    &&& views(actions@) == begun(pressed, *s, model_len)
                }
            }),
            (*final(self), views(actions@)) == key_down(*old(self), *s, model_len, now),
    {
        self.pressed_at = Some(now);
        if s.activation != Activation::Hold && self.recording {
            return self.finish(s);
        }
        self.begin(s, model_len)
    }

    /// The hotkey came up at the moment `now`.
    pub fn on_release(&mut self, s: &Settings, now: u64) -> (actions: Vec<Action>)
        requires
            old(self).wf(),
        ensures
            final(self).wf(),
            ({
                let released = released(*old(self));
                if release_ends(*old(self), *s, now) {
                    &&& *final(self) == after_end(released)
                    &&& views(actions@) == ended(released, *s)
                } else {
                    &&& *final(self) == released
                    &&& views(actions@) == Seq::<ActionView>::empty()
                }
            }),
            (*final(self), views(actions@)) == key_up(*old(self), *s, now),
    {
        let held: u64 = match self.pressed_at {
            Some(t) => if now >= t {
                (now - t) / 1_000_000
            } else {
                0
            },
            None => u64::MAX,
        };
        self.pressed_at = None;
        let ends: bool = match s.activation {
            Activation::Toggle => false,
            Activation::Hold => true,
            Activation::Both => held >= s.tap_threshold_ms,
        };
        if ends {
            self.finish(s)
        } else {
            let actions: Vec<Action> = Vec::new();
            assert(views(actions@) =~= seq![]);
            actions
        }
    }

    /// Starts or stops dictation, for entry points that are a single event rather than a press
    /// and a release.
    pub fn toggle_dictation(&mut self, s: &Settings, model_len: Option<u64>) -> (actions: Vec<
        Action,
    >)
        requires
            old(self).wf(),
        ensures
            final(self).wf(),
            if old(self).recording {
                &&& *final(self) == after_end(*old(self))
                &&& views(actions@) == ended(*old(self), *s)
            } else {
                &&& *final(self) == *old(self)
                &&& views(actions@) == begun(*old(self), *s, model_len)
            },
            (*final(self), views(actions@)) == toggled(*old(self), *s, model_len),
    {
        if self.recording {
            self.finish(s)
        } else {
            self.begin(s, model_len)
        }
    }

    /// The application is quitting: whether the microphone has to be released.
    pub fn shutdown(&mut self) -> (stop: bool)
        ensures
            stop == old(self).recording,
            *final(self) == (Session { recording: false, ..*old(self) }),
    {
        let stop: bool = self.recording;
        self.recording = false;
        stop
    }

    /// Whether the microphone may be swapped now: never under a dictation in progress.
    pub fn may_swap_device(&self) -> (b: bool)
        ensures
            b == !self.recording,
    {
        !self.recording
    }
}

fn job_of(s: &Settings) -> (j: Job)
    ensures
        j@ == job(*s),
{
    Job {
        remove_fillers: s.remove_fillers,
        autocapitalize: s.autocapitalize,
        language: s.language.clone(),
        accurate: s.accurate,
        dictionary: join_strings(&s.dictionary, ", "),
        snippets: snippet_pairs(&s.snippets),
    }
}

fn snippet_pairs(list: &Vec<Snippet>) -> (pairs: Vec<(String, String)>)
    ensures
        pairs@ == pairs_of(list@),
{
    let mut pairs: Vec<(String, String)> = Vec::new();
    let mut i: usize = 0;
    while i < list.len()
        invariant
            i <= list@.len(),
            pairs@ == pairs_of(list@.take(i as int)),
        decreases list@.len() - i,
    {
        pairs.push((list[i].trigger.clone(), list[i].replacement.clone()));
        assert(pairs_of(list@.take(i + 1)) == pairs_of(list@.take(i as int)).push(
            (list@[i as int].trigger, list@[i as int].replacement),
        ));
        i += 1;
    }
    assert(list@.take(i as int) == list@);
    pairs
}

/// What is done about an outcome.
pub fn deliver(outcome: Outcome, s: &Settings, model_len: Option<u64>) -> (actions: Vec<Action>)
    ensures
        views(actions@) == delivered(outcome, *s, model_len),
{
    let mut actions: Vec<Action> = Vec::new();
    assert(views(actions@) =~= seq![]);
    match outcome {
        Outcome::Failed => {
            push(&mut actions, status("Failed"));
            push_message(&mut actions, "Transcription failed", 3000);
        },
        Outcome::Nothing => {
            push(&mut actions, Action::Status(idle_status(s, model_len)));
            push_message(&mut actions, "Didn't catch that", 1800);
        },
        Outcome::Text(t) => {
            push(&mut actions, Action::Insert(t));
        },
    }
    assert(views(actions@) =~= delivered(outcome, *s, model_len));
    actions
}

/// The text was put in, or could not be.
pub fn inserted(s: &Settings, model_len: Option<u64>, ok: bool) -> (actions: Vec<Action>)
    ensures
        views(actions@) == insertion_ended(*s, model_len, ok),
{
    let mut actions: Vec<Action> = Vec::new();
    assert(views(actions@) =~= seq![]);
    if ok {
        push(&mut actions, Action::Status(idle_status(s, model_len)));
        push(&mut actions, Action::HideHud);
    } else {
        push(&mut actions, status("Copied to clipboard"));
        push_message(&mut actions, "Copied — press ⌘V", 3000);
    }
    assert(views(actions@) =~= insertion_ended(*s, model_len, ok));
    actions
}

/// Every error message is followed by the timer that takes it down.
pub open spec fn messages_are_cleared(actions: Seq<ActionView>) -> bool {
    forall|i: int|
        0 <= i < actions.len() && (#[trigger] actions[i] matches ActionView::Hud { state, .. }
            && state == "error"@) ==> i + 1 < actions.len() && actions[i + 1] is ClearHudAfter
}

/// No error stays on the screen for good, whatever goes wrong.
pub proof fn law_no_error_stays_for_good(
    session: Session,
    s: Settings,
    model_len: Option<u64>,
    ok: bool,
    captured: Captured,
    outcome: Outcome,
)
    ensures
        messages_are_cleared(begun(session, s, model_len)),
        messages_are_cleared(capture_began(s, ok)),
        messages_are_cleared(ended(session, s)),
        messages_are_cleared(capture_ended(s, captured)),
        messages_are_cleared(delivered(outcome, s, model_len)),
        messages_are_cleared(insertion_ended(s, model_len, ok)),
{
    reveal_strlit("error");
    reveal_strlit("working");
    assert("error"@.len() != "working"@.len());
}

/// While a dictation is recorded or transcribed, a second one cannot begin.
pub proof fn law_one_dictation_at_a_time(session: Session, s: Settings, model_len: Option<u64>)
    requires
        session.busy || session.recording,
    ensures
        begun(session, s, model_len) == Seq::<ActionView>::empty(),
{
}

/// A dictation never leaves the session stuck: once a recording was ended, every way it can go
/// on frees the session for the next one.
pub proof fn law_the_session_becomes_free(
    session: Session,
    s: Settings,
    model_len: Option<u64>,
    captured: Captured,
)
    requires
        session.wf(),
        session.recording,
        models::installed(s.model@, model_len),
    ensures
        after_end(session).busy,
        ended(session, s).last() is StopCapture,
        captured is Speech ==> capture_ended(s, captured).last() is Transcribe && begun(
            after_transcript(after_capture(after_end(session), captured)),
            s,
            model_len,
        ) == seq![ActionView::StartCapture],
        captured !is Speech ==> begun(
            after_capture(after_end(session), captured),
            s,
            model_len,
        ) == seq![ActionView::StartCapture],
{
}

/// Hold-to-talk: a press starts the microphone, and the release stops it.
pub proof fn law_holding_talks(
    session: Session,
    s: Settings,
    model_len: Option<u64>,
    down: u64,
    up: u64,
)
    requires
        !session.busy && !session.recording,
        s.activation is Hold,
        models::installed(s.model@, model_len),
    ensures
        ({
            let talking = after_start(pressed(session, down), true);
            &&& !press_ends(session, s)
            &&& begun(pressed(session, down), s, model_len) == seq![ActionView::StartCapture]
            &&& release_ends(talking, s, up)
            &&& ended(released(talking), s).last() is StopCapture
        }),
{
}

/// Tap-to-toggle: a press starts the microphone, a release changes nothing, and the next press
/// stops it.
pub proof fn law_tapping_toggles(
    session: Session,
    s: Settings,
    model_len: Option<u64>,
    down: u64,
    up: u64,
    again: u64,
)
    requires
        !session.busy && !session.recording,
        s.activation is Toggle,
        models::installed(s.model@, model_len),
    ensures
        ({
            let talking = after_start(pressed(session, down), true);
            &&& !press_ends(session, s)
            &&& begun(pressed(session, down), s, model_len) == seq![ActionView::StartCapture]
            &&& !release_ends(talking, s, up)
            &&& press_ends(released(talking), s)
            &&& ended(pressed(released(talking), again), s).last() is StopCapture
        }),
{
}

/// Both at once: a press shorter than the threshold latches and the next press stops it, and a
/// longer one stops at its release.
pub proof fn law_a_tap_latches_and_a_hold_talks(
    session: Session,
    s: Settings,
    model_len: Option<u64>,
    down: u64,
    up: u64,
    again: u64,
)
    requires
        !session.busy && !session.recording,
        s.activation is Both,
        models::installed(s.model@, model_len),
        down <= up,
    ensures
        ({
            let talking = after_start(pressed(session, down), true);
            let tap = (up - down) / 1_000_000 < s.tap_threshold_ms;
            &&& !press_ends(session, s)
            &&& begun(pressed(session, down), s, model_len) == seq![ActionView::StartCapture]
            &&& release_ends(talking, s, up) == !tap
            &&& tap ==> press_ends(released(talking), s) && ended(
                pressed(released(talking), again),
                s,
            ).last() is StopCapture
            &&& !tap ==> ended(released(talking), s).last() is StopCapture
        }),
{
}

/// Silence is never handed to the model, which would make a phrase up.
pub proof fn law_silence_is_not_transcribed(s: Settings, i: int)
    requires
        0 <= i < capture_ended(s, Captured::Silence).len(),
    ensures
        capture_ended(s, Captured::Silence)[i] !is Transcribe,
{
}

/// A transcript that cleaning leaves nothing of types nothing and is not remembered.
pub proof fn law_nothing_heard_nothing_typed(
    outcome: Outcome,
    j: JobView,
    raw: String,
    s: Settings,
    model_len: Option<u64>,
    i: int,
)
    requires
        comes_to(outcome, j, Ok(raw)),
        text::cleaned(raw@, j.remove_fillers, j.autocapitalize).len() == 0,
        0 <= i < delivered(outcome, s, model_len).len(),
    ensures
        outcome is Nothing,
        delivered(outcome, s, model_len)[i] !is Insert,
{
}

/// What was heard is what is typed: a transcript that yields text is inserted as that text, and
/// as nothing else.
pub proof fn law_what_is_heard_is_typed(
    outcome: Outcome,
    j: JobView,
    raw: String,
    s: Settings,
    model_len: Option<u64>,
)
    requires
        comes_to(outcome, j, Ok(raw)),
        typed(j, raw@).len() > 0,
    ensures
        delivered(outcome, s, model_len) == seq![ActionView::Insert(typed(j, raw@))],
{
}

/// A failed paste loses no words: of a recording that came to text, whose insertion failed after
/// the text was written to the clipboard, the clipboard holds that text whatever it held before,
/// the user is told so, and the session is free.
pub proof fn law_a_failed_paste_keeps_the_words(
    session: Session,
    s: Settings,
    model_len: Option<u64>,
    raw: String,
    states: Seq<Insertion>,
    events: Seq<InsertEvent>,
    actions: Seq<InsertAction>,
    held: Option<Seq<char>>,
)
    requires
        session.recording && !session.busy,
        typed(job(s), raw@).len() > 0,
        inject::ran(states, events, actions),
        states[0].stage is Opening,
        states[0].text@ == typed(job(s), raw@),
        events.len() >= 2,
        events[0] matches InsertEvent::Opened(Ok(_)),
        events[1] matches InsertEvent::Did(Ok(_)),
        actions.last() matches InsertAction::Done(Err(_)),
    ensures
        inject::on_clipboard(held, events, actions, events.len() as int) == Some(
            typed(job(s), raw@),
        ),
        insertion_ended(s, model_len, false) == seq![
            ActionView::Status("Copied to clipboard"@),
            ActionView::Hud { state: "error"@, label: "Copied — press ⌘V"@ },
            ActionView::ClearHudAfter(3000),
        ],
        ({
            let after = after_transcript(after_capture(after_end(session), Captured::Speech));
            !after.recording && !after.busy
        }),
{
    inject::law_words_are_never_lost(states, events, actions, held);
    assert(insertion_ended(s, model_len, false) =~= seq![
        ActionView::Status("Copied to clipboard"@),
        ActionView::Hud { state: "error"@, label: "Copied — press ⌘V"@ },
        ActionView::ClearHudAfter(3000),
    ]);
}

/// A dictation is done with the settings of the moment: each goes into the job as it is, every word
/// of the dictionary with a comma and a space between, and every snippet in its place.
pub proof fn law_a_job_carries_the_settings(s: Settings, i: int)
    ensures
        job(s).remove_fillers == s.remove_fillers,
        job(s).autocapitalize == s.autocapitalize,
        job(s).language == s.language@,
        job(s).accurate == s.accurate,
        job(s).dictionary == words::joined(words::strings(s.dictionary@), seq![',', ' ']),
        job(s).snippets.len() == s.snippets@.len(),
        0 <= i < s.snippets@.len() ==> job(s).snippets[i] == (
            s.snippets@[i].trigger,
            s.snippets@[i].replacement,
        ),
{
    reveal_strlit(", ");
    assert(", "@ =~= seq![',', ' ']);
}

/// What is typed is the cleaned transcript with its snippets expanded: both as the job has them, and
/// nothing else. A failed transcription comes to nothing else than a failure.
pub proof fn law_what_is_typed(outcome: Outcome, j: JobView, raw: String, e: String)
    ensures
        typed(j, raw@) == snippets::expanded(
            text::cleaned(raw@, j.remove_fillers, j.autocapitalize),
            j.snippets,
        ),
        comes_to(outcome, j, Err(e)) <==> outcome is Failed,
        comes_to(outcome, j, Ok(raw)) <==> if typed(j, raw@).len() == 0 {
            outcome is Nothing
        } else {
            outcome matches Outcome::Text(t) && t@ == typed(j, raw@)
        },
{
}

/// A dictation begins when none is under way and there is a model; without a model the settings are
/// opened instead, and while one is under way nothing happens.
pub proof fn law_when_a_dictation_begins(session: Session, s: Settings, model_len: Option<u64>)
    ensures
        begun(session, s, model_len) == seq![ActionView::StartCapture] <==> !session.busy
            && !session.recording && models::installed(s.model@, model_len),
        !session.busy && !session.recording && !models::installed(s.model@, model_len) ==> begun(
            session,
            s,
            model_len,
        ) == seq![
            ActionView::Status("No model — open Settings"@),
            ActionView::Hud { state: "error"@, label: "No model — opening Settings"@ },
            ActionView::ClearHudAfter(2600),
            ActionView::OpenSettings,
        ],
        session.busy || session.recording ==> begun(session, s, model_len).len() == 0,
{
    let shown = begun(session, s, model_len);
    if !session.busy && !session.recording && !models::installed(s.model@, model_len) {
        assert(shown =~= seq![
            ActionView::Status("No model — open Settings"@),
            ActionView::Hud { state: "error"@, label: "No model — opening Settings"@ },
            ActionView::ClearHudAfter(2600),
            ActionView::OpenSettings,
        ]);
        assert(shown[0] is Status);
        assert(seq![ActionView::StartCapture][0] is StartCapture);
    }
    if session.busy || session.recording {
        assert(seq![ActionView::StartCapture].len() == 1);
    }
}

/// A cue is played where sounds are on and one is chosen: the system sound of that name.
pub proof fn law_when_a_cue_is_played(s: Settings, name: Seq<char>)
    ensures
        s.play_sounds && name.len() > 0 ==> cue(s, name) == seq![
            ActionView::Cue("/System/Library/Sounds/"@ + name + ".aiff"@),
        ],
        !s.play_sounds || name.len() == 0 ==> cue(s, name).len() == 0,
{
}

/// What is shown and done when a capture starts, and when the key that talks ends it: the cue of
/// that moment first, and then the rest.
pub proof fn law_what_a_capture_shows(session: Session, s: Settings)
    ensures
        capture_began(s, true) == cue(s, s.sound_start@) + seq![
            ActionView::Status("Listening…"@),
            ActionView::ShowHud { position: s.hud_position, state: "listening"@ },
            ActionView::Meter,
        ],
        capture_began(s, false) == seq![
            ActionView::Status("Microphone error"@),
            ActionView::Hud { state: "error"@, label: "Microphone unavailable"@ },
            ActionView::ClearHudAfter(3000),
        ],
        session.recording && !session.busy ==> ended(session, s) == cue(s, s.sound_stop@).push(
            ActionView::StopCapture,
        ),
        !(session.recording && !session.busy) ==> ended(session, s).len() == 0,
{
    assert(capture_began(s, false) =~= seq![
        ActionView::Status("Microphone error"@),
        ActionView::Hud { state: "error"@, label: "Microphone unavailable"@ },
        ActionView::ClearHudAfter(3000),
    ]);
    assert(cue(s, s.sound_stop@) + seq![ActionView::StopCapture] =~= cue(s, s.sound_stop@).push(
        ActionView::StopCapture,
    ));
}

/// What a capture leads to: speech is transcribed with the job of the settings, silence is told from
/// a failed microphone, and each is said.
pub proof fn law_what_a_capture_leads_to(s: Settings)
    ensures
        capture_ended(s, Captured::Speech) == seq![
            ActionView::Status("Transcribing…"@),
            ActionView::Hud { state: "working"@, label: "Transcribing…"@ },
            ActionView::Transcribe(job(s)),
        ],
        capture_ended(s, Captured::Silence) == seq![
            ActionView::Status("Transcribing…"@),
            ActionView::Hud { state: "working"@, label: "Transcribing…"@ },
            ActionView::Status("No audio"@),
            ActionView::Hud { state: "error"@, label: "No audio — check your microphone"@ },
            ActionView::ClearHudAfter(2600),
        ],
        capture_ended(s, Captured::Failed) == seq![
            ActionView::Hud { state: "error"@, label: "Microphone error"@ },
            ActionView::ClearHudAfter(3000),
        ],
{
    assert(capture_ended(s, Captured::Speech) =~= seq![
        ActionView::Status("Transcribing…"@),
        ActionView::Hud { state: "working"@, label: "Transcribing…"@ },
        ActionView::Transcribe(job(s)),
    ]);
    assert(capture_ended(s, Captured::Silence) =~= seq![
        ActionView::Status("Transcribing…"@),
        ActionView::Hud { state: "working"@, label: "Transcribing…"@ },
        ActionView::Status("No audio"@),
        ActionView::Hud { state: "error"@, label: "No audio — check your microphone"@ },
        ActionView::ClearHudAfter(2600),
    ]);
}

/// What is said of every outcome: the text is inserted as it is, and a failure, nothing heard and a
/// paste that failed are each shown, for a while.
pub proof fn law_every_outcome_is_told(t: String, s: Settings, model_len: Option<u64>)
    ensures
        delivered(Outcome::Text(t), s, model_len) == seq![ActionView::Insert(t@)],
        delivered(Outcome::Failed, s, model_len) == seq![
            ActionView::Status("Failed"@),
            ActionView::Hud { state: "error"@, label: "Transcription failed"@ },
            ActionView::ClearHudAfter(3000),
        ],
        delivered(Outcome::Nothing, s, model_len) == seq![
            ActionView::Status(resting(s, model_len)),
            ActionView::Hud { state: "error"@, label: "Didn't catch that"@ },
            ActionView::ClearHudAfter(1800),
        ],
        insertion_ended(s, model_len, true) == seq![
            ActionView::Status(resting(s, model_len)),
            ActionView::HideHud,
        ],
        insertion_ended(s, model_len, false) == seq![
            ActionView::Status("Copied to clipboard"@),
            ActionView::Hud { state: "error"@, label: "Copied — press ⌘V"@ },
            ActionView::ClearHudAfter(3000),
        ],
        models::installed(s.model@, model_len) ==> resting(s, model_len) == "Ready — hold "@
            + s.shortcut@,
        !models::installed(s.model@, model_len) ==> resting(s, model_len)
            == "No model — open Settings"@,
{
    assert(delivered(Outcome::Failed, s, model_len) =~= seq![
        ActionView::Status("Failed"@),
        ActionView::Hud { state: "error"@, label: "Transcription failed"@ },
        ActionView::ClearHudAfter(3000),
    ]);
    assert(delivered(Outcome::Nothing, s, model_len) =~= seq![
        ActionView::Status(resting(s, model_len)),
        ActionView::Hud { state: "error"@, label: "Didn't catch that"@ },
        ActionView::ClearHudAfter(1800),
    ]);
    assert(insertion_ended(s, model_len, false) =~= seq![
        ActionView::Status("Copied to clipboard"@),
        ActionView::Hud { state: "error"@, label: "Copied — press ⌘V"@ },
        ActionView::ClearHudAfter(3000),
    ]);
}

/// What each moment of a dictation does to the session, whatever it was: a start that worked records,
/// an end of a recording is busy until the transcript, or until the capture turns out to hold no
/// speech, and only presses and releases touch the moment of the press.
pub proof fn law_what_happens_to_the_session(session: Session, now: u64)
    ensures
        after_start(session, true).recording && after_start(session, true).busy == session.busy,
        after_start(session, false) == session,
        !after_end(session).recording,
        after_end(session).busy == (session.busy || session.recording),
        !after_capture(session, Captured::Failed).busy && !after_capture(
            session,
            Captured::Silence,
        ).busy,
        after_capture(session, Captured::Speech) == session,
        !after_transcript(session).busy && after_transcript(session).recording == session.recording,
        after_start(session, true).pressed_at == session.pressed_at,
        after_end(session).pressed_at == session.pressed_at,
        after_transcript(session).pressed_at == session.pressed_at,
        pressed(session, now).pressed_at == Some(now) && released(session).pressed_at is None,
        pressed(session, now).recording == session.recording && pressed(session, now).busy
            == session.busy,
        released(session).recording == session.recording && released(session).busy == session.busy,
{
}

/// Which presses and releases end a dictation: a release where the key is held, a second press where
/// it is tapped, and where it may be either a press that finds a recording, and the release of a key
/// that was down for at least the threshold, or of one whose press was missed. Time is counted in
/// nanoseconds, and the threshold in milliseconds.
pub proof fn law_which_keys_end_a_dictation(session: Session, s: Settings, down: u64, up: u64)
    ensures
        s.activation is Hold ==> release_ends(session, s, up) && !press_ends(session, s),
        s.activation is Toggle ==> !release_ends(session, s, up) && press_ends(session, s)
            == session.recording,
        s.activation is Both ==> press_ends(session, s) == session.recording,
        s.activation is Both && session.pressed_at == Some(down) ==> (release_ends(session, s, up)
            <==> s.tap_threshold_ms == 0 || up - down >= s.tap_threshold_ms * 1_000_000),
        s.activation is Both && session.pressed_at is None ==> release_ends(session, s, up),
{
}

/// A list of actions is each of them, in its place.
pub proof fn law_each_action_is_in_its_place(actions: Seq<Action>, i: int)
    ensures
        views(actions).len() == actions.len(),
        0 <= i < actions.len() ==> views(actions)[i] == actions[i]@,
{
}

/// A dictation from the press to the release, for each way of talking. A key that is held records from
/// the press to the release, and one that is tapped from one press to the next; one that may do both
/// goes by how long it was down. The press that ends nothing and the release that ends nothing leave
/// the recording as it is, and what ends it leaves the session busy until the transcript.
pub proof fn law_from_the_press_to_the_release(
    session: Session,
    s: Settings,
    model_len: Option<u64>,
    down: u64,
    up: u64,
    again: u64,
)
    requires
        !session.recording && !session.busy,
        models::installed(s.model@, model_len),
        down <= up,
    ensures
        ({
            let (started, begins) = key_down(session, s, model_len, down);
            let talking = Session { recording: true, ..started };
            let (let_go, done) = key_up(talking, s, up);
            let (pressed_again, done_again) = key_down(let_go, s, model_len, again);
            let ends = s.activation is Hold || (s.activation is Both && (s.tap_threshold_ms == 0 || up
                - down >= s.tap_threshold_ms * 1_000_000));
            &&& begins == seq![ActionView::StartCapture]
            &&& started == (Session { pressed_at: Some(down), ..session })
            &&& ends ==> let_go == (Session { recording: false, busy: true, pressed_at: None })
                && done.len() > 0 && done.last() is StopCapture && done_again.len() == 0
            &&& !ends ==> let_go == (Session { recording: true, busy: false, pressed_at: None })
                && done.len() == 0
            &&& !ends ==> pressed_again == (Session {
                recording: false,
                busy: true,
                pressed_at: Some(again),
            }) && done_again.len() > 0 && done_again.last() is StopCapture
        }),
{
    law_which_keys_end_a_dictation(
        Session { recording: true, pressed_at: Some(down), ..session },
        s,
        down,
        up,
    );
}

/// While a transcript is under way no key does anything, and the menu's toggle ends a recording, or
/// begins one, as a key would.
pub proof fn law_a_busy_session_waits(
    session: Session,
    s: Settings,
    model_len: Option<u64>,
    now: u64,
)
    ensures
        session.busy && !session.recording ==> key_down(session, s, model_len, now).1.len() == 0
            && key_up(session, s, now).1.len() == 0 && toggled(session, s, model_len) == (
            session,
            Seq::<ActionView>::empty(),
        ),
        !session.busy && session.recording ==> !toggled(session, s, model_len).0.recording && toggled(
            session,
            s,
            model_len,
        ).0.busy && toggled(session, s, model_len).1.last() is StopCapture,
        !session.busy && !session.recording && models::installed(s.model@, model_len) ==> toggled(
            session,
            s,
            model_len,
        ) == (session, seq![ActionView::StartCapture]),
{
}

} // verus!
