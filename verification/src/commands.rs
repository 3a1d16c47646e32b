//! What the settings window can ask for.

use vstd::prelude::*;

use crate::chars::same_str;
use crate::download::MEGABYTE;
use crate::engine::{needs_load, Engine};
use crate::models;
use crate::models::{models_dir, spec};
use crate::paths;
use crate::paths::join;
use crate::settings;
use crate::settings::{dir, HudPosition, Settings};
use crate::tray;
use crate::tray::starts_with;

verus! {

/// What follows once new settings are in force, in order.
#[derive(Debug)]
pub enum Followup {
    /// Bind this shortcut.
    Rebind(String),
    MoveHud(HudPosition),
    /// Record from this device.
    SwapDevice(String),
    /// Whether a left click on the tray icon opens the menu.
    MenuOnLeftClick(bool),
    /// Decide anew whether the Dock icon shows. The settings window is open at this moment.
    ApplyPolicy,
    /// Build the tray menu anew, for this shortcut.
    RefreshTray(String),
}

/// What a follow-up holds.
pub enum FollowupView {
    Rebind(Seq<char>),
    MoveHud(HudPosition),
    SwapDevice(Seq<char>),
    MenuOnLeftClick(bool),
    ApplyPolicy,
    RefreshTray(Seq<char>),
}

impl View for Followup {
    type V = FollowupView;

    open spec fn view(&self) -> FollowupView {
        match *self {
            Followup::Rebind(s) => FollowupView::Rebind(s@),
            Followup::MoveHud(p) => FollowupView::MoveHud(p),
            Followup::SwapDevice(d) => FollowupView::SwapDevice(d@),
            Followup::MenuOnLeftClick(b) => FollowupView::MenuOnLeftClick(b),
            Followup::ApplyPolicy => FollowupView::ApplyPolicy,
            Followup::RefreshTray(s) => FollowupView::RefreshTray(s@),
        }
    }
}

/// What a list of follow-ups holds.
pub open spec fn views(v: Seq<Followup>) -> Seq<FollowupView> {
    Seq::new(v.len(), |i: int| v[i]@)
}

/// The follow-up, if the condition holds.
pub open spec fn given(condition: bool, f: FollowupView) -> Seq<FollowupView> {
    if condition {
        seq![f]
    } else {
        seq![]
    }
}

/// What follows from a change of settings: each part that changed is carried out, and the tray,
/// which shows the shortcut and ticks the microphone, is refreshed when either changed.
pub open spec fn follows(old_ones: Settings, new_ones: Settings) -> Seq<FollowupView> {
    let shortcut_changed = old_ones.shortcut@ != new_ones.shortcut@;
    let device_changed = old_ones.input_device@ != new_ones.input_device@;
    given(shortcut_changed, FollowupView::Rebind(new_ones.shortcut@)) + given(
        old_ones.hud_position != new_ones.hud_position,
        FollowupView::MoveHud(new_ones.hud_position),
    ) + given(device_changed, FollowupView::SwapDevice(new_ones.input_device@)) + given(
        old_ones.menubar_click_records != new_ones.menubar_click_records,
        FollowupView::MenuOnLeftClick(!new_ones.menubar_click_records),
    ) + given(
        old_ones.show_in_dock != new_ones.show_in_dock,
        FollowupView::ApplyPolicy,
    ) + given(
        shortcut_changed || device_changed,
        FollowupView::RefreshTray(new_ones.shortcut@),
    )
}

fn push_if(v: &mut Vec<Followup>, condition: bool, f: Followup)
    ensures
        views(final(v)@) == views(old(v)@) + given(condition, f@),
{
    if condition {
        v.push(f);
    }
    assert(views(v@) =~= views(old(v)@) + given(condition, f@));
}

fn followups(old_ones: &Settings, new_ones: &Settings) -> (v: Vec<Followup>)
    ensures
        views(v@) == follows(*old_ones, *new_ones),
{
    let shortcut_changed: bool = !same_str(old_ones.shortcut.as_str(), new_ones.shortcut.as_str());
    let device_changed: bool = !same_str(
        old_ones.input_device.as_str(),
        new_ones.input_device.as_str(),
    );
    let mut v: Vec<Followup> = Vec::new();
    push_if(&mut v, shortcut_changed, Followup::Rebind(new_ones.shortcut.clone()));
    push_if(
        &mut v,
        old_ones.hud_position != new_ones.hud_position,
        Followup::MoveHud(new_ones.hud_position),
    );
    push_if(&mut v, device_changed, Followup::SwapDevice(new_ones.input_device.clone()));
    push_if(
        &mut v,
        old_ones.menubar_click_records != new_ones.menubar_click_records,
        Followup::MenuOnLeftClick(!new_ones.menubar_click_records),
    );
    push_if(&mut v, old_ones.show_in_dock != new_ones.show_in_dock, Followup::ApplyPolicy);
    push_if(
        &mut v,
        shortcut_changed || device_changed,
        Followup::RefreshTray(new_ones.shortcut.clone()),
    );
    assert(views(v@) =~= follows(*old_ones, *new_ones));
    v
}

/// How saving goes.
#[derive(Debug)]
pub enum SaveEvent {
    /// The settings were written to the file.
    Stored(Result<(), String>),
    /// Launching at login was switched.
    LaunchSet(Result<(), String>),
}

/// What to do next.
#[derive(Debug)]
pub enum SaveAction {
    /// Switch launching at login.
    SetLaunch(bool),
    /// Put the new settings in force and carry out what follows. The request succeeded.
    Adopt(Vec<Followup>),
    /// Leave the old settings in force and answer with the error.
    Refuse(String),
}

/// The answer when launching at login cannot be switched.
pub open spec fn launch_failed(error: Seq<char>) -> Seq<char> {
    "could not change launch-at-login: "@ + error
}

/// The new settings are put in force.
pub open spec fn adopts(action: SaveAction, old_ones: Settings, new_ones: Settings) -> bool {
    action matches SaveAction::Adopt(v) && views(v@) == follows(old_ones, new_ones)
}

/// Saving, one step: the file first, then launching at login, and only then the rest.
pub open spec fn saves(
    old_ones: Settings,
    new_ones: Settings,
    event: SaveEvent,
    action: SaveAction,
) -> bool {
    match event {
        SaveEvent::Stored(Err(e)) => action matches SaveAction::Refuse(t) && t@ == e@,
        SaveEvent::Stored(Ok(_)) => if old_ones.launch_at_login != new_ones.launch_at_login {
            action == SaveAction::SetLaunch(new_ones.launch_at_login)
        } else {
            adopts(action, old_ones, new_ones)
        },
        SaveEvent::LaunchSet(Err(e)) => action matches SaveAction::Refuse(t) && t@ == launch_failed(
            e@,
        ),
        SaveEvent::LaunchSet(Ok(_)) => adopts(action, old_ones, new_ones),
    }
}

/// Saves `new_ones` in place of `old_ones`: takes how the last step went and says what to do
/// next. The first step is to write the file.
pub fn save_settings(old_ones: &Settings, new_ones: &Settings, event: SaveEvent) -> (action: SaveAction)
    ensures
        saves(*old_ones, *new_ones, event, action),
{
    match event {
        SaveEvent::Stored(r) => match r {
            Err(e) => SaveAction::Refuse(e),
            Ok(_) => if old_ones.launch_at_login != new_ones.launch_at_login {
                SaveAction::SetLaunch(new_ones.launch_at_login)
            } else {
                SaveAction::Adopt(followups(old_ones, new_ones))
            },
        },
        SaveEvent::LaunchSet(r) => match r {
            Err(e) => {
                let mut answer: String = "could not change launch-at-login: ".to_owned();
                answer.append(e.as_str());
                SaveAction::Refuse(answer)
            },
            Ok(_) => SaveAction::Adopt(followups(old_ones, new_ones)),
        },
    }
}

/// How a change of model goes.
#[derive(Debug)]
pub enum SwitchEvent {
    /// The model was asked for.
    Asked,
    /// It was loaded.
    Loaded(Result<(), String>),
    /// The settings that name it were written to the file.
    Stored(Result<(), String>),
}

/// What to do next.
#[derive(Debug)]
pub enum SwitchAction {
    /// Load the model.
    Load,
    /// Write these settings to the file.
    Store(Settings),
    /// Put these settings in force. The request succeeded.
    Adopt(Settings),
    /// Leave the old settings in force and answer with the error.
    Refuse(String),
}

/// The settings with another model.
pub open spec fn with_model(s: settings::SettingsView, id: Seq<char>) -> settings::SettingsView {
    settings::SettingsView { model: id, ..s }
}

/// Changing the model, one step: it is loaded before anything names it, so that a failure leaves
/// the application working with what it had.
pub open spec fn switches(
    loaded: Option<Seq<char>>,
    s: Settings,
    id: Seq<char>,
    event: SwitchEvent,
    action: SwitchAction,
) -> bool {
    match event {
        SwitchEvent::Asked => if loaded == Some(id) {
            action matches SwitchAction::Store(n) && n@ == with_model(s@, id)
        } else {
            action is Load
        },
        SwitchEvent::Loaded(Err(e)) => action matches SwitchAction::Refuse(t) && t@ == e@,
        SwitchEvent::Loaded(Ok(_)) => action matches SwitchAction::Store(n) && n@ == with_model(
            s@,
            id,
        ),
        SwitchEvent::Stored(Err(e)) => action matches SwitchAction::Refuse(t) && t@ == e@,
        SwitchEvent::Stored(Ok(_)) => action matches SwitchAction::Adopt(n) && n@ == with_model(
            s@,
            id,
        ),
    }
}

fn naming(s: &Settings, id: &str) -> (n: Settings)
    ensures
        n@ == with_model(s@, id@),
{
    let mut n: Settings = s.copy();
    n.model = id.to_owned();
    n
}

/// Makes `id` the active model: takes how the last step went and says what to do next.
pub fn set_active_model(loaded: Option<&Engine>, s: &Settings, id: &str, event: SwitchEvent) -> (action:
    SwitchAction)
    ensures
        switches(
            match loaded {
                Some(e) => Some(e.id()),
                None => None,
            },
            *s,
            id@,
            event,
            action,
        ),
{
    match event {
        SwitchEvent::Asked => if needs_load(loaded, id) {
            SwitchAction::Load
        } else {
            SwitchAction::Store(naming(s, id))
        },
        SwitchEvent::Loaded(r) => match r {
            Err(e) => SwitchAction::Refuse(e),
            Ok(_) => SwitchAction::Store(naming(s, id)),
        },
        SwitchEvent::Stored(r) => match r {
            Err(e) => SwitchAction::Refuse(e),
            Ok(_) => SwitchAction::Adopt(naming(s, id)),
        },
    }
}

/// How the application shows in the system.
#[derive(Debug, Clone, Copy, PartialEq, Eq, Structural)]
pub enum Policy {
    /// Dock icon and application menu.
    Regular,
    /// Menu bar only.
    Accessory,
}

/// Regular when the user asked for it or while a real window is open, because the window of a
/// menu-bar-only application cannot properly take the focus.
pub fn activation_policy(window_open: bool, show_in_dock: bool) -> (p: Policy)
    ensures
        p == if window_open || show_in_dock {
            Policy::Regular
        } else {
            Policy::Accessory
        },
{
    if window_open || show_in_dock {
        Policy::Regular
    } else {
        Policy::Accessory
    }
}

/// A link to the web.
pub open spec fn is_web(url: Seq<char>) -> bool {
    tray::begins_with(url, "https://"@) || tray::begins_with(url, "http://"@)
}

/// Whether a link may be opened. Only the web: the opener would as happily launch a local file,
/// or hand a scheme to whatever application claims it.
pub fn may_open_url(url: &str) -> (b: bool)
    ensures
        b == is_web(url@),
{
    starts_with(url, "https://") || starts_with(url, "http://")
}

/// The lengths of some files together.
pub open spec fn total(lens: Seq<u64>) -> int
    decreases lens.len(),
{
    if lens.len() == 0 {
        0
    } else {
        total(lens.drop_last()) + lens.last()
    }
}

/// What the About page shows.
#[derive(Debug)]
pub struct About {
    pub version: String,
    pub model: String,
    pub shortcut: String,
    pub data_dir: String,
    pub log_path: String,
    pub models_dir: String,
    pub disk_mb: u64,
}

/// The name a model goes by: its id where no model has that id.
pub open spec fn shown_model(id: Seq<char>) -> Seq<char> {
    match models::model(id) {
        Some(m) => m.name@,
        None => id,
    }
}

/// The log file below a home directory.
pub open spec fn log_file(home: Seq<char>) -> Seq<char> {
    paths::below(settings::data_dir(home), "whisper-lite.log"@)
}

/// The log file.
pub fn log_path(home: &str) -> (path: String)
    ensures
        path@ == log_file(home@),
{
    join(dir(home).as_str(), "whisper-lite.log")
}

/// The bytes of some files together.
pub fn disk_bytes(lens: &[u64]) -> (n: u64)
    requires
        total(lens@) <= u64::MAX,
    ensures
        n == total(lens@),
{
    let mut sum: u64 = 0;
    let mut i: usize = 0;
    while i < lens.len()
        invariant
            i <= lens@.len(),
            total(lens@) <= u64::MAX,
            sum == total(lens@.take(i as int)),
        decreases lens@.len() - i,
    {
        proof {
            lemma_total_grows(lens@, i + 1);
            assert(lens@.take(i + 1).drop_last() == lens@.take(i as int));
        }
        sum = sum + lens[i];
        i += 1;
    }
    assert(lens@.take(i as int) == lens@);
    sum
}

proof fn lemma_total_grows(lens: Seq<u64>, n: int)
    requires
        0 <= n <= lens.len(),
    ensures
        0 <= total(lens.take(n)) <= total(lens),
    decreases lens.len(),
{
    if n < lens.len() {
        lemma_total_grows(lens.drop_last(), n);
        assert(lens.drop_last().take(n) == lens.take(n));
    } else {
        assert(lens.take(n) == lens);
        if n > 0 {
            lemma_total_grows(lens.drop_last(), n - 1);
        }
    }
}

/// The About page. `lens` holds the lengths of the files in the models directory.
pub fn about(s: &Settings, home: &str, version: &str, lens: &[u64]) -> (a: About)
    requires
        total(lens@) <= u64::MAX,
    ensures
        a.version@ == version@,
        a.model@ == shown_model(s.model@),
        a.shortcut@ == s.shortcut@,
        a.data_dir@ == settings::data_dir(home@),
        a.log_path@ == log_file(home@),
        a.models_dir@ == models::shelf(home@),
        a.disk_mb == total(lens@) / MEGABYTE as int,
{
    let model: String = match spec(s.model.as_str()) {
        Some(m) => m.name.to_owned(),
        None => s.model.clone(),
    };
    About {
        version: version.to_owned(),
        model,
        shortcut: s.shortcut.clone(),
        data_dir: dir(home),
        log_path: log_path(home),
        models_dir: models_dir(home),
        disk_mb: disk_bytes(lens) / MEGABYTE,
    }
}

/// Settings that change nothing have no consequences.
pub proof fn law_nothing_follows_from_no_change(a: Settings, b: Settings)
    requires
        a@ == b@,
    ensures
        follows(a, b) == Seq::<FollowupView>::empty(),
{
    assert(a@.shortcut == a.shortcut@);
    assert(a@.input_device == a.input_device@);
    assert(b@.shortcut == b.shortcut@);
    assert(b@.input_device == b.input_device@);
    assert(a@.hud_position == b@.hud_position);
    assert(a@.menubar_click_records == b@.menubar_click_records);
    assert(a@.show_in_dock == b@.show_in_dock);
}

/// A refused request leaves the old settings in force: nothing is adopted after a failure, and
/// what is adopted was written to the file before.
pub proof fn law_a_failure_adopts_nothing(a: Settings, b: Settings, event: SaveEvent, action: SaveAction)
    requires
        saves(a, b, event, action),
    ensures
        (event matches SaveEvent::Stored(Err(_))) || (event matches SaveEvent::LaunchSet(Err(_)))
            ==> action is Refuse,
        action is Adopt ==> (event matches SaveEvent::Stored(Ok(_))) || (
        event matches SaveEvent::LaunchSet(Ok(_))),
{
}

/// The tray is refreshed exactly when what it shows has changed.
pub proof fn law_the_tray_is_refreshed_when_it_must_be(a: Settings, b: Settings)
    ensures
        follows(a, b).contains(FollowupView::RefreshTray(b.shortcut@)) <==> (a.shortcut@
            != b.shortcut@ || a.input_device@ != b.input_device@),
{
    let f = follows(a, b);
    if a.shortcut@ != b.shortcut@ || a.input_device@ != b.input_device@ {
        assert(f.last() == FollowupView::RefreshTray(b.shortcut@));
        assert(f.contains(f.last()));
    }
}

/// A model that fails to load is never named by the settings, and one that loads changes nothing
/// else in them.
pub proof fn law_a_model_is_loaded_before_it_is_named(
    loaded: Option<Seq<char>>,
    s: Settings,
    id: Seq<char>,
    event: SwitchEvent,
    action: SwitchAction,
)
    requires
        switches(loaded, s, id, event, action),
    ensures
        event matches SwitchEvent::Loaded(Err(_)) ==> action is Refuse,
        event is Asked && loaded != Some(id) ==> action is Load,
        action matches SwitchAction::Store(n) ==> n@ == with_model(s@, id),
        action matches SwitchAction::Adopt(n) ==> n@ == with_model(s@, id),
{
}

proof fn lemma_given_contains(
    front: Seq<FollowupView>,
    condition: bool,
    f: FollowupView,
    x: FollowupView,
)
    ensures
        (front + given(condition, f)).contains(x) <==> front.contains(x) || (condition && x == f),
        (front + given(condition, f)).len() == front.len() + (if condition {
            1int
        } else {
            0
        }),
{
    let all = front + given(condition, f);
    if front.contains(x) {
        let k = choose|k: int| 0 <= k < front.len() && front[k] == x;
        assert(all[k] == x);
    }
    if condition {
        assert(all[front.len() as int] == f);
    }
    if all.contains(x) {
        let k = choose|k: int| 0 <= k < all.len() && all[k] == x;
        if k < front.len() {
            assert(front[k] == x);
        }
    }
}

/// What follows from a change of settings is what is listed for each of them.
proof fn lemma_what_follows(a: Settings, b: Settings, x: FollowupView)
    ensures
        follows(a, b).contains(x) <==> {
            ||| a.shortcut@ != b.shortcut@ && x == FollowupView::Rebind(b.shortcut@)
            ||| a.hud_position != b.hud_position && x == FollowupView::MoveHud(b.hud_position)
            ||| a.input_device@ != b.input_device@ && x == FollowupView::SwapDevice(b.input_device@)
            ||| a.menubar_click_records != b.menubar_click_records && x
                == FollowupView::MenuOnLeftClick(!b.menubar_click_records)
            ||| a.show_in_dock != b.show_in_dock && x == FollowupView::ApplyPolicy
            ||| (a.shortcut@ != b.shortcut@ || a.input_device@ != b.input_device@) && x
                == FollowupView::RefreshTray(b.shortcut@)
        },
        follows(a, b).len() == (if a.shortcut@ != b.shortcut@ {
            1int
        } else {
            0
        }) + (if a.hud_position != b.hud_position {
            1int
        } else {
            0
        }) + (if a.input_device@ != b.input_device@ {
            1int
        } else {
            0
        }) + (if a.menubar_click_records != b.menubar_click_records {
            1int
        } else {
            0
        }) + (if a.show_in_dock != b.show_in_dock {
            1int
        } else {
            0
        }) + (if a.shortcut@ != b.shortcut@ || a.input_device@ != b.input_device@ {
            1int
        } else {
            0
        }),
{
    let shortcut = a.shortcut@ != b.shortcut@;
    let device = a.input_device@ != b.input_device@;
    let none = Seq::<FollowupView>::empty();
    let x1 = FollowupView::Rebind(b.shortcut@);
    let x2 = FollowupView::MoveHud(b.hud_position);
    let x3 = FollowupView::SwapDevice(b.input_device@);
    let x4 = FollowupView::MenuOnLeftClick(!b.menubar_click_records);
    let x5 = FollowupView::ApplyPolicy;
    let x6 = FollowupView::RefreshTray(b.shortcut@);
    let f1 = given(shortcut, x1);
    let f2 = f1 + given(a.hud_position != b.hud_position, x2);
    let f3 = f2 + given(device, x3);
    let f4 = f3 + given(a.menubar_click_records != b.menubar_click_records, x4);
    let f5 = f4 + given(a.show_in_dock != b.show_in_dock, x5);
    assert(none + f1 =~= f1);
    lemma_given_contains(none, shortcut, x1, x);
    lemma_given_contains(f1, a.hud_position != b.hud_position, x2, x);
    lemma_given_contains(f2, device, x3, x);
    lemma_given_contains(f3, a.menubar_click_records != b.menubar_click_records, x4, x);
    lemma_given_contains(f4, a.show_in_dock != b.show_in_dock, x5, x);
    lemma_given_contains(f5, shortcut || device, x6, x);
}

/// What follows from a change of settings: the shortcut is bound anew, the HUD moved, the microphone
/// swapped, the left click given its meaning and the Dock icon set, each if and only if its setting
/// changed, with the new value; the tray is refreshed where it shows something new. Each once.
pub proof fn law_each_change_has_its_followup(a: Settings, b: Settings)
    ensures
        follows(a, b).contains(FollowupView::Rebind(b.shortcut@)) <==> a.shortcut@ != b.shortcut@,
        follows(a, b).contains(FollowupView::MoveHud(b.hud_position)) <==> a.hud_position
            != b.hud_position,
        follows(a, b).contains(FollowupView::SwapDevice(b.input_device@)) <==> a.input_device@
            != b.input_device@,
        follows(a, b).contains(FollowupView::MenuOnLeftClick(!b.menubar_click_records))
            <==> a.menubar_click_records != b.menubar_click_records,
        follows(a, b).contains(FollowupView::ApplyPolicy) <==> a.show_in_dock != b.show_in_dock,
        follows(a, b).len() == (if a.shortcut@ != b.shortcut@ {
            1int
        } else {
            0
        }) + (if a.hud_position != b.hud_position {
            1int
        } else {
            0
        }) + (if a.input_device@ != b.input_device@ {
            1int
        } else {
            0
        }) + (if a.menubar_click_records != b.menubar_click_records {
            1int
        } else {
            0
        }) + (if a.show_in_dock != b.show_in_dock {
            1int
        } else {
            0
        }) + (if a.shortcut@ != b.shortcut@ || a.input_device@ != b.input_device@ {
            1int
        } else {
            0
        }),
{
    lemma_what_follows(a, b, FollowupView::Rebind(b.shortcut@));
    lemma_what_follows(a, b, FollowupView::MoveHud(b.hud_position));
    lemma_what_follows(a, b, FollowupView::SwapDevice(b.input_device@));
    lemma_what_follows(a, b, FollowupView::MenuOnLeftClick(!b.menubar_click_records));
    lemma_what_follows(a, b, FollowupView::ApplyPolicy);
}

/// Settings that were stored are adopted, once launching at login is as they have it; any failure is
/// told, and that of launching at login with what it was.
pub proof fn law_when_settings_are_adopted(a: Settings, b: Settings, event: SaveEvent, action: SaveAction)
    requires
        saves(a, b, event, action),
    ensures
        event matches SaveEvent::Stored(Ok(_)) ==> {
            &&& a.launch_at_login != b.launch_at_login ==> action == SaveAction::SetLaunch(
                b.launch_at_login,
            )
            &&& a.launch_at_login == b.launch_at_login ==> (action matches SaveAction::Adopt(v)
                && views(v@) == follows(a, b))
        },
        event matches SaveEvent::LaunchSet(Ok(_)) ==> (action matches SaveAction::Adopt(v) && views(
            v@,
        ) == follows(a, b)),
        event matches SaveEvent::Stored(Err(e)) ==> (action matches SaveAction::Refuse(t) && t@ == e@),
        event matches SaveEvent::LaunchSet(Err(e)) ==> (action matches SaveAction::Refuse(t) && t@
            == "could not change launch-at-login: "@ + e@),
{
}

/// A model is stored once it is loaded and adopted once it is stored; nothing but the model changes,
/// and a model that is loaded already is not loaded again.
pub proof fn law_a_switch_changes_the_model_alone(
    loaded: Option<Seq<char>>,
    s: Settings,
    id: Seq<char>,
    event: SwitchEvent,
    action: SwitchAction,
)
    requires
        switches(loaded, s, id, event, action),
    ensures
        with_model(s@, id).model == id,
        with_model(with_model(s@, id), s@.model) == s@,
        event is Asked && loaded == Some(id) ==> action is Store,
        event matches SwitchEvent::Loaded(Ok(_)) ==> action is Store,
        event matches SwitchEvent::Stored(Ok(_)) ==> action is Adopt,
        event matches SwitchEvent::Loaded(Err(e)) ==> (action matches SwitchAction::Refuse(t) && t@
            == e@),
        event matches SwitchEvent::Stored(Err(e)) ==> (action matches SwitchAction::Refuse(t) && t@
            == e@),
{
}

/// Only web addresses are opened: what begins with `https://` or `http://`.
pub proof fn law_only_web_addresses_are_opened(url: Seq<char>, rest: Seq<char>)
    ensures
        is_web(seq!['h', 't', 't', 'p', 's', ':', '/', '/'] + rest),
        is_web(seq!['h', 't', 't', 'p', ':', '/', '/'] + rest),
        is_web(url) ==> (url.len() >= 8 && url.take(8) == seq!['h', 't', 't', 'p', 's', ':', '/', '/'])
            || (url.len() >= 7 && url.take(7) == seq!['h', 't', 't', 'p', ':', '/', '/']),
{
    reveal_strlit("https://");
    reveal_strlit("http://");
    let secure = seq!['h', 't', 't', 'p', 's', ':', '/', '/'];
    let plain = seq!['h', 't', 't', 'p', ':', '/', '/'];
    assert("https://"@ =~= secure);
    assert("http://"@ =~= plain);
    assert((secure + rest).take(8) =~= secure);
    assert((plain + rest).take(7) =~= plain);
}

/// Every file counts: the bytes of some files and some more are those of the first and of the others.
pub proof fn law_every_file_counts(a: Seq<u64>, b: Seq<u64>, n: u64)
    ensures
        total(a + b) == total(a) + total(b),
        total(seq![n]) == n,
        total(Seq::<u64>::empty()) == 0,
    decreases b.len(),
{
    assert(seq![n].drop_last() =~= Seq::<u64>::empty());
    assert(total(seq![n]) == total(Seq::<u64>::empty()) + n);
    if b.len() == 0 {
        assert(a + b =~= a);
    } else {
        law_every_file_counts(a, b.drop_last(), n);
        assert((a + b).drop_last() =~= a + b.drop_last());
        assert((a + b).last() == b.last());
    }
}

/// The log stands in the application's own directory, and a model is shown by its name where it has
/// one.
pub proof fn law_what_is_told_about_the_application(home: Seq<char>, id: Seq<char>)
    requires
        home.len() > 0,
        home.last() != '/',
    ensures
        log_file(home) == home + "/Library/Application Support/whisper-lite/whisper-lite.log"@,
        models::model(id) matches Some(m) ==> shown_model(id) == m.name@,
        models::model(id) is None ==> shown_model(id) == id,
{
    settings::law_everything_is_kept_below_home(home);
    reveal_strlit("/Library/Application Support/whisper-lite");
    reveal_strlit("/Library/Application Support/whisper-lite/whisper-lite.log");
    reveal_strlit("whisper-lite.log");
    assert(log_file(home) =~= home + "/Library/Application Support/whisper-lite/whisper-lite.log"@);
}

/// A list of followups is each of them, in its place.
pub proof fn law_each_followup_is_in_its_place(v: Seq<Followup>, i: int)
    ensures
        views(v).len() == v.len(),
        0 <= i < v.len() ==> views(v)[i] == v[i]@,
{
}

} // verus!
