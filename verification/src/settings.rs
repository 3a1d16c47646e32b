//! User settings.
//!
//! Every key of the settings file may be missing, so that an older file still loads after new
//! keys were added, and an unreadable file falls back to the defaults rather than refusing to
//! start.
//!
//! The rule: if a reasonable person could want it different, it is a setting.

use vstd::prelude::*;

use crate::chars::same_str;
use crate::paths;
use crate::paths::join;
use crate::words;

verus! {

#[derive(Debug, Clone, Copy, PartialEq, Eq, Structural)]
pub enum Activation {
    /// Hold the key, speak, release to insert.
    Hold,
    /// Tap to start, tap again to stop.
    Toggle,
    /// Under the tap threshold toggles; over it behaves as hold-to-talk.
    Both,
}

/// Nine anchors, or no indicator at all.
#[derive(Debug, Clone, Copy, PartialEq, Eq, Structural)]
pub enum HudPosition {
    TopLeft,
    TopCenter,
    TopRight,
    MiddleLeft,
    Center,
    MiddleRight,
    BottomLeft,
    BottomCenter,
    BottomRight,
    Hidden,
}

#[derive(Debug, Clone, Copy, PartialEq, Eq, Structural)]
pub enum Theme {
    System,
    Light,
    Dark,
}


impl Default for Activation {
    fn default() -> (v: Self)
        ensures
            v == Activation::Hold,
    {
        Activation::Hold
    }
}

impl Activation {
    /// The name in the settings file.
    pub open spec fn named(self) -> Seq<char> {
        match self {
            Activation::Hold => "hold"@,
            Activation::Toggle => "toggle"@,
            Activation::Both => "both"@,
        }
    }

    /// The name in the settings file.
    pub fn name(self) -> (s: &'static str)
        ensures
            s@ == self.named(),
    {
        match self {
            Activation::Hold => "hold",
            Activation::Toggle => "toggle",
            Activation::Both => "both",
        }
    }

    /// No two have the same name.
    pub proof fn law_names_differ(a: Self, b: Self)
        ensures
            a.named() == b.named() ==> a == b,
    {
        reveal_strlit("hold");
        reveal_strlit("toggle");
        reveal_strlit("both");
        assert("hold"@[0] != "both"@[0]);
        assert("hold"@.len() == 4);
        assert("toggle"@.len() == 6);
        assert("both"@.len() == 4);
    }

    /// What a name in the settings file means: `None` for any other text.
    pub fn parse(name: &str) -> (v: Option<Self>)
        ensures
            match v {
                Some(v) => v.named() == name@,
                None => forall|x: Self| #[trigger] x.named() != name@,
            },
    {
        if same_str(name, "hold") {
            return Some(Activation::Hold);
        }
        if same_str(name, "toggle") {
            return Some(Activation::Toggle);
        }
        if same_str(name, "both") {
            return Some(Activation::Both);
        }
        None
    }
}


impl Default for HudPosition {
    fn default() -> (v: Self)
        ensures
            v == HudPosition::BottomRight,
    {
        HudPosition::BottomRight
    }
}

impl HudPosition {
    /// The name in the settings file.
    pub open spec fn named(self) -> Seq<char> {
        match self {
            HudPosition::TopLeft => "top-left"@,
            HudPosition::TopCenter => "top-center"@,
            HudPosition::TopRight => "top-right"@,
            HudPosition::MiddleLeft => "middle-left"@,
            HudPosition::Center => "center"@,
            HudPosition::MiddleRight => "middle-right"@,
            HudPosition::BottomLeft => "bottom-left"@,
            HudPosition::BottomCenter => "bottom-center"@,
            HudPosition::BottomRight => "bottom-right"@,
            HudPosition::Hidden => "hidden"@,
        }
    }

    /// The name in the settings file.
    pub fn name(self) -> (s: &'static str)
        ensures
            s@ == self.named(),
    {
        match self {
            HudPosition::TopLeft => "top-left",
            HudPosition::TopCenter => "top-center",
            HudPosition::TopRight => "top-right",
            HudPosition::MiddleLeft => "middle-left",
            HudPosition::Center => "center",
            HudPosition::MiddleRight => "middle-right",
            HudPosition::BottomLeft => "bottom-left",
            HudPosition::BottomCenter => "bottom-center",
            HudPosition::BottomRight => "bottom-right",
            HudPosition::Hidden => "hidden",
        }
    }

    /// No two have the same name.
    pub proof fn law_names_differ(a: Self, b: Self)
        ensures
            a.named() == b.named() ==> a == b,
    {
        reveal_strlit("top-left");
        reveal_strlit("top-center");
        reveal_strlit("top-right");
        reveal_strlit("middle-left");
        reveal_strlit("center");
        reveal_strlit("middle-right");
        reveal_strlit("bottom-left");
        reveal_strlit("bottom-center");
        reveal_strlit("bottom-right");
        reveal_strlit("hidden");
        assert("middle-left"@[0] != "bottom-left"@[0]);
        assert("center"@[0] != "hidden"@[0]);
        assert("middle-right"@[0] != "bottom-right"@[0]);
        assert("top-left"@.len() == 8);
        assert("top-center"@.len() == 10);
        assert("top-right"@.len() == 9);
        assert("middle-left"@.len() == 11);
        assert("center"@.len() == 6);
        assert("middle-right"@.len() == 12);
        assert("bottom-left"@.len() == 11);
        assert("bottom-center"@.len() == 13);
        assert("bottom-right"@.len() == 12);
        assert("hidden"@.len() == 6);
    }

    /// What a name in the settings file means: `None` for any other text.
    pub fn parse(name: &str) -> (v: Option<Self>)
        ensures
            match v {
                Some(v) => v.named() == name@,
                None => forall|x: Self| #[trigger] x.named() != name@,
            },
    {
        if same_str(name, "top-left") {
            return Some(HudPosition::TopLeft);
        }
        if same_str(name, "top-center") {
            return Some(HudPosition::TopCenter);
        }
        if same_str(name, "top-right") {
            return Some(HudPosition::TopRight);
        }
        if same_str(name, "middle-left") {
            return Some(HudPosition::MiddleLeft);
        }
        if same_str(name, "center") {
            return Some(HudPosition::Center);
        }
        if same_str(name, "middle-right") {
            return Some(HudPosition::MiddleRight);
        }
        if same_str(name, "bottom-left") {
            return Some(HudPosition::BottomLeft);
        }
        if same_str(name, "bottom-center") {
            return Some(HudPosition::BottomCenter);
        }
        if same_str(name, "bottom-right") {
            return Some(HudPosition::BottomRight);
        }
        if same_str(name, "hidden") {
            return Some(HudPosition::Hidden);
        }
        None
    }
}


impl Default for Theme {
    fn default() -> (v: Self)
        ensures
            v == Theme::System,
    {
        Theme::System
    }
}

impl Theme {
    /// The name in the settings file.
    pub open spec fn named(self) -> Seq<char> {
        match self {
            Theme::System => "system"@,
            Theme::Light => "light"@,
            Theme::Dark => "dark"@,
        }
    }

    /// The name in the settings file.
    pub fn name(self) -> (s: &'static str)
        ensures
            s@ == self.named(),
    {
        match self {
            Theme::System => "system",
            Theme::Light => "light",
            Theme::Dark => "dark",
        }
    }

    /// No two have the same name.
    pub proof fn law_names_differ(a: Self, b: Self)
        ensures
            a.named() == b.named() ==> a == b,
    {
        reveal_strlit("system");
        reveal_strlit("light");
        reveal_strlit("dark");
        assert("system"@.len() == 6);
        assert("light"@.len() == 5);
        assert("dark"@.len() == 4);
    }

    /// What a name in the settings file means: `None` for any other text.
    pub fn parse(name: &str) -> (v: Option<Self>)
        ensures
            match v {
                Some(v) => v.named() == name@,
                None => forall|x: Self| #[trigger] x.named() != name@,
            },
    {
        if same_str(name, "system") {
            return Some(Theme::System);
        }
        if same_str(name, "light") {
            return Some(Theme::Light);
        }
        if same_str(name, "dark") {
            return Some(Theme::Dark);
        }
        None
    }
}

/// A spoken shorthand and what it expands to.
#[derive(Debug, Clone)]
pub struct Snippet {
    pub trigger: String,
    pub replacement: String,
}

/// What a snippet holds.
pub struct SnippetView {
    pub trigger: Seq<char>,
    pub replacement: Seq<char>,
}

impl View for Snippet {
    type V = SnippetView;

    open spec fn view(&self) -> SnippetView {
        SnippetView { trigger: self.trigger@, replacement: self.replacement@ }
    }
}

/// What a list of snippets holds.
pub open spec fn snippet_views(v: Seq<Snippet>) -> Seq<SnippetView> {
    Seq::new(v.len(), |i: int| v[i]@)
}

#[derive(Debug, Clone)]
pub struct Settings {
    /// Accelerator, such as `Ctrl+Shift+Space`, or the name of a single key.
    ///
    /// The default avoids `Cmd+Option+Space`, which macOS already binds to Finder search.
    pub shortcut: String,
    pub activation: Activation,
    /// Milliseconds below which a press counts as a tap rather than a hold, in `Both` mode.
    pub tap_threshold_ms: u64,
    pub remove_fillers: bool,
    pub language: String,
    pub hud_position: HudPosition,
    pub theme: Theme,
    pub play_sounds: bool,
    pub launch_at_login: bool,
    /// Registry id of the active model.
    pub model: String,
    /// Beam search instead of greedy decoding: slower, and better on long or accented speech.
    pub accurate: bool,
    /// Words that must always come out right: names, tools, acronyms.
    pub dictionary: Vec<String>,
    /// Spoken trigger phrases replaced with longer text after transcription.
    pub snippets: Vec<Snippet>,
    /// System sound played when recording starts. Empty means silent.
    pub sound_start: String,
    /// System sound played when recording stops. Empty means silent.
    pub sound_stop: String,
    /// Name of the device to record from. Empty means the system default.
    pub input_device: String,
    /// Capitalises the first letter of the insert and of each new sentence.
    pub autocapitalize: bool,
    /// Show a Dock icon as well as the menu-bar item.
    pub show_in_dock: bool,
    /// Left-clicking the menu-bar icon starts or stops dictation instead of opening the menu.
    pub menubar_click_records: bool,
    pub history_enabled: bool,
    /// Days to keep transcripts. Zero keeps them until the count cap is hit.
    pub history_days: u32,
}

/// What the settings hold.
pub struct SettingsView {
    pub shortcut: Seq<char>,
    pub activation: Activation,
    pub tap_threshold_ms: u64,
    pub remove_fillers: bool,
    pub language: Seq<char>,
    pub hud_position: HudPosition,
    pub theme: Theme,
    pub play_sounds: bool,
    pub launch_at_login: bool,
    pub model: Seq<char>,
    pub accurate: bool,
    pub dictionary: Seq<Seq<char>>,
    pub snippets: Seq<SnippetView>,
    pub sound_start: Seq<char>,
    pub sound_stop: Seq<char>,
    pub input_device: Seq<char>,
    pub autocapitalize: bool,
    pub show_in_dock: bool,
    pub menubar_click_records: bool,
    pub history_enabled: bool,
    pub history_days: u32,
}

impl View for Settings {
    type V = SettingsView;

    open spec fn view(&self) -> SettingsView {
        SettingsView {
            shortcut: self.shortcut@,
            activation: self.activation,
            tap_threshold_ms: self.tap_threshold_ms,
            remove_fillers: self.remove_fillers,
            language: self.language@,
            hud_position: self.hud_position,
            theme: self.theme,
            play_sounds: self.play_sounds,
            launch_at_login: self.launch_at_login,
            model: self.model@,
            accurate: self.accurate,
            dictionary: words::strings(self.dictionary@),
            snippets: snippet_views(self.snippets@),
            sound_start: self.sound_start@,
            sound_stop: self.sound_stop@,
            input_device: self.input_device@,
            autocapitalize: self.autocapitalize,
            show_in_dock: self.show_in_dock,
            menubar_click_records: self.menubar_click_records,
            history_enabled: self.history_enabled,
            history_days: self.history_days,
        }
    }
}

/// The settings of a fresh install.
pub open spec fn defaults() -> SettingsView {
    SettingsView {
        shortcut: "Ctrl+Shift+Space"@,
        activation: Activation::Hold,
        tap_threshold_ms: 200,
        remove_fillers: true,
        language: "en"@,
        hud_position: HudPosition::BottomRight,
        theme: Theme::System,
        play_sounds: true,
        launch_at_login: false,
        model: "base"@,
        accurate: true,
        dictionary: seq![],
        snippets: seq![],
        sound_start: "Tink"@,
        sound_stop: "Purr"@,
        input_device: ""@,
        autocapitalize: true,
        show_in_dock: false,
        menubar_click_records: false,
        history_enabled: true,
        history_days: 30,
    }
}

impl Default for Settings {
    fn default() -> (s: Self)
        ensures
            s@ == defaults(),
    {
        let s: Settings = Settings {
            shortcut: "Ctrl+Shift+Space".to_owned(),
            activation: Activation::Hold,
            tap_threshold_ms: 200,
            remove_fillers: true,
            language: "en".to_owned(),
            hud_position: HudPosition::BottomRight,
            theme: Theme::System,
            play_sounds: true,
            launch_at_login: false,
            model: "base".to_owned(),
            accurate: true,
            dictionary: Vec::new(),
            snippets: Vec::new(),
            sound_start: "Tink".to_owned(),
            sound_stop: "Purr".to_owned(),
            input_device: String::new(),
            autocapitalize: true,
            show_in_dock: false,
            menubar_click_records: false,
            history_enabled: true,
            history_days: 30,
        };
        proof {
            reveal_strlit("");
            assert(words::strings(s.dictionary@) =~= seq![]);
            assert(snippet_views(s.snippets@) =~= seq![]);
            assert(s.input_device@ =~= ""@);
        }
        s
    }
}

/// The keys that a settings file holds, each of which may be missing. The three choices stand
/// as their names.
#[derive(Debug, Clone)]
pub struct StoredSettings {
    pub shortcut: Option<String>,
    pub activation: Option<String>,
    pub tap_threshold_ms: Option<u64>,
    pub remove_fillers: Option<bool>,
    pub language: Option<String>,
    pub hud_position: Option<String>,
    pub theme: Option<String>,
    pub play_sounds: Option<bool>,
    pub launch_at_login: Option<bool>,
    pub model: Option<String>,
    pub accurate: Option<bool>,
    pub dictionary: Option<Vec<String>>,
    pub snippets: Option<Vec<Snippet>>,
    pub sound_start: Option<String>,
    pub sound_stop: Option<String>,
    pub input_device: Option<String>,
    pub autocapitalize: Option<bool>,
    pub show_in_dock: Option<bool>,
    pub menubar_click_records: Option<bool>,
    pub history_enabled: Option<bool>,
    pub history_days: Option<u32>,
}

/// What a settings file holds.
pub struct StoredView {
    pub shortcut: Option<Seq<char>>,
    pub activation: Option<Seq<char>>,
    pub tap_threshold_ms: Option<u64>,
    pub remove_fillers: Option<bool>,
    pub language: Option<Seq<char>>,
    pub hud_position: Option<Seq<char>>,
    pub theme: Option<Seq<char>>,
    pub play_sounds: Option<bool>,
    pub launch_at_login: Option<bool>,
    pub model: Option<Seq<char>>,
    pub accurate: Option<bool>,
    pub dictionary: Option<Seq<Seq<char>>>,
    pub snippets: Option<Seq<SnippetView>>,
    pub sound_start: Option<Seq<char>>,
    pub sound_stop: Option<Seq<char>>,
    pub input_device: Option<Seq<char>>,
    pub autocapitalize: Option<bool>,
    pub show_in_dock: Option<bool>,
    pub menubar_click_records: Option<bool>,
    pub history_enabled: Option<bool>,
    pub history_days: Option<u32>,
}

/// What an optional text holds.
pub open spec fn text_view(t: Option<String>) -> Option<Seq<char>> {
    match t {
        Some(s) => Some(s@),
        None => None,
    }
}

impl View for StoredSettings {
    type V = StoredView;

    open spec fn view(&self) -> StoredView {
        StoredView {
            shortcut: text_view(self.shortcut),
            activation: text_view(self.activation),
            tap_threshold_ms: self.tap_threshold_ms,
            remove_fillers: self.remove_fillers,
            language: text_view(self.language),
            hud_position: text_view(self.hud_position),
            theme: text_view(self.theme),
            play_sounds: self.play_sounds,
            launch_at_login: self.launch_at_login,
            model: text_view(self.model),
            accurate: self.accurate,
            dictionary: match self.dictionary {
                Some(v) => Some(words::strings(v@)),
                None => None,
            },
            snippets: match self.snippets {
                Some(v) => Some(snippet_views(v@)),
                None => None,
            },
            sound_start: text_view(self.sound_start),
            sound_stop: text_view(self.sound_stop),
            input_device: text_view(self.input_device),
            autocapitalize: self.autocapitalize,
            show_in_dock: self.show_in_dock,
            menubar_click_records: self.menubar_click_records,
            history_enabled: self.history_enabled,
            history_days: self.history_days,
        }
    }
}

/// A settings file without any key.
pub open spec fn nothing_stored() -> StoredView {
    StoredView {
        shortcut: None,
        activation: None,
        tap_threshold_ms: None,
        remove_fillers: None,
        language: None,
        hud_position: None,
        theme: None,
        play_sounds: None,
        launch_at_login: None,
        model: None,
        accurate: None,
        dictionary: None,
        snippets: None,
        sound_start: None,
        sound_stop: None,
        input_device: None,
        autocapitalize: None,
        show_in_dock: None,
        menubar_click_records: None,
        history_enabled: None,
        history_days: None,
    }
}

/// A present value, or the default.
pub open spec fn present_or<T>(stored: Option<T>, default: T) -> T {
    match stored {
        Some(v) => v,
        None => default,
    }
}

/// Whether a present name is one of the names of `Activation`; likewise below.
pub open spec fn activation_known(name: Option<Seq<char>>) -> bool {
    name matches Some(n) ==> exists|x: Activation| #[trigger] x.named() == n
}

pub open spec fn hud_position_known(name: Option<Seq<char>>) -> bool {
    name matches Some(n) ==> exists|x: HudPosition| #[trigger] x.named() == n
}

pub open spec fn theme_known(name: Option<Seq<char>>) -> bool {
    name matches Some(n) ==> exists|x: Theme| #[trigger] x.named() == n
}

/// A file is readable when each choice it names is one that exists.
pub open spec fn readable(stored: StoredView) -> bool {
    &&& activation_known(stored.activation)
    &&& hud_position_known(stored.hud_position)
    &&& theme_known(stored.theme)
}

/// What a readable file means: its keys, and the defaults for the keys it lacks.
pub open spec fn filled(stored: StoredView) -> SettingsView {
    SettingsView {
        shortcut: present_or(stored.shortcut, defaults().shortcut),
        activation: match stored.activation {
            Some(n) => choose|x: Activation| #[trigger] x.named() == n,
            None => defaults().activation,
        },
        tap_threshold_ms: present_or(stored.tap_threshold_ms, defaults().tap_threshold_ms),
        remove_fillers: present_or(stored.remove_fillers, defaults().remove_fillers),
        language: present_or(stored.language, defaults().language),
        hud_position: match stored.hud_position {
            Some(n) => choose|x: HudPosition| #[trigger] x.named() == n,
            None => defaults().hud_position,
        },
        theme: match stored.theme {
            Some(n) => choose|x: Theme| #[trigger] x.named() == n,
            None => defaults().theme,
        },
        play_sounds: present_or(stored.play_sounds, defaults().play_sounds),
        launch_at_login: present_or(stored.launch_at_login, defaults().launch_at_login),
        model: present_or(stored.model, defaults().model),
        accurate: present_or(stored.accurate, defaults().accurate),
        dictionary: present_or(stored.dictionary, defaults().dictionary),
        snippets: present_or(stored.snippets, defaults().snippets),
        sound_start: present_or(stored.sound_start, defaults().sound_start),
        sound_stop: present_or(stored.sound_stop, defaults().sound_stop),
        input_device: present_or(stored.input_device, defaults().input_device),
        autocapitalize: present_or(stored.autocapitalize, defaults().autocapitalize),
        show_in_dock: present_or(stored.show_in_dock, defaults().show_in_dock),
        menubar_click_records: present_or(stored.menubar_click_records, defaults().menubar_click_records),
        history_enabled: present_or(stored.history_enabled, defaults().history_enabled),
        history_days: present_or(stored.history_days, defaults().history_days),
    }
}

/// The file that settings are written to: every key is present.
pub open spec fn written(s: SettingsView) -> StoredView {
    StoredView {
        shortcut: Some(s.shortcut),
        activation: Some(s.activation.named()),
        tap_threshold_ms: Some(s.tap_threshold_ms),
        remove_fillers: Some(s.remove_fillers),
        language: Some(s.language),
        hud_position: Some(s.hud_position.named()),
        theme: Some(s.theme.named()),
        play_sounds: Some(s.play_sounds),
        launch_at_login: Some(s.launch_at_login),
        model: Some(s.model),
        accurate: Some(s.accurate),
        dictionary: Some(s.dictionary),
        snippets: Some(s.snippets),
        sound_start: Some(s.sound_start),
        sound_stop: Some(s.sound_stop),
        input_device: Some(s.input_device),
        autocapitalize: Some(s.autocapitalize),
        show_in_dock: Some(s.show_in_dock),
        menubar_click_records: Some(s.menubar_click_records),
        history_enabled: Some(s.history_enabled),
        history_days: Some(s.history_days),
    }
}

fn text_or(stored: Option<String>, default: String) -> (s: String)
    ensures
        s@ == present_or(text_view(stored), default@),
{
    match stored {
        Some(s) => s,
        None => default,
    }
}

fn value_or<T>(stored: Option<T>, default: T) -> (v: T)
    ensures
        v == present_or(stored, default),
{
    match stored {
        Some(v) => v,
        None => default,
    }
}

impl Settings {
    /// The settings that the keys of a file mean, or `None` where it names a choice that does
    /// not exist.
    pub fn from_stored(stored: StoredSettings) -> (s: Option<Settings>)
        ensures
            s is Some <==> readable(stored@),
            s matches Some(s) ==> s@ == filled(stored@),
    {
        let base: Settings = Settings::default();
        let activation: Activation = match stored.activation {
            Some(name) => match Activation::parse(name.as_str()) {
                Some(v) => {
                    proof {
                        assert forall|x: Activation| #[trigger] x.named() == name@ implies x == v by {
                            Activation::law_names_differ(x, v);
                        }
                    }
                    v
                },
                None => return None,
            },
            None => base.activation,
        };
        let hud_position: HudPosition = match stored.hud_position {
            Some(name) => match HudPosition::parse(name.as_str()) {
                Some(v) => {
                    proof {
                        assert forall|x: HudPosition| #[trigger] x.named() == name@ implies x == v by {
                            HudPosition::law_names_differ(x, v);
                        }
                    }
                    v
                },
                None => return None,
            },
            None => base.hud_position,
        };
        let theme: Theme = match stored.theme {
            Some(name) => match Theme::parse(name.as_str()) {
                Some(v) => {
                    proof {
                        assert forall|x: Theme| #[trigger] x.named() == name@ implies x == v by {
                            Theme::law_names_differ(x, v);
                        }
                    }
                    v
                },
                None => return None,
            },
            None => base.theme,
        };
        let s: Settings = Settings {
            shortcut: text_or(stored.shortcut, base.shortcut),
            activation,
            tap_threshold_ms: value_or(stored.tap_threshold_ms, base.tap_threshold_ms),
            remove_fillers: value_or(stored.remove_fillers, base.remove_fillers),
            language: text_or(stored.language, base.language),
            hud_position,
            theme,
            play_sounds: value_or(stored.play_sounds, base.play_sounds),
            launch_at_login: value_or(stored.launch_at_login, base.launch_at_login),
            model: text_or(stored.model, base.model),
            accurate: value_or(stored.accurate, base.accurate),
            dictionary: value_or(stored.dictionary, base.dictionary),
            snippets: value_or(stored.snippets, base.snippets),
            sound_start: text_or(stored.sound_start, base.sound_start),
            sound_stop: text_or(stored.sound_stop, base.sound_stop),
            input_device: text_or(stored.input_device, base.input_device),
            autocapitalize: value_or(stored.autocapitalize, base.autocapitalize),
            show_in_dock: value_or(stored.show_in_dock, base.show_in_dock),
            menubar_click_records: value_or(stored.menubar_click_records, base.menubar_click_records),
            history_enabled: value_or(stored.history_enabled, base.history_enabled),
            history_days: value_or(stored.history_days, base.history_days),
        };
        Some(s)
    }

    /// The settings to start with. `file` is what the settings file holds: the error text where
    /// it could not be read, `None` where there is none.
    ///
    /// A bad file never refuses the start: losing dictation is worse than losing preferences.
    pub fn load(file: Result<Option<StoredSettings>, String>) -> (s: Settings)
        ensures
            s@ == (match file {
                Ok(Some(stored)) => if readable(stored@) {
                    filled(stored@)
                } else {
                    defaults()
                },
                _ => defaults(),
            }),
    {
        match file {
            Ok(Some(stored)) => match Settings::from_stored(stored) {
                Some(s) => s,
                None => Settings::default(),
            },
            _ => Settings::default(),
        }
    }

    /// The keys to write to the settings file: all of them.
    pub fn save(&self) -> (stored: StoredSettings)
        ensures
            stored@ == written(self@),
    {
        StoredSettings {
            shortcut: Some(self.shortcut.clone()),
            activation: Some(self.activation.name().to_owned()),
            tap_threshold_ms: Some(self.tap_threshold_ms),
            remove_fillers: Some(self.remove_fillers),
            language: Some(self.language.clone()),
            hud_position: Some(self.hud_position.name().to_owned()),
            theme: Some(self.theme.name().to_owned()),
            play_sounds: Some(self.play_sounds),
            launch_at_login: Some(self.launch_at_login),
            model: Some(self.model.clone()),
            accurate: Some(self.accurate),
            dictionary: Some(copy_texts(&self.dictionary)),
            snippets: Some(copy_snippets(&self.snippets)),
            sound_start: Some(self.sound_start.clone()),
            sound_stop: Some(self.sound_stop.clone()),
            input_device: Some(self.input_device.clone()),
            autocapitalize: Some(self.autocapitalize),
            show_in_dock: Some(self.show_in_dock),
            menubar_click_records: Some(self.menubar_click_records),
            history_enabled: Some(self.history_enabled),
            history_days: Some(self.history_days),
        }
    }

    /// A copy that holds the same.
    pub fn copy(&self) -> (s: Settings)
        ensures
            s@ == self@,
    {
        Settings {
            shortcut: self.shortcut.clone(),
            activation: self.activation,
            tap_threshold_ms: self.tap_threshold_ms,
            remove_fillers: self.remove_fillers,
            language: self.language.clone(),
            hud_position: self.hud_position,
            theme: self.theme,
            play_sounds: self.play_sounds,
            launch_at_login: self.launch_at_login,
            model: self.model.clone(),
            accurate: self.accurate,
            dictionary: copy_texts(&self.dictionary),
            snippets: copy_snippets(&self.snippets),
            sound_start: self.sound_start.clone(),
            sound_stop: self.sound_stop.clone(),
            input_device: self.input_device.clone(),
            autocapitalize: self.autocapitalize,
            show_in_dock: self.show_in_dock,
            menubar_click_records: self.menubar_click_records,
            history_enabled: self.history_enabled,
            history_days: self.history_days,
        }
    }
}

fn copy_texts(v: &Vec<String>) -> (out: Vec<String>)
    ensures
        words::strings(out@) == words::strings(v@),
{
    let mut out: Vec<String> = Vec::new();
    let mut i: usize = 0;
    while i < v.len()
        invariant
            i <= v@.len(),
            words::strings(out@) == words::strings(v@.take(i as int)),
        decreases v@.len() - i,
    {
        assert(words::strings(v@.take(i + 1)) == words::strings(v@.take(i as int)).push(v@[i as int]@));
        let ghost before = out@;
        out.push(v[i].clone());
        assert(words::strings(out@) == words::strings(before).push(v@[i as int]@));
        i += 1;
    }
    assert(v@.take(i as int) == v@);
    out
}

fn copy_snippets(v: &Vec<Snippet>) -> (out: Vec<Snippet>)
    ensures
        snippet_views(out@) == snippet_views(v@),
{
    let mut out: Vec<Snippet> = Vec::new();
    let mut i: usize = 0;
    while i < v.len()
        invariant
            i <= v@.len(),
            snippet_views(out@) == snippet_views(v@.take(i as int)),
        decreases v@.len() - i,
    {
        assert(snippet_views(v@.take(i + 1)) == snippet_views(v@.take(i as int)).push(v@[i as int]@));
        let ghost before = out@;
        out.push(Snippet { trigger: v[i].trigger.clone(), replacement: v[i].replacement.clone() });
        assert(snippet_views(out@) == snippet_views(before).push(v@[i as int]@));
        i += 1;
    }
    assert(v@.take(i as int) == v@);
    out
}

/// The app data directory below a home directory.
pub open spec fn data_dir(home: Seq<char>) -> Seq<char> {
    paths::below(home, "Library/Application Support/whisper-lite"@)
}

/// The app data directory below `home`; a missing home directory is the empty text.
pub fn dir(home: &str) -> (path: String)
    ensures
        path@ == data_dir(home@),
{
    join(home, "Library/Application Support/whisper-lite")
}

/// The settings file.
pub fn path(home: &str) -> (path: String)
    ensures
        path@ == paths::below(data_dir(home@), "settings.json"@),
{
    join(dir(home).as_str(), "settings.json")
}

/// What is written comes back: reading the keys that settings were written to gives those
/// settings.
pub proof fn law_settings_round_trip(s: SettingsView)
    ensures
        readable(written(s)),
        filled(written(s)) == s,
{
    let w = written(s);
    assert forall|x: Activation| #[trigger] x.named() == s.activation.named() implies x
        == s.activation by {
        Activation::law_names_differ(x, s.activation);
    }
    assert forall|x: HudPosition| #[trigger] x.named() == s.hud_position.named() implies x
        == s.hud_position by {
        HudPosition::law_names_differ(x, s.hud_position);
    }
    assert forall|x: Theme| #[trigger] x.named() == s.theme.named() implies x == s.theme by {
        Theme::law_names_differ(x, s.theme);
    }
}

/// A file without keys is all defaults.
pub proof fn law_an_empty_file_is_all_defaults()
    ensures
        readable(nothing_stored()),
        filled(nothing_stored()) == defaults(),
{
}

/// A key that is missing has its default, whatever the other keys hold, and a key that is there
/// keeps its value.
pub proof fn law_missing_keys_have_their_defaults(stored: StoredView)
    requires
        readable(stored),
    ensures
        ({
            let s = filled(stored);

            &&& stored.shortcut is None ==> s.shortcut == defaults().shortcut
            &&& stored.shortcut is Some ==> Some(s.shortcut) == stored.shortcut
            &&& stored.activation is None ==> s.activation == defaults().activation
            &&& stored.activation is Some ==> Some(s.activation.named()) == stored.activation
            &&& stored.tap_threshold_ms is None ==> s.tap_threshold_ms == defaults().tap_threshold_ms
            &&& stored.tap_threshold_ms is Some ==> Some(s.tap_threshold_ms) == stored.tap_threshold_ms
            &&& stored.remove_fillers is None ==> s.remove_fillers == defaults().remove_fillers
            &&& stored.remove_fillers is Some ==> Some(s.remove_fillers) == stored.remove_fillers
            &&& stored.language is None ==> s.language == defaults().language
            &&& stored.language is Some ==> Some(s.language) == stored.language
            &&& stored.hud_position is None ==> s.hud_position == defaults().hud_position
            &&& stored.hud_position is Some ==> Some(s.hud_position.named()) == stored.hud_position
            &&& stored.theme is None ==> s.theme == defaults().theme
            &&& stored.theme is Some ==> Some(s.theme.named()) == stored.theme
            &&& stored.play_sounds is None ==> s.play_sounds == defaults().play_sounds
            &&& stored.play_sounds is Some ==> Some(s.play_sounds) == stored.play_sounds
            &&& stored.launch_at_login is None ==> s.launch_at_login == defaults().launch_at_login
            &&& stored.launch_at_login is Some ==> Some(s.launch_at_login) == stored.launch_at_login
            &&& stored.model is None ==> s.model == defaults().model
            &&& stored.model is Some ==> Some(s.model) == stored.model
            &&& stored.accurate is None ==> s.accurate == defaults().accurate
            &&& stored.accurate is Some ==> Some(s.accurate) == stored.accurate
            &&& stored.dictionary is None ==> s.dictionary == defaults().dictionary
            &&& stored.dictionary is Some ==> Some(s.dictionary) == stored.dictionary
            &&& stored.snippets is None ==> s.snippets == defaults().snippets
            &&& stored.snippets is Some ==> Some(s.snippets) == stored.snippets
            &&& stored.sound_start is None ==> s.sound_start == defaults().sound_start
            &&& stored.sound_start is Some ==> Some(s.sound_start) == stored.sound_start
            &&& stored.sound_stop is None ==> s.sound_stop == defaults().sound_stop
            &&& stored.sound_stop is Some ==> Some(s.sound_stop) == stored.sound_stop
            &&& stored.input_device is None ==> s.input_device == defaults().input_device
            &&& stored.input_device is Some ==> Some(s.input_device) == stored.input_device
            &&& stored.autocapitalize is None ==> s.autocapitalize == defaults().autocapitalize
            &&& stored.autocapitalize is Some ==> Some(s.autocapitalize) == stored.autocapitalize
            &&& stored.show_in_dock is None ==> s.show_in_dock == defaults().show_in_dock
            &&& stored.show_in_dock is Some ==> Some(s.show_in_dock) == stored.show_in_dock
            &&& stored.menubar_click_records is None ==> s.menubar_click_records == defaults().menubar_click_records
            &&& stored.menubar_click_records is Some ==> Some(s.menubar_click_records) == stored.menubar_click_records
            &&& stored.history_enabled is None ==> s.history_enabled == defaults().history_enabled
            &&& stored.history_enabled is Some ==> Some(s.history_enabled) == stored.history_enabled
            &&& stored.history_days is None ==> s.history_days == defaults().history_days
            &&& stored.history_days is Some ==> Some(s.history_days) == stored.history_days
        }),
{
}

/// The default shortcut is not the one that macOS binds to Finder search.
pub proof fn law_the_default_shortcut_is_free()
    ensures
        defaults().shortcut != "Cmd+Option+Space"@,
{
    reveal_strlit("Ctrl+Shift+Space");
    reveal_strlit("Cmd+Option+Space");
    assert("Ctrl+Shift+Space"@[1] != "Cmd+Option+Space"@[1]);
}

/// Everything that is kept lives below the home directory, in the application's own directory.
pub proof fn law_everything_is_kept_below_home(home: Seq<char>)
    requires
        home.len() > 0,
        home.last() != '/',
    ensures
        data_dir(home) == home + "/Library/Application Support/whisper-lite"@,
        data_dir(home).len() > 0,
        data_dir(home).last() != '/',
{
    reveal_strlit("Library/Application Support/whisper-lite");
    reveal_strlit("/Library/Application Support/whisper-lite");
    assert(data_dir(home) =~= home + "/Library/Application Support/whisper-lite"@);
}

/// What settings are where nothing was chosen.
pub proof fn law_what_the_defaults_are()
    ensures
        defaults().shortcut == "Ctrl+Shift+Space"@,
        defaults().activation is Hold,
        defaults().tap_threshold_ms == 200,
        defaults().remove_fillers && defaults().autocapitalize && defaults().accurate,
        defaults().language == "en"@,
        defaults().hud_position is BottomRight,
        defaults().theme is System,
        defaults().play_sounds,
        defaults().model == "base"@,
        defaults().dictionary.len() == 0 && defaults().snippets.len() == 0,
        defaults().sound_start == "Tink"@ && defaults().sound_stop == "Purr"@,
        defaults().input_device.len() == 0,
        !defaults().launch_at_login && !defaults().show_in_dock && !defaults().menubar_click_records,
        defaults().history_enabled && defaults().history_days == 30,
{
    reveal_strlit("");
}

/// The words that stand for choices in the settings file.
pub proof fn law_what_choices_are_called()
    ensures
        Activation::Hold.named() == "hold"@ && Activation::Toggle.named() == "toggle"@
            && Activation::Both.named() == "both"@,
        Theme::System.named() == "system"@ && Theme::Light.named() == "light"@
            && Theme::Dark.named() == "dark"@,
        HudPosition::TopLeft.named() == "top-left"@ && HudPosition::TopCenter.named()
            == "top-center"@ && HudPosition::TopRight.named() == "top-right"@,
        HudPosition::MiddleLeft.named() == "middle-left"@ && HudPosition::Center.named()
            == "center"@ && HudPosition::MiddleRight.named() == "middle-right"@,
        HudPosition::BottomLeft.named() == "bottom-left"@ && HudPosition::BottomCenter.named()
            == "bottom-center"@ && HudPosition::BottomRight.named() == "bottom-right"@,
        HudPosition::Hidden.named() == "hidden"@,
{
}

/// A file can be read if and only if the choices that it names are known.
pub proof fn law_which_files_can_be_read(stored: StoredView)
    ensures
        readable(stored) <==> {
            &&& stored.activation matches Some(n) ==> n == "hold"@ || n == "toggle"@ || n == "both"@
            &&& stored.theme matches Some(n) ==> n == "system"@ || n == "light"@ || n == "dark"@
            &&& stored.hud_position matches Some(n) ==> n == "top-left"@ || n == "top-center"@ || n
                == "top-right"@ || n == "middle-left"@ || n == "center"@ || n == "middle-right"@ || n
                == "bottom-left"@ || n == "bottom-center"@ || n == "bottom-right"@ || n == "hidden"@
        },
{
    law_what_choices_are_called();
    assert(Activation::Hold.named() == "hold"@);
    assert(Theme::System.named() == "system"@);
    assert(HudPosition::Center.named() == "center"@);
}

/// The snippets of the settings are each of them, in its place, with both its texts.
pub proof fn law_each_snippet_is_in_its_place(v: Seq<Snippet>, i: int)
    ensures
        snippet_views(v).len() == v.len(),
        0 <= i < v.len() ==> snippet_views(v)[i].trigger == v[i].trigger@ && snippet_views(
            v,
        )[i].replacement == v[i].replacement@,
{
}

/// Every setting is written, as it is.
pub proof fn law_every_setting_is_written(s: SettingsView)
    ensures
        written(s).shortcut == Some(s.shortcut),
        written(s).activation == Some(s.activation.named()),
        written(s).tap_threshold_ms == Some(s.tap_threshold_ms),
        written(s).remove_fillers == Some(s.remove_fillers),
        written(s).language == Some(s.language),
        written(s).hud_position == Some(s.hud_position.named()),
        written(s).theme == Some(s.theme.named()),
        written(s).play_sounds == Some(s.play_sounds),
        written(s).launch_at_login == Some(s.launch_at_login),
        written(s).model == Some(s.model),
        written(s).accurate == Some(s.accurate),
        written(s).dictionary == Some(s.dictionary),
        written(s).snippets == Some(s.snippets),
        written(s).sound_start == Some(s.sound_start),
        written(s).sound_stop == Some(s.sound_stop),
        written(s).input_device == Some(s.input_device),
        written(s).autocapitalize == Some(s.autocapitalize),
        written(s).show_in_dock == Some(s.show_in_dock),
        written(s).menubar_click_records == Some(s.menubar_click_records),
        written(s).history_enabled == Some(s.history_enabled),
        written(s).history_days == Some(s.history_days),
{
}

} // verus!
