//! The tray: its menu, and what choosing from it does.

use vstd::prelude::*;

use crate::chars::{chars_of, same, same_str};
use crate::settings;
use crate::settings::Settings;
use crate::words;

verus! {

/// Prefix of the ids of the microphone items. The rest of the id is the device name, empty for
/// the system default, which is exactly what `Settings::input_device` holds.
pub const MIC_ITEM_PREFIX: &'static str = "mic:";

/// One microphone of the submenu.
#[derive(Debug)]
pub struct MicItem {
    pub id: String,
    pub label: String,
    pub ticked: bool,
}

/// What a microphone item holds.
pub struct MicView {
    pub id: Seq<char>,
    pub label: Seq<char>,
    pub ticked: bool,
}

impl View for MicItem {
    type V = MicView;

    open spec fn view(&self) -> MicView {
        MicView { id: self.id@, label: self.label@, ticked: self.ticked }
    }
}

/// What a list of microphone items holds.
pub open spec fn mic_views(items: Seq<MicItem>) -> Seq<MicView> {
    Seq::new(items.len(), |i: int| items[i]@)
}

/// The item of a device, ticked when it is the active one.
pub open spec fn mic_item(active: Seq<char>, device: Seq<char>, label: Seq<char>) -> MicView {
    MicView { id: MIC_ITEM_PREFIX@ + device, label, ticked: active == device }
}

/// The submenu: the system default, then the devices in their order.
pub open spec fn microphones(active: Seq<char>, devices: Seq<Seq<char>>) -> Seq<MicView> {
    seq![mic_item(active, seq![], "System default"@)] + Seq::new(
        devices.len(),
        |i: int| mic_item(active, devices[i], devices[i]),
    )
}

/// The microphone submenu, with the active device ticked.
///
/// Devices are enumerated when the menu is built, so that one plugged in afterwards appears with
/// the next menu.
pub fn build_microphone_submenu(active: &str, devices: &[String]) -> (items: Vec<MicItem>)
    ensures
        mic_views(items@) == microphones(active@, words::strings(devices@)),
{
    let mut items: Vec<MicItem> = Vec::new();
    let default_item: MicItem = MicItem {
        id: MIC_ITEM_PREFIX.to_owned(),
        label: "System default".to_owned(),
        ticked: active.is_empty(),
    };
    proof {
        assert(MIC_ITEM_PREFIX@ + Seq::<char>::empty() =~= MIC_ITEM_PREFIX@);
        assert((active@.len() == 0) == (active@ =~= Seq::<char>::empty()));
        assert(default_item@ == mic_item(active@, seq![], "System default"@));
    }
    items.push(default_item);
    let ghost all = words::strings(devices@);
    let mut i: usize = 0;
    assert(mic_views(items@) =~= microphones(active@, all.take(0)));
    while i < devices.len()
        invariant
            i <= devices@.len(),
            all == words::strings(devices@),
            mic_views(items@) == microphones(active@, all.take(i as int)),
        decreases devices@.len() - i,
    {
        let mut id: String = MIC_ITEM_PREFIX.to_owned();
        id.append(devices[i].as_str());
        let item: MicItem = MicItem {
            id,
            label: devices[i].clone(),
            ticked: same_str(active, devices[i].as_str()),
        };
        let ghost before = items@;
        items.push(item);
        proof {
            assert(mic_views(items@) =~= mic_views(before).push(item@));
            assert(item@ == mic_item(active@, all[i as int], all[i as int]));
            assert(microphones(active@, all.take(i + 1)) =~= microphones(
                active@,
                all.take(i as int),
            ).push(item@));
        }
        i += 1;
    }
    assert(all.take(i as int) == all);
    items
}

/// One entry of the tray menu.
#[derive(Debug)]
pub enum MenuEntry {
    Item { id: &'static str, text: String, enabled: bool, shortcut: Option<&'static str> },
    Separator,
    Microphones(Vec<MicItem>),
}

/// What an entry holds.
pub enum EntryView {
    Item { id: Seq<char>, text: Seq<char>, enabled: bool, shortcut: Option<Seq<char>> },
    Separator,
    Microphones(Seq<MicView>),
}

impl View for MenuEntry {
    type V = EntryView;

    open spec fn view(&self) -> EntryView {
        match *self {
            MenuEntry::Item { id, text, enabled, shortcut } => EntryView::Item {
                id: id@,
                text: text@,
                enabled,
                shortcut: match shortcut {
                    Some(s) => Some(s@),
                    None => None,
                },
            },
            MenuEntry::Separator => EntryView::Separator,
            MenuEntry::Microphones(items) => EntryView::Microphones(mic_views(items@)),
        }
    }
}

/// What a menu holds.
pub open spec fn menu_views(entries: Seq<MenuEntry>) -> Seq<EntryView> {
    Seq::new(entries.len(), |i: int| entries[i]@)
}

/// An entry that can be chosen.
pub open spec fn choice(id: Seq<char>, text: Seq<char>, shortcut: Option<Seq<char>>) -> EntryView {
    EntryView::Item { id, text, enabled: true, shortcut }
}

/// An entry that is only read.
pub open spec fn label(id: Seq<char>, text: Seq<char>) -> EntryView {
    EntryView::Item { id, text, enabled: false, shortcut: None }
}

/// The tray menu.
pub open spec fn menu(
    shortcut: Seq<char>,
    version: Seq<char>,
    active: Seq<char>,
    devices: Seq<Seq<char>>,
) -> Seq<EntryView> {
    seq![
        label("status"@, "Ready — hold "@ + shortcut),
        EntryView::Separator,
        choice("toggle"@, "Toggle Recording"@, None),
        choice("history"@, "History…"@, None),
        choice("settings"@, "Settings…"@, Some("cmd+,"@)),
        EntryView::Separator,
        EntryView::Microphones(microphones(active, devices)),
        EntryView::Separator,
        label("version"@, "Version "@ + version),
        choice("quit"@, "Quit Whisper Lite"@, Some("cmd+q"@)),
    ]
}

fn item(
    id: &'static str,
    text: String,
    enabled: bool,
    shortcut: Option<&'static str>,
) -> (e: MenuEntry)
    ensures
        e@ == (EntryView::Item {
            id: id@,
            text: text@,
            enabled,
            shortcut: match shortcut {
                Some(s) => Some(s@),
                None => None,
            },
        }),
{
    MenuEntry::Item { id, text, enabled, shortcut }
}

/// The tray menu, from scratch: the only reliable way to move a tick is a fresh menu.
pub fn build_tray_menu(shortcut: &str, version: &str, active: &str, devices: &[String]) -> (entries: Vec<
    MenuEntry,
>)
    ensures
        menu_views(entries@) == menu(shortcut@, version@, active@, words::strings(devices@)),
{
    let mut ready: String = "Ready — hold ".to_owned();
    ready.append(shortcut);
    let mut release: String = "Version ".to_owned();
    release.append(version);
    let mut entries: Vec<MenuEntry> = Vec::new();
    entries.push(item("status", ready, false, None));
    entries.push(MenuEntry::Separator);
    entries.push(item("toggle", "Toggle Recording".to_owned(), true, None));
    entries.push(item("history", "History…".to_owned(), true, None));
    entries.push(item("settings", "Settings…".to_owned(), true, Some("cmd+,")));
    entries.push(MenuEntry::Separator);
    entries.push(MenuEntry::Microphones(build_microphone_submenu(active, devices)));
    entries.push(MenuEntry::Separator);
    entries.push(item("version", release, false, None));
    entries.push(item("quit", "Quit Whisper Lite".to_owned(), true, Some("cmd+q")));
    assert(menu_views(entries@) =~= menu(shortcut@, version@, active@, words::strings(devices@)));
    entries
}

/// What choosing an item does.
#[derive(Debug)]
pub enum MenuCommand {
    Toggle,
    Settings,
    /// Record from this device from now on; empty means the system default.
    Microphone(String),
    /// Open the settings at the history.
    History,
    Quit,
    Nothing,
}

/// The text begins with the prefix.
pub open spec fn begins_with(s: Seq<char>, prefix: Seq<char>) -> bool {
    prefix.len() <= s.len() && s.take(prefix.len() as int) == prefix
}

/// The command of an item.
pub open spec fn commands(command: MenuCommand, id: Seq<char>) -> bool {
    if id == "toggle"@ {
        command is Toggle
    } else if id == "settings"@ {
        command is Settings
    } else if begins_with(id, MIC_ITEM_PREFIX@) {
        command matches MenuCommand::Microphone(d) && d@ == id.skip(MIC_ITEM_PREFIX@.len() as int)
    } else if id == "history"@ {
        command is History
    } else if id == "quit"@ {
        command is Quit
    } else {
        command is Nothing
    }
}

/// Whether `s` begins with `prefix`.
pub fn starts_with(s: &str, prefix: &str) -> (b: bool)
    ensures
        b == begins_with(s@, prefix@),
{
    let all: Vec<char> = chars_of(s);
    let front: Vec<char> = chars_of(prefix);
    if front.len() > all.len() {
        return false;
    }
    let mut head: Vec<char> = all;
    head.truncate(front.len());
    assert(head@ == s@.take(prefix@.len() as int));
    same(head.as_slice(), front.as_slice())
}

fn without_front(s: &str, n: usize) -> (out: String)
    requires
        n <= s@.len(),
    ensures
        out@ == s@.skip(n as int),
{
    let all: Vec<char> = chars_of(s);
    let mut out: String = String::new();
    let mut i: usize = n;
    while i < all.len()
        invariant
            n <= i <= all@.len(),
            all@ == s@,
            out@ == s@.subrange(n as int, i as int),
        decreases all@.len() - i,
    {
        out.push(all[i]);
        i += 1;
    }
    assert(s@.subrange(n as int, i as int) == s@.skip(n as int));
    out
}

/// The command of the menu item `id`.
pub fn menu_event(id: &str) -> (command: MenuCommand)
    ensures
        commands(command, id@),
{
    if same_str(id, "toggle") {
        return MenuCommand::Toggle;
    }
    if same_str(id, "settings") {
        return MenuCommand::Settings;
    }
    if starts_with(id, MIC_ITEM_PREFIX) {
        let n: usize = chars_of(MIC_ITEM_PREFIX).len();
        return MenuCommand::Microphone(without_front(id, n));
    }
    if same_str(id, "history") {
        return MenuCommand::History;
    }
    if same_str(id, "quit") {
        return MenuCommand::Quit;
    }
    MenuCommand::Nothing
}

/// Makes `device` the device of the settings. Says whether that is a change, which has to be
/// saved and carried out.
pub fn pick_microphone(s: &mut Settings, device: &str) -> (changed: bool)
    ensures
        final(s)@ == (settings::SettingsView { input_device: device@, ..old(s)@ }),
        changed == (old(s).input_device@ != device@),
{
    let changed: bool = !same_str(s.input_device.as_str(), device);
    s.input_device = device.to_owned();
    changed
}

/// Whether a click on the icon starts or stops dictation: a left click, when the settings say so,
/// and on release, so that dragging along the menu bar does not record.
pub fn click_toggles(click_records: bool, left: bool, up: bool) -> (b: bool)
    ensures
        b == (click_records && left && up),
{
    click_records && left && up
}

/// Whether a left click opens the menu: unless it records, and then the menu is on the right
/// click.
pub fn menu_on_left_click(click_records: bool) -> (b: bool)
    ensures
        b == !click_records,
{
    !click_records
}

/// Choosing a microphone item records from its device: the first item is the system default.
pub proof fn law_a_microphone_item_picks_its_device(
    active: Seq<char>,
    devices: Seq<Seq<char>>,
    i: int,
    command: MenuCommand,
)
    requires
        0 <= i < microphones(active, devices).len(),
        commands(command, microphones(active, devices)[i].id),
    ensures
        command matches MenuCommand::Microphone(d) && d@ == if i == 0 {
            seq![]
        } else {
            devices[i - 1]
        },
{
    reveal_strlit("mic:");
    reveal_strlit("toggle");
    reveal_strlit("settings");
    let device = if i == 0 {
        seq![]
    } else {
        devices[i - 1]
    };
    let id = microphones(active, devices)[i].id;
    assert(id == MIC_ITEM_PREFIX@ + device);
    assert(MIC_ITEM_PREFIX@.len() == 4 && MIC_ITEM_PREFIX@[0] == 'm');
    assert(id[0] == 'm' && "toggle"@[0] == 't' && "settings"@[0] == 's');
    assert(id.take(4) =~= MIC_ITEM_PREFIX@);
    assert(id.skip(4) =~= device);
}

/// Exactly the items of the active device are ticked.
pub proof fn law_ticks_follow_the_active_device(active: Seq<char>, devices: Seq<Seq<char>>, i: int)
    requires
        0 <= i < microphones(active, devices).len(),
    ensures
        microphones(active, devices)[i].ticked == (active == if i == 0 {
            seq![]
        } else {
            devices[i - 1]
        }),
{
}

/// Every entry that can be chosen does something.
pub proof fn law_every_choice_does_something(
    shortcut: Seq<char>,
    version: Seq<char>,
    active: Seq<char>,
    devices: Seq<Seq<char>>,
    i: int,
    command: MenuCommand,
)
    requires
        0 <= i < menu(shortcut, version, active, devices).len(),
        menu(shortcut, version, active, devices)[i] matches EntryView::Item { id, enabled, .. }
            && enabled && commands(command, id),
    ensures
        command !is Nothing,
{
    reveal_strlit("toggle");
    reveal_strlit("settings");
    reveal_strlit("history");
    reveal_strlit("quit");
}

/// Every device is on the menu, behind the system default and in its order, under its own name and
/// with an id that names it.
pub proof fn law_every_device_is_on_the_menu(active: Seq<char>, devices: Seq<Seq<char>>, i: int)
    ensures
        microphones(active, devices).len() == devices.len() + 1,
        microphones(active, devices)[0] == (MicView {
            id: seq!['m', 'i', 'c', ':'],
            label: "System default"@,
            ticked: active.len() == 0,
        }),
        0 <= i < devices.len() ==> microphones(active, devices)[i + 1] == (MicView {
            id: seq!['m', 'i', 'c', ':'] + devices[i],
            label: devices[i],
            ticked: active == devices[i],
        }),
{
    reveal_strlit("mic:");
    assert(MIC_ITEM_PREFIX@ =~= seq!['m', 'i', 'c', ':']);
    assert(MIC_ITEM_PREFIX@ + Seq::<char>::empty() =~= seq!['m', 'i', 'c', ':']);
    assert(active.len() == 0 ==> active =~= Seq::<char>::empty());
}

/// What is on the menu, from top to bottom.
pub proof fn law_what_is_on_the_menu(
    shortcut: Seq<char>,
    version: Seq<char>,
    active: Seq<char>,
    devices: Seq<Seq<char>>,
)
    ensures
        ({
            let m = menu(shortcut, version, active, devices);
            &&& m.len() == 10
            &&& m[0] == (EntryView::Item {
                id: "status"@,
                text: "Ready — hold "@ + shortcut,
                enabled: false,
                shortcut: None,
            })
            &&& m[2] == (EntryView::Item {
                id: "toggle"@,
                text: "Toggle Recording"@,
                enabled: true,
                shortcut: None,
            })
            &&& m[3] == (EntryView::Item {
                id: "history"@,
                text: "History…"@,
                enabled: true,
                shortcut: None,
            })
            &&& m[4] == (EntryView::Item {
                id: "settings"@,
                text: "Settings…"@,
                enabled: true,
                shortcut: Some("cmd+,"@),
            })
            &&& m[6] == EntryView::Microphones(microphones(active, devices))
            &&& m[8] == (EntryView::Item {
                id: "version"@,
                text: "Version "@ + version,
                enabled: false,
                shortcut: None,
            })
            &&& m[9] == (EntryView::Item {
                id: "quit"@,
                text: "Quit Whisper Lite"@,
                enabled: true,
                shortcut: Some("cmd+q"@),
            })
            &&& m[1] is Separator && m[5] is Separator && m[7] is Separator
        }),
{
}

/// What choosing an entry does: each id has its own command, an id with a device behind `mic:` picks
/// that device, and any other does nothing.
pub proof fn law_what_choosing_does(command: MenuCommand, id: Seq<char>, device: Seq<char>)
    requires
        commands(command, id),
    ensures
        id == "toggle"@ <==> command is Toggle,
        id == "settings"@ <==> command is Settings,
        id == "history"@ <==> command is History,
        id == "quit"@ <==> command is Quit,
        id == seq!['m', 'i', 'c', ':'] + device ==> (command matches MenuCommand::Microphone(d) && d@
            == device),
        command matches MenuCommand::Microphone(d) ==> id == seq!['m', 'i', 'c', ':'] + d@,
{
    reveal_strlit("mic:");
    reveal_strlit("toggle");
    reveal_strlit("settings");
    reveal_strlit("history");
    reveal_strlit("quit");
    let front = seq!['m', 'i', 'c', ':'];
    assert(MIC_ITEM_PREFIX@ =~= front);
    assert("toggle"@[0] == 't' && "settings"@[0] == 's' && "history"@[0] == 'h' && "quit"@[0] == 'q');
    if id == front + device {
        assert(id[0] == 'm');
        assert(id.take(4) =~= front);
        assert(id.skip(4) =~= device);
    }
    if begins_with(id, MIC_ITEM_PREFIX@) {
        assert(id.take(4)[0] == id[0]);
        assert(id =~= id.take(4) + id.skip(4));
    }
}

/// A list of entries is each of them, in its place, and so is a list of microphones.
pub proof fn law_each_entry_is_in_its_place(entries: Seq<MenuEntry>, items: Seq<MicItem>, i: int)
    ensures
        menu_views(entries).len() == entries.len(),
        mic_views(items).len() == items.len(),
        0 <= i < entries.len() ==> menu_views(entries)[i] == entries[i]@,
        0 <= i < items.len() ==> mic_views(items)[i].id == items[i].id@ && mic_views(items)[i].label
            == items[i].label@ && mic_views(items)[i].ticked == items[i].ticked,
{
}

/// A text begins with another if and only if it is that one and something behind it.
pub proof fn law_what_a_text_begins_with(prefix: Seq<char>, rest: Seq<char>, s: Seq<char>)
    ensures
        begins_with(prefix + rest, prefix),
        begins_with(s, prefix) ==> s == prefix + s.skip(prefix.len() as int),
{
    assert((prefix + rest).take(prefix.len() as int) =~= prefix);
    if begins_with(s, prefix) {
        assert(s =~= s.take(prefix.len() as int) + s.skip(prefix.len() as int));
    }
}

} // verus!
