//! Single-key hotkeys: Fn (Globe) and Caps Lock.
//!
//! Neither is a key code with modifiers: both are modifier flags, so an ordinary shortcut cannot
//! express them. An event tap watches the flags instead. A tap can also consume an event, which
//! is what makes Caps Lock usable: otherwise every dictation would turn capitals on.

use vstd::prelude::*;

use crate::chars::same_str;

verus! {

/// Which single key is being watched.
#[derive(Debug, Clone, Copy, PartialEq, Eq, Structural)]
pub enum SpecialKey {
    Fn,
    CapsLock,
}

impl SpecialKey {
    /// The accelerator that names the key.
    pub open spec fn named(self) -> Seq<char> {
        match self {
            SpecialKey::Fn => "Fn"@,
            SpecialKey::CapsLock => "CapsLock"@,
        }
    }

    /// The key that an accelerator names: `None` for an ordinary shortcut.
    pub fn parse(accelerator: &str) -> (key: Option<Self>)
        ensures
            match key {
                Some(k) => k.named() == accelerator@,
                None => forall|k: SpecialKey| #[trigger] k.named() != accelerator@,
            },
    {
        if same_str(accelerator, "Fn") {
            return Some(SpecialKey::Fn);
        }
        if same_str(accelerator, "CapsLock") {
            return Some(SpecialKey::CapsLock);
        }
        None
    }

    /// The two names differ, so that an accelerator names at most one of the keys.
    pub proof fn law_names_differ()
        ensures
            SpecialKey::Fn.named() != SpecialKey::CapsLock.named(),
    {
        reveal_strlit("Fn");
        reveal_strlit("CapsLock");
        assert("Fn"@.len() != "CapsLock"@.len());
    }
}

/// How long the tap must have run before an edge counts, in milliseconds.
pub const SETTLE_MS: u64 = 600;

/// What the tap delivers.
#[derive(Debug, Clone, Copy, PartialEq, Eq, Structural)]
pub enum TapEvent {
    /// The system switched the tap off, because it took too long or on certain input.
    Disabled,
    /// The modifier flags changed; `down` is whether the watched flag is among them.
    Flags { down: bool },
}

/// What becomes of the event.
#[derive(Debug, Clone, Copy, PartialEq, Eq, Structural)]
pub enum Fate {
    Keep,
    Drop,
}

/// What the tap does with an event: whom to tell, and whether to pass it on.
#[derive(Debug, Clone, Copy, PartialEq, Eq, Structural)]
pub struct Reaction {
    /// The key went down (`true`) or up.
    pub change: Option<bool>,
    pub fate: Fate,
}

/// A tap on one key.
#[derive(Debug, Clone, Copy)]
pub struct Monitor {
    pub key: SpecialKey,
    /// Whether the key was down at the last event.
    pub was_down: bool,
    /// Whether the system switched the tap off since the last turn of the run loop.
    pub needs_reenable: bool,
    pub stopped: bool,
}

/// What a turn of the run loop does.
#[derive(Debug, Clone, Copy, PartialEq, Eq, Structural)]
pub enum Turn {
    /// The loop ends.
    Stop,
    /// The loop goes on.
    Run,
    /// The loop goes on, with the tap switched on again.
    Reenable,
}

impl Monitor {
    /// A tap that has seen nothing yet.
    ///
    /// There is no way to read the live flags when the tap starts, so the first event has to
    /// resolve the unknown. Counting the key as down makes a first event that carries the flag a
    /// non-event rather than a press that starts a recording nobody asked for.
    pub fn start(key: SpecialKey) -> (m: Monitor)
        ensures
            m.key == key,
            m.was_down,
            !m.needs_reenable,
            !m.stopped,
    {
        Monitor { key, was_down: true, needs_reenable: false, stopped: false }
    }

    /// What the tap does with an event that comes `elapsed_ms` after it started.
    pub open spec fn reaction(self, event: TapEvent, elapsed_ms: u64) -> Reaction {
        match event {
            TapEvent::Disabled => Reaction { change: None, fate: Fate::Keep },
            TapEvent::Flags { down } => Reaction {
                change: if down != self.was_down && elapsed_ms > SETTLE_MS {
                    Some(down)
                } else {
                    None
                },
                fate: match self.key {
                    SpecialKey::CapsLock => Fate::Drop,
                    SpecialKey::Fn => Fate::Keep,
                },
            },
        }
    }

    /// The tap after an event.
    pub open spec fn after(self, event: TapEvent) -> Monitor {
        match event {
            TapEvent::Disabled => Monitor { needs_reenable: true, ..self },
            TapEvent::Flags { down } => Monitor { was_down: down, ..self },
        }
    }

    /// Takes an event that comes `elapsed_ms` after the tap started.
    ///
    /// Flags report the current state, so the edge is derived from the state before. Caps Lock
    /// is swallowed; Fn is passed on, because consuming it would break the function keys.
    pub fn event(&mut self, event: TapEvent, elapsed_ms: u64) -> (r: Reaction)
        ensures
            *final(self) == old(self).after(event),
            r == old(self).reaction(event, elapsed_ms),
    {
        match event {
            TapEvent::Disabled => {
                self.needs_reenable = true;
                Reaction { change: None, fate: Fate::Keep }
            },
            TapEvent::Flags { down } => {
                let previously: bool = self.was_down;
                self.was_down = down;
                let change: Option<bool> = if down != previously && elapsed_ms > SETTLE_MS {
                    Some(down)
                } else {
                    None
                };
                let fate: Fate = match self.key {
                    SpecialKey::CapsLock => Fate::Drop,
                    SpecialKey::Fn => Fate::Keep,
                };
                Reaction { change, fate }
            },
        }
    }

    /// One turn of the run loop: ends it when the tap was stopped, and switches the tap on again
    /// when the system had switched it off.
    pub fn turn(&mut self) -> (t: Turn)
        ensures
            old(self).stopped ==> t is Stop && *final(self) == *old(self),
            !old(self).stopped ==> *final(self) == (Monitor { needs_reenable: false, ..*old(self) })
                && t == if old(self).needs_reenable {
                Turn::Reenable
            } else {
                Turn::Run
            },
    {
        if self.stopped {
            return Turn::Stop;
        }
        if self.needs_reenable {
            self.needs_reenable = false;
            Turn::Reenable
        } else {
            Turn::Run
        }
    }

    /// Ends the run loop at its next turn.
    pub fn stop(&mut self)
        ensures
            *final(self) == (Monitor { stopped: true, ..*old(self) }),
    {
        self.stopped = true;
    }
}

/// The tap after a run of events, each with the time at which it comes.
pub open spec fn after_all(m: Monitor, events: Seq<(TapEvent, u64)>) -> Monitor
    decreases events.len(),
{
    if events.len() == 0 {
        m
    } else {
        after_all(m, events.drop_last()).after(events.last().0)
    }
}

/// Holds of a run of events that come after the tap has settled and of which none is told.
pub open spec fn quiet(m: Monitor, events: Seq<(TapEvent, u64)>) -> bool {
    forall|i: int|
        0 <= i < events.len() ==> (#[trigger] events[i]).1 > SETTLE_MS && after_all(
            m,
            events.take(i),
        ).reaction(events[i].0, events[i].1).change is None
}

/// The first flags event after the start is never taken for a press.
pub proof fn law_no_phantom_press(m: Monitor, event: TapEvent, elapsed_ms: u64)
    requires
        m.was_down,
    ensures
        m.reaction(event, elapsed_ms).change != Some(true),
{
}

/// Nothing counts while the tap settles.
pub proof fn law_nothing_counts_while_settling(m: Monitor, event: TapEvent, elapsed_ms: u64)
    requires
        elapsed_ms <= SETTLE_MS,
    ensures
        m.reaction(event, elapsed_ms).change is None,
{
}

/// Between two presses there is a release: after a press was told, and whatever events that tell
/// nothing come in between, the next change told is a release, and the other way round.
pub proof fn law_presses_and_releases_alternate(
    before: Monitor,
    first: TapEvent,
    first_ms: u64,
    between: Seq<(TapEvent, u64)>,
    second: TapEvent,
    second_ms: u64,
)
    requires
        before.reaction(first, first_ms).change is Some,
        quiet(before.after(first), between),
        after_all(before.after(first), between).reaction(second, second_ms).change is Some,
    ensures
        before.reaction(first, first_ms).change != after_all(before.after(first), between).reaction(
            second,
            second_ms,
        ).change,
{
    lemma_quiet_events_change_nothing(before.after(first), between);
}

proof fn lemma_quiet_events_change_nothing(m: Monitor, between: Seq<(TapEvent, u64)>)
    requires
        quiet(m, between),
    ensures
        after_all(m, between).was_down == m.was_down,
    decreases between.len(),
{
    if between.len() > 0 {
        let front = between.drop_last();
        assert forall|i: int| 0 <= i < front.len() implies (#[trigger] front[i]).1 > SETTLE_MS
            && after_all(m, front.take(i)).reaction(front[i].0, front[i].1).change is None by {
            assert(front.take(i) == between.take(i));
            assert(front[i] == between[i]);
        }
        lemma_quiet_events_change_nothing(m, front);
        let n = between.len() - 1;
        assert(between.take(n) == front);
        assert(between[n].1 > SETTLE_MS);
    }
}

/// Caps Lock never reaches the system as a flag change, and Fn always does.
pub proof fn law_caps_lock_is_swallowed(m: Monitor, down: bool, elapsed_ms: u64)
    ensures
        m.reaction(TapEvent::Flags { down }, elapsed_ms).fate == if m.key == SpecialKey::CapsLock {
            Fate::Drop
        } else {
            Fate::Keep
        },
{
}

/// When a key counts: each time it goes down or comes up, and more than 600 milliseconds after the
/// monitor started. What it was is remembered all the while, and nothing but Caps Lock is dropped.
pub proof fn law_when_a_key_counts(m: Monitor, down: bool, elapsed_ms: u64)
    ensures
        elapsed_ms > 600 && down != m.was_down ==> m.reaction(
            TapEvent::Flags { down },
            elapsed_ms,
        ).change == Some(down),
        elapsed_ms <= 600 || down == m.was_down ==> m.reaction(
            TapEvent::Flags { down },
            elapsed_ms,
        ).change is None,
        m.after(TapEvent::Flags { down }).was_down == down,
        m.after(TapEvent::Flags { down }).key == m.key,
        m.after(TapEvent::Flags { down }).needs_reenable == m.needs_reenable,
        m.after(TapEvent::Flags { down }).stopped == m.stopped,
        m.reaction(TapEvent::Disabled, elapsed_ms).change is None,
        m.reaction(TapEvent::Disabled, elapsed_ms).fate == Fate::Keep,
        m.after(TapEvent::Disabled).needs_reenable,
        m.after(TapEvent::Disabled).was_down == m.was_down,
        m.after(TapEvent::Disabled).key == m.key,
        m.after(TapEvent::Disabled).stopped == m.stopped,
{
}

/// The keys are called by the names that settings hold.
pub proof fn law_the_keys_have_their_names()
    ensures
        SpecialKey::Fn.named() == seq!['F', 'n'],
        SpecialKey::CapsLock.named() == seq!['C', 'a', 'p', 's', 'L', 'o', 'c', 'k'],
{
    reveal_strlit("Fn");
    reveal_strlit("CapsLock");
    assert(SpecialKey::Fn.named() =~= seq!['F', 'n']);
    assert(SpecialKey::CapsLock.named() =~= seq!['C', 'a', 'p', 's', 'L', 'o', 'c', 'k']);
}

} // verus!
