//! The floating status pill.
//!
//! A separate window that is created once and then shown and hidden. It must never take the
//! focus, or the cursor leaves the field that is being dictated into.

use vstd::prelude::*;

use crate::chars::same_str;
use crate::settings::HudPosition;

verus! {

/// The name of the window.
pub const WINDOW: &'static str = "hud";

/// What the pill is told to show.
#[derive(Debug, Clone)]
pub struct StatePayload {
    pub state: &'static str,
    pub label: Option<String>,
}

/// What to do with the window, in order.
#[derive(Debug)]
pub enum HudStep {
    Show,
    Hide,
    Move(HudPosition),
    Emit(StatePayload),
}

/// The pill at rest is hidden.
pub open spec fn is_idle(state: &str) -> bool {
    state@ == "idle"@
}

/// The pill as the library knows it: how often its state has changed.
///
/// A timer that hides the pill remembers the number at the moment it is set and gives up when it
/// has moved on. Otherwise a timer from one dictation would hide the pill of the next.
#[derive(Debug, Clone, Copy, PartialEq, Eq, Structural)]
pub struct Hud {
    pub generation: u64,
}

/// How often the state has changed.
pub fn generation(hud: &Hud) -> (g: u64)
    ensures
        g == hud.generation,
{
    hud.generation
}

/// The number after one more change; it wraps around.
pub open spec fn moved_on(g: u64) -> int {
    if g == u64::MAX {
        0
    } else {
        g + 1
    }
}

/// Showing comes before telling: a window that is not on screen can be throttled and miss what
/// it is told. Idling is told, and then the window is hidden.
pub open spec fn state_steps(
    window: bool,
    visible: bool,
    state: &'static str,
    label: Option<String>,
) -> Seq<HudStep> {
    let told = HudStep::Emit(StatePayload { state, label });
    if !window {
        seq![]
    } else if is_idle(state) {
        seq![told, HudStep::Hide]
    } else if visible {
        seq![told]
    } else {
        seq![HudStep::Show, told]
    }
}

impl Hud {
    pub fn new() -> (h: Hud)
        ensures
            h.generation == 0,
    {
        Hud { generation: 0 }
    }

    /// Whether a timer that was set at `scheduled_at` still hides the pill: only when nothing
    /// has changed since.
    pub fn clears(&self, scheduled_at: u64) -> (b: bool)
        ensures
            b == (self.generation == scheduled_at),
    {
        self.generation == scheduled_at
    }
}

/// Changes the state. `window` is whether the window exists, `visible` whether it is on screen.
pub fn set_state(
    hud: &mut Hud,
    window: bool,
    visible: bool,
    state: &'static str,
    label: Option<String>,
) -> (steps: Vec<HudStep>)
    ensures
        final(hud).generation == moved_on(old(hud).generation),
        steps@ == state_steps(window, visible, state, label),
{
    hud.generation = hud.generation.wrapping_add(1);
    let mut steps: Vec<HudStep> = Vec::new();
    if !window {
        return steps;
    }
    if same_str(state, "idle") {
        steps.push(HudStep::Emit(StatePayload { state, label }));
        steps.push(HudStep::Hide);
        return steps;
    }
    if !visible {
        steps.push(HudStep::Show);
    }
    steps.push(HudStep::Emit(StatePayload { state, label }));
    steps
}

/// Shows the pill at `position`.
///
/// The position is set on every show, not once at startup: a position set on a window that has
/// never been realised is not reliably kept.
pub fn show_at(
    hud: &mut Hud,
    position: HudPosition,
    window: bool,
    visible: bool,
    state: &'static str,
    label: Option<String>,
) -> (steps: Vec<HudStep>)
    ensures
        position is Hidden ==> *final(hud) == *old(hud) && steps@ == Seq::<HudStep>::empty(),
        position !is Hidden ==> {
            &&& final(hud).generation == moved_on(old(hud).generation)
            &&& steps@ == seq![HudStep::Move(position)] + state_steps(window, visible, state, label)
                + seq![HudStep::Move(position)]
        },
{
    let mut steps: Vec<HudStep> = Vec::new();
    if position == HudPosition::Hidden {
        return steps;
    }
    steps.push(HudStep::Move(position));
    let mut change: Vec<HudStep> = set_state(hud, window, visible, state, label);
    steps.append(&mut change);
    steps.push(HudStep::Move(position));
    steps
}

/// Changes the state, unless the user has turned the indicator off. Going idle always gets
/// through, so that a pill that is still up comes down.
pub fn hud_state(
    hud: &mut Hud,
    position: HudPosition,
    window: bool,
    visible: bool,
    state: &'static str,
    label: Option<String>,
) -> (steps: Vec<HudStep>)
    ensures
        position is Hidden && !is_idle(state) ==> *final(hud) == *old(hud) && steps@ == Seq::<
            HudStep,
        >::empty(),
        !(position is Hidden && !is_idle(state)) ==> {
            &&& final(hud).generation == moved_on(old(hud).generation)
            &&& steps@ == state_steps(window, visible, state, label)
        },
{
    if position == HudPosition::Hidden && !same_str(state, "idle") {
        return Vec::new();
    }
    set_state(hud, window, visible, state, label)
}

/// Where along one axis of the screen the pill sits.
#[derive(Debug, Clone, Copy, PartialEq, Eq, Structural)]
pub enum Anchor {
    /// At the left or top edge, less the margin.
    Start,
    Middle,
    /// At the right or bottom edge, less the margin.
    End,
}

/// What moving the pill comes to.
#[derive(Debug, Clone, Copy, PartialEq, Eq, Structural)]
pub enum Placement {
    /// The window goes off screen.
    Hide,
    At { across: Anchor, down: Anchor },
}

/// The placement of each position: three across by three down.
pub open spec fn placed(position: HudPosition) -> Placement {
    match position {
        HudPosition::TopLeft => Placement::At { across: Anchor::Start, down: Anchor::Start },
        HudPosition::TopCenter => Placement::At { across: Anchor::Middle, down: Anchor::Start },
        HudPosition::TopRight => Placement::At { across: Anchor::End, down: Anchor::Start },
        HudPosition::MiddleLeft => Placement::At { across: Anchor::Start, down: Anchor::Middle },
        HudPosition::Center => Placement::At { across: Anchor::Middle, down: Anchor::Middle },
        HudPosition::MiddleRight => Placement::At { across: Anchor::End, down: Anchor::Middle },
        HudPosition::BottomLeft => Placement::At { across: Anchor::Start, down: Anchor::End },
        HudPosition::BottomCenter => Placement::At { across: Anchor::Middle, down: Anchor::End },
        HudPosition::BottomRight => Placement::At { across: Anchor::End, down: Anchor::End },
        HudPosition::Hidden => Placement::Hide,
    }
}

/// Where the pill goes for a position.
pub fn reposition(position: HudPosition) -> (p: Placement)
    ensures
        p == placed(position),
{
    match position {
        HudPosition::TopLeft => Placement::At { across: Anchor::Start, down: Anchor::Start },
        HudPosition::TopCenter => Placement::At { across: Anchor::Middle, down: Anchor::Start },
        HudPosition::TopRight => Placement::At { across: Anchor::End, down: Anchor::Start },
        HudPosition::MiddleLeft => Placement::At { across: Anchor::Start, down: Anchor::Middle },
        HudPosition::Center => Placement::At { across: Anchor::Middle, down: Anchor::Middle },
        HudPosition::MiddleRight => Placement::At { across: Anchor::End, down: Anchor::Middle },
        HudPosition::BottomLeft => Placement::At { across: Anchor::Start, down: Anchor::End },
        HudPosition::BottomCenter => Placement::At { across: Anchor::Middle, down: Anchor::End },
        HudPosition::BottomRight => Placement::At { across: Anchor::End, down: Anchor::End },
        HudPosition::Hidden => Placement::Hide,
    }
}

/// The nine positions are nine places, and every place has a position.
pub proof fn law_nine_positions_are_nine_places(across: Anchor, down: Anchor)
    ensures
        exists|p: HudPosition| #[trigger] placed(p) == (Placement::At { across, down }),
        forall|p: HudPosition, q: HudPosition| #[trigger]
            placed(p) == #[trigger] placed(q) ==> p == q,
{
    let p = match (across, down) {
        (Anchor::Start, Anchor::Start) => HudPosition::TopLeft,
        (Anchor::Middle, Anchor::Start) => HudPosition::TopCenter,
        (Anchor::End, Anchor::Start) => HudPosition::TopRight,
        (Anchor::Start, Anchor::Middle) => HudPosition::MiddleLeft,
        (Anchor::Middle, Anchor::Middle) => HudPosition::Center,
        (Anchor::End, Anchor::Middle) => HudPosition::MiddleRight,
        (Anchor::Start, Anchor::End) => HudPosition::BottomLeft,
        (Anchor::Middle, Anchor::End) => HudPosition::BottomCenter,
        (Anchor::End, Anchor::End) => HudPosition::BottomRight,
    };
    assert(placed(p) == (Placement::At { across, down }));
}

/// A timer never hides a pill whose state has changed since it was set, for fewer changes than
/// the counter holds.
pub proof fn law_a_stale_timer_gives_up(scheduled_at: u64, changes: nat)
    requires
        0 < changes < 0x1_0000_0000_0000_0000,
    ensures
        (scheduled_at + changes) % 0x1_0000_0000_0000_0000 != scheduled_at,
        forall|g: u64| #[trigger] moved_on(g) == (g + 1) % 0x1_0000_0000_0000_0000,
{
}

/// Each position is the place that it is called by.
pub proof fn law_each_position_is_where_it_says(p: HudPosition)
    ensures
        p is Hidden <==> placed(p) is Hide,
        (p is TopLeft || p is TopCenter || p is TopRight) <==> (placed(
            p,
        ) matches Placement::At { down, .. } && down == Anchor::Start),
        (p is MiddleLeft || p is Center || p is MiddleRight) <==> (placed(
            p,
        ) matches Placement::At { down, .. } && down == Anchor::Middle),
        (p is BottomLeft || p is BottomCenter || p is BottomRight) <==> (placed(
            p,
        ) matches Placement::At { down, .. } && down == Anchor::End),
        (p is TopLeft || p is MiddleLeft || p is BottomLeft) <==> (placed(
            p,
        ) matches Placement::At { across, .. } && across == Anchor::Start),
        (p is TopCenter || p is Center || p is BottomCenter) <==> (placed(
            p,
        ) matches Placement::At { across, .. } && across == Anchor::Middle),
        (p is TopRight || p is MiddleRight || p is BottomRight) <==> (placed(
            p,
        ) matches Placement::At { across, .. } && across == Anchor::End),
{
}

/// A state that is set is told to the window with its label, once; the window is shown before where
/// it was not, and hidden behind where the state is idle. Without a window nothing is done.
pub proof fn law_a_state_is_told_once(
    window: bool,
    visible: bool,
    state: &'static str,
    label: Option<String>,
)
    ensures
        !window ==> state_steps(window, visible, state, label).len() == 0,
        window && state@ == "idle"@ ==> state_steps(window, visible, state, label) == seq![
            HudStep::Emit(StatePayload { state, label }),
            HudStep::Hide,
        ],
        window && state@ != "idle"@ && visible ==> state_steps(window, visible, state, label)
            == seq![HudStep::Emit(StatePayload { state, label })],
        window && state@ != "idle"@ && !visible ==> state_steps(window, visible, state, label)
            == seq![HudStep::Show, HudStep::Emit(StatePayload { state, label })],
{
}

} // verus!
