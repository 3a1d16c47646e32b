//! Getting text into whatever field has the focus: through the clipboard and a synthetic paste.
//!
//! The clipboard is saved and restored around the paste, so that dictating does not silently
//! destroy what the user had copied. Only text is saved. Where the paste fails the clipboard keeps
//! the dictated text instead: words are never lost, and the user is told where they are.

use vstd::prelude::*;

use crate::download;
use crate::download::explain;

verus! {

/// How long the clipboard settles before the keystroke, in milliseconds: pasting too eagerly can
/// pick up what was there before.
pub const CLIPBOARD_SETTLE_MS: u64 = 30;

/// How long the target application has to process the paste before the clipboard is restored.
///
/// Too short and it pastes the restored contents; too long and the user notices that their
/// clipboard is briefly wrong.
pub const PASTE_SETTLE_MS: u64 = 150;

/// What the next event is the answer to.
#[derive(Debug, Clone, Copy, PartialEq, Eq, Structural)]
pub enum Stage {
    Opening,
    Writing,
    Settling,
    Simulating,
    Pressing,
    Clicking,
    Releasing,
    Pasted,
    Restoring,
    Done,
}

/// What to do next.
#[derive(Debug)]
pub enum InsertAction {
    /// Open the clipboard and read its text.
    Open,
    /// Put this text on the clipboard.
    Write(String),
    /// Wait this many milliseconds.
    Wait(u64),
    /// Create the input simulator.
    Simulate,
    /// Press the paste modifier.
    Press,
    /// Click the V key.
    Click,
    /// Release the paste modifier.
    Release,
    /// Put this text back on the clipboard; a failure is of no consequence.
    Restore(String),
    /// The insertion is over.
    Done(Result<(), String>),
}

/// How it went.
#[derive(Debug)]
pub enum InsertEvent {
    /// The clipboard is open, and held this text if it held any.
    Opened(Result<Option<String>, String>),
    /// The last action is done.
    Did(Result<(), String>),
}

/// An insertion under way.
#[derive(Debug)]
pub struct Insertion {
    pub stage: Stage,
    pub text: String,
    /// What the clipboard held before.
    pub previous: Option<String>,
    /// How the paste went.
    pub outcome: Result<(), String>,
}

/// A failure with this text.
pub open spec fn fails(r: Result<(), String>, text: Seq<char>) -> bool {
    r matches Err(e) && e@ == text
}

/// Nothing but the stage moved.
pub open spec fn only_stage(before: Insertion, after: Insertion, stage: Stage) -> bool {
    after == (Insertion { stage, ..before })
}

/// The paste is over and failed.
pub open spec fn paste_failed(
    before: Insertion,
    after: Insertion,
    action: InsertAction,
    doing: Seq<char>,
    error: String,
) -> bool {
    &&& after.stage is Pasted
    &&& after.text == before.text
    &&& after.previous == before.previous
    &&& fails(after.outcome, download::explained(doing, error@))
    &&& action == InsertAction::Wait(PASTE_SETTLE_MS)
}

/// The insertion ends at once.
pub open spec fn given_up(after: Insertion, action: InsertAction, doing: Seq<char>, error: String) -> bool {
    &&& after.stage is Done
    &&& action matches InsertAction::Done(r) && fails(r, download::explained(doing, error@))
}

/// What follows the paste once it has settled: where it went through, the clipboard gets back what
/// it held, if it held text. Where it failed, the dictated text stays there. The outcome is that
/// of the paste either way.
pub open spec fn settled(before: Insertion, after: Insertion, action: InsertAction) -> bool {
    match (before.outcome, before.previous) {
        (Ok(_), Some(p)) => {
            &&& only_stage(before, after, Stage::Restoring)
            &&& action == InsertAction::Restore(p)
        },
        _ => {
            &&& only_stage(before, after, Stage::Done)
            &&& action == InsertAction::Done(before.outcome)
        },
    }
}

/// One step of an insertion.
pub open spec fn stepped(
    before: Insertion,
    event: InsertEvent,
    after: Insertion,
    action: InsertAction,
) -> bool {
    match (before.stage, event) {
        (Stage::Opening, InsertEvent::Opened(Ok(previous))) => {
            &&& after == (Insertion { stage: Stage::Writing, previous, ..before })
            &&& action matches InsertAction::Write(t) && t@ == before.text@
        },
        (Stage::Opening, InsertEvent::Opened(Err(e))) => given_up(
            after,
            action,
            "opening clipboard"@,
            e,
        ),
        (Stage::Writing, InsertEvent::Did(Ok(_))) => only_stage(before, after, Stage::Settling)
            && action == InsertAction::Wait(CLIPBOARD_SETTLE_MS),
        (Stage::Writing, InsertEvent::Did(Err(e))) => given_up(
            after,
            action,
            "writing to clipboard"@,
            e,
        ),
        (Stage::Settling, InsertEvent::Did(_)) => only_stage(before, after, Stage::Simulating)
            && action is Simulate,
        (Stage::Simulating, InsertEvent::Did(Ok(_))) => only_stage(before, after, Stage::Pressing)
            && action is Press,
        (Stage::Simulating, InsertEvent::Did(Err(e))) => paste_failed(
            before,
            after,
            action,
            "creating input simulator"@,
            e,
        ),
        (Stage::Pressing, InsertEvent::Did(Ok(_))) => only_stage(before, after, Stage::Clicking)
            && action is Click,
        (Stage::Pressing, InsertEvent::Did(Err(e))) => paste_failed(
            before,
            after,
            action,
            "pressing Cmd — is Accessibility granted?"@,
            e,
        ),
        // The modifier is released even where the click failed, or it would stay down for the
        // whole system.
        (Stage::Clicking, InsertEvent::Did(r)) => {
            &&& after.stage is Releasing
            &&& after.text == before.text
            &&& after.previous == before.previous
            &&& action is Release
            &&& match r {
                Ok(_) => after.outcome == before.outcome,
                Err(e) => fails(after.outcome, download::explained("pressing V"@, e@)),
            }
        },
        // Of two failures the first counts.
        (Stage::Releasing, InsertEvent::Did(r)) => {
            &&& after.stage is Pasted
            &&& after.text == before.text
            &&& after.previous == before.previous
            &&& action == InsertAction::Wait(PASTE_SETTLE_MS)
            &&& match (before.outcome, r) {
                (Ok(_), Err(e)) => fails(
                    after.outcome,
                    download::explained("releasing Cmd"@, e@),
                ),
                _ => after.outcome == before.outcome,
            }
        },
        (Stage::Pasted, InsertEvent::Did(_)) => settled(before, after, action),
        (Stage::Restoring, InsertEvent::Did(_)) => only_stage(before, after, Stage::Done) && action
            == InsertAction::Done(before.outcome),
        _ => true,
    }
}

/// Whether the event answers the last action.
pub open spec fn answers(stage: Stage, event: InsertEvent) -> bool {
    match event {
        InsertEvent::Opened(_) => stage is Opening,
        InsertEvent::Did(_) => stage !is Opening && stage !is Done,
    }
}

/// Begins the insertion of `text`. Nothing is done for an empty text.
pub fn insert(text: &str) -> (r: (Insertion, InsertAction))
    ensures
        r.0.text@ == text@,
        r.0.previous is None,
        r.0.outcome is Ok,
        text@.len() == 0 ==> r.0.stage is Done && r.1 == InsertAction::Done(Ok(())),
        text@.len() > 0 ==> r.0.stage is Opening && r.1 is Open,
{
    let text: String = text.to_owned();
    if text.as_str().is_empty() {
        let over: Insertion = Insertion { stage: Stage::Done, text, previous: None, outcome: Ok(()) };
        return (over, InsertAction::Done(Ok(())));
    }
    (
        Insertion { stage: Stage::Opening, text, previous: None, outcome: Ok(()) },
        InsertAction::Open,
    )
}

fn copied(r: &Result<(), String>) -> (out: Result<(), String>)
    ensures
        out == *r,
{
    match r {
        Ok(u) => Ok(*u),
        Err(e) => Err(e.clone()),
    }
}

impl Insertion {
    /// Takes how the last action went and says what to do next.
    pub fn next(&mut self, event: InsertEvent) -> (action: InsertAction)
        requires
            answers(old(self).stage, event),
        ensures
            stepped(*old(self), event, *final(self), action),
    {
        match event {
            InsertEvent::Opened(r) => match r {
                Ok(previous) => {
                    self.previous = previous;
                    self.stage = Stage::Writing;
                    InsertAction::Write(self.text.clone())
                },
                Err(e) => {
                    self.stage = Stage::Done;
                    InsertAction::Done(Err(explain("opening clipboard", e.as_str())))
                },
            },
            InsertEvent::Did(r) => self.went_on(r),
        }
    }

    fn went_on(&mut self, r: Result<(), String>) -> (action: InsertAction)
        requires
            answers(old(self).stage, InsertEvent::Did(r)),
        ensures
            stepped(*old(self), InsertEvent::Did(r), *final(self), action),
    {
        match self.stage {
            Stage::Writing => match r {
                Ok(_) => {
                    self.stage = Stage::Settling;
                    InsertAction::Wait(CLIPBOARD_SETTLE_MS)
                },
                Err(e) => {
                    self.stage = Stage::Done;
                    InsertAction::Done(Err(explain("writing to clipboard", e.as_str())))
                },
            },
            Stage::Settling => {
                self.stage = Stage::Simulating;
                InsertAction::Simulate
            },
            Stage::Simulating => match r {
                Ok(_) => {
                    self.stage = Stage::Pressing;
                    InsertAction::Press
                },
                Err(e) => self.failed("creating input simulator", e),
            },
            Stage::Pressing => match r {
                Ok(_) => {
                    self.stage = Stage::Clicking;
                    InsertAction::Click
                },
                Err(e) => self.failed("pressing Cmd — is Accessibility granted?", e),
            },
            Stage::Clicking => {
                self.stage = Stage::Releasing;
                if let Err(e) = r {
                    self.outcome = Err(explain("pressing V", e.as_str()));
                }
                InsertAction::Release
            },
            Stage::Releasing => {
                self.stage = Stage::Pasted;
                if self.outcome.is_ok() {
                    if let Err(e) = r {
                        self.outcome = Err(explain("releasing Cmd", e.as_str()));
                    }
                }
                InsertAction::Wait(PASTE_SETTLE_MS)
            },
            Stage::Pasted => match (&self.outcome, &self.previous) {
                (Ok(_), Some(p)) => {
                    let back: String = p.clone();
                    self.stage = Stage::Restoring;
                    InsertAction::Restore(back)
                },
                _ => {
                    self.stage = Stage::Done;
                    InsertAction::Done(copied(&self.outcome))
                },
            },
            _ => {
                self.stage = Stage::Done;
                InsertAction::Done(copied(&self.outcome))
            },
        }
    }

    fn failed(&mut self, doing: &str, error: String) -> (action: InsertAction)
        ensures
            paste_failed(*old(self), *final(self), action, doing@, error),
    {
        self.stage = Stage::Pasted;
        self.outcome = Err(explain(doing, error.as_str()));
        InsertAction::Wait(PASTE_SETTLE_MS)
    }
}

/// A run: each state follows from the one before by an event that answers, and `actions[i]` is
/// what event `i` led to.
pub open spec fn ran(
    states: Seq<Insertion>,
    events: Seq<InsertEvent>,
    actions: Seq<InsertAction>,
) -> bool {
    &&& states.len() == events.len() + 1
    &&& actions.len() == events.len()
    &&& forall|i: int|
        0 <= i < events.len() ==> answers(states[i].stage, #[trigger] events[i]) && stepped(
            states[i],
            events[i],
            states[i + 1],
            actions[i],
        )
}

/// In a run that begins with the text written to the clipboard, the text and what the clipboard
/// held before do not change.
proof fn lemma_kept_in_a_run(
    states: Seq<Insertion>,
    events: Seq<InsertEvent>,
    actions: Seq<InsertAction>,
    n: int,
)
    requires
        ran(states, events, actions),
        states[0].stage is Writing,
        events.len() > 0,
        events[0] matches InsertEvent::Did(Ok(_)),
        0 <= n <= events.len(),
    ensures
        states[n].text == states[0].text,
        states[n].previous == states[0].previous,
        n > 0 ==> states[n].stage !is Opening && states[n].stage !is Writing,
    decreases n,
{
    if n > 0 {
        lemma_kept_in_a_run(states, events, actions, n - 1);
        assert(stepped(states[n - 1], events[n - 1], states[n], actions[n - 1]));
        assert(answers(states[n - 1].stage, events[n - 1]));
    }
}

/// Once the paste is over its outcome does not change.
proof fn lemma_outcome_is_kept(
    states: Seq<Insertion>,
    events: Seq<InsertEvent>,
    actions: Seq<InsertAction>,
    i: int,
    n: int,
)
    requires
        ran(states, events, actions),
        0 <= i <= n <= events.len(),
        states[i].stage is Pasted || states[i].stage is Restoring || states[i].stage is Done,
    ensures
        states[n].outcome == states[i].outcome,
        states[n].stage is Pasted || states[n].stage is Restoring || states[n].stage is Done,
    decreases n - i,
{
    if i < n {
        lemma_outcome_is_kept(states, events, actions, i, n - 1);
        assert(stepped(states[n - 1], events[n - 1], states[n], actions[n - 1]));
        assert(answers(states[n - 1].stage, events[n - 1]));
    }
}

/// Once the text is on the clipboard, a run whose paste went through gives the clipboard back what
/// it held before.
pub proof fn law_the_clipboard_is_given_back(
    states: Seq<Insertion>,
    events: Seq<InsertEvent>,
    actions: Seq<InsertAction>,
    held: String,
)
    requires
        ran(states, events, actions),
        states[0].stage is Writing,
        states[0].previous == Some(held),
        events.len() > 0,
        events[0] matches InsertEvent::Did(Ok(_)),
        states.last().stage is Done,
        states.last().outcome is Ok,
    ensures
        actions.len() >= 2,
        actions[actions.len() - 2] == InsertAction::Restore(held),
        actions.last() matches InsertAction::Done(Ok(_)),
{
    let n = events.len() as int;
    lemma_kept_in_a_run(states, events, actions, n);
    lemma_kept_in_a_run(states, events, actions, n - 1);
    assert(stepped(states[n - 1], events[n - 1], states[n], actions[n - 1]));
    assert(answers(states[n - 1].stage, events[n - 1]));
    assert(n > 1);
    lemma_kept_in_a_run(states, events, actions, n - 2);
    assert(stepped(states[n - 2], events[n - 2], states[n - 1], actions[n - 2]));
    assert(answers(states[n - 2].stage, events[n - 2]));
}

/// Once the text is on the clipboard, nothing else is written there when the paste fails, or when
/// the clipboard held no text before.
pub proof fn law_words_stay_on_the_clipboard(
    states: Seq<Insertion>,
    events: Seq<InsertEvent>,
    actions: Seq<InsertAction>,
)
    requires
        ran(states, events, actions),
        states[0].stage is Writing,
        events.len() > 0,
        events[0] matches InsertEvent::Did(Ok(_)),
        states.last().outcome is Err || states[0].previous is None,
    ensures
        forall|i: int|
            0 <= i < actions.len() ==> (#[trigger] actions[i]) !is Write && actions[i] !is Restore,
{
    assert forall|i: int| 0 <= i < actions.len() implies (#[trigger] actions[i]) !is Write
        && actions[i] !is Restore by {
        lemma_kept_in_a_run(states, events, actions, i);
        assert(stepped(states[i], events[i], states[i + 1], actions[i]));
        assert(answers(states[i].stage, events[i]));
        if actions[i] is Restore {
            lemma_outcome_is_kept(states, events, actions, i, events.len() as int);
        }
    }
}

/// The text on the clipboard after the first `n` events of a run that found `held` there: a write
/// that went through puts its text there, and one that failed leaves what there was.
pub open spec fn on_clipboard(
    held: Option<Seq<char>>,
    events: Seq<InsertEvent>,
    actions: Seq<InsertAction>,
    n: int,
) -> Option<Seq<char>>
    decreases n,
{
    if n <= 1 {
        held
    } else {
        match (actions[n - 2], events[n - 1]) {
            (InsertAction::Write(t), InsertEvent::Did(Ok(_))) => Some(t@),
            (InsertAction::Restore(t), InsertEvent::Did(Ok(_))) => Some(t@),
            _ => on_clipboard(held, events, actions, n - 1),
        }
    }
}

/// Words are never lost: an insertion that failed after its text was written to the clipboard
/// leaves that text there, whatever the clipboard held before.
pub proof fn law_words_are_never_lost(
    states: Seq<Insertion>,
    events: Seq<InsertEvent>,
    actions: Seq<InsertAction>,
    held: Option<Seq<char>>,
)
    requires
        ran(states, events, actions),
        states[0].stage is Opening,
        events.len() >= 2,
        events[0] matches InsertEvent::Opened(Ok(_)),
        events[1] matches InsertEvent::Did(Ok(_)),
        actions.last() matches InsertAction::Done(Err(_)),
    ensures
        on_clipboard(held, events, actions, events.len() as int) == Some(states[0].text@),
{
    assert(stepped(states[0], events[0], states[1], actions[0]));
    let later_states = states.skip(1);
    let later_events = events.skip(1);
    let later_actions = actions.skip(1);
    assert forall|i: int| 0 <= i < later_events.len() implies answers(
        later_states[i].stage,
        #[trigger] later_events[i],
    ) && stepped(later_states[i], later_events[i], later_states[i + 1], later_actions[i]) by {
        assert(later_events[i] == events[i + 1]);
        assert(later_states[i] == states[i + 1]);
        assert(later_states[i + 1] == states[i + 2]);
        assert(later_actions[i] == actions[i + 1]);
    }
    assert(ran(later_states, later_events, later_actions));
    let n = later_events.len() as int;
    assert(stepped(later_states[n - 1], later_events[n - 1], later_states[n], later_actions[n - 1]));
    assert(answers(later_states[n - 1].stage, later_events[n - 1]));
    lemma_kept_in_a_run(later_states, later_events, later_actions, n - 1);
    assert(later_states.last() == later_states[n]);
    assert(later_states.last().outcome is Err);
    law_words_stay_on_the_clipboard(later_states, later_events, later_actions);
    lemma_nothing_more_is_written(held, events, actions, events.len() as int);
}

proof fn lemma_nothing_more_is_written(
    held: Option<Seq<char>>,
    events: Seq<InsertEvent>,
    actions: Seq<InsertAction>,
    n: int,
)
    requires
        2 <= n <= events.len(),
        actions.len() == events.len(),
        forall|i: int|
            0 <= i < actions.skip(1).len() ==> (#[trigger] actions.skip(1)[i]) !is Write
                && actions.skip(1)[i] !is Restore,
    ensures
        on_clipboard(held, events, actions, n) == on_clipboard(held, events, actions, 2),
    decreases n,
{
    if n > 2 {
        assert(actions.skip(1)[n - 3] == actions[n - 2]);
        lemma_nothing_more_is_written(held, events, actions, n - 1);
    }
}

/// Once pressed, the modifier is released whether or not the click went through.
pub proof fn law_the_modifier_never_sticks(
    states: Seq<Insertion>,
    events: Seq<InsertEvent>,
    actions: Seq<InsertAction>,
    i: int,
)
    requires
        ran(states, events, actions),
        0 <= i,
        i + 1 < events.len(),
        actions[i] is Click,
    ensures
        actions[i + 1] is Release,
{
    assert(stepped(states[i], events[i], states[i + 1], actions[i]));
    assert(answers(states[i].stage, events[i]));
    assert(stepped(states[i + 1], events[i + 1], states[i + 2], actions[i + 1]));
    assert(answers(states[i + 1].stage, events[i + 1]));
}

/// A paste that meets no failure: the text goes to the clipboard as it is, 30 milliseconds later the
/// modifier is pressed, the key clicked and the modifier released, and 150 milliseconds after that
/// what the clipboard held before is put back, if it held a text.
pub proof fn law_a_paste_from_start_to_end(
    states: Seq<Insertion>,
    events: Seq<InsertEvent>,
    actions: Seq<InsertAction>,
    previous: Option<String>,
)
    requires
        ran(states, events, actions),
        states[0].stage is Opening,
        states[0].outcome is Ok,
        events.len() >= 8,
        events[0] == InsertEvent::Opened(Ok(previous)),
        forall|i: int| 0 < i < events.len() ==> (#[trigger] events[i] matches InsertEvent::Did(Ok(_))),
        previous is Some ==> events.len() >= 9,
    ensures
        actions[0] matches InsertAction::Write(t) && t@ == states[0].text@,
        actions[1] == InsertAction::Wait(30),
        actions[2] is Simulate,
        actions[3] is Press,
        actions[4] is Click,
        actions[5] is Release,
        actions[6] == InsertAction::Wait(150),
        previous matches Some(p) ==> actions[7] == InsertAction::Restore(p) && (
        actions[8] matches InsertAction::Done(Ok(_))),
        previous is None ==> (actions[7] matches InsertAction::Done(Ok(_))),
{
    assert(stepped(states[0], events[0], states[1], actions[0]));
    assert(stepped(states[1], events[1], states[2], actions[1]));
    assert(stepped(states[2], events[2], states[3], actions[2]));
    assert(stepped(states[3], events[3], states[4], actions[3]));
    assert(stepped(states[4], events[4], states[5], actions[4]));
    assert(stepped(states[5], events[5], states[6], actions[5]));
    assert(stepped(states[6], events[6], states[7], actions[6]));
    assert(stepped(states[7], events[7], states[8], actions[7]));
    if previous is Some {
        assert(stepped(states[8], events[8], states[9], actions[8]));
    }
}

/// What every failed step says: what was being done, a colon, and the error. Without the clipboard
/// nothing is tried; a paste that fails later still waits before it ends, and of two failures the
/// first is told.
pub proof fn law_what_a_failed_step_says(
    before: Insertion,
    error: String,
    after: Insertion,
    action: InsertAction,
)
    requires
        stepped(
            before,
            if before.stage is Opening {
                InsertEvent::Opened(Err(error))
            } else {
                InsertEvent::Did(Err(error))
            },
            after,
            action,
        ),
        before.stage !is Done,
    ensures
        before.stage is Opening ==> (action matches InsertAction::Done(Err(e)) && e@
            == "opening clipboard"@ + ": "@ + error@),
        before.stage is Writing ==> (action matches InsertAction::Done(Err(e)) && e@
            == "writing to clipboard"@ + ": "@ + error@),
        before.stage is Simulating ==> (after.outcome matches Err(e) && e@
            == "creating input simulator"@ + ": "@ + error@) && action == InsertAction::Wait(150),
        before.stage is Pressing ==> (after.outcome matches Err(e) && e@
            == "pressing Cmd — is Accessibility granted?"@ + ": "@ + error@) && action
            == InsertAction::Wait(150),
        before.stage is Clicking ==> (after.outcome matches Err(e) && e@ == "pressing V"@ + ": "@
            + error@) && action is Release,
        before.stage is Releasing && before.outcome is Ok ==> (after.outcome matches Err(e) && e@
            == "releasing Cmd"@ + ": "@ + error@) && action == InsertAction::Wait(150),
        before.stage is Releasing && before.outcome is Err ==> after.outcome == before.outcome
            && action == InsertAction::Wait(150),
        before.stage is Restoring ==> action == InsertAction::Done(before.outcome),
{
}

} // verus!
