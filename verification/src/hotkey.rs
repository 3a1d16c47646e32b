//! Binding the hotkey: an ordinary shortcut, or a tap on a single key.

use vstd::prelude::*;

use crate::specialkey::SpecialKey;

verus! {

/// Whether a text is an accelerator: modifiers and then one key, joined by plus signs, or one key
/// alone.
pub uninterp spec fn accelerator_parses(accelerator: Seq<char>) -> bool;

/// `<HotKey as FromStr>::from_str` of the crate `global-hotkey`, as far as it succeeds. Which
/// texts it takes depends on the text alone; the grammar itself stays unsaid.
#[verifier::external_body]
fn accelerator_is_valid(accelerator: &str) -> (valid: bool)
    ensures
        valid == accelerator_parses(accelerator@),
{
    accelerator.parse::<global_hotkey::hotkey::HotKey>().is_ok()
}

/// What is bound.
#[derive(Debug)]
pub struct Binding {
    /// The shortcut that is registered. It has to be unregistered before another is bound: left
    /// alone it stays live, and can make the new one fail silently.
    pub bound: Option<String>,
    /// The key that a tap watches.
    pub special: Option<SpecialKey>,
}

/// What to do, in order.
#[derive(Debug)]
pub enum BindAction {
    Unregister(String),
    /// Stop the tap.
    StopTap,
    /// Start a tap on a key.
    StartTap(SpecialKey),
    Register(String),
    /// Set the status line to its resting text.
    Ready,
    /// Set the status line.
    Status(&'static str),
}

/// What an action holds.
pub enum BindView {
    Unregister(Seq<char>),
    StopTap,
    StartTap(SpecialKey),
    Register(Seq<char>),
    Ready,
    Status(Seq<char>),
}

impl View for BindAction {
    type V = BindView;

    open spec fn view(&self) -> BindView {
        match *self {
            BindAction::Unregister(a) => BindView::Unregister(a@),
            BindAction::StopTap => BindView::StopTap,
            BindAction::StartTap(k) => BindView::StartTap(k),
            BindAction::Register(a) => BindView::Register(a@),
            BindAction::Ready => BindView::Ready,
            BindAction::Status(s) => BindView::Status(s@),
        }
    }
}

/// What a list of actions holds.
pub open spec fn views(actions: Seq<BindAction>) -> Seq<BindView> {
    Seq::new(actions.len(), |i: int| actions[i]@)
}

/// Taking down whatever is bound.
pub open spec fn released(b: Binding) -> Seq<BindView> {
    (match b.bound {
        Some(old) => seq![BindView::Unregister(old@)],
        None => seq![],
    }) + (if b.special is Some {
        seq![BindView::StopTap]
    } else {
        seq![]
    })
}

/// The key that an accelerator names, if it names one of the two.
pub open spec fn special_key(accelerator: Seq<char>) -> Option<SpecialKey> {
    if accelerator == SpecialKey::Fn.named() {
        Some(SpecialKey::Fn)
    } else if accelerator == SpecialKey::CapsLock.named() {
        Some(SpecialKey::CapsLock)
    } else {
        None
    }
}

/// Putting up the new binding. `taps` is whether taps exist on this system, `valid` whether the
/// text is an accelerator.
pub open spec fn bound_anew(accelerator: Seq<char>, taps: bool, valid: bool) -> Seq<BindView> {
    if taps && special_key(accelerator) is Some {
        seq![BindView::StartTap(special_key(accelerator)->0), BindView::Ready]
    } else if valid {
        seq![BindView::Register(accelerator)]
    } else {
        seq![BindView::Status("Invalid shortcut"@)]
    }
}

/// The key that is tapped for an accelerator.
pub open spec fn tapped(accelerator: Seq<char>, taps: bool) -> Option<SpecialKey> {
    if taps {
        special_key(accelerator)
    } else {
        None
    }
}

impl Binding {
    /// Nothing is bound.
    pub fn new() -> (b: Binding)
        ensures
            b == (Binding { bound: None, special: None }),
    {
        Binding { bound: None, special: None }
    }

    fn release(&mut self) -> (actions: Vec<BindAction>)
        ensures
            *final(self) == (Binding { bound: None, special: None }),
            views(actions@) == released(*old(self)),
    {
        let mut actions: Vec<BindAction> = Vec::new();
        if let Some(old_one) = self.bound.take() {
            actions.push(BindAction::Unregister(old_one));
        }
        if self.special.is_some() {
            actions.push(BindAction::StopTap);
        }
        self.special = None;
        assert(views(actions@) =~= released(*old(self)));
        actions
    }

    /// Binds `accelerator` in place of what was bound; `valid` is whether it is an accelerator.
    pub fn bind(&mut self, accelerator: &str, taps: bool, valid: bool) -> (actions: Vec<BindAction>)
        ensures
            *final(self) == (Binding { bound: None, special: tapped(accelerator@, taps) }),
            views(actions@) == released(*old(self)) + bound_anew(accelerator@, taps, valid),
    {
        let mut actions: Vec<BindAction> = self.release();
        proof {
            SpecialKey::law_names_differ();
        }
        let key: Option<SpecialKey> = SpecialKey::parse(accelerator);
        assert(key == special_key(accelerator@)) by {
            if key is None {
                assert(SpecialKey::Fn.named() != accelerator@);
                assert(SpecialKey::CapsLock.named() != accelerator@);
            }
        }
        if taps {
            if let Some(k) = key {
                self.special = Some(k);
                actions.push(BindAction::StartTap(k));
                actions.push(BindAction::Ready);
                assert(views(actions@) =~= released(*old(self)) + bound_anew(
                    accelerator@,
                    taps,
                    valid,
                ));
                return actions;
            }
        }
        if valid {
            actions.push(BindAction::Register(accelerator.to_owned()));
        } else {
            actions.push(BindAction::Status("Invalid shortcut"));
        }
        assert(views(actions@) =~= released(*old(self)) + bound_anew(accelerator@, taps, valid));
        actions
    }

    /// Binds `accelerator` in place of what was bound.
    ///
    /// A binding that fails silently is the worst outcome: the key falls through to the focused
    /// application and types characters into the user's document.
    pub fn rebind(&mut self, accelerator: &str, taps: bool) -> (actions: Vec<BindAction>)
        ensures
            *final(self) == (Binding { bound: None, special: tapped(accelerator@, taps) }),
            views(actions@) == released(*old(self)) + bound_anew(
                accelerator@,
                taps,
                accelerator_parses(accelerator@),
            ),
    {
        let valid: bool = accelerator_is_valid(accelerator);
        self.bind(accelerator, taps, valid)
    }

    /// The shortcut was registered, or the system refused it.
    pub fn registered(&mut self, accelerator: &str, ok: bool) -> (action: BindAction)
        ensures
            final(self).special == old(self).special,
            ok ==> action is Ready && (final(self).bound matches Some(a) && a@ == accelerator@),
            !ok ==> action@ == BindView::Status("Shortcut unavailable"@) && final(self).bound == old(
                self,
            ).bound,
    {
        if ok {
            self.bound = Some(accelerator.to_owned());
            BindAction::Ready
        } else {
            BindAction::Status("Shortcut unavailable")
        }
    }

    /// Suspends the hotkey while a new one is being recorded, and binds `accelerator` again
    /// afterwards.
    ///
    /// Otherwise the system would consume the bound combination before the recorder sees it, and
    /// pressing it would start a dictation.
    pub fn set_capture_mode(&mut self, capturing: bool, accelerator: &str, taps: bool) -> (actions: Vec<
        BindAction,
    >)
        ensures
            capturing ==> {
                &&& *final(self) == (Binding { bound: None, special: None })
                &&& views(actions@) == released(*old(self))
            },
            !capturing ==> {
                &&& *final(self) == (Binding { bound: None, special: tapped(accelerator@, taps) })
                &&& views(actions@) == released(*old(self)) + bound_anew(
                    accelerator@,
                    taps,
                    accelerator_parses(accelerator@),
                )
            },
    {
        if capturing {
            self.release()
        } else {
            self.rebind(accelerator, taps)
        }
    }
}

/// At most one thing is ever bound: a new binding begins by taking the old one down, and ends
/// with a shortcut to register or a tap, never both.
pub proof fn law_the_old_binding_goes_first(b: Binding, accelerator: Seq<char>, taps: bool, valid: bool)
    ensures
        ({
            let done = released(b) + bound_anew(accelerator, taps, valid);
            &&& b.bound matches Some(a) ==> done[0] == BindView::Unregister(a@)
            &&& forall|i: int|
                0 <= i < done.len() && ((#[trigger] done[i]) is Register || done[i] is StartTap) ==> i
                    >= released(b).len()
            &&& tapped(accelerator, taps) is Some ==> forall|i: int|
                0 <= i < done.len() ==> (#[trigger] done[i]) !is Register
        }),
{
}

/// No binding fails silently: the last thing done is a registration, whose answer sets the
/// status line, or sets it itself.
pub proof fn law_no_binding_fails_silently(accelerator: Seq<char>, taps: bool, valid: bool)
    ensures
        ({
            let last = bound_anew(accelerator, taps, valid).last();
            last is Register || last is Ready || last is Status
        }),
{
}

/// Whatever was bound is taken down: the shortcut by its name, and the tap.
pub proof fn law_whatever_was_bound_is_released(b: Binding)
    ensures
        b.bound is None && b.special is None ==> released(b).len() == 0,
        b.special is None ==> (b.bound matches Some(a) ==> released(b) == seq![
            BindView::Unregister(a@),
        ]),
        b.bound is None && b.special is Some ==> released(b) == seq![BindView::StopTap],
        b.special is Some ==> (b.bound matches Some(a) ==> released(b) == seq![
            BindView::Unregister(a@),
            BindView::StopTap,
        ]),
{
    match b.bound {
        Some(a) => {
            assert(b.special is Some ==> released(b) =~= seq![
                BindView::Unregister(a@),
                BindView::StopTap,
            ]);
            assert(b.special is None ==> released(b) =~= seq![BindView::Unregister(a@)]);
        },
        None => {
            assert(b.special is Some ==> released(b) =~= seq![BindView::StopTap]);
        },
    }
}

/// What a shortcut is bound as: `Fn` and `CapsLock` are tapped where keys can be, any other text that
/// the parser takes is registered as it is, and what it refuses is said to be invalid.
pub proof fn law_what_a_shortcut_is_bound_as(accelerator: Seq<char>, taps: bool, valid: bool)
    ensures
        taps && accelerator == "Fn"@ ==> bound_anew(accelerator, taps, valid) == seq![
            BindView::StartTap(SpecialKey::Fn),
            BindView::Ready,
        ] && tapped(accelerator, taps) == Some(SpecialKey::Fn),
        taps && accelerator == "CapsLock"@ ==> bound_anew(accelerator, taps, valid) == seq![
            BindView::StartTap(SpecialKey::CapsLock),
            BindView::Ready,
        ] && tapped(accelerator, taps) == Some(SpecialKey::CapsLock),
        !taps || (accelerator != "Fn"@ && accelerator != "CapsLock"@) ==> tapped(
            accelerator,
            taps,
        ) is None && bound_anew(accelerator, taps, true) == seq![BindView::Register(accelerator)]
            && bound_anew(accelerator, taps, false) == seq![
            BindView::Status("Invalid shortcut"@),
        ],
{
    SpecialKey::law_names_differ();
}

/// A list of actions is each of them, in its place.
pub proof fn law_each_action_is_in_its_place(actions: Seq<BindAction>, i: int)
    ensures
        views(actions).len() == actions.len(),
        0 <= i < actions.len() ==> views(actions)[i] == actions[i]@,
{
}

} // verus!
