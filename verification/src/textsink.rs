//! Delivery of the transcribed text to the focused app: the choice of
//! method, the clipboard sequence (optionally restoring what was there) and
//! the key sequence of the paste shortcut, whose modifier releases always
//! run.

use vstd::prelude::*;
use crate::ports::PortError;

verus! {

/// How the text reaches the focused app.
#[derive(Clone, Copy, PartialEq, Eq, Debug)]
pub enum PasteMethod {
    /// Clipboard, then Ctrl+V.
    Paste,
    /// Clipboard, then Ctrl+Shift+V (terminals).
    CtrlShiftV,
    /// Synthetic typing, key by key.
    Type,
    /// The `wtype` program (Wayland).
    Wtype,
}

/// Which paste shortcut to emit.
#[derive(Clone, Copy, PartialEq, Eq, Debug)]
pub enum PasteShortcut {
    CtrlV,
    CtrlShiftV,
}

/// A modifier key of a shortcut.
#[derive(Clone, Copy, PartialEq, Eq, Debug)]
pub enum Modifier {
    Control,
    Shift,
}

/// The modifiers of a shortcut, in the order they are pressed.
pub open spec fn modifiers_of(s: PasteShortcut) -> Seq<Modifier> {
    match s {
        PasteShortcut::CtrlV => seq![Modifier::Control],
        PasteShortcut::CtrlShiftV => seq![Modifier::Control, Modifier::Shift],
    }
}

fn modifier_at(s: PasteShortcut, i: usize) -> (m: Modifier)
    requires
        i < modifiers_of(s).len(),
    ensures
        m == modifiers_of(s)[i as int],
{
    match s {
        PasteShortcut::CtrlV => Modifier::Control,
        PasteShortcut::CtrlShiftV => if i == 0 { Modifier::Control } else { Modifier::Shift },
    }
}

fn modifier_count(s: PasteShortcut) -> (n: usize)
    ensures
        n == modifiers_of(s).len(),
{
    match s {
        PasteShortcut::CtrlV => 1,
        PasteShortcut::CtrlShiftV => 2,
    }
}

/// Where the shortcut's key sequence stands.
#[derive(Clone, Copy, PartialEq, Eq, Debug)]
pub enum KeyPhase {
    /// Pressing modifier `i`.
    Pressing(usize),
    /// Clicking the 'v' key.
    Clicking,
    /// Releasing modifiers; `r` are still held (released last first).
    Releasing(usize),
    Done,
}

/// The next key event to emit.
#[derive(Clone, Copy, PartialEq, Eq, Debug)]
pub enum KeyAction {
    Press(Modifier),
    ClickV,
    Release(Modifier),
    Finished,
}

/// The key sequence of a paste shortcut: press the modifiers in order,
/// click 'v', then release every modifier in reverse order. A failed press
/// or click stops the pressing (and skips the click), but the releases
/// always run: a modifier left held would stay held in the X server.
pub struct PasteKeys {
    pub shortcut: PasteShortcut,
    pub phase: KeyPhase,
    /// The error of the press or click that failed.
    pub press_error: Option<String>,
    /// The first error among the releases.
    pub release_error: Option<String>,
}

pub open spec fn key_action(k: PasteKeys) -> KeyAction {
    match k.phase {
        KeyPhase::Pressing(i) => KeyAction::Press(modifiers_of(k.shortcut)[i as int]),
        KeyPhase::Clicking => KeyAction::ClickV,
        KeyPhase::Releasing(r) => KeyAction::Release(modifiers_of(k.shortcut)[r - 1]),
        KeyPhase::Done => KeyAction::Finished,
    }
}

/// The state's indices are in range.
pub open spec fn keys_wf(k: PasteKeys) -> bool {
    match k.phase {
        KeyPhase::Pressing(i) => i < modifiers_of(k.shortcut).len(),
        KeyPhase::Releasing(r) => 1 <= r <= modifiers_of(k.shortcut).len(),
        _ => true,
    }
}

/// The state after the outcome of the current action is reported.
pub open spec fn key_step(k: PasteKeys, outcome: Result<(), String>) -> PasteKeys {
    let n = modifiers_of(k.shortcut).len();
    match k.phase {
        KeyPhase::Pressing(i) => match outcome {
            Ok(()) => PasteKeys {
                phase: if i + 1 < n { KeyPhase::Pressing((i + 1) as usize) } else { KeyPhase::Clicking },
                ..k
            },
            Err(e) => PasteKeys { phase: KeyPhase::Releasing(n as usize), press_error: Some(e), ..k },
        },
        KeyPhase::Clicking => match outcome {
            Ok(()) => PasteKeys { phase: KeyPhase::Releasing(n as usize), ..k },
            Err(e) => PasteKeys { phase: KeyPhase::Releasing(n as usize), press_error: Some(e), ..k },
        },
        KeyPhase::Releasing(r) => PasteKeys {
            phase: if r > 1 { KeyPhase::Releasing((r - 1) as usize) } else { KeyPhase::Done },
            release_error: match (k.release_error, outcome) {
                (None, Err(e)) => Some(e),
                (prev, _) => prev,
            },
            ..k
        },
        KeyPhase::Done => k,
    }
}

/// The result once done: the press or click error if any, else the first
/// release error, else success.
pub open spec fn keys_result(k: PasteKeys) -> Result<(), String> {
    match k.press_error {
        Some(e) => Err(e),
        None => match k.release_error {
            Some(e) => Err(e),
            None => Ok(()),
        },
    }
}

/// The key events emitted from state `k` when the outcomes `outs` are
/// reported in turn, until the sequence is done.
pub open spec fn key_run(k: PasteKeys, outs: Seq<Result<(), String>>) -> Seq<KeyAction>
    decreases outs.len(),
{
    if k.phase == KeyPhase::Done || outs.len() == 0 {
        Seq::empty()
    } else {
        seq![key_action(k)] + key_run(key_step(k, outs[0]), outs.drop_first())
    }
}

/// The state reached from `k` after the outcomes `outs`.
pub open spec fn key_final(k: PasteKeys, outs: Seq<Result<(), String>>) -> PasteKeys
    decreases outs.len(),
{
    if k.phase == KeyPhase::Done || outs.len() == 0 {
        k
    } else {
        key_final(key_step(k, outs[0]), outs.drop_first())
    }
}

/// The releases of the first `r` modifiers, last first.
pub open spec fn releases(mods: Seq<Modifier>, r: nat) -> Seq<KeyAction>
    decreases r,
{
    if r == 0 {
        Seq::empty()
    } else {
        seq![KeyAction::Release(mods[r - 1])] + releases(mods, (r - 1) as nat)
    }
}

impl PasteKeys {
    pub fn new(shortcut: PasteShortcut) -> (r: Self)
        ensures
            r.shortcut == shortcut,
            r.phase == KeyPhase::Pressing(0),
            r.press_error is None,
            r.release_error is None,
            keys_wf(r),
    {
        PasteKeys { shortcut, phase: KeyPhase::Pressing(0), press_error: None, release_error: None }
    }

    /// The key event to emit now.
    pub fn next_action(&self) -> (a: KeyAction)
        requires
            keys_wf(*self),
        ensures
            a == key_action(*self),
    {
        match self.phase {
            KeyPhase::Pressing(i) => KeyAction::Press(modifier_at(self.shortcut, i)),
            KeyPhase::Clicking => KeyAction::ClickV,
            KeyPhase::Releasing(r) => KeyAction::Release(modifier_at(self.shortcut, r - 1)),
            KeyPhase::Done => KeyAction::Finished,
        }
    }

    /// Reports the outcome of the event just emitted.
    pub fn report(&mut self, outcome: Result<(), String>)
        requires
            keys_wf(*old(self)),
        ensures
            *final(self) == key_step(*old(self), outcome),
            keys_wf(*final(self)),
    {
        let n = modifier_count(self.shortcut);
        match self.phase {
            KeyPhase::Pressing(i) => match outcome {
                Ok(()) => {
                    self.phase = if i + 1 < n { KeyPhase::Pressing(i + 1) } else { KeyPhase::Clicking };
                },
                Err(e) => {
                    self.phase = KeyPhase::Releasing(n);
                    self.press_error = Some(e);
                },
            },
            KeyPhase::Clicking => match outcome {
                Ok(()) => {
                    self.phase = KeyPhase::Releasing(n);
                },
                Err(e) => {
                    self.phase = KeyPhase::Releasing(n);
                    self.press_error = Some(e);
                },
            },
            KeyPhase::Releasing(r) => {
                self.phase = if r > 1 { KeyPhase::Releasing(r - 1) } else { KeyPhase::Done };
                if self.release_error.is_none() {
                    if let Err(e) = outcome {
                        self.release_error = Some(e);
                    }
                }
            },
            KeyPhase::Done => {},
        }
    }

    /// Whether the sequence is over.
    pub fn is_done(&self) -> (r: bool)
        ensures
            r == (self.phase == KeyPhase::Done),
    {
        match self.phase {
            KeyPhase::Done => true,
            _ => false,
        }
    }

    /// The outcome of the paste once the sequence is over: the press or
    /// click error if any, else the first release error, each as
    /// `PortError::DeliveryFailed`.
    pub fn outcome(&self) -> (r: Result<(), PortError>)
        ensures
            match keys_result(*self) {
                Ok(()) => r is Ok,
                Err(e) => r == Err::<(), PortError>(PortError::DeliveryFailed(e)),
            },
    {
        match &self.press_error {
            Some(e) => Err(PortError::DeliveryFailed(e.clone())),
            None => match &self.release_error {
                Some(e) => Err(PortError::DeliveryFailed(e.clone())),
                None => Ok(()),
            },
        }
    }
}

proof fn lemma_releases_len(mods: Seq<Modifier>, r: nat)
    ensures
        releases(mods, r).len() == r,
    decreases r,
{
    if r > 0 {
        lemma_releases_len(mods, (r - 1) as nat);
    }
}

proof fn lemma_release_run(k: PasteKeys, outs: Seq<Result<(), String>>)
    requires
        keys_wf(k),
        k.phase matches KeyPhase::Releasing(r) && outs.len() >= r,
    ensures
        key_run(k, outs) == releases(modifiers_of(k.shortcut), k.phase->Releasing_0 as nat),
        key_final(k, outs).phase == KeyPhase::Done,
        key_final(k, outs).press_error == k.press_error,
    decreases outs.len(),
{
    let r = k.phase->Releasing_0;
    let next = key_step(k, outs[0]);
    let rest = outs.drop_first();
    assert(key_run(k, outs) == seq![key_action(k)] + key_run(next, rest));
    assert(key_final(k, outs) == key_final(next, rest));
    let mods = modifiers_of(k.shortcut);
    assert(releases(mods, r as nat) == seq![KeyAction::Release(mods[r - 1])] + releases(mods, (r - 1) as nat));
    if r > 1 {
        lemma_release_run(next, rest);
    } else {
        assert(next.phase == KeyPhase::Done);
        assert(key_run(next, rest) == Seq::<KeyAction>::empty());
        assert(key_final(next, rest) == next);
        assert(releases(mods, 0) == Seq::<KeyAction>::empty());
    }
    assert(key_run(k, outs) =~= releases(mods, r as nat));
}

/// Whatever each press, click and release reports, the key sequence of a
/// paste shortcut ends by releasing every modifier of the shortcut, last
/// pressed first, and nothing is released before that; it is then done. With
/// enough outcomes (one per event), the run is: the presses attempted, the
/// click when every press succeeded, then all the releases.
pub proof fn lemma_modifiers_always_released(shortcut: PasteShortcut, outs: Seq<Result<(), String>>)
    requires
        outs.len() >= 2 * modifiers_of(shortcut).len() + 1,
    ensures
        ({
            let start = PasteKeys { shortcut, phase: KeyPhase::Pressing(0), press_error: None, release_error: None };
            let run = key_run(start, outs);
            let n = modifiers_of(shortcut).len();
            &&& run.len() >= n
            &&& run.subrange(run.len() - n, run.len() as int) == releases(modifiers_of(shortcut), n)
            &&& forall|x: int| 0 <= x < run.len() - n ==> !(#[trigger] run[x] is Release)
            &&& key_final(start, outs).phase == KeyPhase::Done
        }),
{
    let start = PasteKeys { shortcut, phase: KeyPhase::Pressing(0), press_error: None, release_error: None };
    lemma_press_run(start, outs);
}

/// From a pressing or clicking state with enough outcomes, the run is some
/// events that are not releases, then all the releases.
proof fn lemma_press_run(k: PasteKeys, outs: Seq<Result<(), String>>)
    requires
        keys_wf(k),
        k.phase is Pressing || k.phase is Clicking,
        outs.len() >= modifiers_of(k.shortcut).len() + (match k.phase {
            KeyPhase::Pressing(i) => modifiers_of(k.shortcut).len() - i + 1,
            _ => 1,
        }),
    ensures
        ({
            let run = key_run(k, outs);
            let n = modifiers_of(k.shortcut).len();
            &&& run.len() >= n
            &&& run.subrange(run.len() - n, run.len() as int) == releases(modifiers_of(k.shortcut), n)
            &&& forall|x: int| 0 <= x < run.len() - n ==> !(#[trigger] run[x] is Release)
            &&& key_final(k, outs).phase == KeyPhase::Done
        }),
    decreases outs.len(),
{
    let n = modifiers_of(k.shortcut).len();
    let next = key_step(k, outs[0]);
    let rest = outs.drop_first();
    let run = key_run(k, outs);
    assert(run == seq![key_action(k)] + key_run(next, rest));
    assert(key_final(k, outs) == key_final(next, rest));
    if next.phase is Releasing {
        lemma_release_run(next, rest);
        lemma_releases_len(modifiers_of(k.shortcut), n);
        assert(run.subrange(run.len() - n, run.len() as int) =~= key_run(next, rest));
        assert forall|x: int| 0 <= x < run.len() - n implies !(#[trigger] run[x] is Release) by {
            assert(x == 0);
        }
    } else {
        lemma_press_run(next, rest);
        let sub = key_run(next, rest);
        assert(run.subrange(run.len() - n, run.len() as int) =~= sub.subrange(sub.len() - n, sub.len() as int));
        assert forall|x: int| 0 <= x < run.len() - n implies !(#[trigger] run[x] is Release) by {
            if x > 0 {
                assert(run[x] == sub[x - 1]);
            }
        }
    }
}


/// Wait before putting the previous clipboard back, so that the target app
/// has fetched the pasted selection (X11 delivers it asynchronously).
pub const RESTORE_DELAY_MS: u64 = 400;

/// Delivers text to the focused app with the configured method.
pub struct ClipboardPasteSink {
    pub method: PasteMethod,
    /// Put the previous clipboard text back after pasting (off by default:
    /// the transcribed text stays on the clipboard, so the user can still
    /// paste it by hand).
    pub restore_clipboard: bool,
}

/// Where a delivery stands.
pub enum DeliveryState {
    Start,
    /// Reading the clipboard to restore it later.
    ReadingPrevious,
    /// Putting the text on the clipboard; the previous text, if kept.
    SettingText { previous: Option<String> },
    /// Emitting the paste shortcut.
    Pasting { previous: Option<String> },
    /// Waiting before restoring the previous text.
    Waiting { previous: String },
    /// Putting the previous text back.
    Restoring,
    /// Typing the text, or handing it to `wtype`.
    Direct,
    Finished(Result<(), PortError>),
}

/// The outside work a delivery asks for next.
pub enum DeliveryAction {
    /// Read the clipboard's text (none if empty or not text).
    ReadClipboard,
    /// Put this text on the clipboard, kept alive after the call.
    SetClipboard(String),
    /// Emit the shortcut (see `PasteKeys`).
    PressShortcut(PasteShortcut),
    /// Sleep this many milliseconds.
    Wait(u64),
    /// Put this text back on the clipboard; the outcome does not matter.
    RestoreClipboard(String),
    /// Type the text key by key.
    TypeText(String),
    /// Run `wtype -- <text>`.
    RunWtype(String),
    /// Nothing more: the delivery's result is in the state.
    Finished,
}

/// What the outside work reported.
pub enum DeliveryEvent {
    /// The delivery begins.
    Begin,
    /// The clipboard's text, if it held text.
    ClipboardRead(Option<String>),
    /// The outcome of the requested action.
    Completed(Result<(), PortError>),
}

/// The delivery only waits on or restores a previous clipboard when
/// restoring is on and the method goes through the clipboard.
pub open spec fn delivery_wf(sink: ClipboardPasteSink, st: DeliveryState) -> bool {
    let via_clipboard = sink.method == PasteMethod::Paste || sink.method == PasteMethod::CtrlShiftV;
    match st {
        DeliveryState::ReadingPrevious => sink.restore_clipboard && via_clipboard,
        DeliveryState::SettingText { previous } => via_clipboard && (previous is Some ==> sink.restore_clipboard),
        DeliveryState::Pasting { previous } => via_clipboard && (previous is Some ==> sink.restore_clipboard),
        DeliveryState::Waiting { .. } => sink.restore_clipboard && via_clipboard,
        DeliveryState::Restoring => sink.restore_clipboard && via_clipboard,
        DeliveryState::Direct => !via_clipboard,
        _ => true,
    }
}

pub open spec fn shortcut_of(m: PasteMethod) -> PasteShortcut {
    if m == PasteMethod::CtrlShiftV { PasteShortcut::CtrlShiftV } else { PasteShortcut::CtrlV }
}

fn owned(s: &str) -> (r: String)
    ensures
        r@ == s@,
{
    s.to_owned()
}

impl Default for ClipboardPasteSink {
    /// The default sink: paste with Ctrl+V, without restoring the clipboard.
    fn default() -> (r: Self)
        ensures
            r.method == PasteMethod::Paste,
            !r.restore_clipboard,
    {
        Self::new()
    }
}

impl ClipboardPasteSink {
    /// Paste through the clipboard with Ctrl+V, without restoring it.
    pub fn new() -> (r: Self)
        ensures
            r.method == PasteMethod::Paste,
            !r.restore_clipboard,
    {
        ClipboardPasteSink { method: PasteMethod::Paste, restore_clipboard: false }
    }

    /// A sink configured from the user's preferences.
    pub fn with_config(method: PasteMethod, restore_clipboard: bool) -> (r: Self)
        ensures
            r.method == method,
            r.restore_clipboard == restore_clipboard,
    {
        ClipboardPasteSink { method, restore_clipboard }
    }

    /// One step of the delivery of `text`: from the state and what the last
    /// action reported, the next state and the next action.
    ///
    /// - Paste / Ctrl+Shift+V: (read the clipboard, when restoring is on),
    ///   put the text on the clipboard, emit the shortcut, and, when a
    ///   previous text was read, wait 400 ms and put it back. A failure to
    ///   set the clipboard or to paste ends the delivery with that error; a
    ///   failure to restore does not (the text was already pasted).
    /// - Type / wtype: one action, whose outcome is the delivery's.
    pub fn delivery_step(&self, text: &str, st: DeliveryState, ev: DeliveryEvent) -> (r: (DeliveryState, DeliveryAction))
        requires
            delivery_wf(*self, st),
        ensures
            delivery_wf(*self, r.0),
            r.1 is RestoreClipboard ==> self.restore_clipboard,
            r.1 is ReadClipboard ==> self.restore_clipboard,
            r.1 is Finished <==> r.0 is Finished,
            match st {
                DeliveryState::Start => match self.method {
                    PasteMethod::Paste | PasteMethod::CtrlShiftV => if self.restore_clipboard {
                        r.0 == DeliveryState::ReadingPrevious && r.1 is ReadClipboard
                    } else {
                        r.0 == (DeliveryState::SettingText { previous: None })
                            && (r.1 matches DeliveryAction::SetClipboard(t) && t@ == text@)
                    },
                    PasteMethod::Type => r.0 == DeliveryState::Direct && (r.1 matches DeliveryAction::TypeText(t) && t@
                        == text@),
                    PasteMethod::Wtype => r.0 == DeliveryState::Direct && (r.1 matches DeliveryAction::RunWtype(t) && t@
                        == text@),
                },
                DeliveryState::ReadingPrevious => {
                    &&& r.0 == (DeliveryState::SettingText {
                        previous: match ev {
                            DeliveryEvent::ClipboardRead(p) => p,
                            _ => None,
                        },
                    })
                    &&& r.1 matches DeliveryAction::SetClipboard(t) && t@ == text@
                },
                DeliveryState::SettingText { previous } => match ev {
                    DeliveryEvent::Completed(Err(e)) => r.0 == DeliveryState::Finished(Err(e)),
                    _ => r.0 == (DeliveryState::Pasting { previous }) && r.1 == DeliveryAction::PressShortcut(
                        shortcut_of(self.method),
                    ),
                },
                DeliveryState::Pasting { previous } => match ev {
                    DeliveryEvent::Completed(Err(e)) => r.0 == DeliveryState::Finished(Err(e)),
                    _ => match previous {
                        Some(p) => r.0 == (DeliveryState::Waiting { previous: p }) && r.1 == DeliveryAction::Wait(
                            RESTORE_DELAY_MS,
                        ),
                        None => r.0 == DeliveryState::Finished(Ok(())),
                    },
                },
                DeliveryState::Waiting { previous } => r.0 == DeliveryState::Restoring && r.1
                    == DeliveryAction::RestoreClipboard(previous),
                DeliveryState::Restoring => r.0 == DeliveryState::Finished(Ok(())),
                DeliveryState::Direct => match ev {
                    DeliveryEvent::Completed(res) => r.0 == DeliveryState::Finished(res),
                    _ => r.0 == DeliveryState::Finished(Ok(())),
                },
                DeliveryState::Finished(res) => r.0 == DeliveryState::Finished(res),
            },
    {
        match st {
            DeliveryState::Start => match self.method {
                PasteMethod::Paste | PasteMethod::CtrlShiftV => {
                    if self.restore_clipboard {
                        (DeliveryState::ReadingPrevious, DeliveryAction::ReadClipboard)
                    } else {
                        (DeliveryState::SettingText { previous: None }, DeliveryAction::SetClipboard(owned(text)))
                    }
                },
                PasteMethod::Type => (DeliveryState::Direct, DeliveryAction::TypeText(owned(text))),
                PasteMethod::Wtype => (DeliveryState::Direct, DeliveryAction::RunWtype(owned(text))),
            },
            DeliveryState::ReadingPrevious => {
                let previous = match ev {
                    DeliveryEvent::ClipboardRead(p) => p,
                    _ => None,
                };
                (DeliveryState::SettingText { previous }, DeliveryAction::SetClipboard(owned(text)))
            },
            DeliveryState::SettingText { previous } => match ev {
                DeliveryEvent::Completed(Err(e)) => (DeliveryState::Finished(Err(e)), DeliveryAction::Finished),
                _ => {
                    let shortcut = match self.method {
                        PasteMethod::CtrlShiftV => PasteShortcut::CtrlShiftV,
                        _ => PasteShortcut::CtrlV,
                    };
                    (DeliveryState::Pasting { previous }, DeliveryAction::PressShortcut(shortcut))
                },
            },
            DeliveryState::Pasting { previous } => match ev {
                DeliveryEvent::Completed(Err(e)) => (DeliveryState::Finished(Err(e)), DeliveryAction::Finished),
                _ => match previous {
                    Some(p) => (DeliveryState::Waiting { previous: p }, DeliveryAction::Wait(RESTORE_DELAY_MS)),
                    None => (DeliveryState::Finished(Ok(())), DeliveryAction::Finished),
                },
            },
            DeliveryState::Waiting { previous } => {
                let back = previous.clone();
                (DeliveryState::Restoring, DeliveryAction::RestoreClipboard(back))
            },
            DeliveryState::Restoring => (DeliveryState::Finished(Ok(())), DeliveryAction::Finished),
            DeliveryState::Direct => match ev {
                DeliveryEvent::Completed(res) => (DeliveryState::Finished(res), DeliveryAction::Finished),
                _ => (DeliveryState::Finished(Ok(())), DeliveryAction::Finished),
            },
            DeliveryState::Finished(res) => (DeliveryState::Finished(res), DeliveryAction::Finished),
        }
    }
}

} // verus!
