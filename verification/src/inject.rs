//! Typing text into the focused application by way of the clipboard: save
//! what the clipboard holds, put the text there, wait until the clipboard
//! reads it back (at most 20 checks, 20 ms apart), send the paste
//! keystroke, wait 200 ms for the application to take it, and put the
//! previous clipboard content back.
//!
//! The clipboard, the keystroke and the waiting are the caller's; this
//! module decides the next step from what the last one gave.
use vstd::prelude::*;
use crate::text::str_eq;

verus! {

/// How many times the clipboard is read back before pasting anyway.
pub const MAX_CHECKS: usize = 20;

/// Milliseconds between two clipboard checks.
pub const CHECK_INTERVAL_MS: u64 = 20;

/// Milliseconds given to the application to take the paste.
pub const SETTLE_MS: u64 = 200;

/// The next thing to do.
pub enum PasteAction {
    /// Read the clipboard to remember its content.
    ReadClipboard,
    /// Put the text on the clipboard.
    WriteText,
    /// Read the clipboard to see whether it holds the text yet.
    ReadBack,
    /// Wait this many milliseconds.
    Sleep(u64),
    /// Warn that the clipboard never confirmed the text (the paste goes
    /// ahead).
    WarnUnconfirmed,
    /// Send the paste keystroke.
    Paste,
    /// Put this text back on the clipboard (a failure here is ignored).
    Restore(String),
    /// The text was typed.
    Done,
    /// Stop: the last step failed.
    Fail,
}

/// What the last step gave.
pub enum PasteEvent {
    /// The clipboard's text, if it could be read as text.
    Read(Option<String>),
    /// Whether writing the clipboard worked.
    Wrote(bool),
    Slept,
    Warned,
    /// Whether the keystroke could be sent.
    Pasted(bool),
    Restored,
}

#[derive(PartialEq, Eq, Structural, Clone, Copy)]
pub enum Phase {
    Start,
    AwaitPrevious,
    AwaitWrite,
    AwaitReadBack,
    AwaitPollSleep,
    AwaitWarn,
    AwaitPaste,
    AwaitSettle,
    AwaitRestore,
    Finished,
    Failed,
}

/// One paste in progress.
pub struct PasteSession {
    text: String,
    previous: Option<String>,
    checks: usize,
    phase: Phase,
}

/// The session as values.
pub struct PasteView {
    pub text: Seq<char>,
    pub previous: Option<Seq<char>>,
    pub checks: nat,
    pub phase: Phase,
}

/// An action as values.
pub enum ActionView {
    ReadClipboard,
    WriteText,
    ReadBack,
    Sleep(u64),
    WarnUnconfirmed,
    Paste,
    Restore(Seq<char>),
    Done,
    Fail,
}

/// An event as values.
pub enum EventView {
    Read(Option<Seq<char>>),
    Wrote(bool),
    Slept,
    Warned,
    Pasted(bool),
    Restored,
}

pub open spec fn opt_view(o: Option<String>) -> Option<Seq<char>> {
    match o {
        Some(s) => Some(s@),
        None => None,
    }
}

pub open spec fn event_view(e: PasteEvent) -> EventView {
    match e {
        PasteEvent::Read(o) => EventView::Read(opt_view(o)),
        PasteEvent::Wrote(b) => EventView::Wrote(b),
        PasteEvent::Slept => EventView::Slept,
        PasteEvent::Warned => EventView::Warned,
        PasteEvent::Pasted(b) => EventView::Pasted(b),
        PasteEvent::Restored => EventView::Restored,
    }
}

pub open spec fn action_view(a: PasteAction) -> ActionView {
    match a {
        PasteAction::ReadClipboard => ActionView::ReadClipboard,
        PasteAction::WriteText => ActionView::WriteText,
        PasteAction::ReadBack => ActionView::ReadBack,
        PasteAction::Sleep(ms) => ActionView::Sleep(ms),
        PasteAction::WarnUnconfirmed => ActionView::WarnUnconfirmed,
        PasteAction::Paste => ActionView::Paste,
        PasteAction::Restore(s) => ActionView::Restore(s@),
        PasteAction::Done => ActionView::Done,
        PasteAction::Fail => ActionView::Fail,
    }
}

pub open spec fn failed(v: PasteView) -> (PasteView, ActionView) {
    (PasteView { phase: Phase::Failed, ..v }, ActionView::Fail)
}

/// The step from a session state and the last step's outcome to the next
/// state and action. An event that does not answer the last action fails
/// the session.
pub open spec fn paste_next(v: PasteView, e: EventView) -> (PasteView, ActionView) {
    match v.phase {
        Phase::Start => (PasteView { phase: Phase::AwaitPrevious, ..v }, ActionView::ReadClipboard),
        Phase::AwaitPrevious => match e {
            EventView::Read(p) => (
                PasteView { previous: p, phase: Phase::AwaitWrite, ..v },
                ActionView::WriteText,
            ),
            _ => failed(v),
        },
        Phase::AwaitWrite => match e {
            EventView::Wrote(true) => (
                PasteView { checks: 1, phase: Phase::AwaitReadBack, ..v },
                ActionView::ReadBack,
            ),
            _ => failed(v),
        },
        Phase::AwaitReadBack => match e {
            EventView::Read(r) => if r == Some(v.text) {
                (PasteView { phase: Phase::AwaitPaste, ..v }, ActionView::Paste)
            } else {
                (
                    PasteView { phase: Phase::AwaitPollSleep, ..v },
                    ActionView::Sleep(CHECK_INTERVAL_MS),
                )
            },
            _ => failed(v),
        },
        Phase::AwaitPollSleep => match e {
            EventView::Slept => if v.checks < MAX_CHECKS {
                (
                    PasteView { checks: v.checks + 1, phase: Phase::AwaitReadBack, ..v },
                    ActionView::ReadBack,
                )
            } else {
                (PasteView { phase: Phase::AwaitWarn, ..v }, ActionView::WarnUnconfirmed)
            },
            _ => failed(v),
        },
        Phase::AwaitWarn => match e {
            EventView::Warned => (PasteView { phase: Phase::AwaitPaste, ..v }, ActionView::Paste),
            _ => failed(v),
        },
        Phase::AwaitPaste => match e {
            EventView::Pasted(true) => (
                PasteView { phase: Phase::AwaitSettle, ..v },
                ActionView::Sleep(SETTLE_MS),
            ),
            _ => failed(v),
        },
        Phase::AwaitSettle => match e {
            EventView::Slept => match v.previous {
                Some(p) => (PasteView { phase: Phase::AwaitRestore, ..v }, ActionView::Restore(p)),
                None => (PasteView { phase: Phase::Finished, ..v }, ActionView::Done),
            },
            _ => failed(v),
        },
        Phase::AwaitRestore => match e {
            EventView::Restored => (PasteView { phase: Phase::Finished, ..v }, ActionView::Done),
            _ => failed(v),
        },
        Phase::Finished => (v, ActionView::Done),
        Phase::Failed => (v, ActionView::Fail),
    }
}

/// The states a session can be in: at most 20 checks, and at least one
/// once the read-back has started.
pub open spec fn paste_wf(v: PasteView) -> bool {
    &&& v.checks <= MAX_CHECKS
    &&& (v.phase == Phase::AwaitReadBack || v.phase == Phase::AwaitPollSleep) ==> v.checks >= 1
}

impl PasteSession {
    pub closed spec fn view(&self) -> PasteView {
        PasteView {
            text: self.text@,
            previous: opt_view(self.previous),
            checks: self.checks as nat,
            phase: self.phase,
        }
    }

    /// A session for typing `text`; its first step is `ReadClipboard`.
    pub fn new(text: String) -> (s: Self)
        ensures
            s.view() == (PasteView { text: text@, previous: None, checks: 0, phase: Phase::Start }),
            paste_wf(s.view()),
    {
        PasteSession { text, previous: None, checks: 0, phase: Phase::Start }
    }

    /// The text being typed.
    pub fn text(&self) -> (t: &String)
        ensures
            t@ == self.view().text,
    {
        &self.text
    }

    fn fail(&mut self) -> (a: PasteAction)
        ensures
            (final(self).view(), action_view(a)) == failed(old(self).view()),
    {
        self.phase = Phase::Failed;
        PasteAction::Fail
    }

    /// Takes the outcome of the last step and gives the next one. For the
    /// first call the event is ignored.
    pub fn next(&mut self, event: PasteEvent) -> (a: PasteAction)
        requires
            paste_wf(old(self).view()),
        ensures
            paste_wf(final(self).view()),
            (final(self).view(), action_view(a)) == paste_next(old(self).view(), event_view(event)),
    {
        match self.phase {
            Phase::Start => {
                self.phase = Phase::AwaitPrevious;
                PasteAction::ReadClipboard
            },
            Phase::AwaitPrevious => match event {
                PasteEvent::Read(p) => {
                    self.previous = p;
                    self.phase = Phase::AwaitWrite;
                    PasteAction::WriteText
                },
                _ => self.fail(),
            },
            Phase::AwaitWrite => match event {
                PasteEvent::Wrote(true) => {
                    self.checks = 1;
                    self.phase = Phase::AwaitReadBack;
                    PasteAction::ReadBack
                },
                _ => self.fail(),
            },
            Phase::AwaitReadBack => match event {
                PasteEvent::Read(r) => {
                    let same = match &r {
                        Some(s) => str_eq(s.as_str(), self.text.as_str()),
                        None => false,
                    };
                    if same {
                        self.phase = Phase::AwaitPaste;
                        PasteAction::Paste
                    } else {
                        self.phase = Phase::AwaitPollSleep;
                        PasteAction::Sleep(CHECK_INTERVAL_MS)
                    }
                },
                _ => self.fail(),
            },
            Phase::AwaitPollSleep => match event {
                PasteEvent::Slept => {
                    if self.checks < MAX_CHECKS {
                        self.checks = self.checks + 1;
                        self.phase = Phase::AwaitReadBack;
                        PasteAction::ReadBack
                    } else {
                        self.phase = Phase::AwaitWarn;
                        PasteAction::WarnUnconfirmed
                    }
                },
                _ => self.fail(),
            },
            Phase::AwaitWarn => match event {
                PasteEvent::Warned => {
                    self.phase = Phase::AwaitPaste;
                    PasteAction::Paste
                },
                _ => self.fail(),
            },
            Phase::AwaitPaste => match event {
                PasteEvent::Pasted(true) => {
                    self.phase = Phase::AwaitSettle;
                    PasteAction::Sleep(SETTLE_MS)
                },
                _ => self.fail(),
            },
            Phase::AwaitSettle => match event {
                PasteEvent::Slept => match &self.previous {
                    Some(p) => {
                        let p2 = p.clone();
                        self.phase = Phase::AwaitRestore;
                        PasteAction::Restore(p2)
                    },
                    None => {
                        self.phase = Phase::Finished;
                        PasteAction::Done
                    },
                },
                _ => self.fail(),
            },
            Phase::AwaitRestore => match event {
                PasteEvent::Restored => {
                    self.phase = Phase::Finished;
                    PasteAction::Done
                },
                _ => self.fail(),
            },
            Phase::Finished => PasteAction::Done,
            Phase::Failed => PasteAction::Fail,
        }
    }
}

// ---------------------------------------------------------------------
// Laws
// ---------------------------------------------------------------------

/// The clipboard is read back at most 20 times: every read-back raises the
/// count of checks, which never passes 20.
pub proof fn law_at_most_twenty_checks(v: PasteView, e: EventView)
    requires
        paste_wf(v),
    ensures
        paste_wf(paste_next(v, e).0),
        paste_next(v, e).1 == ActionView::ReadBack ==> paste_next(v, e).0.checks == (if v.phase
            == Phase::AwaitWrite {
            1
        } else {
            v.checks + 1
        }),
{
}

/// What is put back on the clipboard is exactly what it held before.
pub proof fn law_restores_previous_content(v: PasteView, e: EventView, p: Seq<char>)
    requires
        paste_next(v, e).1 == ActionView::Restore(p),
    ensures
        v.previous == Some(p),
{
}

/// The paste keystroke is sent only once the clipboard holds the text, or
/// after the last check failed and the warning was given.
pub proof fn law_paste_only_when_ready(v: PasteView, e: EventView)
    requires
        paste_next(v, e).1 == ActionView::Paste,
    ensures
        (v.phase == Phase::AwaitReadBack && e == EventView::Read(Some(v.text))) || (v.phase
            == Phase::AwaitWarn && e == EventView::Warned),
{
}

/// A failed write or a failed keystroke ends the session; it stays ended.
pub proof fn law_failure_is_final(v: PasteView, e: EventView)
    requires
        v.phase == Phase::Failed,
    ensures
        paste_next(v, e) == (v, ActionView::Fail),
{
}

} // verus!
