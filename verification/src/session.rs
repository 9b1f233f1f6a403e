//! The desktop app's recording session: whether a recording is active,
//! whether an update install has been committed, and how the tray and the
//! global shortcut toggle between the two. Each command asks this state what
//! to do, performs it, and reports back; starting the microphone, finalizing
//! the audio and installing the update are left to the caller.

use vstd::prelude::*;

use crate::text::{chars_of, string_of};

verus! {

/// Presses of the toggle closer together than this, in milliseconds, are
/// key auto-repeat or a nervous double press, and are ignored.
pub const TOGGLE_DEBOUNCE_MS: u64 = 400;

/// Refusal to start while an update install is committed.
pub const INSTALLING_MESSAGE: &'static str =
    "an update is being installed \u{2014} recording is unavailable until restart";

/// Refusal to start a second recording.
pub const ALREADY_RECORDING_MESSAGE: &'static str = "a recording is already in progress";

/// Refusal to stop, pause, resume or discard with nothing recording.
pub const NOT_RECORDING_MESSAGE: &'static str = "no active recording";

/// Refusal to commit an update install during a recording.
pub const INSTALL_WHILE_RECORDING_MESSAGE: &'static str =
    "a recording is in progress \u{2014} stop it before installing the update";

/// Where the desktop session stands.
#[derive(Debug, Clone)]
pub struct Session {
    /// The meeting being recorded, if any.
    pub recording: Option<String>,
    /// Set once an update install is committed (download, then relaunch);
    /// no recording may start while it is set, so the relaunch cannot cut
    /// one short.
    pub install_committed: bool,
    /// When the toggle was last acted on, in milliseconds of a monotonic
    /// clock.
    pub last_toggle_ms: Option<u64>,
}

/// What a toggle press does.
#[derive(Debug, Clone, Copy, PartialEq, Eq, Structural)]
pub enum ToggleStep {
    /// Too soon after the last press: nothing.
    Ignore,
    /// Nothing is recording: start.
    Start,
    /// A recording is active: stop it.
    Stop,
}

/// The time between two clock readings, zero when the clock reads earlier.
pub open spec fn since(now: u64, then: u64) -> int {
    if now >= then {
        now - then
    } else {
        0
    }
}

/// Whether a press at `now` comes too soon after the last one acted on.
pub open spec fn debounced(last: Option<u64>, now: u64) -> bool {
    last matches Some(t) && since(now, t) < TOGGLE_DEBOUNCE_MS
}

/// Why a recording may not start now, if it may not.
pub open spec fn start_refusal(s: Session) -> Option<Seq<char>> {
    if s.install_committed {
        Some(INSTALLING_MESSAGE@)
    } else if s.recording is Some {
        Some(ALREADY_RECORDING_MESSAGE@)
    } else {
        None
    }
}

/// A toggle press: what it does and the session after it.
pub open spec fn spec_toggle(s: Session, now: u64) -> (ToggleStep, Session) {
    if debounced(s.last_toggle_ms, now) {
        (ToggleStep::Ignore, s)
    } else {
        (
            if s.recording is Some {
                ToggleStep::Stop
            } else {
                ToggleStep::Start
            },
            Session { last_toggle_ms: Some(now), ..s },
        )
    }
}

/// Committing an update install: refused during a recording, else latched.
pub open spec fn spec_begin_install(s: Session) -> (Option<Seq<char>>, Session) {
    if s.recording is Some {
        (Some(INSTALL_WHILE_RECORDING_MESSAGE@), s)
    } else {
        (None, Session { install_committed: true, ..s })
    }
}

fn message(s: &str) -> (r: String)
    ensures
        r@ == s@,
{
    string_of(chars_of(s).as_slice())
}

impl Session {
    /// Nothing recording, no install committed, no toggle yet.
    pub fn new() -> (r: Session)
        ensures
            r.recording is None,
            !r.install_committed,
            r.last_toggle_ms is None,
    {
        Session { recording: None, install_committed: false, last_toggle_ms: None }
    }

    /// Whether a recording may start: not while an update install is
    /// committed, and not while one is already running.
    pub fn check_start(&self) -> (r: Result<(), String>)
        ensures
            match start_refusal(*self) {
                Some(m) => r matches Err(e) && e@ == m,
                None => r is Ok,
            },
    {
        if self.install_committed {
            return Err(message(INSTALLING_MESSAGE));
        }
        if self.recording.is_some() {
            return Err(message(ALREADY_RECORDING_MESSAGE));
        }
        Ok(())
    }

    /// A recording of `meeting_id` has started.
    pub fn started(&mut self, meeting_id: String)
        ensures
            final(self).recording == Some(meeting_id),
            final(self).install_committed == old(self).install_committed,
            final(self).last_toggle_ms == old(self).last_toggle_ms,
    {
        self.recording = Some(meeting_id);
    }

    /// The active recording, for pause, resume and the status line.
    pub fn active(&self) -> (r: Result<&String, String>)
        ensures
            match self.recording {
                Some(id) => r matches Ok(m) && *m == id,
                None => r matches Err(e) && e@ == NOT_RECORDING_MESSAGE@,
            },
    {
        match &self.recording {
            Some(id) => Ok(id),
            None => Err(message(NOT_RECORDING_MESSAGE)),
        }
    }

    /// End the active recording (to stop or discard it): its meeting id, and
    /// nothing recording afterwards.
    pub fn take_recording(&mut self) -> (r: Result<String, String>)
        ensures
            match old(self).recording {
                Some(id) => r == Ok::<String, String>(id),
                None => r matches Err(e) && e@ == NOT_RECORDING_MESSAGE@,
            },
            final(self).recording is None,
            final(self).install_committed == old(self).install_committed,
            final(self).last_toggle_ms == old(self).last_toggle_ms,
    {
        match self.recording.take() {
            Some(id) => Ok(id),
            None => Err(message(NOT_RECORDING_MESSAGE)),
        }
    }

    /// Commit to installing an update: refused during a recording, else no
    /// recording may start until the install is cancelled.
    pub fn begin_update_install(&mut self) -> (r: Result<(), String>)
        ensures
            ({
                let (refusal, next) = spec_begin_install(*old(self));
                &&& *final(self) == next
                &&& match refusal {
                    Some(m) => r matches Err(e) && e@ == m,
                    None => r is Ok,
                }
            }),
    {
        if self.recording.is_some() {
            return Err(message(INSTALL_WHILE_RECORDING_MESSAGE));
        }
        self.install_committed = true;
        Ok(())
    }

    /// The install did not complete: recording is available again.
    pub fn cancel_update_install(&mut self)
        ensures
            *final(self) == (Session { install_committed: false, ..*old(self) }),
    {
        self.install_committed = false;
    }

    /// A press of the tray item or the global shortcut at `now_ms`: ignored
    /// when too soon after the last, else start when idle and stop when
    /// recording. The start or stop itself is the caller's, under the
    /// session's lock, with `check_start` and `take_recording`.
    pub fn toggle(&mut self, now_ms: u64) -> (step: ToggleStep)
        ensures
            (step, *final(self)) == spec_toggle(*old(self), now_ms),
    {
        match self.last_toggle_ms {
            Some(t) => {
                let elapsed: u64 = if now_ms >= t {
                    now_ms - t
                } else {
                    0
                };
                if elapsed < TOGGLE_DEBOUNCE_MS {
                    return ToggleStep::Ignore;
                }
            },
            None => {},
        }
        self.last_toggle_ms = Some(now_ms);
        if self.recording.is_some() {
            ToggleStep::Stop
        } else {
            ToggleStep::Start
        }
    }

    /// Whether quitting must first stop (and so finalize) a recording.
    pub fn must_stop_before_quit(&self) -> (b: bool)
        ensures
            b == self.recording is Some,
    {
        self.recording.is_some()
    }
}

/// Once an update install is committed, no recording can start, whatever
/// the toggle does, until the install is cancelled.
pub proof fn lemma_no_recording_during_install(s: Session, now: u64)
    requires
        spec_begin_install(s).0 is None,
    ensures
        start_refusal(spec_begin_install(s).1) == Some(INSTALLING_MESSAGE@),
        start_refusal(spec_toggle(spec_begin_install(s).1, now).1) == Some(INSTALLING_MESSAGE@),
        start_refusal(Session { install_committed: false, ..spec_begin_install(s).1 }) is None,
{
}

/// An install is committed exactly when nothing is recording.
pub proof fn lemma_install_needs_idle(s: Session)
    ensures
        spec_begin_install(s).0 is None <==> s.recording is None,
        spec_begin_install(s).0 is Some ==> spec_begin_install(s).1 == s,
{
}

/// The toggle alternates: a press acted on starts when idle and stops when
/// recording; a second press within the debounce window is ignored and
/// changes nothing.
pub proof fn lemma_toggle(s: Session, now: u64, again: u64)
    requires
        !debounced(s.last_toggle_ms, now),
        now <= again,
        again - now < TOGGLE_DEBOUNCE_MS,
    ensures
        spec_toggle(s, now).0 == (if s.recording is Some {
            ToggleStep::Stop
        } else {
            ToggleStep::Start
        }),
        spec_toggle(spec_toggle(s, now).1, again) == (ToggleStep::Ignore, spec_toggle(s, now).1),
{
}

} // verus!
