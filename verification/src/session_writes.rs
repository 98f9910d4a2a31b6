//! When the session file is written: changes are written after a short
//! pause, one write at a time, and closing the window waits until the last
//! change is on disk.
use vstd::prelude::*;
use crate::paths::opt_view;
use crate::tabs::{Tabs, TabsView};
use crate::text::push_str;

verus! {

/// How long after a change the session is written, in milliseconds.
pub const SESSION_DEBOUNCE_MS: u64 = 750;

/// What the application does next with the session file.
#[derive(Debug, PartialEq, Eq)]
pub enum SessionAction {
    /// Nothing now.
    Nothing,
    /// Write the session, as it is at `revision`, to `path`; `closing` when
    /// the window closes afterwards (discarded tabs then keep only their
    /// saved files).
    Write { path: String, revision: u64, closing: bool },
    /// Close the window and quit.
    Exit,
}

/// The writing of the session file.
pub struct SessionTracker {
    path: Option<String>,
    revision: u64,
    deadline: Option<u64>,
    write_busy: bool,
    close_after_write: bool,
}

/// The tracker as plain values: where the session lives (if anywhere), the
/// number of changes so far, when the next write is due, whether a write
/// runs, and whether the window closes once the session is written.
pub ghost struct SessionTrackerView {
    pub path: Option<Seq<char>>,
    pub revision: u64,
    pub deadline: Option<u64>,
    pub write_busy: bool,
    pub close_after_write: bool,
}

impl View for SessionTracker {
    type V = SessionTrackerView;

    closed spec fn view(&self) -> SessionTrackerView {
        SessionTrackerView {
            path: opt_view(self.path),
            revision: self.revision,
            deadline: self.deadline,
            write_busy: self.write_busy,
            close_after_write: self.close_after_write,
        }
    }
}

/// An action with its path as characters.
pub ghost enum ActionView {
    Nothing,
    Write { path: Seq<char>, revision: u64, closing: bool },
    Exit,
}

/// The view of an action.
pub open spec fn action_view(a: SessionAction) -> ActionView {
    match a {
        SessionAction::Nothing => ActionView::Nothing,
        SessionAction::Write { path, revision, closing } => ActionView::Write { path: path@, revision, closing },
        SessionAction::Exit => ActionView::Exit,
    }
}

/// The tracker after a change of what the session holds, at `now`: the
/// write is due after the pause, or at once while the window closes.
pub open spec fn changed(s: SessionTrackerView, now: u64) -> SessionTrackerView {
    if s.path is None {
        s
    } else {
        SessionTrackerView {
            revision: (s.revision + 1) as u64,
            deadline: Some(if s.close_after_write { now } else { (now + SESSION_DEBOUNCE_MS) as u64 }),
            ..s
        }
    }
}

/// The tracker and the action at `now`: a due write starts unless one runs.
pub open spec fn dispatched(s: SessionTrackerView, now: u64) -> (SessionTrackerView, ActionView) {
    if s.write_busy {
        (s, ActionView::Nothing)
    } else {
        match s.deadline {
            None => (s, ActionView::Nothing),
            Some(due) => if now < due {
                (s, ActionView::Nothing)
            } else {
                match s.path {
                    None => (SessionTrackerView { deadline: None, ..s }, ActionView::Nothing),
                    Some(path) => (
                        SessionTrackerView { deadline: None, write_busy: true, ..s },
                        ActionView::Write { path, revision: s.revision, closing: s.close_after_write },
                    ),
                }
            },
        }
    }
}

/// The tabs once the window closes: no file operation runs and nothing is
/// kept of what was discarded.
pub open spec fn window_closed(t: TabsView) -> TabsView {
    TabsView { file_busy: false, discarded_on_close: Set::empty(), ..t }
}

/// After the session at `revision` was written (or failed to be, with
/// `error`) at `now`: a failure is reported, and a closing window closes
/// anyway; a closing window closes once the latest revision is written, and
/// otherwise the newer changes are written at once; any other due write
/// follows.
pub open spec fn written(s: SessionTrackerView, t: TabsView, revision: u64, error: Option<Seq<char>>, now: u64)
    -> (SessionTrackerView, TabsView, ActionView, Option<Seq<char>>)
{
    let idle = SessionTrackerView { write_busy: false, ..s };
    match error {
        Some(e) => {
            let status = Some("Erro ao salvar sessão: "@ + e);
            if s.close_after_write {
                (SessionTrackerView { close_after_write: false, ..idle }, window_closed(t), ActionView::Exit, status)
            } else {
                (idle, t, ActionView::Nothing, status)
            }
        },
        None => if s.close_after_write {
            if revision == s.revision {
                (SessionTrackerView { close_after_write: false, ..idle }, window_closed(t), ActionView::Exit, None)
            } else {
                let (u, a) = dispatched(SessionTrackerView { deadline: Some(now), ..idle }, now);
                (u, t, a, None)
            }
        } else {
            let (u, a) = dispatched(idle, now);
            (u, t, a, None)
        },
    }
}

impl SessionTracker {
    /// A tracker for the session file at `path`, or for no session file.
    pub fn new(path: Option<String>) -> (r: Self)
        ensures
            r@ == (SessionTrackerView {
                path: opt_view(path),
                revision: 0,
                deadline: None,
                write_busy: false,
                close_after_write: false,
            }),
    {
        SessionTracker { path, revision: 0, deadline: None, write_busy: false, close_after_write: false }
    }

    /// How many changes were noted.
    pub fn revision(&self) -> (r: u64)
        ensures
            r == self@.revision,
    {
        self.revision
    }

    /// When the next write is due.
    pub fn deadline(&self) -> (r: Option<u64>)
        ensures
            r == self@.deadline,
    {
        self.deadline
    }

    /// Whether a write runs.
    pub fn write_busy(&self) -> (r: bool)
        ensures
            r == self@.write_busy,
    {
        self.write_busy
    }

    /// Whether the window closes once the session is written.
    pub fn closing(&self) -> (r: bool)
        ensures
            r == self@.close_after_write,
    {
        self.close_after_write
    }

    /// Notes a change of what the session holds, at `now`.
    pub fn mark_changed(&mut self, now: u64)
        requires
            old(self)@.revision < u64::MAX,
            now + SESSION_DEBOUNCE_MS <= u64::MAX,
        ensures
            final(self)@ == changed(old(self)@, now),
    {
        if self.path.is_none() {
            return;
        }
        self.revision = self.revision + 1;
        self.deadline = Some(if self.close_after_write { now } else { now + SESSION_DEBOUNCE_MS });
    }

    /// Starts the write that is due at `now`, if any.
    pub fn dispatch(&mut self, now: u64) -> (r: SessionAction)
        ensures
            (final(self)@, action_view(r)) == dispatched(old(self)@, now),
    {
        if self.write_busy {
            return SessionAction::Nothing;
        }
        let due = match self.deadline {
            None => return SessionAction::Nothing,
            Some(due) => due,
        };
        if now < due {
            return SessionAction::Nothing;
        }
        let path = match &self.path {
            None => {
                self.deadline = None;
                return SessionAction::Nothing;
            },
            Some(path) => path.clone(),
        };
        self.deadline = None;
        self.write_busy = true;
        SessionAction::Write { path, revision: self.revision, closing: self.close_after_write }
    }

    /// The window is asked to close, at `now`, once nothing unsaved is left
    /// undecided: without a session file it closes at once; otherwise the
    /// tabs stay busy until the session is written.
    pub fn close_window(&mut self, tabs: &mut Tabs, now: u64) -> (r: SessionAction)
        requires
            old(self)@.revision < u64::MAX,
            old(tabs).wf(),
        ensures
            final(tabs).wf(),
            old(self)@.path is None ==> r == SessionAction::Exit && final(self)@ == old(self)@
                && final(tabs)@ == window_closed(old(tabs)@),
            old(self)@.path is Some ==> {
                let s = SessionTrackerView {
                    revision: (old(self)@.revision + 1) as u64,
                    deadline: Some(now),
                    close_after_write: true,
                    ..old(self)@
                };
                &&& (final(self)@, action_view(r)) == dispatched(s, now)
                &&& final(tabs)@ == (TabsView { file_busy: true, ..old(tabs)@ })
            },
    {
        if self.path.is_none() {
            tabs.set_file_busy(false);
            tabs.forget_discarded_on_close();
            return SessionAction::Exit;
        }
        tabs.set_file_busy(true);
        self.close_after_write = true;
        self.revision = self.revision + 1;
        self.deadline = Some(now);
        self.dispatch(now)
    }

    /// Takes in the end of the write of `revision` at `now`; returns what
    /// comes next and the message for the status bar, if any.
    pub fn write_finished(&mut self, tabs: &mut Tabs, revision: u64, result: Result<(), String>, now: u64)
        -> (r: (SessionAction, Option<String>))
        requires
            old(tabs).wf(),
        ensures
            final(tabs).wf(),
            ({
                let error = match result {
                    Ok(_) => None,
                    Err(e) => Some(e@),
                };
                let (s, t, a, status) = written(old(self)@, old(tabs)@, revision, error, now);
                &&& final(self)@ == s
                &&& final(tabs)@ == t
                &&& action_view(r.0) == a
                &&& opt_view(r.1) == status
            }),
    {
        self.write_busy = false;
        match result {
            Err(error) => {
                let mut status = String::new();
                push_str(&mut status, "Erro ao salvar sessão: ");
                push_str(&mut status, error.as_str());
                if self.close_after_write {
                    self.close_after_write = false;
                    tabs.set_file_busy(false);
                    tabs.forget_discarded_on_close();
                    return (SessionAction::Exit, Some(status));
                }
                (SessionAction::Nothing, Some(status))
            },
            Ok(()) => {
                if self.close_after_write {
                    if revision == self.revision {
                        self.close_after_write = false;
                        tabs.set_file_busy(false);
                        tabs.forget_discarded_on_close();
                        return (SessionAction::Exit, None);
                    }
                    self.deadline = Some(now);
                    return (self.dispatch(now), None);
                }
                (self.dispatch(now), None)
            },
        }
    }
}

/// While the window closes, it closes only after the latest revision of the
/// session was written, or after a write failed: a successful write of an
/// older revision starts the next write instead.
pub proof fn law_window_waits_for_the_latest_session(s: SessionTrackerView, t: TabsView, revision: u64, now: u64)
    requires
        s.close_after_write,
        s.path is Some,
        revision != s.revision,
    ensures
        ({
            let (u, w, a, status) = written(s, t, revision, None, now);
            &&& a == (ActionView::Write { path: s.path->0, revision: s.revision, closing: true })
            &&& u.write_busy && u.close_after_write
            &&& w == t
            &&& status is None
        }),
{
}

/// Writes never overlap: while one runs, nothing else is written.
pub proof fn law_one_write_at_a_time(s: SessionTrackerView, now: u64)
    requires
        s.write_busy,
    ensures
        dispatched(s, now) == (s, ActionView::Nothing),
{
}

} // verus!
