//! When the preview is compiled again, and which compilation results it
//! shows: only the result of the latest request for the current revision.
use vstd::prelude::*;
use crate::interface::PreviewStatus;

verus! {

/// A preview compilation waiting to be sent: when it is due, and whether
/// the compiler should read the files from disk again.
#[derive(Debug, Clone, Copy, PartialEq, Eq, Structural)]
pub struct PendingCompile {
    pub deadline: u64,
    pub reset_files: bool,
}

/// A preview compilation to send to the compiler.
#[derive(Debug, Clone, Copy, PartialEq, Eq, Structural)]
pub struct PreviewRequest {
    pub id: u64,
    pub revision: u64,
    pub reset_files: bool,
}

/// The status of the preview by its texts.
pub ghost enum StatusView {
    Waiting,
    Compiling,
    Ready { pages: usize, warnings: usize },
    Failed { errors: usize, summary: Seq<char> },
}

/// The view of a status.
pub open spec fn status_view(s: PreviewStatus) -> StatusView {
    match s {
        PreviewStatus::Waiting => StatusView::Waiting,
        PreviewStatus::Compiling => StatusView::Compiling,
        PreviewStatus::Ready { pages, warnings } => StatusView::Ready { pages, warnings },
        PreviewStatus::Failed { errors, summary } => StatusView::Failed { errors, summary: summary@ },
    }
}

/// The preview's compilations: the one waiting to be sent, the revision of
/// the content (which changes with every change), the identity of the last
/// request sent, of the latest request whose result is awaited, and the
/// status of the preview.
pub struct PreviewScheduler {
    pending: Option<PendingCompile>,
    revision: u64,
    next_request_id: u64,
    latest_request_id: Option<u64>,
    status: PreviewStatus,
}

/// The scheduler as plain values.
pub ghost struct SchedulerView {
    pub pending: Option<PendingCompile>,
    pub revision: u64,
    pub next_request_id: u64,
    pub latest_request_id: Option<u64>,
    pub status: StatusView,
}

impl View for PreviewScheduler {
    type V = SchedulerView;

    closed spec fn view(&self) -> SchedulerView {
        SchedulerView {
            pending: self.pending,
            revision: self.revision,
            next_request_id: self.next_request_id,
            latest_request_id: self.latest_request_id,
            status: status_view(self.status),
        }
    }
}

/// The revision after one more change, wrapping around at the end of its
/// range.
pub open spec fn next_revision(revision: u64) -> u64 {
    if revision == u64::MAX { 0 } else { (revision + 1) as u64 }
}

/// The scheduler after a change at `now`: a compilation is due after
/// `delay`, rereading the files if this or the waiting one asks for it; the
/// revision moves on and the preview waits.
pub open spec fn scheduled(s: SchedulerView, now: u64, delay: u64, reset_files: bool) -> SchedulerView {
    SchedulerView {
        pending: Some(PendingCompile {
            deadline: (now + delay) as u64,
            reset_files: reset_files || (s.pending matches Some(p) && p.reset_files),
        }),
        revision: next_revision(s.revision),
        status: StatusView::Waiting,
        ..s
    }
}

/// The scheduler and the request to send at `now`: the waiting compilation
/// once it is due and a compiler is there, under a new identity.
pub open spec fn dispatched(s: SchedulerView, now: u64, has_compiler: bool) -> (SchedulerView, Option<PreviewRequest>) {
    match s.pending {
        None => (s, None),
        Some(p) => if now < p.deadline || !has_compiler {
            (s, None)
        } else {
            let id = (s.next_request_id + 1) as u64;
            (
                SchedulerView { next_request_id: id, ..s },
                Some(PreviewRequest { id, revision: s.revision, reset_files: p.reset_files }),
            )
        },
    }
}

/// Whether a result belongs to the latest request for the current revision.
pub open spec fn current_result(s: SchedulerView, id: u64, revision: u64) -> bool {
    s.latest_request_id == Some(id) && s.revision == revision
}

/// The preview status after a current result: the errors with their
/// summary, a result without pages, or the pages and warnings shown.
pub open spec fn result_status(error_count: usize, summary: Option<Seq<char>>, has_pages: bool, page_count: usize, warning_count: usize)
    -> StatusView
{
    if error_count > 0 {
        StatusView::Failed {
            errors: error_count,
            summary: match summary {
                Some(s) => s,
                None => "Falha ao compilar o documento"@,
            },
        }
    } else if !has_pages {
        StatusView::Failed { errors: 1, summary: "A compilação não produziu um preview"@ }
    } else {
        StatusView::Ready { pages: page_count, warnings: warning_count }
    }
}

impl PreviewScheduler {
    /// A scheduler whose first compilation, rereading the files, is due at
    /// `now`.
    pub fn new(now: u64) -> (r: Self)
        ensures
            r@ == (SchedulerView {
                pending: Some(PendingCompile { deadline: now, reset_files: true }),
                revision: 0,
                next_request_id: 0,
                latest_request_id: None,
                status: StatusView::Waiting,
            }),
    {
        PreviewScheduler {
            pending: Some(PendingCompile { deadline: now, reset_files: true }),
            revision: 0,
            next_request_id: 0,
            latest_request_id: None,
            status: PreviewStatus::Waiting,
        }
    }

    /// The status of the preview.
    pub fn status(&self) -> (r: &PreviewStatus)
        ensures
            status_view(*r) == self@.status,
    {
        &self.status
    }

    /// The revision of the content.
    pub fn revision(&self) -> (r: u64)
        ensures
            r == self@.revision,
    {
        self.revision
    }

    /// The compilation waiting to be sent.
    pub fn pending(&self) -> (r: Option<PendingCompile>)
        ensures
            r == self@.pending,
    {
        self.pending
    }

    /// Notes a change at `now`: compile after `delay`.
    pub fn schedule(&mut self, now: u64, delay: u64, reset_files: bool)
        requires
            now + delay <= u64::MAX,
        ensures
            final(self)@ == scheduled(old(self)@, now, delay, reset_files),
    {
        let reset = reset_files || match self.pending {
            Some(p) => p.reset_files,
            None => false,
        };
        self.pending = Some(PendingCompile { deadline: now + delay, reset_files: reset });
        self.revision = self.revision.wrapping_add(1);
        self.status = PreviewStatus::Waiting;
    }

    /// The request to send at `now`, when one is due and a compiler is there.
    pub fn dispatch(&mut self, now: u64, has_compiler: bool) -> (r: Option<PreviewRequest>)
        requires
            old(self)@.next_request_id < u64::MAX,
        ensures
            (final(self)@, r) == dispatched(old(self)@, now, has_compiler),
    {
        let pending = match self.pending {
            None => return None,
            Some(p) => p,
        };
        if now < pending.deadline || !has_compiler {
            return None;
        }
        self.next_request_id = self.next_request_id + 1;
        Some(PreviewRequest { id: self.next_request_id, revision: self.revision, reset_files: pending.reset_files })
    }

    /// Notes whether the request `id` reached the compiler: then its result
    /// is awaited; otherwise the preview fails, the compiler having stopped.
    pub fn request_sent(&mut self, id: u64, delivered: bool)
        ensures
            delivered ==> final(self)@ == (SchedulerView {
                pending: None,
                latest_request_id: Some(id),
                status: StatusView::Compiling,
                ..old(self)@
            }),
            !delivered ==> final(self)@ == (SchedulerView {
                status: StatusView::Failed { errors: 1, summary: "O worker de compilação foi encerrado"@ },
                ..old(self)@
            }),
    {
        if delivered {
            self.pending = None;
            self.latest_request_id = Some(id);
            self.status = PreviewStatus::Compiling;
        } else {
            self.status = PreviewStatus::Failed { errors: 1, summary: "O worker de compilação foi encerrado".to_owned() };
        }
    }

    /// Forgets the request whose result is awaited: files changed on disk,
    /// so the preview waits for a new compilation.
    pub fn mark_stale(&mut self)
        ensures
            final(self)@ == (SchedulerView { latest_request_id: None, status: StatusView::Waiting, ..old(self)@ }),
    {
        self.latest_request_id = None;
        self.status = PreviewStatus::Waiting;
    }

    /// Starts over at `now`, as when the document compiled changed: no
    /// result is awaited and a compilation rereading the files is due now.
    pub fn restart(&mut self, now: u64)
        ensures
            final(self)@ == scheduled(SchedulerView { latest_request_id: None, ..old(self)@ }, now, 0, true),
    {
        self.latest_request_id = None;
        self.schedule(now, 0, true);
    }

    /// Takes in the result of the request `id` for `revision`: a result of
    /// an older request or revision is dropped (`false`); a current one sets
    /// the status of the preview (`true`).
    pub fn preview_output(
        &mut self,
        id: u64,
        revision: u64,
        error_count: usize,
        summary: Option<String>,
        has_pages: bool,
        page_count: usize,
        warning_count: usize,
    ) -> (accepted: bool)
        ensures
            accepted == current_result(old(self)@, id, revision),
            !accepted ==> final(self)@ == old(self)@,
            accepted ==> final(self)@ == (SchedulerView {
                status: result_status(error_count, match summary {
                    Some(s) => Some(s@),
                    None => None,
                }, has_pages, page_count, warning_count),
                ..old(self)@
            }),
    {
        let current = match self.latest_request_id {
            Some(latest) => latest == id && self.revision == revision,
            None => false,
        };
        if !current {
            return false;
        }
        self.status = if error_count > 0 {
            PreviewStatus::Failed {
                errors: error_count,
                summary: match summary {
                    Some(s) => s,
                    None => "Falha ao compilar o documento".to_owned(),
                },
            }
        } else if !has_pages {
            PreviewStatus::Failed { errors: 1, summary: "A compilação não produziu um preview".to_owned() }
        } else {
            PreviewStatus::Ready { pages: page_count, warnings: warning_count }
        };
        true
    }
}

/// A change makes every result computed before it stale: after
/// rescheduling, a result for the earlier revision is never shown.
pub proof fn law_results_before_a_change_are_stale(s: SchedulerView, now: u64, delay: u64, reset_files: bool, id: u64)
    ensures
        !current_result(scheduled(s, now, delay, reset_files), id, s.revision),
{
}

/// Each request sent gets an identity not used before.
pub proof fn law_request_identities_are_new(s: SchedulerView, now: u64, has_compiler: bool)
    requires
        s.next_request_id < u64::MAX,
        dispatched(s, now, has_compiler).1 is Some,
    ensures
        dispatched(s, now, has_compiler).1->0.id > s.next_request_id,
        dispatched(s, now, has_compiler).0.next_request_id == dispatched(s, now, has_compiler).1->0.id,
{
}

} // verus!
