//! Watching the project folder: when the open files are read again from
//! disk, and what those reads do to the open documents.
use vstd::prelude::*;
use crate::document::{
    DocumentId, DocumentView, Documents, ExternalUpdate, observed_deletion, observed_source, tab_name,
};
use crate::text::{push_str, str_eq};

verus! {

/// What was found on disk for an open document, read when its storage
/// revision was `storage_revision`.
#[derive(Debug)]
pub enum ExternalFileResult {
    Source { document_id: DocumentId, storage_revision: u64, source: String },
    Deleted { document_id: DocumentId, storage_revision: u64 },
    Failed { document_id: DocumentId, storage_revision: u64, error: String },
}

impl ExternalFileResult {
    /// The document the report is about.
    pub open spec fn document_id(self) -> DocumentId {
        match self {
            ExternalFileResult::Source { document_id, .. } => document_id,
            ExternalFileResult::Deleted { document_id, .. } => document_id,
            ExternalFileResult::Failed { document_id, .. } => document_id,
        }
    }

    /// The storage revision the report was read at.
    pub open spec fn storage_revision(self) -> u64 {
        match self {
            ExternalFileResult::Source { storage_revision, .. } => storage_revision,
            ExternalFileResult::Deleted { storage_revision, .. } => storage_revision,
            ExternalFileResult::Failed { storage_revision, .. } => storage_revision,
        }
    }
}

/// What a batch of reports changed, for the rest of the application.
pub struct ExternalSummary {
    /// The message for the status bar, from the last report that had one.
    pub status: Option<String>,
    /// The active document was replaced by the text on disk.
    pub active_reloaded: bool,
    /// Another open document was replaced by the text on disk.
    pub other_reloaded: bool,
}

/// Whether a report still concerns the document as it is: the document is
/// open and was not saved or reloaded since the report was read.
pub open spec fn current(ids: Seq<DocumentId>, docs: Seq<DocumentView>, r: ExternalFileResult) -> bool {
    ids.contains(r.document_id()) && docs[ids.index_of(r.document_id())].storage_revision == r.storage_revision()
}

/// The documents, the status message and whether a document was reloaded,
/// after one report. A report about a closed document, or about an older
/// state of the file, changes nothing.
pub open spec fn external_effect(ids: Seq<DocumentId>, docs: Seq<DocumentView>, r: ExternalFileResult)
    -> (Seq<DocumentView>, Option<Seq<char>>, bool)
{
    if !current(ids, docs, r) {
        (docs, None, false)
    } else {
        let i = ids.index_of(r.document_id());
        match r {
            ExternalFileResult::Source { source, .. } => {
                let (update, d) = observed_source(docs[i], source@);
                let status = match update {
                    ExternalUpdate::Unchanged => None,
                    ExternalUpdate::Reloaded => Some("Recarregado após alteração externa: "@ + tab_name(d)),
                    ExternalUpdate::Conflict => Some("Conflito com alteração externa: "@ + tab_name(d)),
                };
                (docs.update(i, d), status, update == ExternalUpdate::Reloaded)
            },
            ExternalFileResult::Deleted { .. } => {
                let (update, d) = observed_deletion(docs[i]);
                let status = if update == ExternalUpdate::Conflict {
                    Some("Arquivo removido externamente: "@ + tab_name(d))
                } else {
                    None
                };
                (docs.update(i, d), status, false)
            },
            ExternalFileResult::Failed { error, .. } => (docs, Some("Erro ao verificar arquivo: "@ + error@), false),
        }
    }
}

/// The documents, the last status message, and whether the active document
/// (`active`) or another one was reloaded, after the reports in order.
pub open spec fn external_outcome(ids: Seq<DocumentId>, docs: Seq<DocumentView>, active: DocumentId, results: Seq<ExternalFileResult>)
    -> (Seq<DocumentView>, Option<Seq<char>>, bool, bool)
    decreases results.len(),
{
    if results.len() == 0 {
        (docs, None, false, false)
    } else {
        let (d0, s0, a0, o0) = external_outcome(ids, docs, active, results.drop_last());
        let r = results.last();
        let (d1, s1, reloaded) = external_effect(ids, d0, r);
        (
            d1,
            if s1 is Some { s1 } else { s0 },
            a0 || (reloaded && r.document_id() == active),
            o0 || (reloaded && r.document_id() != active),
        )
    }
}

fn message(prefix: &str, name: &str) -> (r: String)
    ensures
        r@ == prefix@ + name@,
{
    let mut s = String::new();
    push_str(&mut s, prefix);
    push_str(&mut s, name);
    s
}

/// Applies one report; returns the status message and whether the document
/// was reloaded.
fn apply_external_result(documents: &mut Documents, result: ExternalFileResult) -> (r: (Option<String>, bool))
    requires
        old(documents).wf(),
    ensures
        final(documents).wf(),
        final(documents).ids() == old(documents).ids(),
        final(documents).active_index() == old(documents).active_index(),
        final(documents).next_id() == old(documents).next_id(),
        ({
            let (docs, status, reloaded) = external_effect(old(documents).ids(), old(documents).docs(), result);
            final(documents).docs() == docs && match r.0 {
                Some(s) => status == Some(s@),
                None => status is None,
            } && r.1 == reloaded
        }),
{
    let ghost before = *documents;
    let (id, revision) = match &result {
        ExternalFileResult::Source { document_id, storage_revision, .. } => (*document_id, *storage_revision),
        ExternalFileResult::Deleted { document_id, storage_revision } => (*document_id, *storage_revision),
        ExternalFileResult::Failed { document_id, storage_revision, .. } => (*document_id, *storage_revision),
    };
    let index = match documents.position(id) {
        None => return (None, false),
        Some(i) => i,
    };
    proof { documents.lemma_index_of(id, index as int); }
    if documents.document_at(index).storage_revision() != revision {
        return (None, false);
    }
    match result {
        ExternalFileResult::Source { source, .. } => {
            let document = documents.document_at_mut(index);
            let update = document.observe_disk_source(source);
            let name = document.display_name();
            proof { Documents::lemma_wf_same_shape(&before, documents); }
            match update {
                ExternalUpdate::Unchanged => (None, false),
                ExternalUpdate::Reloaded => (Some(message("Recarregado após alteração externa: ", name.as_str())), true),
                ExternalUpdate::Conflict => (Some(message("Conflito com alteração externa: ", name.as_str())), false),
            }
        },
        ExternalFileResult::Deleted { .. } => {
            let document = documents.document_at_mut(index);
            let update = document.observe_deleted_file();
            let name = document.display_name();
            proof { Documents::lemma_wf_same_shape(&before, documents); }
            if update == ExternalUpdate::Conflict {
                (Some(message("Arquivo removido externamente: ", name.as_str())), false)
            } else {
                (None, false)
            }
        },
        ExternalFileResult::Failed { error, .. } => (Some(message("Erro ao verificar arquivo: ", error.as_str())), false),
    }
}

/// Applies the reports of the file watcher in order. While a file operation
/// runs (`file_busy`) the disk may be half written, so the reports are left
/// unread and nothing changes.
pub fn apply_external_results(documents: &mut Documents, results: Vec<ExternalFileResult>, file_busy: bool) -> (r: ExternalSummary)
    requires
        old(documents).wf(),
    ensures
        final(documents).wf(),
        final(documents).ids() == old(documents).ids(),
        final(documents).active_index() == old(documents).active_index(),
        final(documents).next_id() == old(documents).next_id(),
        file_busy ==> final(documents).docs() == old(documents).docs() && r.status is None
            && !r.active_reloaded && !r.other_reloaded,
        !file_busy ==> ({
            let (docs, status, active, other) = external_outcome(
                old(documents).ids(), old(documents).docs(), old(documents).active_document_id(), results@);
            &&& final(documents).docs() == docs
            &&& match r.status {
                Some(s) => status == Some(s@),
                None => status is None,
            }
            &&& r.active_reloaded == active
            &&& r.other_reloaded == other
        }),
{
    if file_busy {
        return ExternalSummary { status: None, active_reloaded: false, other_reloaded: false };
    }
    let ghost ids = documents.ids();
    let ghost docs0 = documents.docs();
    let active = documents.active_id();
    let mut status: Option<String> = None;
    let mut active_reloaded = false;
    let mut other_reloaded = false;
    let ghost all = results@;
    let mut rest = results;
    let mut done: usize = 0;
    let n = rest.len();
    proof { assert(all.take(0) =~= Seq::<ExternalFileResult>::empty()); }
    while done < n
        invariant
            documents.wf(),
            documents.ids() == ids,
            documents.active_index() == old(documents).active_index(),
            documents.next_id() == old(documents).next_id(),
            ids == old(documents).ids(),
            docs0 == old(documents).docs(),
            active == old(documents).active_document_id(),
            n == all.len(),
            done <= n,
            rest@ == all.skip(done as int),
            ({
                let (docs, s, a, o) = external_outcome(ids, docs0, active, all.take(done as int));
                &&& documents.docs() == docs
                &&& match status {
                    Some(m) => s == Some(m@),
                    None => s is None,
                }
                &&& active_reloaded == a
                &&& other_reloaded == o
            }),
        decreases n - done,
    {
        let result = rest.remove(0);
        let id = match &result {
            ExternalFileResult::Source { document_id, .. } => *document_id,
            ExternalFileResult::Deleted { document_id, .. } => *document_id,
            ExternalFileResult::Failed { document_id, .. } => *document_id,
        };
        proof {
            assert(result == all[done as int]);
            assert(rest@ =~= all.skip(done + 1));
            assert(all.take(done + 1).drop_last() =~= all.take(done as int));
            assert(all.take(done + 1).last() == all[done as int]);
        }
        let (message, reloaded) = apply_external_result(documents, result);
        if message.is_some() {
            status = message;
        }
        if reloaded {
            if id == active {
                active_reloaded = true;
            } else {
                other_reloaded = true;
            }
        }
        done = done + 1;
    }
    proof { assert(all.take(n as int) =~= all); }
    ExternalSummary { status, active_reloaded, other_reloaded }
}

/// A report about a closed document, or one read before the document was
/// last saved or reloaded, changes nothing and shows nothing.
pub proof fn law_stale_reports_are_ignored(ids: Seq<DocumentId>, docs: Seq<DocumentView>, r: ExternalFileResult)
    requires
        !current(ids, docs, r),
    ensures
        external_effect(ids, docs, r) == (docs, None::<Seq<char>>, false),
{
}

/// Text that is not saved is never replaced by what is on disk: through any
/// reports, a document with unsaved changes keeps its text and stays unsaved.
pub proof fn law_unsaved_text_survives_external_changes(
    ids: Seq<DocumentId>,
    docs: Seq<DocumentView>,
    active: DocumentId,
    results: Seq<ExternalFileResult>,
    i: int,
)
    requires
        docs.len() == ids.len(),
        0 <= i < docs.len(),
        docs[i].is_dirty(),
    ensures
        external_outcome(ids, docs, active, results).0.len() == docs.len(),
        external_outcome(ids, docs, active, results).0[i].text == docs[i].text,
        external_outcome(ids, docs, active, results).0[i].is_dirty(),
    decreases results.len(),
{
    if results.len() > 0 {
        law_unsaved_text_survives_external_changes(ids, docs, active, results.drop_last(), i);
        let d0 = external_outcome(ids, docs, active, results.drop_last()).0;
        let r = results.last();
        if current(ids, d0, r) {
            let k = ids.index_of(r.document_id());
            assert(0 <= k < ids.len());
        }
    }
}

/// How long the watcher waits after a change before reading, in
/// milliseconds.
pub const WATCHER_DEBOUNCE_MS: u64 = 150;

/// What the watcher of the project folder `root` reports.
#[derive(Debug)]
pub enum WatcherEvent {
    Ready { root: String },
    Changed { root: String, paths: Vec<String> },
    Failed { root: String, error: String },
}

/// What the application does after a report of the watcher.
#[derive(Debug, PartialEq, Eq)]
pub enum WatcherReaction {
    Nothing,
    /// Files changed: the preview no longer shows the disk and waits.
    PreviewStale,
    /// The watcher stopped; the message for the status bar.
    Failed(String),
}

/// When the project's files are read again, and whether a read runs.
pub struct Watcher {
    deadline: Option<u64>,
    external_check_busy: bool,
}

/// The watcher as plain values.
pub ghost struct WatcherView {
    pub deadline: Option<u64>,
    pub external_check_busy: bool,
}

impl View for Watcher {
    type V = WatcherView;

    closed spec fn view(&self) -> WatcherView {
        WatcherView { deadline: self.deadline, external_check_busy: self.external_check_busy }
    }
}

/// The watcher after a report at `now` about the project `current`: reports
/// about another folder are ignored; when ready, nothing is pending; a change
/// makes the files due after a pause.
pub open spec fn watched(w: WatcherView, current: Seq<char>, event: WatcherEvent, now: u64) -> (WatcherView, WatcherReaction) {
    match event {
        WatcherEvent::Ready { root } => if root@ == current {
            (WatcherView { deadline: None, ..w }, WatcherReaction::Nothing)
        } else {
            (w, WatcherReaction::Nothing)
        },
        WatcherEvent::Changed { root, paths } => if root@ != current || paths@.len() == 0 {
            (w, WatcherReaction::Nothing)
        } else {
            (WatcherView { deadline: Some((now + WATCHER_DEBOUNCE_MS) as u64), ..w }, WatcherReaction::PreviewStale)
        },
        WatcherEvent::Failed { root, error } => if root@ != current {
            (w, WatcherReaction::Nothing)
        } else {
            (w, WatcherReaction::Failed(error))
        },
    }
}

/// The watcher at `now`, and whether the files are read again now: when due
/// and nothing else touches the disk; when due but something does, after
/// another pause.
pub open spec fn refreshed(w: WatcherView, now: u64, file_busy: bool, scan_busy: bool) -> (WatcherView, bool) {
    match w.deadline {
        None => (w, false),
        Some(due) => if now < due {
            (w, false)
        } else if file_busy || w.external_check_busy || scan_busy {
            (WatcherView { deadline: Some((now + WATCHER_DEBOUNCE_MS) as u64), ..w }, false)
        } else {
            (WatcherView { deadline: None, ..w }, true)
        },
    }
}

/// The open documents that have a file, in tab order, with the storage
/// revision each is read at.
pub open spec fn files_below(ids: Seq<DocumentId>, docs: Seq<DocumentView>, n: int) -> Seq<(DocumentId, u64, Seq<char>)>
    decreases n,
{
    if n <= 0 {
        Seq::empty()
    } else {
        let before = files_below(ids, docs, n - 1);
        match docs[n - 1].path {
            Some(p) => before.push((ids[n - 1], docs[n - 1].storage_revision, p)),
            None => before,
        }
    }
}

/// A file to read, by its characters.
pub open spec fn file_view(f: (DocumentId, u64, String)) -> (DocumentId, u64, Seq<char>) {
    (f.0, f.1, f.2@)
}

impl Watcher {
    /// A watcher with nothing due.
    pub fn new() -> (r: Self)
        ensures
            r@ == (WatcherView { deadline: None, external_check_busy: false }),
    {
        Watcher { deadline: None, external_check_busy: false }
    }

    /// When the files are due to be read again.
    pub fn deadline(&self) -> (r: Option<u64>)
        ensures
            r == self@.deadline,
    {
        self.deadline
    }

    /// Whether the open files are being read.
    pub fn external_check_busy(&self) -> (r: bool)
        ensures
            r == self@.external_check_busy,
    {
        self.external_check_busy
    }

    /// Takes in a report of the watcher at `now`, for the project `current`.
    pub fn on_event(&mut self, current: &str, event: WatcherEvent, now: u64) -> (r: WatcherReaction)
        requires
            now + WATCHER_DEBOUNCE_MS <= u64::MAX,
        ensures
            (final(self)@, r) == watched(old(self)@, current@, event, now),
    {
        match event {
            WatcherEvent::Ready { root } => {
                if str_eq(root.as_str(), current) {
                    self.deadline = None;
                }
                WatcherReaction::Nothing
            },
            WatcherEvent::Changed { root, paths } => {
                if !str_eq(root.as_str(), current) || paths.len() == 0 {
                    return WatcherReaction::Nothing;
                }
                self.deadline = Some(now + WATCHER_DEBOUNCE_MS);
                WatcherReaction::PreviewStale
            },
            WatcherEvent::Failed { root, error } => {
                if !str_eq(root.as_str(), current) {
                    return WatcherReaction::Nothing;
                }
                WatcherReaction::Failed(error)
            },
        }
    }

    /// Decides at `now` whether the open files and the project tree are read
    /// again now.
    pub fn refresh_due(&mut self, now: u64, file_busy: bool, scan_busy: bool) -> (r: bool)
        requires
            now + WATCHER_DEBOUNCE_MS <= u64::MAX,
        ensures
            (final(self)@, r) == refreshed(old(self)@, now, file_busy, scan_busy),
    {
        let due = match self.deadline {
            None => return false,
            Some(due) => due,
        };
        if now < due {
            return false;
        }
        if file_busy || self.external_check_busy || scan_busy {
            self.deadline = Some(now + WATCHER_DEBOUNCE_MS);
            return false;
        }
        self.deadline = None;
        true
    }

    /// Starts reading the open files again, unless a file operation or a
    /// read runs or no open document has a file: returns the files to read,
    /// each with its document and storage revision.
    pub fn start_check(&mut self, documents: &Documents, file_busy: bool) -> (r: Option<Vec<(DocumentId, u64, String)>>)
        requires
            documents.wf(),
        ensures
            file_busy || old(self)@.external_check_busy ==> r is None && final(self)@ == old(self)@,
            !(file_busy || old(self)@.external_check_busy) ==> {
                let files = files_below(documents.ids(), documents.docs(), documents.ids().len() as int);
                &&& files.len() == 0 ==> r is None && final(self)@ == old(self)@
                &&& files.len() > 0 ==> final(self)@ == (WatcherView { external_check_busy: true, ..old(self)@ })
                    && (r matches Some(list) && list@.map_values(|f: (DocumentId, u64, String)| file_view(f)) == files)
            },
    {
        if file_busy || self.external_check_busy {
            return None;
        }
        let n = documents.len();
        let mut files: Vec<(DocumentId, u64, String)> = Vec::new();
        let mut i: usize = 0;
        while i < n
            invariant
                documents.wf(),
                n == documents.ids().len(),
                i <= n,
                files@.map_values(|f: (DocumentId, u64, String)| file_view(f))
                    == files_below(documents.ids(), documents.docs(), i as int),
            decreases n - i,
        {
            let document = documents.document_at(i);
            match document.path() {
                Some(path) => {
                    let ghost before = files@;
                    let f = (documents.id_at(i), document.storage_revision(), path.to_owned());
                    files.push(f);
                    proof {
                        assert(files@.map_values(|f: (DocumentId, u64, String)| file_view(f)) =~= before.map_values(
                            |f: (DocumentId, u64, String)| file_view(f)).push(file_view(f)));
                    }
                },
                None => {},
            }
            i = i + 1;
        }
        if files.len() == 0 {
            proof {
                assert(files@.map_values(|f: (DocumentId, u64, String)| file_view(f)).len() == 0);
            }
            return None;
        }
        self.external_check_busy = true;
        Some(files)
    }

    /// Notes that the read of the open files ended.
    pub fn finish_check(&mut self)
        ensures
            final(self)@ == (WatcherView { external_check_busy: false, ..old(self)@ }),
    {
        self.external_check_busy = false;
    }
}

/// While something else touches the disk, a due refresh waits for another
/// pause instead of reading files that may be half written.
pub proof fn law_refresh_waits_for_disk_work(w: WatcherView, now: u64, file_busy: bool, scan_busy: bool)
    requires
        w.deadline matches Some(due) && due <= now,
        file_busy || w.external_check_busy || scan_busy,
    ensures
        !refreshed(w, now, file_busy, scan_busy).1,
        refreshed(w, now, file_busy, scan_busy).0.deadline == Some((now + WATCHER_DEBOUNCE_MS) as u64),
{
}

} // verus!
