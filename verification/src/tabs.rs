//! The open tabs as they are closed, reopened and saved: what is asked about
//! unsaved changes before a tab or the window closes, what a closed tab leaves
//! behind to reopen, and what the session keeps when the window closes.
use vstd::prelude::*;
use crate::document::{Document, DocumentId, DocumentView, Documents, directory_of, edited, marked_saved, new_document_view, tab_name};
use crate::interface::{truncate, truncated};
use crate::workspace::{ProjectState, ProjectStateView, filtered_main};
use crate::paths::opt_view;
use crate::session;
use crate::text::{decimal, decimal_string, joined, push_str};

verus! {

/// What asks for documents to go away: closing one tab, or the window.
#[derive(Debug, Clone, Copy, PartialEq, Eq, Structural)]
pub enum CloseRequest {
    Tab(DocumentId),
    Window,
}

/// The answer to the question about unsaved changes.
#[derive(Debug, Clone, Copy, PartialEq, Eq, Structural)]
pub enum UnsavedDecision {
    Save,
    Discard,
    Cancel,
}

/// What the application does after a step of closing.
#[derive(Debug)]
pub enum CloseStep {
    /// Nothing more.
    Nothing,
    /// Ask whether to save the document `name`, now the active one, before
    /// `request` goes on; the tabs are busy until the answer.
    Ask { request: CloseRequest, name: String },
    /// A tab was closed; the message for the status bar.
    TabClosed(String),
    /// Nothing unsaved is left undecided: store the session and close the
    /// window.
    CloseWindow,
    /// Save the active document; the request goes on once it is saved.
    SaveActive,
}

/// How many closed tabs are kept for reopening.
pub const CLOSED_TABS_KEPT: usize = 20;

/// A closed tab, kept for reopening.
pub ghost struct ClosedTab {
    pub path: Option<Seq<char>>,
    pub text: Seq<char>,
    pub saved_text: Option<Seq<char>>,
}

/// A stored document by its texts.
pub open spec fn closed_tab(d: session::Document) -> ClosedTab {
    ClosedTab { path: opt_view(d.path), text: d.text@, saved_text: opt_view(d.saved_text) }
}

/// The open documents and what closing them remembers.
pub struct Tabs {
    documents: Documents,
    closed: Vec<session::Document>,
    discarded_tabs: Vec<DocumentId>,
    discarded_on_close: Vec<DocumentId>,
    pending_after_save: Option<CloseRequest>,
    file_busy: bool,
}

/// The tabs as plain values: the documents in tab order with their
/// identities, the active position and the next identity; the closed tabs,
/// oldest first; the tabs whose changes were discarded, and those discarded
/// while the window closes; the request waiting for a save; and whether a
/// file operation runs.
pub ghost struct TabsView {
    pub ids: Seq<DocumentId>,
    pub docs: Seq<DocumentView>,
    pub active: int,
    pub next_id: u64,
    pub closed: Seq<ClosedTab>,
    pub discarded_tabs: Set<DocumentId>,
    pub discarded_on_close: Set<DocumentId>,
    pub pending_after_save: Option<CloseRequest>,
    pub file_busy: bool,
}

impl View for Tabs {
    type V = TabsView;

    closed spec fn view(&self) -> TabsView {
        TabsView {
            ids: self.documents.ids(),
            docs: self.documents.docs(),
            active: self.documents.active_index(),
            next_id: self.documents.next_id(),
            closed: self.closed@.map_values(|d: session::Document| closed_tab(d)),
            discarded_tabs: self.discarded_tabs@.to_set(),
            discarded_on_close: self.discarded_on_close@.to_set(),
            pending_after_save: self.pending_after_save,
            file_busy: self.file_busy,
        }
    }
}

impl TabsView {
    /// The documents are well formed and at most twenty closed tabs are kept.
    pub open spec fn valid(self) -> bool {
        &&& self.ids.len() > 0
        &&& self.docs.len() == self.ids.len()
        &&& 0 <= self.active < self.ids.len()
        &&& self.closed.len() <= CLOSED_TABS_KEPT
    }

    /// Identity of the active document.
    pub open spec fn active_id(self) -> DocumentId {
        self.ids[self.active]
    }
}

/// `s` with `x` once more, unless it is there.
fn insert_id(s: &mut Vec<DocumentId>, x: DocumentId)
    requires
        old(s)@.no_duplicates(),
    ensures
        final(s)@.no_duplicates(),
        final(s)@.to_set() == old(s)@.to_set().insert(x),
{
    let mut i: usize = 0;
    while i < s.len()
        invariant
            s@ == old(s)@,
            s@.no_duplicates(),
            i <= s@.len(),
            forall|k: int| 0 <= k < i ==> s@[k] != x,
        decreases s@.len() - i,
    {
        if s[i] == x {
            proof {
                assert(s@.contains(x));
                assert(s@.to_set().insert(x) =~= s@.to_set());
            }
            return;
        }
        i = i + 1;
    }
    let ghost before = s@;
    s.push(x);
    proof {
        assert forall|a: int, b: int| 0 <= a < s@.len() && 0 <= b < s@.len() && a != b implies s@[a] != s@[b] by {
            if a < before.len() && b < before.len() {
                assert(s@[a] == before[a] && s@[b] == before[b]);
            }
        }
        assert(s@.to_set() =~= before.to_set().insert(x)) by {
            assert forall|y: DocumentId| s@.to_set().contains(y) <==> before.to_set().insert(x).contains(y) by {
                if s@.contains(y) {
                    let k = s@.index_of(y);
                    if k < before.len() {
                        assert(before[k] == y);
                    }
                }
                if before.contains(y) {
                    let k = before.index_of(y);
                    assert(s@[k] == y);
                }
                if y == x {
                    assert(s@[before.len() as int] == x);
                }
            }
        }
    }
}

/// `s` without `x`.
fn remove_id(s: &mut Vec<DocumentId>, x: DocumentId) -> (found: bool)
    requires
        old(s)@.no_duplicates(),
    ensures
        final(s)@.no_duplicates(),
        final(s)@.to_set() == old(s)@.to_set().remove(x),
        found == old(s)@.to_set().contains(x),
{
    let mut i: usize = 0;
    while i < s.len()
        invariant
            s@ == old(s)@,
            s@.no_duplicates(),
            i <= s@.len(),
            forall|k: int| 0 <= k < i ==> s@[k] != x,
        decreases s@.len() - i,
    {
        if s[i] == x {
            let ghost before = s@;
            s.remove(i);
            proof {
                assert(before.contains(x));
                assert forall|a: int, b: int| 0 <= a < s@.len() && 0 <= b < s@.len() && a != b implies s@[a] != s@[b] by {
                    let a2 = if a < i { a } else { a + 1 };
                    let b2 = if b < i { b } else { b + 1 };
                    assert(s@[a] == before[a2] && s@[b] == before[b2]);
                }
                assert(s@.to_set() =~= before.to_set().remove(x)) by {
                    assert forall|y: DocumentId| s@.to_set().contains(y) <==> before.to_set().remove(x).contains(y) by {
                        if s@.contains(y) {
                            let k = s@.index_of(y);
                            let k2 = if k < i { k } else { k + 1 };
                            assert(before[k2] == y);
                            assert(k2 != i);
                        }
                        if before.contains(y) && y != x {
                            let k = before.index_of(y);
                            assert(k != i);
                            if k < i {
                                assert(s@[k] == y);
                            } else {
                                assert(s@[k - 1] == y);
                            }
                        }
                    }
                }
            }
            return true;
        }
        i = i + 1;
    }
    proof {
        assert(!s@.contains(x));
        assert(s@.to_set().remove(x) =~= s@.to_set());
    }
    false
}

/// What closing a document leaves to reopen: all of it, or, for a tab whose
/// changes were discarded, its saved file (nothing when it has none).
pub open spec fn leaves_behind(d: DocumentView, discarded: bool) -> Option<ClosedTab> {
    if discarded {
        match (d.path, d.saved_text) {
            (Some(p), Some(s)) => Some(ClosedTab { path: Some(p), text: s, saved_text: Some(s) }),
            _ => None,
        }
    } else {
        Some(ClosedTab { path: d.path, text: d.text, saved_text: d.saved_text })
    }
}

/// The closed tabs after one more, keeping the last twenty.
pub open spec fn kept_closed(closed: Seq<ClosedTab>, more: Option<ClosedTab>) -> Seq<ClosedTab> {
    match more {
        None => closed,
        Some(c) => {
            let all = closed.push(c);
            if all.len() > CLOSED_TABS_KEPT { all.drop_first() } else { all }
        },
    }
}

/// The tab list after the document at position `i` is closed: the others
/// stay in order and the active document stays active; closing the active
/// one activates the tab after it (or the new last one); closing the last
/// tab opens a new empty document.
pub open spec fn tabs_without(v: TabsView, i: int) -> (Seq<DocumentId>, Seq<DocumentView>, int, u64) {
    let remaining = v.ids.len() - 1;
    if remaining == 0 {
        (seq![DocumentId(v.next_id)], seq![new_document_view()], 0, (v.next_id + 1) as u64)
    } else {
        (
            v.ids.remove(i),
            v.docs.remove(i),
            if v.active > i { v.active - 1 } else if v.active >= remaining { remaining - 1 } else { v.active },
            v.next_id,
        )
    }
}

/// The tabs after the document `id` is closed, and the status message; a
/// document that is not open changes nothing.
pub open spec fn tab_closed(v: TabsView, id: DocumentId) -> (TabsView, Option<Seq<char>>) {
    if !v.ids.contains(id) {
        (v, None)
    } else {
        let i = v.ids.index_of(id);
        let (ids, docs, active, next_id) = tabs_without(v, i);
        (
            TabsView {
                ids,
                docs,
                active,
                next_id,
                closed: kept_closed(v.closed, leaves_behind(v.docs[i], v.discarded_tabs.contains(id))),
                discarded_tabs: v.discarded_tabs.remove(id),
                discarded_on_close: v.discarded_on_close.remove(id),
                ..v
            },
            Some("Aba fechada: "@ + tab_name(v.docs[i])),
        )
    }
}

impl Tabs {
    /// Well formed: the documents are, no identity is listed twice, and at
    /// most twenty closed tabs are kept.
    pub closed spec fn wf(&self) -> bool {
        &&& self.documents.wf()
        &&& self.closed@.len() <= CLOSED_TABS_KEPT
        &&& self.discarded_tabs@.no_duplicates()
        &&& self.discarded_on_close@.no_duplicates()
    }

    /// A well-formed list of tabs has a valid view.
    pub proof fn lemma_valid(&self)
        requires
            self.wf(),
        ensures
            self@.valid(),
    {
    }

    /// Tabs over `documents`, with nothing closed, discarded or waiting.
    pub fn new(documents: Documents) -> (r: Self)
        requires
            documents.wf(),
        ensures
            r.wf(),
            r@.ids == documents.ids(),
            r@.docs == documents.docs(),
            r@.active == documents.active_index(),
            r@.next_id == documents.next_id(),
            r@.closed == Seq::<ClosedTab>::empty(),
            r@.discarded_tabs == Set::<DocumentId>::empty(),
            r@.discarded_on_close == Set::<DocumentId>::empty(),
            r@.pending_after_save is None,
            !r@.file_busy,
    {
        let r = Tabs {
            documents,
            closed: Vec::new(),
            discarded_tabs: Vec::new(),
            discarded_on_close: Vec::new(),
            pending_after_save: None,
            file_busy: false,
        };
        proof {
            assert(r@.closed =~= Seq::<ClosedTab>::empty());
            assert(r@.discarded_tabs =~= Set::<DocumentId>::empty());
            assert(r@.discarded_on_close =~= Set::<DocumentId>::empty());
        }
        r
    }

    /// The open documents.
    pub fn documents(&self) -> (r: &Documents)
        requires
            self.wf(),
        ensures
            r.wf(),
            r.ids() == self@.ids,
            r.docs() == self@.docs,
            r.active_index() == self@.active,
            r.next_id() == self@.next_id,
    {
        &self.documents
    }

    /// Whether a file operation runs.
    pub fn file_busy(&self) -> (r: bool)
        ensures
            r == self@.file_busy,
    {
        self.file_busy
    }

    /// Notes that a file operation started or ended.
    pub fn set_file_busy(&mut self, busy: bool)
        requires
            old(self).wf(),
        ensures
            final(self).wf(),
            final(self)@ == (TabsView { file_busy: busy, ..old(self)@ }),
    {
        self.file_busy = busy;
    }

    /// The request waiting for the active document to be saved.
    pub fn pending_after_save(&self) -> (r: Option<CloseRequest>)
        ensures
            r == self@.pending_after_save,
    {
        self.pending_after_save
    }

    /// Whether the changes of `id` were discarded while the window closes.
    pub fn discarded_on_close(&self, id: DocumentId) -> (r: bool)
        ensures
            r == self@.discarded_on_close.contains(id),
    {
        let mut i: usize = 0;
        while i < self.discarded_on_close.len()
            invariant
                i <= self.discarded_on_close@.len(),
                forall|k: int| 0 <= k < i ==> self.discarded_on_close@[k] != id,
            decreases self.discarded_on_close@.len() - i,
        {
            if self.discarded_on_close[i] == id {
                proof { assert(self.discarded_on_close@.contains(id)); }
                return true;
            }
            i = i + 1;
        }
        false
    }

    /// How many closed tabs can be reopened.
    pub fn closed_count(&self) -> (r: usize)
        ensures
            r == self@.closed.len(),
    {
        self.closed.len()
    }

    /// Notes that the changes of the tab `id` were discarded: closing it
    /// keeps only its saved file for reopening.
    pub fn mark_discarded(&mut self, id: DocumentId)
        requires
            old(self).wf(),
        ensures
            final(self).wf(),
            final(self)@ == (TabsView { discarded_tabs: old(self)@.discarded_tabs.insert(id), ..old(self)@ }),
    {
        insert_id(&mut self.discarded_tabs, id);
    }

    /// Forgets the tabs discarded while the window closed, once the session
    /// was stored or the window closes without one.
    pub fn forget_discarded_on_close(&mut self)
        requires
            old(self).wf(),
        ensures
            final(self).wf(),
            final(self)@ == (TabsView { discarded_on_close: Set::empty(), ..old(self)@ }),
    {
        self.discarded_on_close = Vec::new();
        proof { assert(self.discarded_on_close@.to_set() =~= Set::<DocumentId>::empty()); }
    }

    /// Closes the document `id`; returns the status message, or nothing
    /// when it is not open.
    pub fn close_tab(&mut self, id: DocumentId) -> (r: Option<String>)
        requires
            old(self).wf(),
            old(self)@.ids == seq![id] ==> old(self)@.next_id < u64::MAX,
        ensures
            final(self).wf(),
            final(self)@ == tab_closed(old(self)@, id).0,
            opt_view(r) == tab_closed(old(self)@, id).1,
    {
        let ghost v = self@;
        let index = match self.documents.position(id) {
            None => return None,
            Some(i) => i,
        };
        proof { self.documents.lemma_index_of(id, index as int); }
        let discarded = remove_id(&mut self.discarded_tabs, id);
        let document = self.documents.document_at(index);
        let name = document.display_name();
        let behind = if discarded {
            match (document.path(), document.saved_text()) {
                (Some(path), Some(saved)) => Some(session::Document {
                    path: Some(path.to_owned()),
                    text: saved.to_owned(),
                    saved_text: Some(saved.to_owned()),
                }),
                _ => None,
            }
        } else {
            let (_, text) = document.snapshot();
            Some(session::Document {
                path: match document.path() {
                    Some(p) => Some(p.to_owned()),
                    None => None,
                },
                text,
                saved_text: match document.saved_text() {
                    Some(s) => Some(s.to_owned()),
                    None => None,
                },
            })
        };
        proof {
            assert(match behind {
                Some(b) => leaves_behind(v.docs[index as int], discarded) == Some(closed_tab(b)),
                None => leaves_behind(v.docs[index as int], discarded) is None,
            });
        }
        let _ = self.documents.remove(id);
        let ghost closed_before = self.closed@;
        match behind {
            Some(b) => {
                self.closed.push(b);
                if self.closed.len() > CLOSED_TABS_KEPT {
                    self.closed.remove(0);
                }
            },
            None => {},
        }
        proof {
            assert(self.closed@.map_values(|d: session::Document| closed_tab(d)) =~= kept_closed(
                closed_before.map_values(|d: session::Document| closed_tab(d)),
                leaves_behind(v.docs[index as int], discarded)));
        }
        remove_id(&mut self.discarded_on_close, id);
        let mut message = String::new();
        push_str(&mut message, "Aba fechada: ");
        push_str(&mut message, name.as_str());
        proof {
            assert(self@.ids == tab_closed(v, id).0.ids);
            assert(self@ == tab_closed(v, id).0);
        }
        Some(message)
    }
}

/// A step of closing, with its texts as character sequences.
pub ghost enum StepView {
    Nothing,
    Ask { request: CloseRequest, name: Seq<char> },
    TabClosed(Seq<char>),
    CloseWindow,
    SaveActive,
}

/// The view of a step.
pub open spec fn step_view(s: CloseStep) -> StepView {
    match s {
        CloseStep::Nothing => StepView::Nothing,
        CloseStep::Ask { request, name } => StepView::Ask { request, name: name@ },
        CloseStep::TabClosed(m) => StepView::TabClosed(m@),
        CloseStep::CloseWindow => StepView::CloseWindow,
        CloseStep::SaveActive => StepView::SaveActive,
    }
}

/// Whether the document at position `i` has changes that are not saved and
/// were not discarded while the window closes.
pub open spec fn undecided(v: TabsView, i: int) -> bool {
    v.docs[i].is_dirty() && !v.discarded_on_close.contains(v.ids[i])
}

/// The first position below `n` of an undecided document.
pub open spec fn first_undecided_below(v: TabsView, n: int) -> Option<int>
    decreases n,
{
    if n <= 0 {
        None
    } else {
        match first_undecided_below(v, n - 1) {
            Some(i) => Some(i),
            None => if undecided(v, n - 1) { Some(n - 1) } else { None },
        }
    }
}

/// The document to ask about before `request` goes on: the tab itself when
/// its changes are not saved, or, for the window, the first undecided tab.
pub open spec fn asked_about(v: TabsView, request: CloseRequest) -> Option<int> {
    match request {
        CloseRequest::Tab(id) => if v.ids.contains(id) && v.docs[v.ids.index_of(id)].is_dirty() {
            Some(v.ids.index_of(id))
        } else {
            None
        },
        CloseRequest::Window => first_undecided_below(v, v.ids.len() as int),
    }
}

/// The tabs and the next step after `request`: nothing while a file
/// operation runs; a question about a document with unsaved changes, which
/// becomes active; otherwise the tab closes, or the window may close.
pub open spec fn requested(v: TabsView, request: CloseRequest) -> (TabsView, StepView) {
    if v.file_busy {
        (v, StepView::Nothing)
    } else {
        match asked_about(v, request) {
            Some(i) => (TabsView { active: i, file_busy: true, ..v }, StepView::Ask { request, name: tab_name(v.docs[i]) }),
            None => match request {
                CloseRequest::Tab(id) => {
                    let (w, m) = tab_closed(v, id);
                    (w, match m {
                        Some(m) => StepView::TabClosed(m),
                        None => StepView::Nothing,
                    })
                },
                CloseRequest::Window => (v, StepView::CloseWindow),
            },
        }
    }
}

/// The tabs and the next step after the answer about unsaved changes:
/// saving keeps the request waiting for the save; discarding closes the tab,
/// or marks the active document and looks for the next undecided one;
/// cancelling drops the request.
pub open spec fn decided(v: TabsView, request: CloseRequest, decision: UnsavedDecision) -> (TabsView, StepView) {
    let answered = TabsView { pending_after_save: None, file_busy: false, ..v };
    match decision {
        UnsavedDecision::Save => (TabsView { pending_after_save: Some(request), file_busy: true, ..v }, StepView::SaveActive),
        UnsavedDecision::Cancel => (
            TabsView {
                discarded_on_close: if request == CloseRequest::Window { Set::empty() } else { v.discarded_on_close },
                ..answered
            },
            StepView::Nothing,
        ),
        UnsavedDecision::Discard => match request {
            CloseRequest::Tab(id) => {
                let (w, m) = tab_closed(TabsView { discarded_tabs: v.discarded_tabs.insert(id), ..answered }, id);
                (w, match m {
                    Some(m) => StepView::TabClosed(m),
                    None => StepView::Nothing,
                })
            },
            CloseRequest::Window => requested(
                TabsView { discarded_on_close: v.discarded_on_close.insert(v.active_id()), ..answered },
                CloseRequest::Window,
            ),
        },
    }
}

/// Whether `request` may close a tab that is the only one, which then gets
/// a new identity.
pub open spec fn may_renew(v: TabsView, request: CloseRequest) -> bool {
    request matches CloseRequest::Tab(id) && v.ids == seq![id]
}

/// A reopened tab.
pub open spec fn reopened_document(c: ClosedTab) -> DocumentView {
    DocumentView {
        path: c.path,
        text: c.text,
        revision: 0,
        saved_text: c.saved_text,
        storage_revision: 0,
        external_change: None,
    }
}

/// The tabs after the last closed tab is reopened, and the status message:
/// it replaces a lone empty untitled tab, or opens as a new active tab.
pub open spec fn reopened(v: TabsView) -> (TabsView, Seq<char>) {
    if v.closed.len() == 0 {
        (v, "Não há abas fechadas para reabrir"@)
    } else {
        let d = reopened_document(v.closed.last());
        let current = v.docs[v.active];
        let blank = v.ids.len() == 1 && current.path is None && !current.is_dirty() && current.text.len() == 0;
        let rest = v.closed.drop_last();
        let message = "Aba reaberta: "@ + tab_name(d);
        if blank {
            (TabsView { docs: v.docs.update(v.active, d), closed: rest, ..v }, message)
        } else {
            (
                TabsView {
                    ids: v.ids.push(DocumentId(v.next_id)),
                    docs: v.docs.push(d),
                    active: v.ids.len() as int,
                    next_id: (v.next_id + 1) as u64,
                    closed: rest,
                    ..v
                },
                message,
            )
        }
    }
}

proof fn lemma_first_undecided(v: TabsView, n: int)
    ensures
        first_undecided_below(v, n) matches Some(i) ==> 0 <= i < n && undecided(v, i),
    decreases n,
{
    if n > 0 {
        lemma_first_undecided(v, n - 1);
    }
}

proof fn lemma_first_undecided_stays(v: TabsView, i: int, n: int)
    requires
        first_undecided_below(v, i + 1) == Some(i),
        i + 1 <= n,
    ensures
        first_undecided_below(v, n) == Some(i),
    decreases n,
{
    if n > i + 1 {
        lemma_first_undecided_stays(v, i, n - 1);
    }
}

impl Tabs {
    fn first_undecided(&self) -> (r: Option<usize>)
        requires
            self.wf(),
        ensures
            match r {
                Some(i) => i < self@.ids.len() && first_undecided_below(self@, self@.ids.len() as int) == Some(i as int),
                None => first_undecided_below(self@, self@.ids.len() as int) is None,
            },
    {
        let n = self.documents.len();
        let mut i: usize = 0;
        while i < n
            invariant
                self.wf(),
                n == self@.ids.len(),
                i <= n,
                first_undecided_below(self@, i as int) is None,
            decreases n - i,
        {
            if self.documents.document_at(i).is_dirty() && !self.discarded_on_close(self.documents.id_at(i)) {
                proof { lemma_first_undecided_stays(self@, i as int, n as int); }
                return Some(i);
            }
            i = i + 1;
        }
        None
    }

    /// Asks for a tab, or the window, to close.
    pub fn request(&mut self, request: CloseRequest) -> (r: CloseStep)
        requires
            old(self).wf(),
            may_renew(old(self)@, request) ==> old(self)@.next_id < u64::MAX,
        ensures
            final(self).wf(),
            (final(self)@, step_view(r)) == requested(old(self)@, request),
    {
        let ghost v = self@;
        if self.file_busy {
            return CloseStep::Nothing;
        }
        let asked = match request {
            CloseRequest::Tab(id) => match self.documents.position(id) {
                Some(i) => {
                    proof { self.documents.lemma_index_of(id, i as int); }
                    if self.documents.document_at(i).is_dirty() { Some(i) } else { None }
                },
                None => None,
            },
            CloseRequest::Window => self.first_undecided(),
        };
        proof { lemma_first_undecided(v, v.ids.len() as int); }
        match asked {
            Some(i) => {
                let id = self.documents.id_at(i);
                self.documents.activate(id);
                self.file_busy = true;
                let name = self.documents.document_at(i).display_name();
                proof {
                    v_lemma_active(&self.documents, i as int);
                }
                CloseStep::Ask { request, name }
            },
            None => match request {
                CloseRequest::Tab(id) => match self.close_tab(id) {
                    Some(m) => CloseStep::TabClosed(m),
                    None => CloseStep::Nothing,
                },
                CloseRequest::Window => CloseStep::CloseWindow,
            },
        }
    }

    /// Goes on with `request` after the answer about unsaved changes.
    pub fn decide(&mut self, request: CloseRequest, decision: UnsavedDecision) -> (r: CloseStep)
        requires
            old(self).wf(),
            may_renew(old(self)@, request) ==> old(self)@.next_id < u64::MAX,
        ensures
            final(self).wf(),
            (final(self)@, step_view(r)) == decided(old(self)@, request, decision),
    {
        let ghost v = self@;
        match decision {
            UnsavedDecision::Save => {
                self.pending_after_save = Some(request);
                self.file_busy = true;
                CloseStep::SaveActive
            },
            UnsavedDecision::Cancel => {
                self.pending_after_save = None;
                self.file_busy = false;
                if request == CloseRequest::Window {
                    self.forget_discarded_on_close();
                }
                CloseStep::Nothing
            },
            UnsavedDecision::Discard => {
                self.pending_after_save = None;
                self.file_busy = false;
                match request {
                    CloseRequest::Tab(id) => {
                        self.mark_discarded(id);
                        match self.close_tab(id) {
                            Some(m) => CloseStep::TabClosed(m),
                            None => CloseStep::Nothing,
                        }
                    },
                    CloseRequest::Window => {
                        let active = self.documents.active_id();
                        insert_id(&mut self.discarded_on_close, active);
                        self.request(CloseRequest::Window)
                    },
                }
            },
        }
    }

    /// Opens a new empty tab, unless a file operation runs.
    pub fn new_document(&mut self) -> (opened: bool)
        requires
            old(self).wf(),
            old(self)@.next_id < u64::MAX,
        ensures
            final(self).wf(),
            opened == !old(self)@.file_busy,
            !opened ==> final(self)@ == old(self)@,
            opened ==> final(self)@ == (TabsView {
                ids: old(self)@.ids.push(DocumentId(old(self)@.next_id)),
                docs: old(self)@.docs.push(new_document_view()),
                active: old(self)@.ids.len() as int,
                next_id: (old(self)@.next_id + 1) as u64,
                ..old(self)@
            }),
    {
        if self.file_busy {
            return false;
        }
        self.documents.add(Document::new());
        true
    }

    /// Makes the tab `id` active, unless a file operation runs; reports
    /// whether the active tab changed.
    pub fn activate(&mut self, id: DocumentId) -> (changed: bool)
        requires
            old(self).wf(),
        ensures
            final(self).wf(),
            changed == (!old(self)@.file_busy && old(self)@.ids.contains(id) && old(self)@.active_id() != id),
            changed ==> final(self)@ == (TabsView { active: old(self)@.ids.index_of(id), ..old(self)@ }),
            !changed ==> final(self)@ == old(self)@,
    {
        if self.file_busy {
            return false;
        }
        let ghost v = self@;
        let changed = self.documents.activate(id);
        proof {
            if v.ids.contains(id) {
                let i = v.ids.index_of(id);
                v_lemma_active(&self.documents, i);
            }
        }
        changed
    }

    /// Replaces the text of the active document, as the editor changed it.
    pub fn edit_active(&mut self, text: String)
        requires
            old(self).wf(),
        ensures
            final(self).wf(),
            final(self)@ == (TabsView {
                docs: old(self)@.docs.update(old(self)@.active, edited(old(self)@.docs[old(self)@.active], text@)),
                ..old(self)@
            }),
    {
        let ghost before = self.documents;
        let document = self.documents.active_mut();
        document.edit(text);
        proof { Documents::lemma_wf_same_shape(&before, &self.documents); }
    }

    /// Asks to save the active document, which drops any request waiting for
    /// a save; reports whether there is something to save, the save then
    /// counting as the running file operation.
    pub fn request_save(&mut self) -> (start: bool)
        requires
            old(self).wf(),
        ensures
            final(self).wf(),
            old(self)@.file_busy ==> !start && final(self)@ == old(self)@,
            !old(self)@.file_busy ==> {
                let dirty = old(self)@.docs[old(self)@.active].is_dirty();
                &&& start == dirty
                &&& final(self)@ == (TabsView { pending_after_save: None, file_busy: dirty, ..old(self)@ })
            },
    {
        if self.file_busy {
            return false;
        }
        self.pending_after_save = None;
        let dirty = self.documents.active().is_dirty();
        self.file_busy = dirty;
        dirty
    }

    /// Reopens the tab closed last, unless a file operation runs; returns the
    /// status message.
    pub fn reopen_closed(&mut self) -> (r: Option<String>)
        requires
            old(self).wf(),
            old(self)@.next_id < u64::MAX,
        ensures
            final(self).wf(),
            old(self)@.file_busy ==> r is None && final(self)@ == old(self)@,
            !old(self)@.file_busy ==> {
                &&& final(self)@ == reopened(old(self)@).0
                &&& r matches Some(m) && m@ == reopened(old(self)@).1
            },
    {
        if self.file_busy {
            return None;
        }
        let ghost v = self@;
        let mut message = String::new();
        match self.closed.pop() {
            None => {
                push_str(&mut message, "Não há abas fechadas para reabrir");
                Some(message)
            },
            Some(stored) => {
                proof {
                    assert(self.closed@.map_values(|d: session::Document| closed_tab(d)) =~= v.closed.drop_last());
                    assert(closed_tab(stored) == v.closed.last());
                }
                let reopened = Document::restored(stored.path, stored.text, stored.saved_text);
                let name = reopened.display_name();
                let current = self.documents.active();
                let blank = self.documents.len() == 1 && current.path().is_none() && !current.is_dirty()
                    && current.text().is_empty();
                let ghost before = self.documents;
                if blank {
                    let slot = self.documents.active_mut();
                    *slot = reopened;
                    proof { Documents::lemma_wf_same_shape(&before, &self.documents); }
                } else {
                    self.documents.add(reopened);
                }
                push_str(&mut message, "Aba reaberta: ");
                push_str(&mut message, name.as_str());
                Some(message)
            },
        }
    }
}

/// In a well-formed tab list, the document at position `i` is active
/// exactly when its identity is the active one.
proof fn v_lemma_active(documents: &Documents, i: int)
    requires
        documents.wf(),
        0 <= i < documents.ids().len(),
        documents.active_document_id() == documents.ids()[i],
    ensures
        documents.active_index() == i,
        documents.ids().index_of(documents.ids()[i]) == i,
{
    documents.lemma_ids_distinct();
    documents.lemma_index_of(documents.ids()[i], i);
}

/// How saving the active document ended.
#[derive(Debug)]
pub enum SaveOutcome {
    Cancelled { document_id: DocumentId },
    Saved { document_id: DocumentId, path: String, source: String },
    Failed { document_id: DocumentId, error: String },
}

/// What the application does after a save.
#[derive(Debug)]
pub struct SaveReaction {
    /// The message for the status bar, if it changes.
    pub status: Option<String>,
    /// The document now lives at another path, so compilation restarts.
    pub path_changed: bool,
    /// The next step of the request that waited for the save.
    pub next: CloseStep,
}

/// The name of the document `id` in messages ("documento" once it is closed).
pub open spec fn named(v: TabsView, id: DocumentId) -> Seq<char> {
    if v.ids.contains(id) { tab_name(v.docs[v.ids.index_of(id)]) } else { "documento"@ }
}

/// The tabs after a save that did not happen: the waiting request is
/// dropped, and a window that was closing forgets what was discarded.
pub open spec fn save_dropped(v: TabsView) -> TabsView {
    TabsView {
        pending_after_save: None,
        file_busy: false,
        discarded_on_close: if v.pending_after_save == Some(CloseRequest::Window) { Set::empty() } else { v.discarded_on_close },
        ..v
    }
}

/// The tabs, the project side, the status message, whether the path
/// changed, and the next step after a save. A saved document takes its
/// new path and saved text; when it was the project's main document the
/// main document follows it, or is released when the new path cannot be
/// one; then the request that waited for the save goes on.
pub open spec fn after_save(v: TabsView, p: ProjectStateView, outcome: SaveOutcome)
    -> (TabsView, ProjectStateView, Option<Seq<char>>, bool, StepView)
{
    match outcome {
        SaveOutcome::Cancelled { document_id } => (
            save_dropped(v),
            p,
            Some("O salvamento de "@ + named(v, document_id) + " foi cancelado"@),
            false,
            StepView::Nothing,
        ),
        SaveOutcome::Failed { document_id, error } => (
            save_dropped(v),
            p,
            Some("Erro ao salvar "@ + named(v, document_id) + ": "@ + error@),
            false,
            StepView::Nothing,
        ),
        SaveOutcome::Saved { document_id, path, source } => {
            if !v.ids.contains(document_id) {
                (TabsView { pending_after_save: None, file_busy: false, ..v }, p, None, false, StepView::Nothing)
            } else {
                let i = v.ids.index_of(document_id);
                let old_path = v.docs[i].path;
                let was_main = p.project_main is Some && p.project_main == old_path;
                let d = marked_saved(v.docs[i], path@, source@);
                let saved = TabsView { docs: v.docs.update(i, d), pending_after_save: None, file_busy: false, ..v };
                let q = if was_main { ProjectStateView { project_main: filtered_main(p.root, Some(path@)), ..p } } else { p };
                let status = if was_main && q.project_main is None {
                    "Salvo em "@ + path@ + "; fora do projeto, o preview agora acompanha a aba ativa"@
                } else if d.is_dirty() {
                    "Versão salva em "@ + path@ + "; há alterações mais recentes"@
                } else {
                    "Salvo em "@ + path@
                };
                let path_changed = old_path != Some(path@);
                match v.pending_after_save {
                    Some(request) => {
                        let (w, step) = requested(saved, request);
                        (w, q, Some(status), path_changed, step)
                    },
                    None => (saved, q, Some(status), path_changed, StepView::Nothing),
                }
            }
        },
    }
}

fn concat3(a: &str, b: &str, c: &str) -> (r: String)
    ensures
        r@ == a@ + b@ + c@,
{
    let mut s = String::new();
    push_str(&mut s, a);
    push_str(&mut s, b);
    push_str(&mut s, c);
    s
}

impl Tabs {
    fn name_of(&self, id: DocumentId) -> (r: String)
        requires
            self.wf(),
        ensures
            r@ == named(self@, id),
    {
        match self.documents.get(id) {
            Some(d) => d.display_name(),
            None => "documento".to_owned(),
        }
    }

    fn drop_pending_save(&mut self)
        requires
            old(self).wf(),
        ensures
            final(self).wf(),
            final(self)@ == save_dropped(old(self)@),
    {
        if self.pending_after_save == Some(CloseRequest::Window) {
            self.forget_discarded_on_close();
        }
        self.pending_after_save = None;
        self.file_busy = false;
    }

    /// Takes in how saving ended, with the project side whose main document
    /// may follow the saved file.
    pub fn after_save(&mut self, project: &mut ProjectState, outcome: SaveOutcome) -> (r: SaveReaction)
        requires
            old(self).wf(),
            old(project).wf(),
            old(self)@.pending_after_save matches Some(q) && may_renew(old(self)@, q) ==> old(self)@.next_id < u64::MAX,
        ensures
            final(self).wf(),
            final(project).wf(),
            ({
                let (v, p, status, path_changed, next) = after_save(old(self)@, old(project)@, outcome);
                &&& final(self)@ == v
                &&& final(project)@ == p
                &&& opt_view(r.status) == status
                &&& r.path_changed == path_changed
                &&& step_view(r.next) == next
            }),
    {
        match outcome {
            SaveOutcome::Cancelled { document_id } => {
                let name = self.name_of(document_id);
                self.drop_pending_save();
                SaveReaction {
                    status: Some(concat3("O salvamento de ", name.as_str(), " foi cancelado")),
                    path_changed: false,
                    next: CloseStep::Nothing,
                }
            },
            SaveOutcome::Failed { document_id, error } => {
                let name = self.name_of(document_id);
                self.drop_pending_save();
                let mut status = concat3("Erro ao salvar ", name.as_str(), ": ");
                push_str(&mut status, error.as_str());
                SaveReaction { status: Some(status), path_changed: false, next: CloseStep::Nothing }
            },
            SaveOutcome::Saved { document_id, path, source } => {
                let ghost v = self@;
                self.file_busy = false;
                let pending = self.pending_after_save;
                self.pending_after_save = None;
                let index = match self.documents.position(document_id) {
                    None => return SaveReaction { status: None, path_changed: false, next: CloseStep::Nothing },
                    Some(i) => i,
                };
                proof { self.documents.lemma_index_of(document_id, index as int); }
                let old_path: Option<String> = match self.documents.document_at(index).path() {
                    Some(p) => Some(p.to_owned()),
                    None => None,
                };
                let was_main = match (project.project_main(), &old_path) {
                    (Some(main), Some(old)) => crate::text::str_eq(main.as_str(), old.as_str()),
                    _ => false,
                };
                let path_changed = match &old_path {
                    Some(old) => !crate::text::str_eq(old.as_str(), path.as_str()),
                    None => true,
                };
                let ghost before = self.documents;
                let document = self.documents.document_at_mut(index);
                document.mark_saved(path.clone(), source);
                let still_dirty = document.is_dirty();
                proof { Documents::lemma_wf_same_shape(&before, &self.documents); }
                if was_main {
                    project.update_project_main(Some(path.clone()));
                }
                let released = was_main && project.project_main().is_none();
                let status = if released {
                    concat3("Salvo em ", path.as_str(), "; fora do projeto, o preview agora acompanha a aba ativa")
                } else if still_dirty {
                    concat3("Versão salva em ", path.as_str(), "; há alterações mais recentes")
                } else {
                    concat3("Salvo em ", path.as_str(), "")
                };
                proof {
                    assert(("Salvo em "@ + path@ + ""@) =~= "Salvo em "@ + path@) by {
                        reveal_strlit("");
                    }
                }
                let next = match pending {
                    Some(request) => self.request(request),
                    None => CloseStep::Nothing,
                };
                SaveReaction { status: Some(status), path_changed, next }
            },
        }
    }
}

/// What the session keeps of the document at position `i`: all of it, or,
/// when the window closes after its changes were discarded, its saved file.
pub open spec fn stored_entry(v: TabsView, closing: bool, i: int) -> Option<ClosedTab> {
    leaves_behind(v.docs[i], closing && v.discarded_on_close.contains(v.ids[i]))
}

/// What the session keeps of the documents at positions below `n`.
pub open spec fn stored_below(v: TabsView, closing: bool, n: int) -> Seq<ClosedTab>
    decreases n,
{
    if n <= 0 {
        Seq::empty()
    } else {
        let before = stored_below(v, closing, n - 1);
        match stored_entry(v, closing, n - 1) {
            Some(c) => before.push(c),
            None => before,
        }
    }
}

/// The documents the session keeps, in tab order, and the position of the
/// active one among them (the first when it was not kept); an empty list
/// keeps one blank document.
pub open spec fn stored_session(v: TabsView, closing: bool) -> (Seq<ClosedTab>, int) {
    let all = stored_below(v, closing, v.ids.len() as int);
    if all.len() == 0 {
        (seq![ClosedTab { path: None, text: Seq::empty(), saved_text: Some(Seq::empty()) }], 0)
    } else {
        (all, if stored_entry(v, closing, v.active) is Some { stored_below(v, closing, v.active).len() as int } else { 0 })
    }
}

impl Tabs {
    fn stored_document(&self, i: usize, closing: bool) -> (r: Option<session::Document>)
        requires
            self.wf(),
            i < self@.ids.len(),
        ensures
            match r {
                Some(d) => stored_entry(self@, closing, i as int) == Some(closed_tab(d)),
                None => stored_entry(self@, closing, i as int) is None,
            },
    {
        let document = self.documents.document_at(i);
        if closing && self.discarded_on_close(self.documents.id_at(i)) {
            match (document.path(), document.saved_text()) {
                (Some(path), Some(saved)) => Some(session::Document {
                    path: Some(path.to_owned()),
                    text: saved.to_owned(),
                    saved_text: Some(saved.to_owned()),
                }),
                _ => None,
            }
        } else {
            let (_, text) = document.snapshot();
            Some(session::Document {
                path: match document.path() {
                    Some(p) => Some(p.to_owned()),
                    None => None,
                },
                text,
                saved_text: match document.saved_text() {
                    Some(s) => Some(s.to_owned()),
                    None => None,
                },
            })
        }
    }

    /// The documents to store in the session, and the position of the
    /// active one among them; `closing` when the window closes.
    pub fn stored_documents(&self, closing: bool) -> (r: (Vec<session::Document>, usize))
        requires
            self.wf(),
        ensures
            r.0@.map_values(|d: session::Document| closed_tab(d)) == stored_session(self@, closing).0,
            r.1 == stored_session(self@, closing).1,
    {
        let ghost v = self@;
        let n = self.documents.len();
        let active = self.documents.active_position();
        let mut out: Vec<session::Document> = Vec::new();
        let mut active_at: Option<usize> = None;
        let mut i: usize = 0;
        while i < n
            invariant
                self.wf(),
                v == self@,
                n == v.ids.len(),
                active == v.active,
                i <= n,
                out@.map_values(|d: session::Document| closed_tab(d)) == stored_below(v, closing, i as int),
                i <= active ==> active_at is None,
                i > active ==> match active_at {
                    Some(k) => stored_entry(v, closing, v.active) is Some && k == stored_below(v, closing, v.active).len(),
                    None => stored_entry(v, closing, v.active) is None,
                },
            decreases n - i,
        {
            let ghost before = out@;
            match self.stored_document(i, closing) {
                Some(d) => {
                    if i == active {
                        active_at = Some(out.len());
                    }
                    out.push(d);
                    proof {
                        assert(out@.map_values(|d: session::Document| closed_tab(d)) =~= before.map_values(
                            |d: session::Document| closed_tab(d)).push(closed_tab(d)));
                    }
                },
                None => {},
            }
            i = i + 1;
        }
        if out.len() == 0 {
            let mut blank: Vec<session::Document> = Vec::new();
            let b = session::Document::blank();
            blank.push(b);
            proof {
                assert(blank@.map_values(|d: session::Document| closed_tab(d)) =~= stored_session(v, closing).0);
            }
            return (blank, 0);
        }
        let position = match active_at {
            Some(k) => k,
            None => 0,
        };
        (out, position)
    }
}

proof fn lemma_none_undecided_below(v: TabsView, n: int)
    requires
        first_undecided_below(v, n) is None,
    ensures
        forall|i: int| 0 <= i < n ==> !undecided(v, i),
    decreases n,
{
    if n > 0 {
        lemma_none_undecided_below(v, n - 1);
    }
}

/// The window closes only when no open document has unsaved changes that
/// were not explicitly discarded.
pub proof fn law_window_closes_only_when_all_is_decided(v: TabsView)
    requires
        requested(v, CloseRequest::Window).1 == StepView::CloseWindow,
    ensures
        forall|i: int| 0 <= i < v.ids.len() ==> !undecided(v, i),
{
    lemma_none_undecided_below(v, v.ids.len() as int);
}

/// While a file operation runs, asking to close changes nothing.
pub proof fn law_busy_tabs_ignore_close_requests(v: TabsView, request: CloseRequest)
    requires
        v.file_busy,
    ensures
        requested(v, request) == (v, StepView::Nothing),
{
}

/// Reopening the tab closed last brings back what it held: its path, its
/// text and its saved text; a tab whose changes were discarded comes back as
/// its saved file.
pub proof fn law_reopening_restores_the_closed_tab(v: TabsView, id: DocumentId)
    requires
        v.valid(),
        v.ids.contains(id),
        leaves_behind(v.docs[v.ids.index_of(id)], v.discarded_tabs.contains(id)) is Some,
    ensures
        ({
            let d = v.docs[v.ids.index_of(id)];
            let w = reopened(tab_closed(v, id).0).0;
            let r = w.docs[w.active];
            &&& 0 <= w.active < w.docs.len()
            &&& r.path == d.path
            &&& v.discarded_tabs.contains(id) ==> r.text == d.saved_text->0 && !r.is_dirty()
            &&& !v.discarded_tabs.contains(id) ==> r.text == d.text && r.saved_text == d.saved_text
        }),
{
    let i = v.ids.index_of(id);
    let (u, _) = tab_closed(v, id);
    assert(u.closed.last() == leaves_behind(v.docs[i], v.discarded_tabs.contains(id))->0);
    assert(u.docs.len() == u.ids.len() && u.ids.len() > 0);
    assert(0 <= u.active < u.ids.len());
}

/// A document to write: where it lives (if it has a path), the directory and
/// name to offer when it has none, and its text.
#[derive(Debug)]
pub struct SaveRequest {
    pub document_id: DocumentId,
    pub path: Option<String>,
    pub directory: String,
    pub file_name: String,
    pub source: String,
}

/// A document to write, by its texts.
pub ghost struct SaveRequestView {
    pub document_id: DocumentId,
    pub path: Option<Seq<char>>,
    pub directory: Seq<char>,
    pub file_name: Seq<char>,
    pub source: Seq<char>,
}

/// The view of a request.
pub open spec fn save_request_view(r: SaveRequest) -> SaveRequestView {
    SaveRequestView {
        document_id: r.document_id,
        path: opt_view(r.path),
        directory: r.directory@,
        file_name: r.file_name@,
        source: r.source@,
    }
}

/// The documents at positions below `n` that need saving, in tab order:
/// those with unsaved changes, and, unless `include_drafts`, only those that
/// already have a path.
pub open spec fn to_save_below(v: TabsView, root: Seq<char>, include_drafts: bool, n: int) -> Seq<SaveRequestView>
    decreases n,
{
    if n <= 0 {
        Seq::empty()
    } else {
        let before = to_save_below(v, root, include_drafts, n - 1);
        let d = v.docs[n - 1];
        if d.is_dirty() && (include_drafts || d.path is Some) {
            before.push(SaveRequestView {
                document_id: v.ids[n - 1],
                path: d.path,
                directory: directory_of(d, root),
                file_name: tab_name(d),
                source: d.text,
            })
        } else {
            before
        }
    }
}

/// How a batch of saves ended, for the status bar.
pub ghost struct BatchView {
    pub docs: Seq<DocumentView>,
    pub saved: nat,
    pub cancelled: nat,
    pub errors: Seq<Seq<char>>,
}

/// The documents and the counts after the outcomes of a batch of saves, in
/// order: each save of an open document marks it saved.
pub open spec fn batch_saved(v: TabsView, outcomes: Seq<SaveOutcome>) -> BatchView
    decreases outcomes.len(),
{
    if outcomes.len() == 0 {
        BatchView { docs: v.docs, saved: 0, cancelled: 0, errors: Seq::empty() }
    } else {
        let b = batch_saved(v, outcomes.drop_last());
        match outcomes.last() {
            SaveOutcome::Saved { document_id, path, source } => if v.ids.contains(document_id) {
                let i = v.ids.index_of(document_id);
                BatchView { docs: b.docs.update(i, marked_saved(b.docs[i], path@, source@)), saved: b.saved + 1, ..b }
            } else {
                b
            },
            SaveOutcome::Cancelled { .. } => BatchView { cancelled: b.cancelled + 1, ..b },
            SaveOutcome::Failed { error, .. } => BatchView { errors: b.errors.push(error@), ..b },
        }
    }
}

/// The status message after a batch of saves: automatic saves speak only of
/// failures; otherwise the count of saved documents, and what went wrong.
pub open spec fn batch_status(b: BatchView, automatic: bool) -> Option<Seq<char>> {
    let errors = truncated(joined(b.errors, "; "@), 140);
    if automatic {
        if b.errors.len() > 0 { Some("Falha no salvamento automático: "@ + errors) } else { None }
    } else if b.errors.len() == 0 && b.cancelled == 0 {
        Some(decimal(b.saved) + " documento(s) salvo(s)"@)
    } else if b.errors.len() > 0 {
        Some("Salvamento parcial: "@ + decimal(b.saved) + " salvo(s); "@ + errors)
    } else {
        Some(decimal(b.saved) + " documento(s) salvo(s); operação cancelada"@)
    }
}

impl Tabs {
    /// The documents that need saving, in tab order; `root` is offered as
    /// the directory of those without one.
    pub fn save_requests(&self, root: &str, include_drafts: bool) -> (r: Vec<SaveRequest>)
        requires
            self.wf(),
        ensures
            r@.map_values(|q: SaveRequest| save_request_view(q)) == to_save_below(self@, root@, include_drafts, self@.ids.len() as int),
    {
        let ghost v = self@;
        let n = self.documents.len();
        let mut out: Vec<SaveRequest> = Vec::new();
        let mut i: usize = 0;
        while i < n
            invariant
                self.wf(),
                v == self@,
                n == v.ids.len(),
                i <= n,
                out@.map_values(|q: SaveRequest| save_request_view(q)) == to_save_below(v, root@, include_drafts, i as int),
            decreases n - i,
        {
            let document = self.documents.document_at(i);
            if document.is_dirty() && (include_drafts || document.path().is_some()) {
                let ghost before = out@;
                let (_, source) = document.snapshot();
                let q = SaveRequest {
                    document_id: self.documents.id_at(i),
                    path: match document.path() {
                        Some(p) => Some(p.to_owned()),
                        None => None,
                    },
                    directory: document.directory(root),
                    file_name: document.display_name(),
                    source,
                };
                out.push(q);
                proof {
                    assert(out@.map_values(|q: SaveRequest| save_request_view(q)) =~= before.map_values(
                        |q: SaveRequest| save_request_view(q)).push(save_request_view(q)));
                }
            }
            i = i + 1;
        }
        out
    }

    /// Takes in the outcomes of saving several documents at once
    /// (`automatic` for the periodic save of named documents); returns the
    /// status message, if any, and how many documents were saved.
    pub fn after_save_all(&mut self, outcomes: Vec<SaveOutcome>, automatic: bool) -> (r: (Option<String>, usize))
        requires
            old(self).wf(),
            outcomes@.len() <= usize::MAX,
        ensures
            final(self).wf(),
            ({
                let b = batch_saved(old(self)@, outcomes@);
                &&& final(self)@ == (TabsView {
                    docs: b.docs,
                    file_busy: if automatic { old(self)@.file_busy } else { false },
                    ..old(self)@
                })
                &&& opt_view(r.0) == batch_status(b, automatic)
                &&& r.1 == b.saved
            }),
    {
        let ghost v = self@;
        let ghost all = outcomes@;
        let mut saved: usize = 0;
        let mut cancelled: usize = 0;
        let mut errors = String::new();
        let mut error_count: usize = 0;
        let mut rest = outcomes;
        let n = rest.len();
        let mut done: usize = 0;
        proof { assert(all.take(0) =~= Seq::<SaveOutcome>::empty()); }
        while done < n
            invariant
                self.wf(),
                self@.ids == v.ids,
                self@ == (TabsView { docs: self@.docs, ..v }),
                n == all.len(),
                done <= n,
                rest@ == all.skip(done as int),
                ({
                    let b = batch_saved(v, all.take(done as int));
                    &&& self@.docs == b.docs
                    &&& saved == b.saved
                    &&& cancelled == b.cancelled
                    &&& error_count == b.errors.len()
                    &&& errors@ == joined(b.errors, "; "@)
                    &&& b.saved + b.cancelled + b.errors.len() <= done
                }),
            decreases n - done,
        {
            let outcome = rest.remove(0);
            proof {
                assert(outcome == all[done as int]);
                assert(rest@ =~= all.skip(done + 1));
                assert(all.take(done + 1).drop_last() =~= all.take(done as int));
                assert(all.take(done + 1).last() == all[done as int]);
            }
            let ghost b0 = batch_saved(v, all.take(done as int));
            match outcome {
                SaveOutcome::Saved { document_id, path, source } => {
                    match self.documents.position(document_id) {
                        Some(i) => {
                            proof { self.documents.lemma_index_of(document_id, i as int); }
                            let ghost before = self.documents;
                            self.documents.document_at_mut(i).mark_saved(path, source);
                            proof { Documents::lemma_wf_same_shape(&before, &self.documents); }
                            saved = saved + 1;
                        },
                        None => {},
                    }
                },
                SaveOutcome::Cancelled { .. } => {
                    cancelled = cancelled + 1;
                },
                SaveOutcome::Failed { error, .. } => {
                    if error_count > 0 {
                        push_str(&mut errors, "; ");
                    }
                    push_str(&mut errors, error.as_str());
                    error_count = error_count + 1;
                    proof {
                        let e = b0.errors.push(error@);
                        assert(e.drop_last() =~= b0.errors);
                        if b0.errors.len() == 0 {
                            assert(errors@ =~= error@);
                        }
                    }
                },
            }
            done = done + 1;
        }
        proof { assert(all.take(n as int) =~= all); }
        if !automatic {
            self.file_busy = false;
        }
        let errors = truncate(errors.as_str(), 140);
        let status = if automatic {
            if error_count > 0 {
                let mut s = String::new();
                push_str(&mut s, "Falha no salvamento automático: ");
                push_str(&mut s, errors.as_str());
                Some(s)
            } else {
                None
            }
        } else if error_count == 0 && cancelled == 0 {
            let mut s = decimal_string(saved);
            push_str(&mut s, " documento(s) salvo(s)");
            Some(s)
        } else if error_count > 0 {
            let mut s = String::new();
            push_str(&mut s, "Salvamento parcial: ");
            push_str(&mut s, decimal_string(saved).as_str());
            push_str(&mut s, " salvo(s); ");
            push_str(&mut s, errors.as_str());
            Some(s)
        } else {
            let mut s = decimal_string(saved);
            push_str(&mut s, " documento(s) salvo(s); operação cancelada");
            Some(s)
        };
        (status, saved)
    }
}

/// The periodic save writes only documents that already have a file: every
/// request without drafts has a path, and has unsaved changes.
pub proof fn law_automatic_saves_only_named_documents(v: TabsView, root: Seq<char>, n: int)
    requires
        0 <= n <= v.docs.len(),
    ensures
        forall|k: int| 0 <= k < to_save_below(v, root, false, n).len() ==>
            (#[trigger] to_save_below(v, root, false, n)[k]).path is Some,
    decreases n,
{
    if n > 0 {
        law_automatic_saves_only_named_documents(v, root, n - 1);
        let before = to_save_below(v, root, false, n - 1);
        let now = to_save_below(v, root, false, n);
        assert forall|k: int| 0 <= k < now.len() implies (#[trigger] now[k]).path is Some by {
            if k < before.len() {
                assert(now[k] == before[k]);
            }
        }
    }
}

impl Tabs {
    /// The identities of the open documents are distinct.
    pub proof fn lemma_ids_distinct(&self)
        requires
            self.wf(),
        ensures
            self@.ids.no_duplicates(),
    {
        self.documents.lemma_ids_distinct();
    }

    /// Opens `document` in a new tab, which becomes active.
    pub fn add_document(&mut self, document: Document) -> (id: DocumentId)
        requires
            old(self).wf(),
            old(self)@.next_id < u64::MAX,
        ensures
            final(self).wf(),
            id == DocumentId(old(self)@.next_id),
            final(self)@ == (TabsView {
                ids: old(self)@.ids.push(id),
                docs: old(self)@.docs.push(document@),
                active: old(self)@.ids.len() as int,
                next_id: (old(self)@.next_id + 1) as u64,
                ..old(self)@
            }),
    {
        self.documents.add(document)
    }
}

impl Tabs {
    /// Makes the tab `id` active even while a file operation runs, to show
    /// something in it.
    pub fn bring_forward(&mut self, id: DocumentId)
        requires
            old(self).wf(),
        ensures
            final(self).wf(),
            old(self)@.ids.contains(id) ==> final(self)@ == (TabsView { active: old(self)@.ids.index_of(id), ..old(self)@ }),
            !old(self)@.ids.contains(id) ==> final(self)@ == old(self)@,
    {
        let ghost v = self@;
        self.documents.activate(id);
        proof {
            if v.ids.contains(id) {
                let i = v.ids.index_of(id);
                v_lemma_active(&self.documents, i);
            }
        }
    }
}

/// A tab with unsaved changes is never closed without asking: asking to
/// close it leaves every tab open.
pub proof fn law_unsaved_tabs_are_not_closed_silently(v: TabsView, id: DocumentId)
    requires
        v.valid(),
        v.ids.contains(id),
        v.docs[v.ids.index_of(id)].is_dirty(),
    ensures
        requested(v, CloseRequest::Tab(id)).0.ids == v.ids,
        requested(v, CloseRequest::Tab(id)).0.docs == v.docs,
        !v.file_busy ==> requested(v, CloseRequest::Tab(id)).1 == (StepView::Ask {
            request: CloseRequest::Tab(id),
            name: tab_name(v.docs[v.ids.index_of(id)]),
        }),
{
}

} // verus!
