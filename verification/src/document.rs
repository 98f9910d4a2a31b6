use vstd::prelude::*;
use crate::text::str_eq;
use crate::paths::{file_name, parent, path_file_name, path_parent, opt_view};

verus! {

/// Stable identity of an open document, independent of its position in the tab list.
#[derive(Debug, Clone, Copy, PartialEq, Eq, Hash, Structural)]
pub struct DocumentId(pub u64);

/// What happened to the file behind a document while it was open.
#[derive(Debug, Clone, Copy, PartialEq, Eq, Structural)]
pub enum ExternalChangeKind {
    Modified,
    Deleted,
}

/// How a document reacted to a change observed on disk.
#[derive(Debug, Clone, Copy, PartialEq, Eq, Structural)]
pub enum ExternalUpdate {
    Unchanged,
    Reloaded,
    Conflict,
}

enum ExternalChange {
    Modified(String),
    Deleted,
}

/// Mathematical model of a pending external change.
pub ghost enum ExternalChangeView {
    Modified(Seq<char>),
    Deleted,
}

/// Mathematical model of a document.
pub ghost struct DocumentView {
    pub path: Option<Seq<char>>,
    pub text: Seq<char>,
    pub revision: u64,
    pub saved_text: Option<Seq<char>>,
    pub storage_revision: u64,
    pub external_change: Option<ExternalChangeView>,
}

/// A document has unsaved changes when it was never saved or when its text
/// differs from the text last written to (or read from) disk.
pub open spec fn dirty(saved_text: Option<Seq<char>>, text: Seq<char>) -> bool {
    match saved_text {
        None => true,
        Some(saved) => saved != text,
    }
}

impl DocumentView {
    /// Whether the text differs from what was saved.
    pub open spec fn is_dirty(self) -> bool {
        dirty(self.saved_text, self.text)
    }

    /// The kind of a pending change made outside the editor.
    pub open spec fn external_kind(self) -> Option<ExternalChangeKind> {
        match self.external_change {
            None => None,
            Some(ExternalChangeView::Modified(_)) => Some(ExternalChangeKind::Modified),
            Some(ExternalChangeView::Deleted) => Some(ExternalChangeKind::Deleted),
        }
    }
}

/// Model of a new, empty document that has nothing to save.
pub open spec fn new_document_view() -> DocumentView {
    DocumentView {
        path: None,
        text: Seq::empty(),
        revision: 0,
        saved_text: Some(Seq::empty()),
        storage_revision: 0,
        external_change: None,
    }
}

/// The next value of a revision counter that wraps around at the end of its range.
pub open spec fn next_revision(revision: u64) -> u64 {
    if revision == u64::MAX {
        0
    } else {
        (revision + 1) as u64
    }
}

fn bump(revision: u64) -> (r: u64)
    ensures
        r == next_revision(revision),
{
    if revision == u64::MAX {
        0
    } else {
        revision + 1
    }
}

/// A Typst document: its text, where it is stored, and what is known of the
/// copy on disk.
pub struct Document {
    path: Option<String>,
    text: String,
    revision: u64,
    saved_text: Option<String>,
    storage_revision: u64,
    external_change: Option<ExternalChange>,
}

spec fn change_view(c: Option<ExternalChange>) -> Option<ExternalChangeView> {
    match c {
        None => None,
        Some(ExternalChange::Modified(s)) => Some(ExternalChangeView::Modified(s@)),
        Some(ExternalChange::Deleted) => Some(ExternalChangeView::Deleted),
    }
}

impl View for Document {
    type V = DocumentView;

    closed spec fn view(&self) -> DocumentView {
        DocumentView {
            path: opt_view(self.path),
            text: self.text@,
            revision: self.revision,
            saved_text: opt_view(self.saved_text),
            storage_revision: self.storage_revision,
            external_change: change_view(self.external_change),
        }
    }
}

fn opt_str_eq(a: &Option<String>, b: &str) -> (r: bool)
    ensures
        r == (opt_view(*a) == Some(b@)),
{
    match a {
        None => false,
        Some(a) => str_eq(a.as_str(), b),
    }
}

impl Document {
    /// Creates a new, empty document that has no pending changes.
    pub fn new() -> (d: Self)
        ensures
            d@ == new_document_view(),
            !d@.is_dirty(),
    {
        Document {
            path: None,
            text: String::new(),
            revision: 0,
            saved_text: Some(String::new()),
            storage_revision: 0,
            external_change: None,
        }
    }

    /// Creates an unsaved document prefilled with `text`.
    pub fn draft(text: &str) -> (d: Self)
        ensures
            d@ == (DocumentView {
                path: None,
                text: text@,
                revision: 0,
                saved_text: None,
                storage_revision: 0,
                external_change: None,
            }),
            d@.is_dirty(),
    {
        Document {
            path: None,
            text: text.to_owned(),
            revision: 0,
            saved_text: None,
            storage_revision: 0,
            external_change: None,
        }
    }

    /// Creates a document loaded from disk.
    pub fn opened(path: String, text: String) -> (d: Self)
        ensures
            d@ == (DocumentView {
                path: Some(path@),
                text: text@,
                revision: 0,
                saved_text: Some(text@),
                storage_revision: 0,
                external_change: None,
            }),
            !d@.is_dirty(),
    {
        let saved = text.clone();
        Document {
            path: Some(path),
            text,
            revision: 0,
            saved_text: Some(saved),
            storage_revision: 0,
            external_change: None,
        }
    }

    /// Restores the durable parts of a document from a previous session.
    pub fn restored(path: Option<String>, text: String, saved_text: Option<String>) -> (d: Self)
        ensures
            d@ == (DocumentView {
                path: opt_view(path),
                text: text@,
                revision: 0,
                saved_text: opt_view(saved_text),
                storage_revision: 0,
                external_change: None,
            }),
    {
        Document { path, text, revision: 0, saved_text, storage_revision: 0, external_change: None }
    }

    /// The file the document is stored in.
    pub fn path(&self) -> (r: Option<&str>)
        ensures
            match r {
                None => self@.path is None,
                Some(p) => self@.path == Some(p@),
            },
    {
        match &self.path {
            None => None,
            Some(p) => Some(p.as_str()),
        }
    }

    /// The name shown on the document's tab.
    pub fn display_name(&self) -> (r: String)
        ensures
            r@ == tab_name(self@),
    {
        match &self.path {
            Some(p) => match path_file_name(p.as_str()) {
                Some(name) => name,
                None => "Sem título.typ".to_owned(),
            },
            None => "Sem título.typ".to_owned(),
        }
    }

    /// The directory holding the document, or `fallback` for a document
    /// that has none.
    pub fn directory(&self, fallback: &str) -> (r: String)
        ensures
            r@ == directory_of(self@, fallback@),
    {
        match &self.path {
            Some(p) => match path_parent(p.as_str()) {
                Some(dir) => if !dir.as_str().is_empty() { dir } else { fallback.to_owned() },
                None => fallback.to_owned(),
            },
            None => fallback.to_owned(),
        }
    }

    /// The name under which the compiler knows the document.
    pub fn main_name(&self) -> (r: String)
        ensures
            r@ == match self@.path {
                Some(p) => match file_name(p) {
                    Some(name) => name,
                    None => "untitled.typ"@,
                },
                None => "untitled.typ"@,
            },
    {
        match &self.path {
            Some(p) => match path_file_name(p.as_str()) {
                Some(name) => name,
                None => "untitled.typ".to_owned(),
            },
            None => "untitled.typ".to_owned(),
        }
    }

    /// The current text.
    pub fn text(&self) -> (r: &str)
        ensures
            r@ == self@.text,
    {
        self.text.as_str()
    }

    /// The revision of the text, which every edit moves on.
    pub fn revision(&self) -> (r: u64)
        ensures
            r == self@.revision,
    {
        self.revision
    }

    /// The current revision together with a copy of the text.
    pub fn snapshot(&self) -> (r: (u64, String))
        ensures
            r.0 == self@.revision,
            r.1@ == self@.text,
    {
        (self.revision, self.text.clone())
    }

    /// Whether the text differs from what was saved.
    pub fn is_dirty(&self) -> (r: bool)
        ensures
            r == self@.is_dirty(),
    {
        match &self.saved_text {
            None => true,
            Some(saved) => !str_eq(saved.as_str(), self.text.as_str()),
        }
    }

    /// The text last saved or read from disk.
    pub fn saved_text(&self) -> (r: Option<&str>)
        ensures
            match r {
                None => self@.saved_text is None,
                Some(s) => self@.saved_text == Some(s@),
            },
    {
        match &self.saved_text {
            None => None,
            Some(s) => Some(s.as_str()),
        }
    }

    /// The revision of what is known of the file on disk.
    pub fn storage_revision(&self) -> (r: u64)
        ensures
            r == self@.storage_revision,
    {
        self.storage_revision
    }

    /// The kind of a change made outside the editor that waits for a decision.
    pub fn external_change(&self) -> (r: Option<ExternalChangeKind>)
        ensures
            r == self@.external_kind(),
    {
        match &self.external_change {
            None => None,
            Some(ExternalChange::Modified(_)) => Some(ExternalChangeKind::Modified),
            Some(ExternalChange::Deleted) => Some(ExternalChangeKind::Deleted),
        }
    }

    /// Moves the document to `path`, as when its file was renamed; its text
    /// and saved state stay as they are.
    pub fn relocate(&mut self, path: String)
        ensures
            final(self)@ == (DocumentView { path: Some(path@), ..old(self)@ }),
    {
        self.path = Some(path);
    }

    /// Records that the editor changed the text of the document to `text`.
    pub fn edit(&mut self, text: String)
        ensures
            final(self)@ == edited(old(self)@, text@),
    {
        self.text = text;
        self.revision = bump(self.revision);
    }

    /// Compares the text found on disk with what the document knows of it.
    ///
    /// The text the document was saved with is no news; a clean document
    /// adopts the new text; a dirty one keeps its edits and records a conflict.
    pub fn observe_disk_source(&mut self, source: String) -> (r: ExternalUpdate)
        ensures
            (r, final(self)@) == observed_source(old(self)@, source@),
    {
        if opt_str_eq(&self.saved_text, source.as_str()) {
            self.external_change = None;
            return ExternalUpdate::Unchanged;
        }
        if self.is_dirty() {
            self.external_change = Some(ExternalChange::Modified(source));
            ExternalUpdate::Conflict
        } else {
            self.replace_from_disk(source);
            ExternalUpdate::Reloaded
        }
    }

    /// Notes that the file behind the document disappeared.
    ///
    /// Only a document that has a path and a saved copy can lose its file.
    pub fn observe_deleted_file(&mut self) -> (r: ExternalUpdate)
        ensures
            (r, final(self)@) == observed_deletion(old(self)@),
    {
        if self.path.is_none() || self.saved_text.is_none() {
            return ExternalUpdate::Unchanged;
        }
        self.external_change = Some(ExternalChange::Deleted);
        ExternalUpdate::Conflict
    }

    /// Adopts the text of a pending external modification.
    pub fn reload_external_change(&mut self) -> (r: bool)
        ensures
            (r, final(self)@) == reloaded(old(self)@),
    {
        let change = self.external_change.take();
        match change {
            Some(ExternalChange::Modified(source)) => {
                self.replace_from_disk(source);
                true
            },
            _ => false,
        }
    }

    /// Keeps the local text after an external change and takes the disk
    /// state as the new reference: a modified file becomes the saved text, a
    /// deleted file leaves the document without a saved copy.
    pub fn keep_local_after_external_change(&mut self) -> (r: bool)
        ensures
            (r, final(self)@) == kept_local(old(self)@),
    {
        let change = self.external_change.take();
        match change {
            None => false,
            Some(change) => {
                self.saved_text = match change {
                    ExternalChange::Modified(source) => Some(source),
                    ExternalChange::Deleted => None,
                };
                self.storage_revision = bump(self.storage_revision);
                true
            },
        }
    }

    /// Marks the exact snapshot written to disk as saved.
    ///
    /// If the user edited the document while the write was in progress, the
    /// current text differs from `saved_text` and stays dirty.
    pub fn mark_saved(&mut self, path: String, saved_text: String)
        ensures
            final(self)@ == marked_saved(old(self)@, path@, saved_text@),
    {
        self.path = Some(path);
        self.saved_text = Some(saved_text);
        self.storage_revision = bump(self.storage_revision);
        self.external_change = None;
    }

    fn replace_from_disk(&mut self, source: String)
        ensures
            final(self)@ == replaced_from_disk(old(self)@, source@),
    {
        let saved = source.clone();
        self.text = source;
        self.revision = bump(self.revision);
        self.saved_text = Some(saved);
        self.storage_revision = bump(self.storage_revision);
        self.external_change = None;
    }
}

/// The directory holding a document, or `fallback` for one that has none.
pub open spec fn directory_of(d: DocumentView, fallback: Seq<char>) -> Seq<char> {
    match d.path {
        Some(p) => match parent(p) {
            Some(dir) => if dir.len() > 0 { dir } else { fallback },
            None => fallback,
        },
        None => fallback,
    }
}

/// The name on the tab of a document: the file name of its path, or
/// "Sem título.typ" when it has none.
pub open spec fn tab_name(d: DocumentView) -> Seq<char> {
    match d.path {
        Some(p) => match file_name(p) {
            Some(name) => name,
            None => "Sem título.typ"@,
        },
        None => "Sem título.typ"@,
    }
}

/// The document after the editor changed its text to `text`.
pub open spec fn edited(d: DocumentView, text: Seq<char>) -> DocumentView {
    DocumentView { text, revision: next_revision(d.revision), ..d }
}

/// Outcome and new state of comparing the document with `source` on disk.
pub open spec fn observed_source(d: DocumentView, source: Seq<char>) -> (ExternalUpdate, DocumentView) {
    if d.saved_text == Some(source) {
        (ExternalUpdate::Unchanged, DocumentView { external_change: None, ..d })
    } else if d.is_dirty() {
        (
            ExternalUpdate::Conflict,
            DocumentView { external_change: Some(ExternalChangeView::Modified(source)), ..d },
        )
    } else {
        (ExternalUpdate::Reloaded, replaced_from_disk(d, source))
    }
}

/// Outcome and new state of learning that the file was deleted.
pub open spec fn observed_deletion(d: DocumentView) -> (ExternalUpdate, DocumentView) {
    if d.path is None || d.saved_text is None {
        (ExternalUpdate::Unchanged, d)
    } else {
        (ExternalUpdate::Conflict, DocumentView { external_change: Some(ExternalChangeView::Deleted), ..d })
    }
}

/// Outcome and new state of adopting a pending external modification.
pub open spec fn reloaded(d: DocumentView) -> (bool, DocumentView) {
    match d.external_change {
        Some(ExternalChangeView::Modified(source)) => (true, replaced_from_disk(d, source)),
        _ => (false, DocumentView { external_change: None, ..d }),
    }
}

/// Outcome and new state of keeping the local text after an external change.
pub open spec fn kept_local(d: DocumentView) -> (bool, DocumentView) {
    match d.external_change {
        None => (false, d),
        Some(change) => (
            true,
            DocumentView {
                saved_text: match change {
                    ExternalChangeView::Modified(source) => Some(source),
                    ExternalChangeView::Deleted => None,
                },
                storage_revision: next_revision(d.storage_revision),
                external_change: None,
                ..d
            },
        ),
    }
}

/// The document after `saved_text` was written to `path`.
pub open spec fn marked_saved(d: DocumentView, path: Seq<char>, saved_text: Seq<char>) -> DocumentView {
    DocumentView {
        path: Some(path),
        saved_text: Some(saved_text),
        storage_revision: next_revision(d.storage_revision),
        external_change: None,
        ..d
    }
}

/// Saving a snapshot leaves the document dirty exactly when its text moved
/// on after the snapshot was taken; in particular saving an older snapshot
/// never hides newer edits.
pub proof fn law_saved_snapshot_dirty_iff_edited_since(d: DocumentView, path: Seq<char>, snapshot: Seq<char>)
    ensures
        marked_saved(d, path, snapshot).is_dirty() == (snapshot != d.text),
        marked_saved(d, path, snapshot).external_kind() is None,
{
}

/// Editing the text back to what was saved clears the dirty state, and any
/// other text makes the document dirty.
pub proof fn law_edit_dirty_iff_differs_from_saved(d: DocumentView, text: Seq<char>)
    ensures
        edited(d, text).is_dirty() == (d.saved_text != Some(text)),
        edited(d, text).saved_text == d.saved_text,
{
}

/// Observing the disk never loses local edits: a dirty document keeps its
/// text, and only a clean document adopts the disk text, after which it is
/// clean again.
pub proof fn law_observation_keeps_local_edits(d: DocumentView, source: Seq<char>)
    ensures
        d.is_dirty() ==> observed_source(d, source).1.text == d.text,
        observed_source(d, source).0 == ExternalUpdate::Reloaded ==> {
            &&& observed_source(d, source).1.text == source
            &&& !observed_source(d, source).1.is_dirty()
        },
        observed_source(d, source).0 == ExternalUpdate::Conflict ==> {
            &&& d.is_dirty()
            &&& observed_source(d, source).1.external_kind() == Some(ExternalChangeKind::Modified)
        },
        !observed_source(d, source).1.is_dirty() ==> !d.is_dirty(),
{
}

/// Resolving a conflict: reloading adopts the disk text and is clean;
/// keeping the local text leaves no pending change and stays dirty exactly
/// when the local text differs from the disk.
pub proof fn law_conflict_resolution(d: DocumentView, source: Seq<char>)
    requires
        d.is_dirty(),
        d.saved_text != Some(source),
    ensures
        ({
            let c = observed_source(d, source).1;
            &&& reloaded(c).0
            &&& reloaded(c).1.text == source
            &&& !reloaded(c).1.is_dirty()
            &&& kept_local(c).0
            &&& kept_local(c).1.text == d.text
            &&& kept_local(c).1.external_kind() is None
            &&& kept_local(c).1.is_dirty() == (d.text != source)
        }),
{
}

/// An acknowledged deletion is not reported again: after the local text
/// is kept, the document has no saved copy and a new deletion notice
/// changes nothing, while the document stays dirty.
pub proof fn law_acknowledged_deletion_is_not_repeated(d: DocumentView)
    requires
        d.path is Some,
        d.saved_text is Some,
    ensures
        ({
            let deleted = observed_deletion(d);
            let kept = kept_local(deleted.1);
            &&& deleted.0 == ExternalUpdate::Conflict
            &&& kept.0
            &&& kept.1.is_dirty()
            &&& observed_deletion(kept.1) == (ExternalUpdate::Unchanged, kept.1)
        }),
{
}

/// The document after its text was replaced by `source` read from disk.
pub open spec fn replaced_from_disk(d: DocumentView, source: Seq<char>) -> DocumentView {
    DocumentView {
        text: source,
        revision: next_revision(d.revision),
        saved_text: Some(source),
        storage_revision: next_revision(d.storage_revision),
        external_change: None,
        ..d
    }
}

struct DocumentEntry {
    id: DocumentId,
    document: Document,
}

/// The open documents in tab order, one of which is active.
pub struct Documents {
    entries: Vec<DocumentEntry>,
    active: usize,
    next_id: u64,
}

impl Documents {
    /// Identity of each open document, in tab order.
    pub closed spec fn ids(&self) -> Seq<DocumentId> {
        self.entries@.map_values(|e: DocumentEntry| e.id)
    }

    /// Model of each open document, in tab order.
    pub closed spec fn docs(&self) -> Seq<DocumentView> {
        self.entries@.map_values(|e: DocumentEntry| e.document@)
    }

    /// Position of the active document in tab order.
    pub closed spec fn active_index(&self) -> int {
        self.active as int
    }

    /// The identity the next added document will receive.
    pub closed spec fn next_id(&self) -> u64 {
        self.next_id
    }

    /// Identity of the active document.
    pub open spec fn active_document_id(&self) -> DocumentId {
        self.ids()[self.active_index()]
    }

    /// There is always at least one document and the active one exists;
    /// identities are distinct and all below the next one handed out.
    pub open spec fn wf(&self) -> bool {
        &&& self.ids().len() > 0
        &&& self.docs().len() == self.ids().len()
        &&& 0 <= self.active_index() < self.ids().len()
        &&& forall|i: int, j: int|
            0 <= i < j < self.ids().len() ==> (#[trigger] self.ids()[i]).0 < (#[trigger] self.ids()[j]).0
        &&& forall|i: int| 0 <= i < self.ids().len() ==> (#[trigger] self.ids()[i]).0 < self.next_id()
    }

    proof fn lemma_views(&self)
        ensures
            self.ids().len() == self.entries@.len(),
            self.docs().len() == self.entries@.len(),
            forall|i: int| 0 <= i < self.entries@.len() ==> #[trigger] self.ids()[i] == self.entries@[i].id,
            forall|i: int| 0 <= i < self.entries@.len() ==> #[trigger] self.docs()[i] == self.entries@[i].document@,
    {
    }

    /// Opens a tab list holding `initial` alone.
    pub fn new(initial: Document) -> (r: Self)
        ensures
            r.wf(),
            r.ids() == seq![DocumentId(0)],
            r.docs() == seq![initial@],
            r.active_index() == 0,
            r.next_id() == 1,
    {
        let mut entries = Vec::new();
        entries.push(DocumentEntry { id: DocumentId(0), document: initial });
        let r = Documents { entries, active: 0, next_id: 1 };
        proof {
            r.lemma_views();
            assert(r.ids() =~= seq![DocumentId(0)]);
            assert(r.docs() =~= seq![initial@]);
        }
        r
    }

    /// Rebuilds the tab list of a previous session; an empty list gets a new
    /// document, and the active position is limited to the last tab.
    pub fn restored(documents: Vec<Document>, active: usize) -> (r: Self)
        requires
            documents@.len() < u64::MAX,
        ensures
            r.wf(),
            documents@.len() > 0 ==> {
                &&& r.docs() == documents@.map_values(|d: Document| d@)
                &&& r.ids() == Seq::new(documents@.len(), |i: int| DocumentId(i as u64))
                &&& r.active_index() == if active < documents@.len() { active as int } else { documents@.len() - 1 }
                &&& r.next_id() == documents@.len()
            },
            documents@.len() == 0 ==> {
                &&& r.docs() == seq![new_document_view()]
                &&& r.ids() == seq![DocumentId(0)]
                &&& r.active_index() == 0
                &&& r.next_id() == 1
            },
    {
        let mut documents = documents;
        if documents.len() == 0 {
            documents.push(Document::new());
        }
        let ghost given = documents@;
        let n = documents.len();
        let mut entries: Vec<DocumentEntry> = Vec::new();
        let mut index: usize = 0;
        let mut rest = documents;
        while index < n
            invariant
                n == given.len(),
                n < u64::MAX,
                index <= n,
                rest@ == given.skip(index as int),
                entries@.len() == index,
                forall|i: int| 0 <= i < index ==> (#[trigger] entries@[i]).id == DocumentId(i as u64),
                forall|i: int| 0 <= i < index ==> (#[trigger] entries@[i]).document == given[i],
            decreases n - index,
        {
            let document = rest.remove(0);
            proof {
                assert(document == given[index as int]);
                assert(rest@ =~= given.skip(index + 1));
            }
            entries.push(DocumentEntry { id: DocumentId(index as u64), document });
            index = index + 1;
        }
        let active = if active < n { active } else { n - 1 };
        let r = Documents { entries, active, next_id: n as u64 };
        proof {
            r.lemma_views();
            assert(r.docs() =~= given.map_values(|d: Document| d@));
            assert(r.ids() =~= Seq::new(given.len(), |i: int| DocumentId(i as u64)));
        }
        r
    }

    /// The number of open documents.
    pub fn len(&self) -> (n: usize)
        requires
            self.wf(),
        ensures
            n == self.ids().len(),
    {
        proof { self.lemma_views(); }
        self.entries.len()
    }

    /// Identity of the active document.
    pub fn active_id(&self) -> (id: DocumentId)
        requires
            self.wf(),
        ensures
            id == self.active_document_id(),
    {
        proof { self.lemma_views(); }
        self.entries[self.active].id
    }

    /// The active document.
    pub fn active(&self) -> (d: &Document)
        requires
            self.wf(),
        ensures
            d@ == self.docs()[self.active_index()],
    {
        proof { self.lemma_views(); }
        &self.entries[self.active].document
    }

    /// Tab position of the active document.
    pub fn active_position(&self) -> (r: usize)
        requires
            self.wf(),
        ensures
            r == self.active_index(),
    {
        self.active
    }

    /// Whether some open document has changes that are not saved.
    pub fn any_dirty(&self) -> (r: bool)
        requires
            self.wf(),
        ensures
            r == exists|i: int| 0 <= i < self.docs().len() && (#[trigger] self.docs()[i]).is_dirty(),
    {
        proof { self.lemma_views(); }
        let mut i: usize = 0;
        while i < self.entries.len()
            invariant
                self.wf(),
                i <= self.entries@.len(),
                self.docs().len() == self.entries@.len(),
                forall|k: int| 0 <= k < self.entries@.len() ==> #[trigger] self.docs()[k] == self.entries@[k].document@,
                forall|k: int| 0 <= k < i ==> !(#[trigger] self.docs()[k]).is_dirty(),
            decreases self.entries@.len() - i,
        {
            if self.entries[i].document.is_dirty() {
                proof { assert(self.docs()[i as int].is_dirty()); }
                return true;
            }
            i = i + 1;
        }
        false
    }

    /// The active document, for changes.
    pub fn active_mut(&mut self) -> (d: &mut Document)
        requires
            old(self).wf(),
        ensures
            d@ == old(self).docs()[old(self).active_index()],
            final(self).ids() == old(self).ids(),
            final(self).docs() == old(self).docs().update(old(self).active_index(), final(d)@),
            final(self).active_index() == old(self).active_index(),
            final(self).next_id() == old(self).next_id(),
    {
        proof { self.lemma_views(); }
        let active = self.active;
        &mut self.entries[active].document
    }

    /// The document at tab position `index`, for changes.
    pub fn document_at_mut(&mut self, index: usize) -> (d: &mut Document)
        requires
            old(self).wf(),
            index < old(self).ids().len(),
        ensures
            d@ == old(self).docs()[index as int],
            final(self).ids() == old(self).ids(),
            final(self).docs() == old(self).docs().update(index as int, final(d)@),
            final(self).active_index() == old(self).active_index(),
            final(self).next_id() == old(self).next_id(),
    {
        proof { self.lemma_views(); }
        &mut self.entries[index].document
    }

    /// Identity of the document at tab position `index`.
    pub fn id_at(&self, index: usize) -> (id: DocumentId)
        requires
            self.wf(),
            index < self.ids().len(),
        ensures
            id == self.ids()[index as int],
    {
        proof { self.lemma_views(); }
        self.entries[index].id
    }

    /// The document at tab position `index`.
    pub fn document_at(&self, index: usize) -> (d: &Document)
        requires
            self.wf(),
            index < self.ids().len(),
        ensures
            d@ == self.docs()[index as int],
    {
        proof { self.lemma_views(); }
        &self.entries[index].document
    }

    /// Moves the document at tab position `index` to `path`.
    pub fn relocate_at(&mut self, index: usize, path: String)
        requires
            old(self).wf(),
            index < old(self).ids().len(),
        ensures
            final(self).wf(),
            final(self).ids() == old(self).ids(),
            final(self).docs() == old(self).docs().update(index as int,
                DocumentView { path: Some(path@), ..old(self).docs()[index as int] }),
            final(self).active_index() == old(self).active_index(),
            final(self).next_id() == old(self).next_id(),
    {
        proof { self.lemma_views(); }
        self.entries[index].document.relocate(path);
        proof {
            self.lemma_views();
            assert(self.ids() =~= old(self).ids());
            assert(self.docs() =~= old(self).docs().update(index as int,
                DocumentView { path: Some(path@), ..old(self).docs()[index as int] }));
        }
    }

    /// Tab position of the document `id`, if it is open.
    pub fn position(&self, id: DocumentId) -> (r: Option<usize>)
        requires
            self.wf(),
        ensures
            match r {
                None => !self.ids().contains(id),
                Some(i) => i < self.ids().len() && self.ids()[i as int] == id,
            },
    {
        proof { self.lemma_views(); }
        let mut i: usize = 0;
        while i < self.entries.len()
            invariant
                self.wf(),
                i <= self.entries@.len(),
                self.ids().len() == self.entries@.len(),
                forall|j: int| 0 <= j < self.entries@.len() ==> #[trigger] self.ids()[j] == self.entries@[j].id,
                forall|j: int| 0 <= j < i ==> self.ids()[j] != id,
            decreases self.entries@.len() - i,
        {
            if self.entries[i].id == id {
                return Some(i);
            }
            i = i + 1;
        }
        None
    }

    /// The document `id`, if it is open.
    pub fn get(&self, id: DocumentId) -> (r: Option<&Document>)
        requires
            self.wf(),
        ensures
            match r {
                None => !self.ids().contains(id),
                Some(d) => self.ids().contains(id) && d@ == self.docs()[self.ids().index_of(id)],
            },
    {
        proof { self.lemma_views(); }
        match self.position(id) {
            None => None,
            Some(i) => {
                proof { self.lemma_index_of(id, i as int); }
                Some(&self.entries[i].document)
            },
        }
    }

    /// Changing the documents without touching identities, order or the
    /// active position keeps a tab list well formed.
    pub proof fn lemma_wf_same_shape(before: &Self, after: &Self)
        requires
            before.wf(),
            after.ids() == before.ids(),
            after.docs().len() == before.docs().len(),
            after.active_index() == before.active_index(),
            after.next_id() == before.next_id(),
        ensures
            after.wf(),
    {
    }

    /// Identities in a well-formed tab list are distinct.
    pub proof fn lemma_ids_distinct(&self)
        requires
            self.wf(),
        ensures
            self.ids().no_duplicates(),
    {
        assert forall|a: int, b: int|
            0 <= a < self.ids().len() && 0 <= b < self.ids().len() && a != b implies self.ids()[a]
            != self.ids()[b] by {
            if a < b {
                assert(self.ids()[a].0 < self.ids()[b].0);
            } else {
                assert(self.ids()[b].0 < self.ids()[a].0);
            }
        }
    }

    /// The position that holds `id` is where `id` is found.
    pub proof fn lemma_index_of(&self, id: DocumentId, i: int)
        requires
            self.wf(),
            0 <= i < self.ids().len(),
            self.ids()[i] == id,
        ensures
            self.ids().contains(id),
            self.ids().index_of(id) == i,
    {
        assert(self.ids().contains(id));
        self.lemma_ids_distinct();
    }

    /// Appends a document and makes it active.
    pub fn add(&mut self, document: Document) -> (id: DocumentId)
        requires
            old(self).wf(),
            old(self).next_id() < u64::MAX,
        ensures
            final(self).wf(),
            id == DocumentId(old(self).next_id()),
            !old(self).ids().contains(id),
            final(self).ids() == old(self).ids().push(id),
            final(self).docs() == old(self).docs().push(document@),
            final(self).active_index() == old(self).ids().len(),
            final(self).next_id() == old(self).next_id() + 1,
    {
        proof { self.lemma_views(); }
        let id = DocumentId(self.next_id);
        self.next_id = self.next_id + 1;
        self.entries.push(DocumentEntry { id, document });
        self.active = self.entries.len() - 1;
        proof {
            self.lemma_views();
            assert(self.ids() =~= old(self).ids().push(id));
            assert(self.docs() =~= old(self).docs().push(document@));
        }
        id
    }

    /// Makes the document `id` active; reports whether the active tab changed.
    pub fn activate(&mut self, id: DocumentId) -> (changed: bool)
        requires
            old(self).wf(),
        ensures
            final(self).wf(),
            final(self).ids() == old(self).ids(),
            final(self).docs() == old(self).docs(),
            final(self).next_id() == old(self).next_id(),
            old(self).ids().contains(id) ==> final(self).active_document_id() == id,
            !old(self).ids().contains(id) ==> final(self).active_index() == old(self).active_index(),
            changed == (old(self).ids().contains(id) && old(self).active_document_id() != id),
    {
        match self.position(id) {
            None => false,
            Some(index) => {
                let changed = self.active != index;
                self.active = index;
                changed
            },
        }
    }

    /// Identity of the first document stored at `path`.
    pub fn find_path(&self, path: &str) -> (r: Option<DocumentId>)
        requires
            self.wf(),
        ensures
            match r {
                None => forall|i: int| 0 <= i < self.docs().len() ==> self.docs()[i].path != Some(path@),
                Some(id) => exists|i: int|
                    0 <= i < self.docs().len() && self.ids()[i] == id && self.docs()[i].path == Some(path@)
                        && forall|j: int| 0 <= j < i ==> self.docs()[j].path != Some(path@),
            },
    {
        proof { self.lemma_views(); }
        let mut i: usize = 0;
        while i < self.entries.len()
            invariant
                self.wf(),
                i <= self.entries@.len(),
                self.ids().len() == self.entries@.len(),
                self.docs().len() == self.entries@.len(),
                forall|j: int| 0 <= j < self.entries@.len() ==> #[trigger] self.ids()[j] == self.entries@[j].id,
                forall|j: int| 0 <= j < self.entries@.len() ==> #[trigger] self.docs()[j] == self.entries@[j].document@,
                forall|j: int| 0 <= j < i ==> self.docs()[j].path != Some(path@),
            decreases self.entries@.len() - i,
        {
            if opt_str_eq(&self.entries[i].document.path, path) {
                proof {
                    let k = i as int;
                    assert(0 <= k < self.docs().len() && self.ids()[k] == self.entries@[k].id
                        && self.docs()[k].path == Some(path@)
                        && forall|j: int| 0 <= j < k ==> self.docs()[j].path != Some(path@));
                }
                return Some(self.entries[i].id);
            }
            i = i + 1;
        }
        None
    }

    /// Closes the document `id` and returns it.  Closing the last document
    /// opens a new empty one.  The active tab stays on the same document when
    /// another one is closed, and moves to the following tab (or the new last
    /// one) when the active document itself is closed.
    pub fn remove(&mut self, id: DocumentId) -> (r: Option<Document>)
        requires
            old(self).wf(),
            old(self).ids() == seq![id] ==> old(self).next_id() < u64::MAX,
        ensures
            final(self).wf(),
            match r {
                None => {
                    &&& !old(self).ids().contains(id)
                    &&& final(self).ids() == old(self).ids()
                    &&& final(self).docs() == old(self).docs()
                    &&& final(self).active_index() == old(self).active_index()
                    &&& final(self).next_id() == old(self).next_id()
                },
                Some(d) => {
                    let i = old(self).ids().index_of(id);
                    let remaining = old(self).ids().len() - 1;
                    &&& old(self).ids().contains(id)
                    &&& d@ == old(self).docs()[i]
                    &&& remaining > 0 && old(self).active_document_id() != id
                        ==> final(self).active_document_id() == old(self).active_document_id()
                    &&& remaining == 0 ==> {
                        &&& final(self).ids() == seq![DocumentId(old(self).next_id())]
                        &&& final(self).docs() == seq![new_document_view()]
                        &&& final(self).active_index() == 0
                        &&& final(self).next_id() == old(self).next_id() + 1
                    }
                    &&& remaining > 0 ==> {
                        &&& final(self).ids() == old(self).ids().remove(i)
                        &&& final(self).docs() == old(self).docs().remove(i)
                        &&& final(self).next_id() == old(self).next_id()
                        &&& final(self).active_index() == if old(self).active_index() > i {
                            old(self).active_index() - 1
                        } else if old(self).active_index() >= remaining {
                            remaining - 1
                        } else {
                            old(self).active_index()
                        }
                    }
                },
            },
    {
        proof { self.lemma_views(); }
        let index = match self.position(id) {
            None => return None,
            Some(index) => index,
        };
        proof { self.lemma_index_of(id, index as int); }
        let entry = self.entries.remove(index);
        proof {
            self.lemma_views();
            assert(self.ids() =~= old(self).ids().remove(index as int));
            assert(self.docs() =~= old(self).docs().remove(index as int));
        }
        if self.entries.len() == 0 {
            assert(old(self).ids() =~= seq![id]);
            let new_id = DocumentId(self.next_id);
            self.next_id = self.next_id + 1;
            self.entries.push(DocumentEntry { id: new_id, document: Document::new() });
            self.active = 0;
            proof {
                self.lemma_views();
                assert(self.ids() =~= seq![new_id]);
                assert(self.docs() =~= seq![new_document_view()]);
            }
        } else if self.active > index {
            self.active = self.active - 1;
        } else if self.active >= self.entries.len() {
            self.active = self.entries.len() - 1;
        }
        proof {
            self.lemma_views();
            if old(self).ids().len() > 1 && old(self).active_index() != index {
                let a = old(self).active_index();
                if a > index {
                    assert(self.ids()[a - 1] == old(self).ids()[a]);
                } else {
                    assert(self.ids()[a] == old(self).ids()[a]);
                }
            }
            if old(self).ids().len() > 1 {
                assert forall|a: int, b: int|
                    0 <= a < b < self.ids().len() implies (#[trigger] self.ids()[a]).0 < (#[trigger] self.ids()[b]).0 by {
                    let ia = if a < index { a } else { a + 1 };
                    let ib = if b < index { b } else { b + 1 };
                    assert(self.ids()[a] == old(self).ids()[ia]);
                    assert(self.ids()[b] == old(self).ids()[ib]);
                }
            }
        }
        Some(entry.document)
    }
}

} // verus!
