//! Opening files: from the project tree, from a file dialog and by dropping
//! them on the window.
use vstd::prelude::*;
use crate::document::{Document, DocumentId, DocumentView};
use crate::interface::{project_display_name, project_name};
use crate::paths::{extension, path_extension, path_starts_with, path_strip_prefix, starts_with, strip_prefix};
use crate::project::EntryKind;
use crate::tabs::{Tabs, TabsView};
use crate::text::{push_str, str_eq};
use crate::workspace::{ProjectState, ProjectStateView, revealed};

verus! {

/// What the application does after a request to open something.
#[derive(Debug, PartialEq, Eq)]
pub enum OpenStep {
    /// Nothing, a file operation runs.
    Nothing,
    /// Done; the message for the status bar.
    Status(String),
    /// Read the file at `path` and hand its text back; the message for the
    /// status bar meanwhile. The tabs are busy until then.
    Read { path: String, status: String },
    /// Open the folder at the path as the project.
    OpenProject(String),
}

/// A step by its texts.
pub ghost enum OpenStepView {
    Nothing,
    Status(Seq<char>),
    Read { path: Seq<char>, status: Seq<char> },
    OpenProject(Seq<char>),
}

/// The view of a step.
pub open spec fn step_view(s: OpenStep) -> OpenStepView {
    match s {
        OpenStep::Nothing => OpenStepView::Nothing,
        OpenStep::Status(m) => OpenStepView::Status(m@),
        OpenStep::Read { path, status } => OpenStepView::Read { path: path@, status: status@ },
        OpenStep::OpenProject(p) => OpenStepView::OpenProject(p@),
    }
}

/// The first position below `n` of a document stored at `path`.
pub open spec fn first_at_path(docs: Seq<DocumentView>, path: Seq<char>, n: int) -> Option<int>
    decreases n,
{
    if n <= 0 {
        None
    } else {
        match first_at_path(docs, path, n - 1) {
            Some(i) => Some(i),
            None => if docs[n - 1].path == Some(path) { Some(n - 1) } else { None },
        }
    }
}

pub(crate) proof fn lemma_first_at_path(docs: Seq<DocumentView>, path: Seq<char>, i: int, n: int)
    requires
        0 <= i < n,
        docs[i].path == Some(path),
        forall|j: int| 0 <= j < i ==> docs[j].path != Some(path),
    ensures
        first_at_path(docs, path, n) == Some(i),
    decreases n,
{
    if n > i + 1 {
        lemma_first_at_path(docs, path, i, n - 1);
    } else {
        lemma_none_at_path(docs, path, i);
    }
}

pub(crate) proof fn lemma_first_at_path_in_range(docs: Seq<DocumentView>, path: Seq<char>, n: int)
    ensures
        first_at_path(docs, path, n) matches Some(i) ==> 0 <= i < n && docs[i].path == Some(path),
    decreases n,
{
    if n > 0 {
        lemma_first_at_path_in_range(docs, path, n - 1);
    }
}

pub(crate) proof fn lemma_none_at_path(docs: Seq<DocumentView>, path: Seq<char>, n: int)
    requires
        forall|j: int| 0 <= j < n ==> docs[j].path != Some(path),
    ensures
        first_at_path(docs, path, n) is None,
    decreases n,
{
    if n > 0 {
        lemma_none_at_path(docs, path, n - 1);
    }
}

/// The project side once `path` is shown and selected as the file in use.
pub open spec fn file_shown(p: ProjectStateView, path: Seq<char>) -> ProjectStateView {
    ProjectStateView {
        selected_entry: Some(path),
        expanded: revealed(p.root, path, p.expanded),
        selected_file: Some(path),
        ..p
    }
}

/// Opening the Typst file `path` of the project: it is shown in the tree;
/// a document already open at that path becomes active, any other file is
/// read. Nothing happens while a file operation runs.
pub open spec fn opening_project_file(t: TabsView, p: ProjectStateView, path: Seq<char>)
    -> (TabsView, ProjectStateView, OpenStepView)
{
    if t.file_busy {
        (t, p, OpenStepView::Nothing)
    } else {
        let q = file_shown(p, path);
        match first_at_path(t.docs, path, t.docs.len() as int) {
            Some(i) => (TabsView { active: i, ..t }, q, OpenStepView::Status("Aba ativada: "@ + path)),
            None => (
                TabsView { file_busy: true, ..t },
                q,
                OpenStepView::Read { path, status: "Abrindo "@ + path + "..."@ },
            ),
        }
    }
}

fn message2(a: &str, b: &str) -> (r: String)
    ensures
        r@ == a@ + b@,
{
    let mut s = String::new();
    push_str(&mut s, a);
    push_str(&mut s, b);
    s
}

/// Activates the document stored at `path`, if one is open; reports it.
fn activate_path(tabs: &mut Tabs, path: &str) -> (found: bool)
    requires
        old(tabs).wf(),
        !old(tabs)@.file_busy,
    ensures
        final(tabs).wf(),
        match first_at_path(old(tabs)@.docs, path@, old(tabs)@.docs.len() as int) {
            Some(i) => found && final(tabs)@ == (TabsView { active: i, ..old(tabs)@ }),
            None => !found && final(tabs)@ == old(tabs)@,
        },
{
    let ghost t = tabs@;
    proof { tabs.lemma_valid(); tabs.lemma_ids_distinct(); }
    let found = tabs.documents().find_path(path);
    match found {
        None => {
            proof { lemma_none_at_path(t.docs, path@, t.docs.len() as int); }
            false
        },
        Some(id) => {
            proof {
                let i = choose|i: int| 0 <= i < t.docs.len() && t.ids[i] == id && t.docs[i].path == Some(path@)
                    && forall|j: int| 0 <= j < i ==> t.docs[j].path != Some(path@);
                lemma_first_at_path(t.docs, path@, i, t.docs.len() as int);
                assert(t.ids.index_of(id) == i) by {
                    assert(t.ids.contains(id));
                    let k = t.ids.index_of(id);
                    assert(t.ids[k] == id);
                }
            }
            tabs.activate(id);
            true
        },
    }
}

/// Opens the Typst file `path` of the project.
pub fn open_project_file(tabs: &mut Tabs, project: &mut ProjectState, path: &str) -> (r: OpenStep)
    requires
        old(tabs).wf(),
        old(project).wf(),
    ensures
        final(tabs).wf(),
        final(project).wf(),
        (final(tabs)@, final(project)@, step_view(r)) == opening_project_file(old(tabs)@, old(project)@, path@),
{
    if tabs.file_busy() {
        return OpenStep::Nothing;
    }
    project.reveal_entry(path);
    project.set_selected_file(Some(path.to_owned()));
    if activate_path(tabs, path) {
        return OpenStep::Status(message2("Aba ativada: ", path));
    }
    tabs.set_file_busy(true);
    let mut status = message2("Abrindo ", path);
    push_str(&mut status, "...");
    OpenStep::Read { path: path.to_owned(), status }
}

/// The name of a directory of the project in messages: its path below the
/// root, or the whole path.
pub open spec fn folder_name(root: Seq<char>, path: Seq<char>) -> Seq<char> {
    match strip_prefix(path, root) {
        Some(rest) => rest,
        None => path,
    }
}

/// A press on the entry `path` of the project tree selects it: a directory
/// is expanded or collapsed, a Typst file is opened, and other files are
/// only reported as not editable. Nothing happens while a file operation
/// runs.
pub open spec fn entry_press(t: TabsView, p: ProjectStateView, path: Seq<char>, kind: EntryKind)
    -> (TabsView, ProjectStateView, OpenStepView)
{
    if t.file_busy {
        (t, p, OpenStepView::Nothing)
    } else {
        let q = ProjectStateView { selected_entry: Some(path), ..p };
        match kind {
            EntryKind::Directory => {
                let expanded = !p.expanded.contains(path);
                let r = ProjectStateView {
                    selected_file: None,
                    expanded: if expanded { p.expanded.insert(path) } else { p.expanded.remove(path) },
                    ..q
                };
                let status = if path == p.root {
                    "Projeto "@ + project_name(path) + ": "@ + if expanded { "expandido"@ } else { "recolhido"@ }
                } else {
                    "Pasta "@ + folder_name(p.root, path) + ": "@ + if expanded { "expandida"@ } else { "recolhida"@ }
                };
                (t, r, OpenStepView::Status(status))
            },
            EntryKind::TypstFile => opening_project_file(t, q, path),
            EntryKind::File => (
                t,
                ProjectStateView { selected_file: None, ..q },
                OpenStepView::Status(path + " não é um documento Typst editável"@),
            ),
        }
    }
}

/// Takes a press on the entry `path` of the project tree.
pub fn project_entry_pressed(tabs: &mut Tabs, project: &mut ProjectState, path: &str, kind: EntryKind) -> (r: OpenStep)
    requires
        old(tabs).wf(),
        old(project).wf(),
    ensures
        final(tabs).wf(),
        final(project).wf(),
        (final(tabs)@, final(project)@, step_view(r)) == entry_press(old(tabs)@, old(project)@, path@, kind),
{
    if tabs.file_busy() {
        return OpenStep::Nothing;
    }
    project.select_entry(path, kind);
    match kind {
        EntryKind::Directory => {
            let expanded = project.toggle_expanded(path);
            let status = if str_eq(path, project.root()) {
                let mut s = message2("Projeto ", project_display_name(path).as_str());
                push_str(&mut s, ": ");
                push_str(&mut s, if expanded { "expandido" } else { "recolhido" });
                s
            } else {
                let name = match path_strip_prefix(path, project.root()) {
                    Some(rest) => rest,
                    None => path.to_owned(),
                };
                let mut s = message2("Pasta ", name.as_str());
                push_str(&mut s, ": ");
                push_str(&mut s, if expanded { "expandida" } else { "recolhida" });
                s
            };
            OpenStep::Status(status)
        },
        EntryKind::TypstFile => open_project_file(tabs, project, path),
        EntryKind::File => OpenStep::Status(message2(path, " não é um documento Typst editável")),
    }
}

/// How reading a file to open ended.
#[derive(Debug)]
pub enum OpenOutcome {
    Cancelled,
    Failed(String),
    Loaded { path: String, source: String },
}

/// The tabs, the project side and the status message once a file was read:
/// a file of the project is shown in the tree; a document already open at
/// that path becomes active, otherwise the file opens in a new tab.
pub open spec fn opened(t: TabsView, p: ProjectStateView, outcome: OpenOutcome) -> (TabsView, ProjectStateView, Seq<char>) {
    let idle = TabsView { file_busy: false, ..t };
    match outcome {
        OpenOutcome::Cancelled => (idle, p, "A abertura foi cancelada"@),
        OpenOutcome::Failed(e) => (idle, p, "Erro ao abrir: "@ + e@),
        OpenOutcome::Loaded { path, source } => {
            let q = if starts_with(path@, p.root) { file_shown(p, path@) } else { p };
            match first_at_path(t.docs, path@, t.docs.len() as int) {
                Some(i) => (TabsView { active: i, ..idle }, q, "Aba ativada: "@ + path@),
                None => (
                    TabsView {
                        ids: t.ids.push(DocumentId(t.next_id)),
                        docs: t.docs.push(DocumentView {
                            path: Some(path@),
                            text: source@,
                            revision: 0,
                            saved_text: Some(source@),
                            storage_revision: 0,
                            external_change: None,
                        }),
                        active: t.ids.len() as int,
                        next_id: (t.next_id + 1) as u64,
                        ..idle
                    },
                    q,
                    "Aberto: "@ + path@,
                ),
            }
        },
    }
}

/// Takes in the end of reading a file to open; returns the status message.
pub fn open_finished(tabs: &mut Tabs, project: &mut ProjectState, outcome: OpenOutcome) -> (r: String)
    requires
        old(tabs).wf(),
        old(project).wf(),
        old(tabs)@.next_id < u64::MAX,
    ensures
        final(tabs).wf(),
        final(project).wf(),
        (final(tabs)@, final(project)@, r@) == opened(old(tabs)@, old(project)@, outcome),
{
    tabs.set_file_busy(false);
    match outcome {
        OpenOutcome::Cancelled => "A abertura foi cancelada".to_owned(),
        OpenOutcome::Failed(error) => message2("Erro ao abrir: ", error.as_str()),
        OpenOutcome::Loaded { path, source } => {
            if path_starts_with(path.as_str(), project.root()) {
                project.reveal_entry(path.as_str());
                project.set_selected_file(Some(path.clone()));
            }
            if activate_path(tabs, path.as_str()) {
                return message2("Aba ativada: ", path.as_str());
            }
            let status = message2("Aberto: ", path.as_str());
            tabs.add_document(Document::opened(path, source));
            status
        },
    }
}

/// A file or folder dropped on the window, at `path`, which is a folder
/// when `is_dir`: a folder becomes the project, a Typst file is opened, as a
/// project file when it lies in the project; anything else is refused.
/// Nothing happens while a file operation runs.
pub open spec fn dropped(t: TabsView, p: ProjectStateView, path: Seq<char>, is_dir: bool) -> (TabsView, ProjectStateView, OpenStepView) {
    if t.file_busy {
        (t, p, OpenStepView::Nothing)
    } else if is_dir {
        (t, p, OpenStepView::OpenProject(path))
    } else if extension(path) == Some("typ"@) {
        if starts_with(path, p.root) {
            let q = ProjectStateView {
                selected_entry: Some(path),
                expanded: revealed(p.root, path, p.expanded),
                ..p
            };
            opening_project_file(t, q, path)
        } else {
            (
                TabsView { file_busy: true, ..t },
                p,
                OpenStepView::Read { path, status: "Abrindo arquivo solto: "@ + path },
            )
        }
    } else {
        (t, p, OpenStepView::Status("Solte uma pasta ou um arquivo .typ para abri-lo"@))
    }
}

/// Takes a file or folder dropped on the window.
pub fn file_dropped(tabs: &mut Tabs, project: &mut ProjectState, path: &str, is_dir: bool) -> (r: OpenStep)
    requires
        old(tabs).wf(),
        old(project).wf(),
    ensures
        final(tabs).wf(),
        final(project).wf(),
        (final(tabs)@, final(project)@, step_view(r)) == dropped(old(tabs)@, old(project)@, path@, is_dir),
{
    if tabs.file_busy() {
        return OpenStep::Nothing;
    }
    if is_dir {
        return OpenStep::OpenProject(path.to_owned());
    }
    let typ = match path_extension(path) {
        Some(e) => str_eq(e.as_str(), "typ"),
        None => false,
    };
    if typ {
        if path_starts_with(path, project.root()) {
            project.reveal_entry(path);
            return open_project_file(tabs, project, path);
        }
        tabs.set_file_busy(true);
        return OpenStep::Read { path: path.to_owned(), status: message2("Abrindo arquivo solto: ", path) };
    }
    OpenStep::Status("Solte uma pasta ou um arquivo .typ para abri-lo".to_owned())
}

/// A file that is already open never gets a second tab: opening it again
/// only activates the tab that shows it, with its text untouched.
pub proof fn law_open_files_are_not_opened_twice(t: TabsView, p: ProjectStateView, path: String, source: String)
    requires
        first_at_path(t.docs, path@, t.docs.len() as int) is Some,
    ensures
        opened(t, p, OpenOutcome::Loaded { path, source }).0.ids == t.ids,
        opened(t, p, OpenOutcome::Loaded { path, source }).0.docs == t.docs,
        opening_project_file(t, p, path@).0.ids == t.ids,
        opening_project_file(t, p, path@).0.docs == t.docs,
{
}

} // verus!
