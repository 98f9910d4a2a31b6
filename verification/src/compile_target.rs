//! Which document the compiler works on: the project's fixed main document,
//! or else the active tab; and the unsaved texts it reads in place of files.
use vstd::prelude::*;
use crate::compiler::SourceOverlay;
use crate::source_map::SourceTarget;
use crate::text::str_eq;
use crate::tabs::{Tabs, TabsView};
use crate::workspace::{ProjectState, ProjectStateView};
use crate::opening::{
    OpenStep, OpenStepView, first_at_path, lemma_first_at_path, lemma_first_at_path_in_range, lemma_none_at_path,
    opening_project_file, open_project_file, step_view,
};
use crate::document::{DocumentId, DocumentView, Documents, tab_name};
use crate::paths::{file_name, parent, path_file_name, path_parent, path_starts_with, starts_with};

verus! {

/// The position of the document compiled: the open document of the fixed
/// main file (none when it is not open), or the active one.
pub open spec fn main_position(d: Documents, project_main: Option<Seq<char>>) -> Option<int> {
    match project_main {
        Some(p) => first_at_path(d.docs(), p, d.docs().len() as int),
        None => Some(d.active_index()),
    }
}

/// The document compiled, if it is open.
pub fn compilation_main_document(documents: &Documents, project_main: Option<&str>) -> (r: Option<DocumentId>)
    requires
        documents.wf(),
    ensures
        match main_position(*documents, match project_main {
            Some(p) => Some(p@),
            None => None,
        }) {
            Some(i) => r == Some(documents.ids()[i]),
            None => r is None,
        },
{
    match project_main {
        None => Some(documents.active_id()),
        Some(path) => {
            let found = documents.find_path(path);
            proof {
                match found {
                    None => lemma_none_at_path(documents.docs(), path@, documents.docs().len() as int),
                    Some(id) => {
                        let i = choose|i: int| 0 <= i < documents.docs().len() && documents.ids()[i] == id
                            && documents.docs()[i].path == Some(path@)
                            && forall|j: int| 0 <= j < i ==> documents.docs()[j].path != Some(path@);
                        lemma_first_at_path(documents.docs(), path@, i, documents.docs().len() as int);
                    },
                }
            }
            found
        },
    }
}

/// The text compiled: the text of the compiled document when it is open;
/// none when the fixed main file is not open, so the compiler reads it from
/// disk.
pub fn compilation_source(documents: &Documents, project_main: Option<&str>) -> (r: Option<String>)
    requires
        documents.wf(),
    ensures
        match main_position(*documents, match project_main {
            Some(p) => Some(p@),
            None => None,
        }) {
            Some(i) => r matches Some(t) && t@ == documents.docs()[i].text,
            None => r is None,
        },
{
    let id = match compilation_main_document(documents, project_main) {
        None => return None,
        Some(id) => id,
    };
    proof {
        documents.lemma_ids_distinct();
        if let Some(p) = project_main {
            lemma_first_at_path_in_range(documents.docs(), p@, documents.docs().len() as int);
        }
        let i = main_position(*documents, match project_main {
            Some(p) => Some(p@),
            None => None,
        })->0;
        documents.lemma_index_of(id, i);
    }
    match documents.get(id) {
        Some(document) => Some(document.text().to_owned()),
        None => None,
    }
}

/// The path of the compiled file: the fixed main file, or the path of the
/// active document.
pub open spec fn main_path(d: Documents, project_main: Option<Seq<char>>) -> Option<Seq<char>> {
    match project_main {
        Some(p) => Some(p),
        None => d.docs()[d.active_index()].path,
    }
}

/// The name of the compiled document in messages and file names: the file
/// name of its path, or the name on the active tab.
pub open spec fn compilation_name(d: Documents, project_main: Option<Seq<char>>) -> Seq<char> {
    match main_path(d, project_main) {
        Some(p) => match file_name(p) {
            Some(name) => name,
            None => tab_name(d.docs()[d.active_index()]),
        },
        None => tab_name(d.docs()[d.active_index()]),
    }
}

/// Finds the name of the compiled document.
pub fn compilation_display_name(documents: &Documents, project_main: Option<&str>) -> (r: String)
    requires
        documents.wf(),
    ensures
        r@ == compilation_name(*documents, match project_main {
            Some(p) => Some(p@),
            None => None,
        }),
{
    let path: Option<&str> = match project_main {
        Some(p) => Some(p),
        None => documents.active().path(),
    };
    let name = match path {
        Some(p) => path_file_name(p),
        None => None,
    };
    match name {
        Some(n) => n,
        None => documents.active().display_name(),
    }
}

/// The directory of the compiled file (the project root when it has none),
/// where exports are offered to go.
pub open spec fn compilation_dir(d: Documents, project_main: Option<Seq<char>>, root: Seq<char>) -> Seq<char> {
    match main_path(d, project_main) {
        Some(p) => match parent(p) {
            Some(dir) => if dir.len() > 0 { dir } else { root },
            None => root,
        },
        None => root,
    }
}

/// Finds the directory of the compiled file.
pub fn compilation_directory(documents: &Documents, project_main: Option<&str>, root: &str) -> (r: String)
    requires
        documents.wf(),
    ensures
        r@ == compilation_dir(*documents, match project_main {
            Some(p) => Some(p@),
            None => None,
        }, root@),
{
    let path: Option<&str> = match project_main {
        Some(p) => Some(p),
        None => documents.active().path(),
    };
    match path {
        Some(p) => match path_parent(p) {
            Some(dir) => if !dir.as_str().is_empty() { dir } else { root.to_owned() },
            None => root.to_owned(),
        },
        None => root.to_owned(),
    }
}

/// The unsaved texts among the first `n` documents, other than the one at
/// position `main`, of files below `root`.
pub open spec fn overlays_below(ids: Seq<DocumentId>, docs: Seq<DocumentView>, main: Option<DocumentId>, root: Seq<char>, n: int)
    -> Seq<(Seq<char>, Seq<char>)>
    decreases n,
{
    if n <= 0 {
        Seq::empty()
    } else {
        let before = overlays_below(ids, docs, main, root, n - 1);
        let d = docs[n - 1];
        if Some(ids[n - 1]) != main && d.is_dirty() && (d.path matches Some(p) && starts_with(p, root)) {
            before.push((d.path->0, d.text))
        } else {
            before
        }
    }
}

/// Every dirty open document under the root, other than the compiled main
/// document, is sent to the compiler with its current text, whatever the
/// other documents are; and only such documents are sent.
pub proof fn law_every_unsaved_import_is_an_overlay(
    ids: Seq<DocumentId>,
    docs: Seq<DocumentView>,
    main: Option<DocumentId>,
    root: Seq<char>,
    n: int,
)
    requires
        0 <= n <= ids.len(),
        n <= docs.len(),
    ensures
        forall|k: int| 0 <= k < n && Some(ids[k]) != main && docs[k].is_dirty() && docs[k].path is Some
            && starts_with(docs[k].path->0, root)
            ==> overlays_below(ids, docs, main, root, n).contains((docs[k].path->0, #[trigger] docs[k].text)),
        forall|j: int| 0 <= j < overlays_below(ids, docs, main, root, n).len() ==> exists|k: int|
            0 <= k < n && Some(ids[k]) != main && docs[k].is_dirty()
                && docs[k].path == Some((#[trigger] overlays_below(ids, docs, main, root, n)[j]).0)
                && starts_with(overlays_below(ids, docs, main, root, n)[j].0, root)
                && overlays_below(ids, docs, main, root, n)[j].1 == docs[k].text,
    decreases n,
{
    if n > 0 {
        law_every_unsaved_import_is_an_overlay(ids, docs, main, root, n - 1);
        let before = overlays_below(ids, docs, main, root, n - 1);
        let all = overlays_below(ids, docs, main, root, n);
        assert forall|k: int| 0 <= k < n && Some(ids[k]) != main && docs[k].is_dirty() && docs[k].path is Some
            && starts_with(docs[k].path->0, root)
            implies all.contains((docs[k].path->0, #[trigger] docs[k].text)) by {
            if k < n - 1 {
                let i = choose|i: int| 0 <= i < before.len() && before[i] == (docs[k].path->0, docs[k].text);
                assert(all[i] == before[i]);
            } else {
                assert(all[all.len() - 1] == (docs[k].path->0, docs[k].text));
            }
        }
        assert forall|j: int| 0 <= j < all.len() implies exists|k: int|
            0 <= k < n && Some(ids[k]) != main && docs[k].is_dirty()
                && docs[k].path == Some((#[trigger] all[j]).0)
                && starts_with(all[j].0, root) && all[j].1 == docs[k].text by {
            if j < before.len() {
                assert(all[j] == before[j]);
                let k = choose|k: int| 0 <= k < n - 1 && Some(ids[k]) != main && docs[k].is_dirty()
                    && docs[k].path == Some((#[trigger] before[j]).0)
                    && starts_with(before[j].0, root) && before[j].1 == docs[k].text;
                assert(docs[k].path == Some(all[j].0));
            } else {
                assert(docs[n - 1].path == Some(all[j].0));
            }
        }
    }
}

/// The view of an overlay.
pub open spec fn overlay_view(o: SourceOverlay) -> (Seq<char>, Seq<char>) {
    (o.path@, o.text@)
}

/// The unsaved texts of the open files below the compiler's `root`, other
/// than the compiled document `main`, which the compiler reads in place of
/// those files.
pub fn source_overlays(documents: &Documents, main: Option<DocumentId>, root: &str) -> (r: Vec<SourceOverlay>)
    requires
        documents.wf(),
    ensures
        r@.map_values(|o: SourceOverlay| overlay_view(o))
            == overlays_below(documents.ids(), documents.docs(), main, root@, documents.ids().len() as int),
{
    let n = documents.len();
    let mut out: Vec<SourceOverlay> = Vec::new();
    let mut i: usize = 0;
    while i < n
        invariant
            documents.wf(),
            n == documents.ids().len(),
            i <= n,
            out@.map_values(|o: SourceOverlay| overlay_view(o))
                == overlays_below(documents.ids(), documents.docs(), main, root@, i as int),
        decreases n - i,
    {
        let id = documents.id_at(i);
        let document = documents.document_at(i);
        let other = match main {
            Some(m) => m != id,
            None => true,
        };
        if other && document.is_dirty() {
            match document.path() {
                Some(p) => {
                    if path_starts_with(p, root) {
                        let ghost before = out@;
                        let o = SourceOverlay { path: p.to_owned(), text: document.text().to_owned() };
                        out.push(o);
                        proof {
                            assert(out@.map_values(|o: SourceOverlay| overlay_view(o)) =~= before.map_values(
                                |o: SourceOverlay| overlay_view(o)).push(overlay_view(o)));
                        }
                    }
                },
                None => {},
            }
        }
        i = i + 1;
    }
    out
}

/// The source that the active document is to the compiler: the main source
/// when nothing is fixed or when it is the fixed main file, a project file
/// when it lies in the project, and nothing otherwise.
pub open spec fn active_target(d: Documents, project_main: Option<Seq<char>>, root: Seq<char>) -> Option<Option<Seq<char>>> {
    match project_main {
        None => Some(None),
        Some(main) => match d.docs()[d.active_index()].path {
            None => None,
            Some(p) => if p == main {
                Some(None)
            } else if starts_with(p, root) {
                Some(Some(p))
            } else {
                None
            },
        },
    }
}

/// Finds the source that the active document is to the compiler.
pub fn active_source_target(documents: &Documents, project_main: Option<&str>, root: &str) -> (r: Option<SourceTarget>)
    requires
        documents.wf(),
    ensures
        match r {
            Some(t) => active_target(*documents, match project_main {
                Some(p) => Some(p@),
                None => None,
            }, root@) == Some(t@),
            None => active_target(*documents, match project_main {
                Some(p) => Some(p@),
                None => None,
            }, root@) is None,
        },
{
    let main = match project_main {
        None => return Some(SourceTarget::Main),
        Some(m) => m,
    };
    let path = match documents.active().path() {
        None => return None,
        Some(p) => p,
    };
    if str_eq(path, main) {
        Some(SourceTarget::Main)
    } else if path_starts_with(path, root) {
        Some(SourceTarget::ProjectFile(path.to_owned()))
    } else {
        None
    }
}

/// What the application does to show a range of a source.
#[derive(Debug, PartialEq, Eq)]
pub enum RevealStep {
    /// Show the range in the active document.
    InActive,
    /// Nothing: a file operation runs.
    Nothing,
    /// Show the range once the file, now being opened, is read.
    AfterOpening(OpenStep),
}

/// The step by its texts.
pub ghost enum RevealView {
    InActive,
    Nothing,
    AfterOpening(OpenStepView),
}

/// The view of a step.
pub open spec fn reveal_view(r: RevealStep) -> RevealView {
    match r {
        RevealStep::InActive => RevealView::InActive,
        RevealStep::Nothing => RevealView::Nothing,
        RevealStep::AfterOpening(s) => RevealView::AfterOpening(step_view(s)),
    }
}

/// Showing a range of `target` (`None` for the main source): the main
/// source is the fixed main file when there is one. A source shown by an
/// open document becomes active; another project file is opened first,
/// unless a file operation runs.
pub open spec fn revealing(t: TabsView, p: ProjectStateView, target: Option<Seq<char>>) -> (TabsView, ProjectStateView, RevealView) {
    let resolved = match target {
        None => p.project_main,
        Some(path) => Some(path),
    };
    match resolved {
        None => (t, p, RevealView::InActive),
        Some(path) => match first_at_path(t.docs, path, t.docs.len() as int) {
            Some(i) => (TabsView { active: i, ..t }, p, RevealView::InActive),
            None => if t.file_busy {
                (t, p, RevealView::Nothing)
            } else {
                let (u, q, step) = opening_project_file(t, p, path);
                (u, q, RevealView::AfterOpening(step))
            },
        },
    }
}

/// Brings the source `target` forward to show a range of it.
pub fn reveal_source_target(tabs: &mut Tabs, project: &mut ProjectState, target: &SourceTarget) -> (r: RevealStep)
    requires
        old(tabs).wf(),
        old(project).wf(),
    ensures
        final(tabs).wf(),
        final(project).wf(),
        (final(tabs)@, final(project)@, reveal_view(r)) == revealing(old(tabs)@, old(project)@, target@),
{
    let path: String = match target {
        SourceTarget::Main => match project.project_main() {
            None => return RevealStep::InActive,
            Some(m) => m.clone(),
        },
        SourceTarget::ProjectFile(p) => p.clone(),
    };
    let ghost t = tabs@;
    proof { tabs.lemma_valid(); tabs.lemma_ids_distinct(); }
    match tabs.documents().find_path(path.as_str()) {
        Some(id) => {
            proof {
                let i = choose|i: int| 0 <= i < t.docs.len() && t.ids[i] == id && t.docs[i].path == Some(path@)
                    && forall|j: int| 0 <= j < i ==> t.docs[j].path != Some(path@);
                lemma_first_at_path(t.docs, path@, i, t.docs.len() as int);
                assert(t.ids.index_of(id) == i) by {
                    assert(t.ids.contains(id));
                    let k = t.ids.index_of(id);
                    assert(t.ids[k] == id);
                }
                assert(t.active_id() == id ==> t.active == i) by {
                    if t.active_id() == id {
                        assert(t.ids[t.active] == t.ids[i]);
                    }
                }
            }
            tabs.bring_forward(id);
            RevealStep::InActive
        },
        None => {
            proof { lemma_none_at_path(t.docs, path@, t.docs.len() as int); }
            if tabs.file_busy() {
                return RevealStep::Nothing;
            }
            RevealStep::AfterOpening(open_project_file(tabs, project, path.as_str()))
        },
    }
}

/// With a fixed main file, the document compiled does not depend on which
/// tab is active: switching tabs to edit an import keeps compiling the same
/// entry point.
pub proof fn law_fixed_main_ignores_the_active_tab(a: Documents, b: Documents, main: Seq<char>)
    requires
        a.docs() == b.docs(),
        a.ids() == b.ids(),
    ensures
        main_position(a, Some(main)) == main_position(b, Some(main)),
{
}

} // verus!
