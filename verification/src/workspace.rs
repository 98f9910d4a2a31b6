//! What the project side of the window remembers, and how it follows the
//! file operations done in the project.
use vstd::prelude::*;
use crate::document::{Documents, DocumentId, DocumentView};
use crate::paths::{parent, path_parent, starts_with, path_starts_with, opt_view, extension, path_extension, join, path_join};
use crate::project::{
    EntryKind, ProjectEntry, ProjectSnapshot, ScanOutcome, tree_contains, kind_of, find_project_entry_kind, entry_covers, remapped, project_entry_contains_path, remap_project_path,
    visible_entries, pairs_view, append_visible_project_entries,
};
use crate::text::{push_str, str_eq, strings_view};

verus! {


/// The project side of the window: the project root, the file fixed as the
/// main document, the expanded directories (each listed once), the
/// selected entry and the selected Typst file, and whether the next scan of
/// a newly opened folder looks for its "main.typ".
pub struct ProjectState {
    root: String,
    project_main: Option<String>,
    expanded: Vec<String>,
    selected_entry: Option<String>,
    selected_file: Option<String>,
    detect_main: bool,
}

/// The project side as plain values.
pub ghost struct ProjectStateView {
    pub root: Seq<char>,
    pub project_main: Option<Seq<char>>,
    pub expanded: Set<Seq<char>>,
    pub selected_entry: Option<Seq<char>>,
    pub selected_file: Option<Seq<char>>,
    pub detect_main: bool,
}

impl View for ProjectState {
    type V = ProjectStateView;

    closed spec fn view(&self) -> ProjectStateView {
        ProjectStateView {
            root: self.root@,
            project_main: opt_view(self.project_main),
            expanded: strings_view(self.expanded@).to_set(),
            selected_entry: opt_view(self.selected_entry),
            selected_file: opt_view(self.selected_file),
            detect_main: self.detect_main,
        }
    }
}

proof fn lemma_push_to_set(before: Seq<Seq<char>>, x: Seq<char>)
    requires
        before.no_duplicates(),
        !before.contains(x),
    ensures
        before.push(x).no_duplicates(),
        before.push(x).to_set() == before.to_set().insert(x),
{
    let after = before.push(x);
    assert forall|a: int, b: int| 0 <= a < b < after.len() implies after[a] != after[b] by {
        if b < before.len() {
            assert(after[a] == before[a] && after[b] == before[b]);
        } else {
            assert(after[a] == before[a]);
        }
    }
    assert forall|y: Seq<char>| after.to_set().contains(y) <==> before.to_set().insert(x).contains(y) by {
        if after.contains(y) {
            let k = after.index_of(y);
            if k < before.len() {
                assert(before[k] == y);
            }
        }
        if before.contains(y) {
            let k = before.index_of(y);
            assert(after[k] == y);
        }
        if y == x {
            assert(after[before.len() as int] == y);
        }
    }
    assert(after.to_set() =~= before.to_set().insert(x));
}

fn position_of(list: &Vec<String>, item: &str) -> (r: Option<usize>)
    ensures
        r is None <==> !strings_view(list@).contains(item@),
        r matches Some(k) ==> k < list@.len() && list@[k as int]@ == item@,
{
    let mut i: usize = 0;
    while i < list.len()
        invariant
            i <= list@.len(),
            forall|k: int| 0 <= k < i ==> strings_view(list@)[k] != item@,
        decreases list@.len() - i,
    {
        if str_eq(list[i].as_str(), item) {
            proof { assert(strings_view(list@)[i as int] == item@); }
            return Some(i);
        }
        i = i + 1;
    }
    proof {
        if strings_view(list@).contains(item@) {
            let k = strings_view(list@).index_of(item@);
            assert(strings_view(list@)[k] == item@);
        }
    }
    None
}

/// Adds `item` to a list of distinct paths, unless it is there.
fn insert_unique(list: &mut Vec<String>, item: &str)
    requires
        strings_view(old(list)@).no_duplicates(),
    ensures
        strings_view(final(list)@).no_duplicates(),
        strings_view(final(list)@).to_set() == strings_view(old(list)@).to_set().insert(item@),
{
    if position_of(list, item).is_some() {
        proof {
            assert(strings_view(list@).to_set().insert(item@) =~= strings_view(list@).to_set());
        }
        return;
    }
    let ghost before = strings_view(list@);
    list.push(item.to_owned());
    proof {
        assert(strings_view(list@) =~= before.push(item@));
        lemma_push_to_set(before, item@);
    }
}

impl ProjectState {
    /// Each expanded directory is listed once.
    pub closed spec fn wf(&self) -> bool {
        strings_view(self.expanded@).no_duplicates()
    }

    /// A project at `root` with nothing expanded, fixed or selected.
    pub fn new(root: String) -> (r: Self)
        ensures
            r.wf(),
            r@ == (ProjectStateView {
                root: root@,
                project_main: None,
                expanded: Set::empty(),
                selected_entry: None,
                selected_file: None,
                detect_main: false,
            }),
    {
        let r = ProjectState {
            root,
            project_main: None,
            expanded: Vec::new(),
            selected_entry: None,
            selected_file: None,
            detect_main: false,
        };
        proof {
            assert(strings_view(r.expanded@) =~= Seq::<Seq<char>>::empty());
            assert(strings_view(r.expanded@).to_set() =~= Set::<Seq<char>>::empty());
        }
        r
    }

    /// The root of the project.
    pub fn root(&self) -> (r: &str)
        ensures
            r@ == self@.root,
    {
        self.root.as_str()
    }

    /// The file fixed as the main document, if any.
    pub fn project_main(&self) -> (r: Option<&String>)
        ensures
            match r {
                Some(m) => self@.project_main == Some(m@),
                None => self@.project_main is None,
            },
    {
        self.project_main.as_ref()
    }

    /// The selected entry of the tree.
    pub fn selected_entry(&self) -> (r: Option<&String>)
        ensures
            match r {
                Some(m) => self@.selected_entry == Some(m@),
                None => self@.selected_entry is None,
            },
    {
        self.selected_entry.as_ref()
    }

    /// The selected Typst file of the tree.
    pub fn selected_file(&self) -> (r: Option<&String>)
        ensures
            match r {
                Some(m) => self@.selected_file == Some(m@),
                None => self@.selected_file is None,
            },
    {
        self.selected_file.as_ref()
    }

    /// Selects the entry `path` of the tree; a Typst file also becomes the
    /// selected file, anything else leaves no file selected.
    pub fn select_entry(&mut self, path: &str, kind: EntryKind)
        ensures
            final(self).wf() == old(self).wf(),
            final(self)@ == (ProjectStateView {
                selected_entry: Some(path@),
                selected_file: if kind == EntryKind::TypstFile { Some(path@) } else { None },
                ..old(self)@
            }),
    {
        self.selected_entry = Some(path.to_owned());
        self.selected_file = if kind == EntryKind::TypstFile { Some(path.to_owned()) } else { None };
    }

    /// Leaves no entry selected (the selected file stays).
    pub fn clear_selected_entry(&mut self)
        ensures
            final(self).wf() == old(self).wf(),
            final(self)@ == (ProjectStateView { selected_entry: None, ..old(self)@ }),
    {
        self.selected_entry = None;
    }

    /// Fixes `main` as the document the preview follows, or lets the
    /// preview follow the active tab.
    pub fn set_project_main(&mut self, main: Option<String>)
        ensures
            final(self).wf() == old(self).wf(),
            final(self)@ == (ProjectStateView { project_main: opt_view(main), ..old(self)@ }),
    {
        self.project_main = main;
    }

    /// Whether `directory` is expanded.
    pub fn is_expanded(&self, directory: &str) -> (r: bool)
        ensures
            r == self@.expanded.contains(directory@),
    {
        position_of(&self.expanded, directory).is_some()
    }

    /// Expands `directory`.
    pub fn expand(&mut self, directory: &str)
        requires
            old(self).wf(),
        ensures
            final(self).wf(),
            final(self)@ == (ProjectStateView { expanded: old(self)@.expanded.insert(directory@), ..old(self)@ }),
    {
        insert_unique(&mut self.expanded, directory);
    }
}

/// The directories expanded to show `p`: its ancestors below the root,
/// walking up from its parent until the root or a path outside it.
pub open spec fn ancestors_shown(root: Seq<char>, p: Seq<char>) -> Set<Seq<char>>
    decreases p.len(),
{
    match parent(p) {
        None => Set::empty(),
        Some(d) => {
            if d == root || !starts_with(d, root) || d.len() >= p.len() {
                Set::empty()
            } else {
                ancestors_shown(root, d).insert(d)
            }
        },
    }
}

/// The expanded directories once `path` was revealed: the root, when the
/// path lies in it, and the ancestors of the path below the root.
pub open spec fn revealed(root: Seq<char>, path: Seq<char>, expanded: Set<Seq<char>>) -> Set<Seq<char>> {
    let with_root = if starts_with(path, root) { expanded.insert(root) } else { expanded };
    with_root + ancestors_shown(root, path)
}

fn char_count(s: &str) -> (n: usize)
    ensures
        n == s@.len(),
{
    crate::text::to_chars(s).len()
}

impl ProjectState {
    /// Selects `path` and expands what is needed to show it.
    pub fn reveal_entry(&mut self, path: &str)
        requires
            old(self).wf(),
        ensures
            final(self).wf(),
            final(self)@ == (ProjectStateView {
                selected_entry: Some(path@),
                expanded: revealed(old(self)@.root, path@, old(self)@.expanded),
                ..old(self)@
            }),
    {
        let ghost root = self.root@;
        let ghost start = self@.expanded;
        self.selected_entry = Some(path.to_owned());
        if path_starts_with(path, self.root.as_str()) {
            insert_unique(&mut self.expanded, self.root.as_str());
        }
        let ghost with_root = if starts_with(path@, root) { start.insert(root) } else { start };
        let mut child = path.to_owned();
        let ghost main = self.project_main;
        let ghost entry = self.selected_entry;
        let ghost file = self.selected_file;
        proof {
            assert(strings_view(self.expanded@).to_set() == with_root);
        }
        loop
            invariant
                self.root@ == root,
                self.project_main == main,
                self.selected_entry == entry,
                self.selected_file == file,
                self.detect_main == old(self).detect_main,
                strings_view(self.expanded@).no_duplicates(),
                strings_view(self.expanded@).to_set() + ancestors_shown(root, child@)
                    == with_root + ancestors_shown(root, path@),
            ensures
                self.root@ == root,
                self.project_main == main,
                self.selected_entry == entry,
                self.selected_file == file,
                self.detect_main == old(self).detect_main,
                strings_view(self.expanded@).no_duplicates(),
                strings_view(self.expanded@).to_set() == with_root + ancestors_shown(root, path@),
            decreases child@.len(),
        {
            let next = match path_parent(child.as_str()) {
                None => {
                    proof {
                        assert(strings_view(self.expanded@).to_set() + ancestors_shown(root, child@)
                            =~= strings_view(self.expanded@).to_set());
                    }
                    break;
                },
                Some(d) => d,
            };
            if str_eq(next.as_str(), self.root.as_str()) || !path_starts_with(next.as_str(), self.root.as_str())
                || char_count(next.as_str()) >= char_count(child.as_str()) {
                proof {
                    assert(strings_view(self.expanded@).to_set() + ancestors_shown(root, child@)
                        =~= strings_view(self.expanded@).to_set());
                }
                break;
            }
            let ghost before = strings_view(self.expanded@).to_set();
            insert_unique(&mut self.expanded, next.as_str());
            proof {
                assert(ancestors_shown(root, child@) == ancestors_shown(root, next@).insert(next@));
                assert(strings_view(self.expanded@).to_set() + ancestors_shown(root, next@)
                    =~= before + ancestors_shown(root, child@));
            }
            child = next;
        }
        proof {
            assert(self@.expanded == revealed(root, path@, start));
            assert(self@.selected_entry == Some(path@));
        }
    }
}

/// The status shown after an entry was created.
pub open spec fn created_status(path: Seq<char>, kind: EntryKind) -> Seq<char> {
    if kind == EntryKind::Directory { "Pasta criada: "@ + path } else { "Arquivo criado: "@ + path }
}

impl ProjectState {
    /// Follows the creation of the entry `path`: reveals it, expands a new
    /// directory, selects a new Typst file; gives the status to show.
    pub fn after_created(&mut self, path: &str, kind: EntryKind) -> (status: String)
        requires
            old(self).wf(),
        ensures
            final(self).wf(),
            final(self)@ == (ProjectStateView {
                selected_entry: Some(path@),
                expanded: if kind == EntryKind::Directory {
                    revealed(old(self)@.root, path@, old(self)@.expanded).insert(path@)
                } else {
                    revealed(old(self)@.root, path@, old(self)@.expanded)
                },
                selected_file: if kind == EntryKind::TypstFile { Some(path@) } else { None },
                ..old(self)@
            }),
            status@ == created_status(path@, kind),
    {
        self.reveal_entry(path);
        let mut status;
        match kind {
            EntryKind::Directory => {
                insert_unique(&mut self.expanded, path);
                self.selected_file = None;
                status = "Pasta criada: ".to_owned();
            },
            EntryKind::TypstFile => {
                self.selected_file = Some(path.to_owned());
                status = "Arquivo criado: ".to_owned();
            },
            EntryKind::File => {
                self.selected_file = None;
                status = "Arquivo criado: ".to_owned();
            },
        }
        push_str(&mut status, path);
        status
    }
}

/// Where a path goes once the entry `from` was renamed to `to`.
pub open spec fn moved_path(p: Seq<char>, from: Seq<char>, to: Seq<char>, kind: EntryKind) -> Seq<char> {
    match remapped(p, from, to, kind) {
        Some(q) => q,
        None => p,
    }
}

/// The status shown after a rename.
pub open spec fn renamed_status(from: Seq<char>, to: Seq<char>, kind: EntryKind) -> Seq<char> {
    (if kind == EntryKind::Directory { "Pasta"@ } else { "Arquivo"@ }) + " renomeado: "@ + from + " -> "@ + to
}

proof fn lemma_map_insert(s: Set<Seq<char>>, x: Seq<char>, f: spec_fn(Seq<char>) -> Seq<char>)
    ensures
        s.insert(x).map(f) == s.map(f).insert(f(x)),
{
    assert forall|y: Seq<char>| s.insert(x).map(f).contains(y) <==> s.map(f).insert(f(x)).contains(y) by {
        if s.insert(x).map(f).contains(y) {
            let a = choose|a: Seq<char>| s.insert(x).contains(a) && y == f(a);
            if a != x {
                assert(s.contains(a));
                assert(s.map(f).contains(y));
            }
        }
        if s.map(f).contains(y) {
            let a = choose|a: Seq<char>| s.contains(a) && y == f(a);
            assert(s.insert(x).contains(a));
        }
        if y == f(x) {
            assert(s.insert(x).contains(x));
        }
    }
    assert(s.insert(x).map(f) =~= s.map(f).insert(f(x)));
}

proof fn lemma_take_to_set(v: Seq<Seq<char>>, i: int)
    requires
        0 <= i < v.len(),
    ensures
        v.take(i + 1).to_set() == v.take(i).to_set().insert(v[i]),
{
    assert(v.take(i + 1) =~= v.take(i).push(v[i]));
    assert forall|y: Seq<char>| v.take(i + 1).to_set().contains(y) <==> v.take(i).to_set().insert(v[i]).contains(y) by {
        let t = v.take(i + 1);
        if t.contains(y) {
            let k = t.index_of(y);
            if k < i {
                assert(v.take(i)[k] == y);
            }
        }
        if v.take(i).contains(y) {
            let k = v.take(i).index_of(y);
            assert(t[k] == y);
        }
        if y == v[i] {
            assert(t[i] == y);
        }
    }
    assert(v.take(i + 1).to_set() =~= v.take(i).to_set().insert(v[i]));
}

impl ProjectState {
    /// Follows the rename of the entry `from` to `to`: the fixed main file
    /// and the expanded directories move with it, the new path is revealed,
    /// and a renamed Typst file stays selected; gives the status to show.
    pub fn after_renamed(&mut self, from: &str, to: &str, kind: EntryKind) -> (status: String)
        requires
            old(self).wf(),
        ensures
            final(self).wf(),
            final(self)@ == (ProjectStateView {
                project_main: match old(self)@.project_main {
                    Some(m) => Some(moved_path(m, from@, to@, kind)),
                    None => None,
                },
                expanded: revealed(
                    old(self)@.root,
                    to@,
                    old(self)@.expanded.map(|d: Seq<char>| moved_path(d, from@, to@, kind)),
                ),
                selected_entry: Some(to@),
                selected_file: if kind == EntryKind::TypstFile { Some(to@) } else { None },
                ..old(self)@
            }),
            status@ == renamed_status(from@, to@, kind),
    {
        let ghost f = |d: Seq<char>| moved_path(d, from@, to@, kind);
        if let Some(main) = &self.project_main {
            if let Some(moved) = remap_project_path(main.as_str(), from, to, kind) {
                self.project_main = Some(moved);
            }
        }
        let ghost old_list = strings_view(self.expanded@);
        let mut moved_list: Vec<String> = Vec::new();
        let mut i: usize = 0;
        proof {
            assert(strings_view(moved_list@) =~= Seq::<Seq<char>>::empty());
            assert(old_list.take(0) =~= Seq::<Seq<char>>::empty());
            assert(old_list.take(0).to_set() =~= Set::<Seq<char>>::empty());
            assert(Set::<Seq<char>>::empty().map(f) =~= Set::<Seq<char>>::empty());
            assert(strings_view(moved_list@).to_set() =~= Set::<Seq<char>>::empty());
        }
        while i < self.expanded.len()
            invariant
                i <= self.expanded@.len(),
                old_list == strings_view(self.expanded@),
                f == (|d: Seq<char>| moved_path(d, from@, to@, kind)),
                strings_view(moved_list@).no_duplicates(),
                strings_view(moved_list@).to_set() == old_list.take(i as int).to_set().map(f),
            decreases self.expanded@.len() - i,
        {
            let d = &self.expanded[i];
            let target = match remap_project_path(d.as_str(), from, to, kind) {
                Some(q) => q,
                None => d.clone(),
            };
            insert_unique(&mut moved_list, target.as_str());
            proof {
                assert(old_list[i as int] == d@);
                lemma_take_to_set(old_list, i as int);
                lemma_map_insert(old_list.take(i as int).to_set(), d@, f);
            }
            i = i + 1;
        }
        proof {
            assert(old_list.take(old_list.len() as int) =~= old_list);
        }
        self.expanded = moved_list;
        self.reveal_entry(to);
        self.selected_file = if matches!(kind, EntryKind::TypstFile) { Some(to.to_owned()) } else { None };
        let mut status = (if matches!(kind, EntryKind::Directory) { "Pasta" } else { "Arquivo" }).to_owned();
        push_str(&mut status, " renomeado: ");
        push_str(&mut status, from);
        push_str(&mut status, " -> ");
        push_str(&mut status, to);
        status
    }
}

/// The status shown after a deletion.
pub open spec fn deleted_status(path: Seq<char>, kind: EntryKind, main_deleted: bool) -> Seq<char> {
    (if kind == EntryKind::Directory { "Pasta excluída"@ } else { "Arquivo excluído"@ }) + ": "@ + path
        + if main_deleted { "; o Preview agora acompanha a aba ativa"@ } else { Seq::empty() }
}

/// The project side once the entry `path` was deleted.
pub open spec fn after_deletion(v: ProjectStateView, path: Seq<char>, kind: EntryKind) -> ProjectStateView {
    ProjectStateView {
        project_main: match v.project_main {
            Some(m) => if entry_covers(path, kind, m) { None } else { Some(m) },
            None => None,
        },
        expanded: v.expanded.filter(|d: Seq<char>| !entry_covers(path, kind, d)),
        selected_entry: match v.selected_entry {
            Some(e) => if entry_covers(path, kind, e) { None } else { Some(e) },
            None => None,
        },
        selected_file: None,
        ..v
    }
}

/// Once an entry is deleted, nothing that lay in it stays fixed as the
/// main document, expanded or selected, and what lay elsewhere is kept.
pub proof fn law_deletion_forgets_the_entry(v: ProjectStateView, path: Seq<char>, kind: EntryKind)
    ensures
        ({
            let w = after_deletion(v, path, kind);
            &&& forall|d: Seq<char>| #[trigger] w.expanded.contains(d) <==> (v.expanded.contains(d) && !entry_covers(path, kind, d))
            &&& (w.project_main matches Some(m) ==> !entry_covers(path, kind, m))
            &&& (v.project_main matches Some(m) && !entry_covers(path, kind, m) ==> w.project_main == v.project_main)
            &&& (w.selected_entry matches Some(e) ==> !entry_covers(path, kind, e))
            &&& w.selected_file is None
            &&& w.root == v.root
        }),
{
}

impl ProjectState {
    /// Follows the deletion of the entry `path`: the fixed main file, the
    /// expanded directories and the selected entry that lay in it are
    /// forgotten, and no file stays selected; gives the status to show and
    /// whether the fixed main file was deleted.
    pub fn after_deleted(&mut self, path: &str, kind: EntryKind) -> (r: (String, bool))
        requires
            old(self).wf(),
        ensures
            final(self).wf(),
            r.1 == (old(self)@.project_main matches Some(m) && entry_covers(path@, kind, m)),
            final(self)@ == after_deletion(old(self)@, path@, kind),
            r.0@ == deleted_status(path@, kind, r.1),
    {
        let ghost keep = |d: Seq<char>| !entry_covers(path@, kind, d);
        let main_deleted = match &self.project_main {
            Some(m) => project_entry_contains_path(path, kind, m.as_str()),
            None => false,
        };
        if main_deleted {
            self.project_main = None;
        }
        let ghost old_list = strings_view(self.expanded@);
        let mut kept: Vec<String> = Vec::new();
        let mut i: usize = 0;
        proof {
            assert(strings_view(kept@) =~= Seq::<Seq<char>>::empty());
            assert(old_list.take(0) =~= Seq::<Seq<char>>::empty());
            assert(old_list.take(0).to_set().filter(keep) =~= Set::<Seq<char>>::empty());
            assert(strings_view(kept@).to_set() =~= Set::<Seq<char>>::empty());
        }
        while i < self.expanded.len()
            invariant
                i <= self.expanded@.len(),
                old_list == strings_view(self.expanded@),
                keep == (|d: Seq<char>| !entry_covers(path@, kind, d)),
                strings_view(kept@).no_duplicates(),
                strings_view(kept@).to_set() == old_list.take(i as int).to_set().filter(keep),
            decreases self.expanded@.len() - i,
        {
            let d = &self.expanded[i];
            let ghost before = strings_view(kept@).to_set();
            proof {
                assert(old_list[i as int] == d@);
                lemma_take_to_set(old_list, i as int);
            }
            if !project_entry_contains_path(path, kind, d.as_str()) {
                insert_unique(&mut kept, d.as_str());
                proof {
                    assert(old_list.take(i + 1).to_set().filter(keep) =~= before.insert(d@));
                }
            } else {
                proof {
                    assert(old_list.take(i + 1).to_set().filter(keep) =~= before);
                }
            }
            i = i + 1;
        }
        proof {
            assert(old_list.take(old_list.len() as int) =~= old_list);
        }
        self.expanded = kept;
        let entry_deleted = match &self.selected_entry {
            Some(e) => project_entry_contains_path(path, kind, e.as_str()),
            None => false,
        };
        if entry_deleted {
            self.selected_entry = None;
        }
        self.selected_file = None;
        let mut status = (if matches!(kind, EntryKind::Directory) { "Pasta excluída" } else { "Arquivo excluído" }).to_owned();
        push_str(&mut status, ": ");
        push_str(&mut status, path);
        if main_deleted {
            push_str(&mut status, "; o Preview agora acompanha a aba ativa");
        } else {
            proof { assert(status@ + Seq::<char>::empty() =~= status@); }
        }
        (status, main_deleted)
    }
}

/// A document after the entry `from` was renamed to `to`: moved along
/// when its file lay in the entry.
pub open spec fn relocated(d: DocumentView, from: Seq<char>, to: Seq<char>, kind: EntryKind) -> DocumentView {
    match d.path {
        Some(p) => match remapped(p, from, to, kind) {
            Some(q) => DocumentView { path: Some(q), ..d },
            None => d,
        },
        None => d,
    }
}

/// Moves the open documents whose files lay in the entry `from`, renamed
/// to `to`; tells whether the active document was among them.
pub fn relocate_documents(documents: &mut Documents, from: &str, to: &str, kind: EntryKind) -> (r: bool)
    requires
        old(documents).wf(),
    ensures
        final(documents).wf(),
        final(documents).ids() == old(documents).ids(),
        final(documents).active_index() == old(documents).active_index(),
        final(documents).next_id() == old(documents).next_id(),
        final(documents).docs() == old(documents).docs().map_values(|d: DocumentView| relocated(d, from@, to@, kind)),
        r == (old(documents).docs()[old(documents).active_index()].path matches Some(p) && entry_covers(from@, kind, p)),
{
    let ghost start = documents.docs();
    let active_renamed = match documents.active().path() {
        Some(p) => project_entry_contains_path(from, kind, p),
        None => false,
    };
    let n = documents.len();
    let mut i: usize = 0;
    while i < n
        invariant
            documents.wf(),
            i <= n == documents.ids().len() == start.len(),
            documents.ids() == old(documents).ids(),
            start == old(documents).docs(),
            documents.active_index() == old(documents).active_index(),
            documents.next_id() == old(documents).next_id(),
            documents.docs().len() == start.len(),
            forall|k: int| 0 <= k < i ==> #[trigger] documents.docs()[k] == relocated(start[k], from@, to@, kind),
            forall|k: int| i <= k < start.len() ==> #[trigger] documents.docs()[k] == start[k],
        decreases n - i,
    {
        let target = match documents.document_at(i).path() {
            Some(p) => remap_project_path(p, from, to, kind),
            None => None,
        };
        match target {
            Some(q) => {
                documents.relocate_at(i, q);
            },
            None => {},
        }
        proof {
            assert(documents.docs()[i as int] == relocated(start[i as int], from@, to@, kind));
        }
        i = i + 1;
    }
    proof {
        assert(documents.docs() =~= start.map_values(|d: DocumentView| relocated(d, from@, to@, kind)));
    }
    active_renamed
}

/// The identities of the documents whose files lie in the entry `path`,
/// in tab order.
pub open spec fn ids_under(ids: Seq<DocumentId>, docs: Seq<DocumentView>, path: Seq<char>, kind: EntryKind) -> Seq<DocumentId>
    decreases ids.len(),
{
    if ids.len() == 0 {
        Seq::empty()
    } else {
        let before = ids_under(ids.drop_last(), docs, path, kind);
        let i = ids.len() - 1;
        if docs[i].path matches Some(p) && entry_covers(path, kind, p) {
            before.push(ids[i])
        } else {
            before
        }
    }
}

/// The documents whose files lie in the entry `path`.
pub fn documents_under(documents: &Documents, path: &str, kind: EntryKind) -> (r: Vec<DocumentId>)
    requires
        documents.wf(),
    ensures
        r@ == ids_under(documents.ids(), documents.docs(), path@, kind),
{
    let ghost ids = documents.ids();
    let n = documents.len();
    let mut found: Vec<DocumentId> = Vec::new();
    let mut i: usize = 0;
    proof {
        assert(ids.take(0) =~= Seq::<DocumentId>::empty());
    }
    while i < n
        invariant
            documents.wf(),
            ids == documents.ids(),
            i <= n == ids.len(),
            found@ == ids_under(ids.take(i as int), documents.docs(), path@, kind),
        decreases n - i,
    {
        let inside = match documents.document_at(i).path() {
            Some(p) => project_entry_contains_path(path, kind, p),
            None => false,
        };
        let id = documents.id_at(i);
        proof {
            assert(ids.take(i + 1).drop_last() =~= ids.take(i as int));
            assert(ids.take(i + 1)[i as int] == ids[i as int]);
        }
        if inside {
            found.push(id);
        }
        i = i + 1;
    }
    proof {
        assert(ids.take(n as int) =~= ids);
    }
    found
}

impl ProjectState {
    /// The expanded directories in the order they were expanded.
    pub closed spec fn expanded_seq(&self) -> Seq<Seq<char>> {
        strings_view(self.expanded@)
    }

    /// The expanded directories, each once.
    pub fn expanded_list(&self) -> (r: &Vec<String>)
        ensures
            strings_view(r@) == self.expanded_seq(),
            strings_view(r@).to_set() == self@.expanded,
    {
        &self.expanded
    }
}

/// The rows of the project tree: the root, then, when the root is
/// expanded, the visible entries of the tree.
pub open spec fn tree_rows(root: Seq<char>, tree: Seq<ProjectEntry>, expanded: Set<Seq<char>>, listed: Seq<Seq<char>>) -> Seq<(Seq<char>, EntryKind)> {
    seq![(root, EntryKind::Directory)] + if expanded.contains(root) {
        visible_entries(tree, listed)
    } else {
        Seq::empty()
    }
}

/// The rows of the project tree of `state`.
pub fn visible_project_entries(state: &ProjectState, tree: &[ProjectEntry]) -> (r: Vec<(String, EntryKind)>)
    ensures
        pairs_view(r@) == tree_rows(state@.root, tree@, state@.expanded, state.expanded_seq()),
{
    let mut rows: Vec<(String, EntryKind)> = Vec::new();
    rows.push((state.root().to_owned(), EntryKind::Directory));
    proof {
        assert(pairs_view(rows@) =~= seq![(state@.root, EntryKind::Directory)]);
    }
    let list = state.expanded_list();
    if state.is_expanded(state.root()) {
        append_visible_project_entries(tree, list.as_slice(), &mut rows);
    } else {
        proof {
            assert(pairs_view(rows@) + Seq::<(Seq<char>, EntryKind)>::empty() =~= pairs_view(rows@));
        }
    }
    rows
}

/// Keyboard moves in the project tree.
#[derive(Debug, Clone, Copy, PartialEq, Eq, Structural)]
pub enum TreeNavigation {
    Previous,
    Next,
    ParentOrCollapse,
    ChildOrExpand,
    First,
    Last,
    Activate,
}

/// What a keyboard move in the tree does, on the row at the given index.
#[derive(Debug, Clone, Copy, PartialEq, Eq, Structural)]
pub enum TreeAction {
    Nothing,
    Open(usize),
    Collapse(usize),
    Expand(usize),
    Select(usize),
}

/// Index of the first row for `path`, or -1.
pub open spec fn row_of(rows: Seq<(Seq<char>, EntryKind)>, path: Seq<char>) -> int
    decreases rows.len(),
{
    if rows.len() == 0 {
        -1
    } else {
        let before = row_of(rows.drop_last(), path);
        if before >= 0 {
            before
        } else if rows.last().0 == path {
            rows.len() - 1
        } else {
            -1
        }
    }
}

/// The directory that holds `path` in the tree: its parent inside the
/// project, or the root.
pub open spec fn tree_parent(root: Seq<char>, path: Seq<char>) -> Seq<char> {
    match parent(path) {
        Some(p) => if starts_with(p, root) { p } else { root },
        None => root,
    }
}

/// What a keyboard move does in the tree with `rows`, the selected entry
/// being `selected` (the first row when it is not shown).
pub open spec fn tree_outcome(
    rows: Seq<(Seq<char>, EntryKind)>,
    selected: Option<Seq<char>>,
    root: Seq<char>,
    expanded: Set<Seq<char>>,
    navigation: TreeNavigation,
) -> TreeAction {
    let n = rows.len() as int;
    let c = match selected {
        Some(s) => if row_of(rows, s) >= 0 { row_of(rows, s) } else { 0 },
        None => 0,
    };
    if n == 0 {
        TreeAction::Nothing
    } else {
        let path = rows[c].0;
        let kind = rows[c].1;
        match navigation {
            TreeNavigation::Activate => TreeAction::Open(c as usize),
            TreeNavigation::ParentOrCollapse => if kind == EntryKind::Directory && expanded.contains(path) {
                TreeAction::Collapse(c as usize)
            } else {
                let t = row_of(rows, tree_parent(root, path));
                if t >= 0 { TreeAction::Select(t as usize) } else { TreeAction::Nothing }
            },
            TreeNavigation::ChildOrExpand => if kind != EntryKind::Directory {
                TreeAction::Nothing
            } else if !expanded.contains(path) {
                TreeAction::Expand(c as usize)
            } else if c + 1 < n && parent(rows[c + 1].0) == Some(path) {
                TreeAction::Select((c + 1) as usize)
            } else {
                TreeAction::Nothing
            },
            TreeNavigation::Previous => TreeAction::Select((if c == 0 { 0 } else { c - 1 }) as usize),
            TreeNavigation::Next => TreeAction::Select((if c + 1 < n { c + 1 } else { n - 1 }) as usize),
            TreeNavigation::First => TreeAction::Select(0),
            TreeNavigation::Last => TreeAction::Select((n - 1) as usize),
        }
    }
}

fn find_row(rows: &Vec<(String, EntryKind)>, path: &str) -> (r: Option<usize>)
    ensures
        match r {
            Some(i) => row_of(pairs_view(rows@), path@) == i as int && i < rows@.len(),
            None => row_of(pairs_view(rows@), path@) == -1,
        },
{
    let ghost all = pairs_view(rows@);
    let mut i: usize = 0;
    proof {
        assert(all.take(0) =~= Seq::<(Seq<char>, EntryKind)>::empty());
    }
    while i < rows.len()
        invariant
            all == pairs_view(rows@),
            i <= rows@.len(),
            row_of(all.take(i as int), path@) == -1,
        decreases rows@.len() - i,
    {
        proof {
            assert(all.take(i + 1).drop_last() =~= all.take(i as int));
            assert(all.take(i + 1).last() == all[i as int]);
        }
        if str_eq(rows[i].0.as_str(), path) {
            proof {
                lemma_row_of_prefix(all, i + 1, path@);
            }
            return Some(i);
        }
        i = i + 1;
    }
    proof {
        assert(all.take(all.len() as int) =~= all);
    }
    None
}

proof fn lemma_row_of_prefix(rows: Seq<(Seq<char>, EntryKind)>, k: int, path: Seq<char>)
    requires
        0 <= k <= rows.len(),
        row_of(rows.take(k), path) >= 0,
    ensures
        row_of(rows, path) == row_of(rows.take(k), path),
    decreases rows.len() - k,
{
    if k < rows.len() {
        assert(rows.take(k + 1).drop_last() =~= rows.take(k));
        lemma_row_of_prefix(rows, k + 1, path);
    } else {
        assert(rows.take(k) =~= rows);
    }
}

/// Decides a keyboard move in the project tree.
pub fn tree_action(
    rows: &Vec<(String, EntryKind)>,
    selected: Option<&str>,
    state: &ProjectState,
    navigation: TreeNavigation,
) -> (r: TreeAction)
    ensures
        r == tree_outcome(pairs_view(rows@), match selected {
            Some(s) => Some(s@),
            None => None,
        }, state@.root, state@.expanded, navigation),
{
    let ghost rv = pairs_view(rows@);
    let n = rows.len();
    if n == 0 {
        return TreeAction::Nothing;
    }
    let current = match selected {
        Some(s) => match find_row(rows, s) {
            Some(i) => i,
            None => 0,
        },
        None => 0,
    };
    proof {
        assert(rv[current as int] == (rows@[current as int].0@, rows@[current as int].1));
    }
    let path = rows[current].0.as_str();
    let kind = rows[current].1;
    match navigation {
        TreeNavigation::Activate => TreeAction::Open(current),
        TreeNavigation::ParentOrCollapse => {
            if matches!(kind, EntryKind::Directory) && state.is_expanded(path) {
                return TreeAction::Collapse(current);
            }
            let target = match path_parent(path) {
                Some(p) => if path_starts_with(p.as_str(), state.root()) { p } else { state.root().to_owned() },
                None => state.root().to_owned(),
            };
            match find_row(rows, target.as_str()) {
                Some(t) => TreeAction::Select(t),
                None => TreeAction::Nothing,
            }
        },
        TreeNavigation::ChildOrExpand => {
            if !matches!(kind, EntryKind::Directory) {
                return TreeAction::Nothing;
            }
            if !state.is_expanded(path) {
                return TreeAction::Expand(current);
            }
            if current + 1 < n {
                proof {
                    assert(rv[current + 1] == (rows@[current + 1].0@, rows@[current + 1].1));
                }
                let child_parent = path_parent(rows[current + 1].0.as_str());
                let is_child = match &child_parent {
                    Some(p) => str_eq(p.as_str(), path),
                    None => false,
                };
                if is_child {
                    return TreeAction::Select(current + 1);
                }
            }
            TreeAction::Nothing
        },
        TreeNavigation::Previous => TreeAction::Select(if current == 0 { 0 } else { current - 1 }),
        TreeNavigation::Next => TreeAction::Select(if current + 1 < n { current + 1 } else { n - 1 }),
        TreeNavigation::First => TreeAction::Select(0),
        TreeNavigation::Last => TreeAction::Select(n - 1),
    }
}

/// The kind of the entry at `path`: the root of the project is a directory,
/// any other entry is looked up in the tree.
pub open spec fn entry_kind_at(root: Seq<char>, tree: Seq<ProjectEntry>, path: Seq<char>) -> Option<EntryKind> {
    if path == root {
        Some(EntryKind::Directory)
    } else {
        kind_of(tree, path)
    }
}

/// Where a new file or folder goes: into the selected directory, or the
/// directory of the selected file when that lies in the project; into the
/// root when nothing known is selected.
pub open spec fn target_directory(v: ProjectStateView, tree: Seq<ProjectEntry>) -> Seq<char> {
    match v.selected_entry {
        None => v.root,
        Some(p) => match entry_kind_at(v.root, tree, p) {
            Some(EntryKind::Directory) => p,
            Some(_) => match parent(p) {
                Some(q) => if starts_with(q, v.root) { q } else { v.root },
                None => v.root,
            },
            None => v.root,
        },
    }
}

impl ProjectState {
    /// The directory where a new file or folder of the project goes.
    pub fn selected_target_directory(&self, tree: &[ProjectEntry]) -> (r: String)
        ensures
            r@ == target_directory(self@, tree@),
    {
        let root = self.root();
        let path = match self.selected_entry() {
            None => return root.to_owned(),
            Some(p) => p.as_str(),
        };
        let kind = if str_eq(path, root) { Some(EntryKind::Directory) } else { find_project_entry_kind(tree, path) };
        match kind {
            Some(EntryKind::Directory) => path.to_owned(),
            Some(_) => match path_parent(path) {
                Some(q) => if path_starts_with(q.as_str(), root) { q } else { root.to_owned() },
                None => root.to_owned(),
            },
            None => root.to_owned(),
        }
    }
}

/// A path that may be fixed as the document the preview follows: a Typst
/// file inside the project.
pub open spec fn fixable_main(root: Seq<char>, path: Seq<char>) -> bool {
    starts_with(path, root) && extension(path) == Some("typ"@)
}

/// The main document asked for, when it can be fixed; none otherwise.
pub open spec fn filtered_main(root: Seq<char>, main: Option<Seq<char>>) -> Option<Seq<char>> {
    match main {
        Some(p) => if fixable_main(root, p) { Some(p) } else { None },
        None => None,
    }
}

/// The expanded directories, in order, that the tree `entries` still holds
/// as directories (the root always stays).
pub open spec fn kept_directories(s: Seq<Seq<char>>, root: Seq<char>, entries: Seq<ProjectEntry>) -> Seq<Seq<char>>
    decreases s.len(),
{
    if s.len() == 0 {
        Seq::empty()
    } else {
        let before = kept_directories(s.drop_last(), root, entries);
        let p = s.last();
        if p == root || tree_contains(entries, p, Some(EntryKind::Directory)) { before.push(p) } else { before }
    }
}

proof fn lemma_kept_directories(s: Seq<Seq<char>>, root: Seq<char>, entries: Seq<ProjectEntry>)
    ensures
        forall|y: Seq<char>| #[trigger] kept_directories(s, root, entries).contains(y) <==>
            s.contains(y) && (y == root || tree_contains(entries, y, Some(EntryKind::Directory))),
        s.no_duplicates() ==> kept_directories(s, root, entries).no_duplicates(),
    decreases s.len(),
{
    if s.len() > 0 {
        let before = s.drop_last();
        lemma_kept_directories(before, root, entries);
        let k = kept_directories(s, root, entries);
        let kb = kept_directories(before, root, entries);
        let p = s.last();
        assert forall|y: Seq<char>| #[trigger] k.contains(y) <==>
            s.contains(y) && (y == root || tree_contains(entries, y, Some(EntryKind::Directory))) by {
            if k.contains(y) {
                let i = k.index_of(y);
                if i < kb.len() {
                    assert(kb[i] == y);
                    assert(kb.contains(y));
                    let j = before.index_of(y);
                    assert(s[j] == y);
                } else {
                    assert(s[s.len() - 1] == y);
                }
            }
            if s.contains(y) && (y == root || tree_contains(entries, y, Some(EntryKind::Directory))) {
                let j = s.index_of(y);
                if j < s.len() - 1 {
                    assert(before[j] == y);
                    assert(before.contains(y));
                    assert(kb.contains(y));
                    let i = kb.index_of(y);
                    assert(kb[i] == y);
                    assert(k[i] == kb[i]);
                } else {
                    assert(k[k.len() - 1] == y);
                }
            }
        }
        if s.no_duplicates() {
            assert(before.no_duplicates()) by {
                assert forall|i: int, j: int| 0 <= i < before.len() && 0 <= j < before.len() && i != j implies before[i] != before[j] by {
                    assert(before[i] == s[i] && before[j] == s[j]);
                }
            }
            assert(!before.contains(p)) by {
                if before.contains(p) {
                    let j = before.index_of(p);
                    assert(s[j] == s[s.len() - 1]);
                }
            }
            assert forall|i: int, j: int| 0 <= i < k.len() && 0 <= j < k.len() && i != j implies k[i] != k[j] by {
                if i < kb.len() && j < kb.len() {
                    assert(k[i] == kb[i] && k[j] == kb[j]);
                } else if i < kb.len() {
                    assert(k[i] == kb[i]);
                    assert(kb.contains(kb[i]));
                } else {
                    assert(k[j] == kb[j]);
                    assert(kb.contains(kb[j]));
                }
            }
        }
    }
}

/// Whether the paths that the project side holds on to still exist on disk,
/// as the application found them.
pub struct StillOnDisk {
    pub selected_entry: bool,
    pub selected_file: bool,
    pub project_main: bool,
    pub context_entry: bool,
}

/// How the project side took a finished scan of the project folder.
#[derive(Debug)]
pub enum ScanReaction {
    /// The scan was of another folder, started before the project changed.
    Stale,
    /// The scan failed; the message for the status bar.
    Failed(String),
    /// The new tree was taken in: the message about the main document when
    /// it changed, and whether the open context menu lost its entry.
    Applied { status: Option<String>, close_context_menu: bool },
}

/// The project side after a successful scan, and the message about the main
/// document when it changed. A selection, or the fixed main document, that
/// the scan did not find and that is gone from disk is dropped; expanded
/// directories that are no longer directories are collapsed; after a folder
/// was opened, the project's "main.typ" becomes the main document if none is
/// fixed, and later scans no longer look for it.
pub open spec fn scanned(v: ProjectStateView, snapshot: ProjectSnapshot, disk: StillOnDisk)
    -> (ProjectStateView, Option<Seq<char>>)
{
    let detect_main = v.detect_main;
    let files = strings_view(snapshot.typst_files@);
    let entry = match v.selected_entry {
        Some(e) => if !tree_contains(snapshot.entries@, e, None) && !disk.selected_entry { None } else { Some(e) },
        None => None,
    };
    let file = match v.selected_file {
        Some(f) => if !files.contains(f) && !disk.selected_file { None } else { Some(f) },
        None => None,
    };
    let expanded = v.expanded.filter(|p: Seq<char>| p == v.root || tree_contains(snapshot.entries@, p, Some(EntryKind::Directory)));
    let missing_main = match v.project_main {
        Some(m) => !files.contains(m) && !disk.project_main,
        None => false,
    };
    let candidate = join(v.root, "main.typ"@);
    let kept = ProjectStateView { selected_entry: entry, selected_file: file, expanded, detect_main: false, ..v };
    if missing_main {
        (ProjectStateView { project_main: None, ..kept }, Some("O arquivo principal não existe mais; usando a aba ativa"@))
    } else if detect_main && v.project_main is None && files.contains(candidate) && fixable_main(v.root, candidate) {
        (ProjectStateView { project_main: Some(candidate), ..kept }, Some("main.typ detectado como documento principal"@))
    } else {
        (kept, None)
    }
}

/// Whether an open context menu loses its entry with the scan: an entry
/// other than the root that the scan did not find and that is gone from disk.
pub open spec fn context_entry_lost(root: Seq<char>, snapshot: ProjectSnapshot, path: Seq<char>, on_disk: bool) -> bool {
    path != root && !tree_contains(snapshot.entries@, path, None) && !on_disk
}

fn list_contains(list: &Vec<String>, item: &str) -> (r: bool)
    ensures
        r == strings_view(list@).contains(item@),
{
    position_of(list, item).is_some()
}

impl ProjectState {
    /// Fixes `main` as the document the preview follows when it is a Typst
    /// file of the project (anything else counts as none); reports whether
    /// the main document changed.
    pub fn update_project_main(&mut self, main: Option<String>) -> (changed: bool)
        ensures
            final(self).wf() == old(self).wf(),
            final(self)@ == (ProjectStateView {
                project_main: filtered_main(old(self)@.root, opt_view(main)),
                ..old(self)@
            }),
            changed == (filtered_main(old(self)@.root, opt_view(main)) != old(self)@.project_main),
    {
        let main = match main {
            Some(p) => {
                let typ = match path_extension(p.as_str()) {
                    Some(e) => str_eq(e.as_str(), "typ"),
                    None => false,
                };
                if typ && path_starts_with(p.as_str(), self.root.as_str()) { Some(p) } else { None }
            },
            None => None,
        };
        let changed = match (&main, &self.project_main) {
            (None, None) => false,
            (Some(a), Some(b)) => !str_eq(a.as_str(), b.as_str()),
            _ => true,
        };
        self.project_main = main;
        changed
    }

    /// Takes in a finished scan of the project folder: one of another folder
    /// is ignored, a failed one only reported; `disk` tells which held paths
    /// still exist, and `context_entry` is the entry of an open context menu.
    pub fn apply_scan(&mut self, outcome: &ScanOutcome, disk: StillOnDisk, context_entry: Option<&str>)
        -> (r: ScanReaction)
        requires
            old(self).wf(),
        ensures
            final(self).wf(),
            outcome.root@ != old(self)@.root ==> r is Stale && final(self)@ == old(self)@,
            outcome.root@ == old(self)@.root ==> match outcome.snapshot {
                Err(e) => final(self)@ == old(self)@ && (r matches ScanReaction::Failed(m) && m@ == "Erro no projeto: "@ + e@),
                Ok(snapshot) => {
                    let (after, status) = scanned(old(self)@, snapshot, disk);
                    &&& final(self)@ == after
                    &&& r matches ScanReaction::Applied { status: s, close_context_menu }
                    &&& opt_view(s) == status
                    &&& close_context_menu == match context_entry {
                        Some(p) => context_entry_lost(old(self)@.root, snapshot, p@, disk.context_entry),
                        None => false,
                    }
                },
            },
    {
        if !str_eq(outcome.root.as_str(), self.root.as_str()) {
            return ScanReaction::Stale;
        }
        let snapshot = match &outcome.snapshot {
            Err(e) => {
                let mut m = String::new();
                push_str(&mut m, "Erro no projeto: ");
                push_str(&mut m, e.as_str());
                return ScanReaction::Failed(m);
            },
            Ok(snapshot) => snapshot,
        };
        let ghost v = self@;
        let close_context_menu = match context_entry {
            Some(p) => !str_eq(p, self.root.as_str()) && !snapshot.contains_path(p) && !disk.context_entry,
            None => false,
        };
        let drop_entry = match &self.selected_entry {
            Some(e) => !snapshot.contains_path(e.as_str()) && !disk.selected_entry,
            None => false,
        };
        if drop_entry {
            self.selected_entry = None;
        }
        let drop_file = match &self.selected_file {
            Some(f) => !list_contains(&snapshot.typst_files, f.as_str()) && !disk.selected_file,
            None => false,
        };
        if drop_file {
            self.selected_file = None;
        }
        let missing_main = match &self.project_main {
            Some(m) => !list_contains(&snapshot.typst_files, m.as_str()) && !disk.project_main,
            None => false,
        };
        let candidate = path_join(self.root.as_str(), "main.typ");
        let detected = self.detect_main && self.project_main.is_none() && list_contains(&snapshot.typst_files, candidate.as_str());
        self.detect_main = false;
        let ghost listed = strings_view(self.expanded@);
        let mut kept: Vec<String> = Vec::new();
        let mut i: usize = 0;
        while i < self.expanded.len()
            invariant
                listed == strings_view(self.expanded@),
                i <= self.expanded@.len(),
                strings_view(kept@) == kept_directories(listed.take(i as int), v.root, snapshot.entries@),
                self.root@ == v.root,
            decreases self.expanded@.len() - i,
        {
            proof { assert(listed.take(i + 1).drop_last() =~= listed.take(i as int)); }
            let p = &self.expanded[i];
            if str_eq(p.as_str(), self.root.as_str()) || snapshot.contains_directory(p.as_str()) {
                let ghost before = kept@;
                kept.push(p.clone());
                proof { assert(strings_view(kept@) =~= strings_view(before).push(listed[i as int])); }
            }
            i = i + 1;
        }
        proof {
            assert(listed.take(listed.len() as int) =~= listed);
            lemma_kept_directories(listed, v.root, snapshot.entries@);
            assert(strings_view(kept@).to_set() =~= v.expanded.filter(
                |p: Seq<char>| p == v.root || tree_contains(snapshot.entries@, p, Some(EntryKind::Directory))));
        }
        self.expanded = kept;
        let status = if missing_main {
            self.update_project_main(None);
            Some("O arquivo principal não existe mais; usando a aba ativa".to_owned())
        } else if detected {
            if self.update_project_main(Some(candidate)) {
                Some("main.typ detectado como documento principal".to_owned())
            } else {
                None
            }
        } else {
            None
        };
        ScanReaction::Applied { status, close_context_menu }
    }
}

/// Takes `item` out of a list of distinct paths.
fn remove_unique(list: &mut Vec<String>, item: &str)
    requires
        strings_view(old(list)@).no_duplicates(),
    ensures
        strings_view(final(list)@).no_duplicates(),
        strings_view(final(list)@).to_set() == strings_view(old(list)@).to_set().remove(item@),
{
    let ghost before = strings_view(list@);
    match position_of(list, item) {
        None => {
            proof { assert(before.to_set().remove(item@) =~= before.to_set()); }
        },
        Some(i) => {
            list.remove(i);
            proof {
                let after = strings_view(list@);
                assert(after =~= before.remove(i as int));
                assert forall|a: int, b: int| 0 <= a < after.len() && 0 <= b < after.len() && a != b implies after[a] != after[b] by {
                    let a2 = if a < i { a } else { a + 1 };
                    let b2 = if b < i { b } else { b + 1 };
                    assert(after[a] == before[a2] && after[b] == before[b2]);
                }
                assert forall|y: Seq<char>| after.to_set().contains(y) <==> before.to_set().remove(item@).contains(y) by {
                    if after.contains(y) {
                        let k = after.index_of(y);
                        let k2 = if k < i { k } else { k + 1 };
                        assert(before[k2] == y);
                        assert(k2 != i);
                        assert(before[i as int] == item@);
                        assert(before[k2] != before[i as int]);
                    }
                    if before.contains(y) && y != item@ {
                        let k = before.index_of(y);
                        assert(k != i);
                        if k < i {
                            assert(after[k] == y);
                        } else {
                            assert(after[k - 1] == y);
                        }
                    }
                }
                assert(after.to_set() =~= before.to_set().remove(item@));
            }
        },
    }
}

impl ProjectState {
    /// Marks `file` as the selected file of the tree, or none.
    pub fn set_selected_file(&mut self, file: Option<String>)
        ensures
            final(self).wf() == old(self).wf(),
            final(self)@ == (ProjectStateView { selected_file: opt_view(file), ..old(self)@ }),
    {
        self.selected_file = file;
    }

    /// Expands `directory` when it is collapsed and collapses it when it is
    /// expanded; reports whether it is expanded now.
    pub fn toggle_expanded(&mut self, directory: &str) -> (expanded: bool)
        requires
            old(self).wf(),
        ensures
            final(self).wf(),
            expanded == !old(self)@.expanded.contains(directory@),
            final(self)@ == (ProjectStateView {
                expanded: if expanded {
                    old(self)@.expanded.insert(directory@)
                } else {
                    old(self)@.expanded.remove(directory@)
                },
                ..old(self)@
            }),
    {
        if self.is_expanded(directory) {
            remove_unique(&mut self.expanded, directory);
            false
        } else {
            insert_unique(&mut self.expanded, directory);
            true
        }
    }
}

impl ProjectState {
    /// Whether the next scan looks for the project's "main.typ".
    pub fn detect_main(&self) -> (r: bool)
        ensures
            r == self@.detect_main,
    {
        self.detect_main
    }

    /// Makes the folder `root` the project: a different folder forgets the
    /// fixed main document; only the root is expanded, nothing is selected,
    /// and the next scan looks for the project's "main.typ". Returns the
    /// status message.
    pub fn open_folder(&mut self, root: String) -> (status: String)
        ensures
            final(self).wf(),
            final(self)@ == (ProjectStateView {
                root: root@,
                project_main: if root@ == old(self)@.root { old(self)@.project_main } else { None },
                expanded: set![root@],
                selected_entry: None,
                selected_file: None,
                detect_main: true,
            }),
            status@ == "Projeto aberto: "@ + root@,
    {
        if !str_eq(root.as_str(), self.root.as_str()) {
            self.project_main = None;
        }
        let mut status = String::new();
        push_str(&mut status, "Projeto aberto: ");
        push_str(&mut status, root.as_str());
        let mut expanded: Vec<String> = Vec::new();
        expanded.push(root.clone());
        proof {
            assert(strings_view(expanded@) =~= seq![root@]);
            assert(seq![root@][0] == root@);
            assert(seq![root@].to_set() =~= set![root@]);
        }
        self.expanded = expanded;
        self.root = root;
        self.selected_entry = None;
        self.selected_file = None;
        self.detect_main = true;
        status
    }
}

} // verus!
