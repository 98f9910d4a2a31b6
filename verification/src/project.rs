//! The project tree: its entries, what they contain, and the rules for
//! naming, placing and remapping project files.
use vstd::prelude::*;
use crate::paths::{
    parent, path_parent, extension, file_name, join, path_extension, path_file_name, path_join, path_set_extension,
    path_starts_with, path_strip_prefix, set_extension, starts_with, strip_prefix,
};
use crate::text::{str_eq, strings_view};
use crate::sorting::{Ordered, sorted, sort_stable, sort_paths, path_less, paths_less, lemma_path_less,
    text_less, texts_less, lemma_text_less, lemma_map_same_elements};

verus! {

/// What a project entry is.
#[derive(Debug, Clone, Copy, PartialEq, Eq, Structural)]
pub enum EntryKind {
    Directory,
    TypstFile,
    File,
}

/// A file or directory of the project, with the entries of a directory below it.
#[derive(Debug, PartialEq, Eq)]
pub struct ProjectEntry {
    pub path: String,
    pub kind: EntryKind,
    pub children: Vec<ProjectEntry>,
}

/// The project tree and the Typst files it holds.
#[derive(Debug, PartialEq, Eq)]
pub struct ProjectSnapshot {
    pub entries: Vec<ProjectEntry>,
    pub typst_files: Vec<String>,
}

/// The result of scanning the project folder `root`.
#[derive(Debug)]
pub struct ScanOutcome {
    pub root: String,
    pub snapshot: Result<ProjectSnapshot, String>,
}

/// The result of a file operation in the project.
#[derive(Debug, Clone)]
pub enum OperationOutcome {
    Cancelled,
    Created { path: String, kind: EntryKind },
    Renamed { from: String, to: String, kind: EntryKind },
    Deleted { path: String, kind: EntryKind },
    Failed(String),
}

/// True when an entry is `path` (and of `kind`, when one is asked for).
pub open spec fn entry_is(e: ProjectEntry, path: Seq<char>, kind: Option<EntryKind>) -> bool {
    e.path@ == path && match kind {
        None => true,
        Some(k) => e.kind == k,
    }
}

/// True when the tree `entries` holds `path` at any depth.
pub open spec fn tree_contains(entries: Seq<ProjectEntry>, path: Seq<char>, kind: Option<EntryKind>) -> bool
    decreases entries,
{
    if entries.len() == 0 {
        false
    } else {
        let first = entries[0];
        entry_is(first, path, kind) || tree_contains(first.children@, path, kind)
            || tree_contains(entries.drop_first(), path, kind)
    }
}

fn same_kind(a: EntryKind, b: EntryKind) -> (r: bool)
    ensures
        r == (a == b),
{
    match (a, b) {
        (EntryKind::Directory, EntryKind::Directory) => true,
        (EntryKind::TypstFile, EntryKind::TypstFile) => true,
        (EntryKind::File, EntryKind::File) => true,
        _ => false,
    }
}

fn contains_entry(entries: &[ProjectEntry], path: &str, kind: Option<EntryKind>) -> (r: bool)
    ensures
        r == tree_contains(entries@, path@, kind),
    decreases entries@,
{
    let mut i = entries.len();
    let mut found = false;
    // walk from the last entry to the first, so that each step adds one entry in front
    while i > 0
        invariant
            i <= entries@.len(),
            found == tree_contains(entries@.skip(i as int), path@, kind),
        decreases i,
    {
        let entry = &entries[i - 1];
        let here = str_eq(entry.path.as_str(), path) && match kind {
            None => true,
            Some(k) => same_kind(entry.kind, k),
        };
        proof {
            assert(decreases_to!(entries@ => entries@[i - 1]));
        }
        let below = contains_entry(entry.children.as_slice(), path, kind);
        proof {
            let s = entries@.skip(i - 1);
            assert(s[0] == entries@[i - 1]);
            assert(s.drop_first() =~= entries@.skip(i as int));
        }
        found = here || below || found;
        i = i - 1;
    }
    proof { assert(entries@.skip(0) =~= entries@); }
    found
}

impl ProjectSnapshot {
    /// True when the project holds `path`.
    pub fn contains_path(&self, path: &str) -> (r: bool)
        ensures
            r == tree_contains(self.entries@, path@, None),
    {
        contains_entry(self.entries.as_slice(), path, None)
    }

    /// True when the project holds the directory `path`.
    pub fn contains_directory(&self, path: &str) -> (r: bool)
        ensures
            r == tree_contains(self.entries@, path@, Some(EntryKind::Directory)),
    {
        contains_entry(self.entries.as_slice(), path, Some(EntryKind::Directory))
    }
}

/// A path that names a Typst file: without an extension (or with an empty
/// one) it gets ".typ".
pub open spec fn typst_path(p: Seq<char>) -> Seq<char> {
    match extension(p) {
        Some(e) => if e.len() == 0 { set_extension(p, "typ"@) } else { p },
        None => set_extension(p, "typ"@),
    }
}

/// Adds the Typst extension to a path that has none.
pub fn with_typst_extension(path: &str) -> (r: String)
    ensures
        r@ == typst_path(path@),
{
    match path_extension(path) {
        Some(e) => {
            if e.as_str().is_empty() {
                path_set_extension(path, "typ")
            } else {
                path.to_owned()
            }
        },
        None => path_set_extension(path, "typ"),
    }
}

/// The directory in which new entries are created: `directory` when it
/// exists inside the project, else the project root.
pub fn project_directory(root: &str, directory: String, directory_exists: bool) -> (r: String)
    ensures
        r@ == if starts_with(directory@, root@) && directory_exists { directory@ } else { root@ },
{
    if path_starts_with(directory.as_str(), root) && directory_exists {
        directory
    } else {
        root.to_owned()
    }
}

/// Name proposed for an entry whose path has no file name.
pub fn entry_fallback_name(kind: EntryKind) -> (r: &'static str)
    ensures
        r@ == match kind {
            EntryKind::Directory => "pasta"@,
            EntryKind::TypstFile => "documento.typ"@,
            EntryKind::File => "arquivo"@,
        },
{
    match kind {
        EntryKind::Directory => "pasta",
        EntryKind::TypstFile => "documento.typ",
        EntryKind::File => "arquivo",
    }
}

/// Title of the dialog that renames an entry of `kind`.
pub fn rename_dialog_title(kind: EntryKind) -> (r: &'static str)
    ensures
        r@ == match kind {
            EntryKind::Directory => "Renomear pasta do projeto"@,
            EntryKind::TypstFile => "Renomear arquivo Typst"@,
            EntryKind::File => "Renomear arquivo do projeto"@,
        },
{
    match kind {
        EntryKind::Directory => "Renomear pasta do projeto",
        EntryKind::TypstFile => "Renomear arquivo Typst",
        EntryKind::File => "Renomear arquivo do projeto",
    }
}

/// Directories that the project tree leaves out: version control, build
/// output and hidden directories.
pub open spec fn ignored_directory(p: Seq<char>) -> bool {
    let name = match file_name(p) {
        Some(n) => n,
        None => Seq::empty(),
    };
    name == ".git"@ || name == "target"@ || name == "out"@ || (name.len() > 0 && name[0] == '.')
}

/// True for directories that the project tree leaves out.
pub fn should_ignore_directory(path: &str) -> (r: bool)
    ensures
        r == ignored_directory(path@),
{
    let name = match path_file_name(path) {
        Some(n) => n,
        None => String::new(),
    };
    let chars = crate::text::to_chars(name.as_str());
    str_eq(name.as_str(), ".git") || str_eq(name.as_str(), "target") || str_eq(name.as_str(), "out")
        || (chars.len() > 0 && chars[0] == '.')
}

/// Directories come before files in the tree.
pub fn entry_rank(kind: EntryKind) -> (r: u8)
    ensures
        r == match kind {
            EntryKind::Directory => 0u8,
            _ => 1u8,
        },
{
    match kind {
        EntryKind::Directory => 0,
        EntryKind::TypstFile | EntryKind::File => 1,
    }
}

/// The kind of the first entry at `path`, looking at each entry before the
/// entries below it and before the entries after it.
pub open spec fn kind_of(entries: Seq<ProjectEntry>, path: Seq<char>) -> Option<EntryKind>
    decreases entries,
{
    if entries.len() == 0 {
        None
    } else {
        match kind_of(entries.drop_last(), path) {
            Some(k) => Some(k),
            None => {
                let last = entries.last();
                if last.path@ == path {
                    Some(last.kind)
                } else {
                    kind_of(last.children@, path)
                }
            },
        }
    }
}

/// The kind of the entry at `path` in the tree, if there is one.
pub fn find_project_entry_kind(entries: &[ProjectEntry], path: &str) -> (r: Option<EntryKind>)
    ensures
        r == kind_of(entries@, path@),
    decreases entries@,
{
    let mut i: usize = 0;
    proof { assert(entries@.take(0) =~= Seq::<ProjectEntry>::empty()); }
    while i < entries.len()
        invariant
            i <= entries@.len(),
            kind_of(entries@.take(i as int), path@) is None,
        decreases entries@.len() - i,
    {
        let entry = &entries[i];
        proof {
            assert(entries@.take(i + 1).drop_last() =~= entries@.take(i as int));
            assert(entries@.take(i + 1).last() == entries@[i as int]);
            assert(decreases_to!(entries@ => entries@[i as int]));
        }
        if str_eq(entry.path.as_str(), path) {
            proof { lemma_kind_of_prefix(entries@, i + 1, path@); }
            return Some(entry.kind);
        }
        let below = find_project_entry_kind(entry.children.as_slice(), path);
        if below.is_some() {
            proof { lemma_kind_of_prefix(entries@, i + 1, path@); }
            return below;
        }
        i = i + 1;
    }
    proof { assert(entries@.take(entries@.len() as int) =~= entries@); }
    None
}

/// Once found in a prefix, the kind of an entry is found in the whole tree.
proof fn lemma_kind_of_prefix(entries: Seq<ProjectEntry>, i: int, path: Seq<char>)
    requires
        0 <= i <= entries.len(),
        kind_of(entries.take(i), path) is Some,
    ensures
        kind_of(entries, path) == kind_of(entries.take(i), path),
    decreases entries.len() - i,
{
    if i < entries.len() {
        assert(entries.take(i + 1).drop_last() =~= entries.take(i));
        lemma_kind_of_prefix(entries, i + 1, path);
    } else {
        assert(entries.take(i) =~= entries);
    }
}

/// True when `candidate` is the entry itself, or lies below it when the entry is a directory.
pub open spec fn entry_covers(entry: Seq<char>, kind: EntryKind, candidate: Seq<char>) -> bool {
    if kind == EntryKind::Directory {
        starts_with(candidate, entry)
    } else {
        candidate == entry
    }
}

/// True when `candidate` is the entry `entry` or lies inside it.
pub fn project_entry_contains_path(entry: &str, kind: EntryKind, candidate: &str) -> (r: bool)
    ensures
        r == entry_covers(entry@, kind, candidate@),
{
    match kind {
        EntryKind::Directory => path_starts_with(candidate, entry),
        _ => str_eq(candidate, entry),
    }
}

/// The files of the tree (every entry that is not a directory), in tree order.
pub open spec fn files_of(entries: Seq<ProjectEntry>) -> Seq<Seq<char>>
    decreases entries,
{
    if entries.len() == 0 {
        Seq::empty()
    } else {
        let last = entries.last();
        files_of(entries.drop_last()) + if last.kind == EntryKind::Directory {
            files_of(last.children@)
        } else {
            seq![last.path@]
        }
    }
}


/// Lists the files of the tree.
pub fn collect_project_files(entries: &[ProjectEntry]) -> (r: Vec<String>)
    ensures
        strings_view(r@) == files_of(entries@),
    decreases entries@,
{
    let mut files: Vec<String> = Vec::new();
    let mut i: usize = 0;
    proof { assert(entries@.take(0) =~= Seq::<ProjectEntry>::empty()); }
    while i < entries.len()
        invariant
            i <= entries@.len(),
            strings_view(files@) == files_of(entries@.take(i as int)),
        decreases entries@.len() - i,
    {
        let entry = &entries[i];
        proof {
            assert(entries@.take(i + 1).drop_last() =~= entries@.take(i as int));
            assert(entries@.take(i + 1).last() == entries@[i as int]);
            assert(decreases_to!(entries@ => entries@[i as int]));
        }
        let ghost before = strings_view(files@);
        if same_kind(entry.kind, EntryKind::Directory) {
            let mut below = collect_project_files(entry.children.as_slice());
            let ghost added = strings_view(below@);
            files.append(&mut below);
            assert(strings_view(files@) =~= before + added);
        } else {
            files.push(entry.path.clone());
            assert(strings_view(files@) =~= before + seq![entry.path@]);
        }
        i = i + 1;
    }
    proof { assert(entries@.take(entries@.len() as int) =~= entries@); }
    files
}

/// The entries shown in the tree, in order: each entry, followed by the
/// entries of a directory when that directory is expanded.
pub open spec fn visible_entries(entries: Seq<ProjectEntry>, expanded: Seq<Seq<char>>) -> Seq<(Seq<char>, EntryKind)>
    decreases entries,
{
    if entries.len() == 0 {
        Seq::empty()
    } else {
        let last = entries.last();
        visible_entries(entries.drop_last(), expanded) + seq![(last.path@, last.kind)] + if last.kind
            == EntryKind::Directory && expanded.contains(last.path@) {
            visible_entries(last.children@, expanded)
        } else {
            Seq::empty()
        }
    }
}

/// Paths with their kinds, the paths as characters.
pub open spec fn pairs_view(v: Seq<(String, EntryKind)>) -> Seq<(Seq<char>, EntryKind)> {
    v.map_values(|p: (String, EntryKind)| (p.0@, p.1))
}

fn contains_string(list: &[String], s: &str) -> (r: bool)
    ensures
        r == strings_view(list@).contains(s@),
{
    let mut i: usize = 0;
    while i < list.len()
        invariant
            i <= list@.len(),
            forall|j: int| 0 <= j < i ==> list@[j]@ != s@,
        decreases list@.len() - i,
    {
        if str_eq(list[i].as_str(), s) {
            assert(strings_view(list@)[i as int] == s@);
            return true;
        }
        i = i + 1;
    }
    proof {
        if strings_view(list@).contains(s@) {
            let j = choose|j: int| 0 <= j < strings_view(list@).len() && strings_view(list@)[j] == s@;
            assert(list@[j]@ == s@);
        }
    }
    false
}

/// Appends the visible entries of the tree to `target`.
pub fn append_visible_project_entries(
    source: &[ProjectEntry],
    expanded: &[String],
    target: &mut Vec<(String, EntryKind)>,
)
    ensures
        pairs_view(final(target)@) == pairs_view(old(target)@) + visible_entries(source@, strings_view(expanded@)),
    decreases source@,
{
    let ghost start = pairs_view(target@);
    let mut i: usize = 0;
    proof {
        assert(source@.take(0) =~= Seq::<ProjectEntry>::empty());
        assert(start + Seq::<(Seq<char>, EntryKind)>::empty() =~= start);
    }
    while i < source.len()
        invariant
            i <= source@.len(),
            pairs_view(target@) == start + visible_entries(source@.take(i as int), strings_view(expanded@)),
        decreases source@.len() - i,
    {
        let entry = &source[i];
        proof {
            assert(source@.take(i + 1).drop_last() =~= source@.take(i as int));
            assert(source@.take(i + 1).last() == source@[i as int]);
            assert(decreases_to!(source@ => source@[i as int]));
        }
        let ghost before = pairs_view(target@);
        target.push((entry.path.clone(), entry.kind));
        assert(pairs_view(target@) =~= before + seq![(entry.path@, entry.kind)]);
        let ghost middle = pairs_view(target@);
        if same_kind(entry.kind, EntryKind::Directory) && contains_string(expanded, entry.path.as_str()) {
            append_visible_project_entries(entry.children.as_slice(), expanded, target);
        } else {
            assert(middle + Seq::<(Seq<char>, EntryKind)>::empty() =~= middle);
        }
        proof {
            let vis = visible_entries(source@.take(i + 1), strings_view(expanded@));
            assert(pairs_view(target@) =~= start + vis);
        }
        i = i + 1;
    }
    proof { assert(source@.take(source@.len() as int) =~= source@); }
}

/// Where `path` ends up when the entry `from` (of `kind`) becomes `to`:
/// paths below a renamed directory move with it (the directory itself
/// becomes `to`); a renamed file moves to `to`; other paths are not
/// affected.
pub open spec fn remapped(p: Seq<char>, from: Seq<char>, to: Seq<char>, kind: EntryKind) -> Option<Seq<char>> {
    if !entry_covers(from, kind, p) {
        None
    } else if kind == EntryKind::Directory {
        match strip_prefix(p, from) {
            Some(suffix) => if suffix.len() == 0 { Some(to) } else { Some(join(to, suffix)) },
            None => None,
        }
    } else {
        Some(to)
    }
}

/// The new path of `path` after the entry `from` was renamed to `to`.
pub fn remap_project_path(path: &str, from: &str, to: &str, kind: EntryKind) -> (r: Option<String>)
    ensures
        match r {
            None => remapped(path@, from@, to@, kind) is None,
            Some(s) => remapped(path@, from@, to@, kind) == Some(s@),
        },
{
    if !project_entry_contains_path(from, kind, path) {
        return None;
    }
    if same_kind(kind, EntryKind::Directory) {
        match path_strip_prefix(path, from) {
            Some(suffix) => if suffix.as_str().is_empty() {
                Some(to.to_owned())
            } else {
                Some(path_join(to, suffix.as_str()))
            },
            None => None,
        }
    } else {
        Some(to.to_owned())
    }
}

/// The kind of a scanned path: a directory, a Typst file (extension
/// "typ") or another file.
pub open spec fn scanned_kind(path: Seq<char>, is_dir: bool) -> EntryKind {
    if is_dir {
        EntryKind::Directory
    } else if extension(path) == Some("typ"@) {
        EntryKind::TypstFile
    } else {
        EntryKind::File
    }
}

/// The kind of the entry found at `path`.
pub fn entry_kind_of(path: &str, is_dir: bool) -> (r: EntryKind)
    ensures
        r == scanned_kind(path@, is_dir),
{
    if is_dir {
        return EntryKind::Directory;
    }
    match path_extension(path) {
        Some(e) => {
            if str_eq(e.as_str(), "typ") {
                EntryKind::TypstFile
            } else {
                EntryKind::File
            }
        },
        None => EntryKind::File,
    }
}

/// Lowercase mapping of each character, as Unicode defines it.
pub uninterp spec fn unicode_lowercase(text: Seq<char>) -> Seq<char>;

/// `str::to_lowercase`.
#[verifier::external_body]
fn to_lowercase(text: &str) -> (r: String)
    ensures
        r@ == unicode_lowercase(text@),
{
    text.to_lowercase()
}

/// The name by which entries are ordered: their file name, lowercased.
pub open spec fn sort_name(path: Seq<char>) -> Seq<char> {
    unicode_lowercase(match file_name(path) {
        Some(n) => n,
        None => Seq::empty(),
    })
}

/// Directories come before files.
pub open spec fn rank_of(kind: EntryKind) -> int {
    if kind == EntryKind::Directory { 0 } else { 1 }
}

/// The order of the entries of a directory: directories first, then by
/// lowercased name, then by path.
pub open spec fn entry_before(a: ProjectEntry, b: ProjectEntry) -> bool {
    let ra = rank_of(a.kind);
    let rb = rank_of(b.kind);
    let na = sort_name(a.path@);
    let nb = sort_name(b.path@);
    ra < rb || (ra == rb && (text_less(na, nb) || (na == nb && path_less(a.path@, b.path@))))
}

/// An entry with the key it is sorted by.
struct KeyedEntry {
    rank: u8,
    name: String,
    entry: ProjectEntry,
}

impl KeyedEntry {
    #[verifier::type_invariant]
    spec fn key_matches(&self) -> bool {
        &&& self.rank as int == rank_of(self.entry.kind)
        &&& self.name@ == sort_name(self.entry.path@)
    }

    /// The entry that the key belongs to.
    pub closed spec fn entry_of(&self) -> ProjectEntry {
        self.entry
    }

    fn new(entry: ProjectEntry) -> (r: Self)
        ensures
            r.entry_of() == entry,
    {
        let rank = entry_rank(entry.kind);
        let name = match path_file_name(entry.path.as_str()) {
            Some(n) => n,
            None => String::new(),
        };
        let name = to_lowercase(name.as_str());
        proof {
            assert(rank as int == rank_of(entry.kind));
        }
        KeyedEntry { rank, name, entry }
    }

    fn into_entry(self) -> (r: ProjectEntry)
        ensures
            r == self.entry_of(),
    {
        self.entry
    }
}

impl Ordered for KeyedEntry {
    open spec fn less(&self, other: &Self) -> bool {
        entry_before(self.entry_of(), other.entry_of())
    }

    fn exec_less(&self, other: &Self) -> (r: bool) {
        proof {
            use_type_invariant(self);
            use_type_invariant(other);
        }
        if self.rank != other.rank {
            return self.rank < other.rank;
        }
        if !str_eq(self.name.as_str(), other.name.as_str()) {
            return texts_less(self.name.as_str(), other.name.as_str());
        }
        proof {
            lemma_text_less(self.name@, self.name@, self.name@);
        }
        paths_less(self.entry.path.as_str(), other.entry.path.as_str())
    }

    proof fn lemma_strict_weak_order(a: &Self, b: &Self, c: &Self) {
        let (x, y, z) = (a.entry_of(), b.entry_of(), c.entry_of());
        lemma_text_less(sort_name(x.path@), sort_name(y.path@), sort_name(z.path@));
        lemma_text_less(sort_name(y.path@), sort_name(z.path@), sort_name(x.path@));
        lemma_text_less(sort_name(z.path@), sort_name(x.path@), sort_name(y.path@));
        lemma_text_less(sort_name(x.path@), sort_name(z.path@), sort_name(y.path@));
        lemma_text_less(sort_name(z.path@), sort_name(y.path@), sort_name(x.path@));
        lemma_text_less(sort_name(y.path@), sort_name(x.path@), sort_name(z.path@));
        lemma_path_less(x.path@, y.path@, z.path@);
        lemma_path_less(y.path@, z.path@, x.path@);
        lemma_path_less(z.path@, x.path@, y.path@);
        lemma_path_less(x.path@, z.path@, y.path@);
        lemma_path_less(z.path@, y.path@, x.path@);
        lemma_path_less(y.path@, x.path@, z.path@);
    }
}

/// Puts the entries of a directory in tree order (see `entry_before`).
pub fn sort_entries(entries: Vec<ProjectEntry>) -> (r: Vec<ProjectEntry>)
    ensures
        r@.to_multiset() == entries@.to_multiset(),
        forall|i: int, j: int| 0 <= i < j < r@.len() ==> !entry_before(#[trigger] r@[j], #[trigger] r@[i]),
{
    let ghost given = entries@;
    let mut rest = entries;
    let mut keyed: Vec<KeyedEntry> = Vec::new();
    let n = rest.len();
    let mut i: usize = 0;
    proof {
        assert(given.skip(0) =~= given);
        assert(keyed@.map_values(|k: KeyedEntry| k.entry_of()) =~= given.take(0));
    }
    while i < n
        invariant
            i <= n == given.len(),
            rest@ == given.skip(i as int),
            keyed@.map_values(|k: KeyedEntry| k.entry_of()) == given.take(i as int),
        decreases n - i,
    {
        let ghost before_rest = rest@;
        let e = rest.remove(0);
        proof {
            assert(rest@ =~= given.skip(i + 1));
            assert(before_rest[0] == given[i as int]);
        }
        let ghost before = keyed@;
        let k = KeyedEntry::new(e);
        let ghost ke = k.entry_of();
        keyed.push(k);
        proof {
            assert(ke == given[i as int]);
            assert(keyed@.last().entry_of() == ke);
            assert(keyed@.map_values(|k: KeyedEntry| k.entry_of()) =~= before.map_values(|k: KeyedEntry| k.entry_of()).push(ke));
            assert(given.take(i + 1) =~= given.take(i as int).push(given[i as int]));
        }
        i = i + 1;
    }
    proof {
        assert(given.take(n as int) =~= given);
    }
    let mut ordered = sort_stable(keyed);
    let ghost sk = ordered@;
    let mut out: Vec<ProjectEntry> = Vec::new();
    let m = ordered.len();
    let mut j: usize = 0;
    proof {
        assert(sk.skip(0) =~= sk);
        assert(out@ =~= sk.take(0).map_values(|k: KeyedEntry| k.entry_of()));
    }
    while j < m
        invariant
            j <= m == sk.len(),
            ordered@ == sk.skip(j as int),
            out@ == sk.take(j as int).map_values(|k: KeyedEntry| k.entry_of()),
        decreases m - j,
    {
        let k = ordered.remove(0);
        proof {
            assert(ordered@ =~= sk.skip(j + 1));
        }
        out.push(k.into_entry());
        proof {
            assert(out@ =~= sk.take(j + 1).map_values(|k: KeyedEntry| k.entry_of()));
        }
        j = j + 1;
    }
    proof {
        assert(sk.take(m as int) =~= sk);
        lemma_map_same_elements(sk, keyed@, |k: KeyedEntry| k.entry_of());
        assert forall|a: int, b: int| 0 <= a < b < out@.len() implies !entry_before(#[trigger] out@[b], #[trigger] out@[a]) by {
            assert(out@[a] == sk[a].entry_of());
            assert(out@[b] == sk[b].entry_of());
        }
    }
    out
}

/// An entry that the project tree keeps: anything but an ignored directory.
pub open spec fn kept_entry(e: ProjectEntry) -> bool {
    !(e.kind == EntryKind::Directory && ignored_directory(e.path@))
}

/// The tree `entries` holds `path` as an entry of `kind` that the project
/// tree keeps: reached without passing through an ignored directory.
pub open spec fn kept_contains(entries: Seq<ProjectEntry>, path: Seq<char>, kind: EntryKind) -> bool
    decreases entries,
{
    if entries.len() == 0 {
        false
    } else {
        let first = entries[0];
        (kept_entry(first) && (entry_is(first, path, Some(kind)) || kept_contains(first.children@, path, kind)))
            || kept_contains(entries.drop_first(), path, kind)
    }
}

/// The tree `b` holds exactly the entries that the project tree keeps of
/// the tree `a`, at whatever depth.
pub open spec fn same_members(a: Seq<ProjectEntry>, b: Seq<ProjectEntry>) -> bool {
    forall|path: Seq<char>, kind: EntryKind|
        #[trigger] tree_contains(b, path, Some(kind)) == kept_contains(a, path, kind)
}

/// How many entries of the listing `a` the project tree keeps.
pub open spec fn kept_count(a: Seq<ProjectEntry>) -> nat {
    a.filter(|e: ProjectEntry| kept_entry(e)).len()
}

/// Entry `i` of `a` is kept, and `e` is that entry with the same entries
/// below it, as the project tree keeps them.
pub open spec fn matched(a: Seq<ProjectEntry>, i: int, e: ProjectEntry) -> bool {
    &&& 0 <= i < a.len()
    &&& kept_entry(a[i])
    &&& a[i].path@ == e.path@
    &&& a[i].kind == e.kind
    &&& same_members(a[i].children@, e.children@)
}

/// `b` is the directory listing `a` as the project tree shows it: its kept
/// entries, each once, in some order, each with the entries below it that
/// the project tree keeps.
pub open spec fn rearranged(a: Seq<ProjectEntry>, b: Seq<ProjectEntry>) -> bool {
    &&& b.len() == kept_count(a)
    &&& forall|j: int| 0 <= j < b.len() ==> #[trigger] has_origin(a, b[j])
    &&& forall|i: int| 0 <= i < a.len() && kept_entry(a[i]) ==> #[trigger] has_image(a, i, b)
}

/// Some entry of `a` is `e` as the project tree keeps it.
pub open spec fn has_origin(a: Seq<ProjectEntry>, e: ProjectEntry) -> bool {
    exists|i: int| #[trigger] matched(a, i, e)
}

/// Entry `i` of `a` is, as the project tree keeps it, some entry of `b`.
pub open spec fn has_image(a: Seq<ProjectEntry>, i: int, b: Seq<ProjectEntry>) -> bool {
    exists|j: int| 0 <= j < b.len() && #[trigger] matched(a, i, b[j])
}

/// An entry of the tree, or an entry below it, is `path` of `kind`.
pub open spec fn hit(s: Seq<ProjectEntry>, i: int, path: Seq<char>, kind: EntryKind) -> bool {
    entry_is(s[i], path, Some(kind)) || tree_contains(s[i].children@, path, Some(kind))
}

/// A kept entry of the tree, or a kept entry below it, is `path` of `kind`.
pub open spec fn kept_hit(s: Seq<ProjectEntry>, i: int, path: Seq<char>, kind: EntryKind) -> bool {
    kept_entry(s[i]) && (entry_is(s[i], path, Some(kind)) || kept_contains(s[i].children@, path, kind))
}

/// A tree holds an entry when one of its top entries is it or holds it.
pub proof fn lemma_tree_contains_some(s: Seq<ProjectEntry>, path: Seq<char>, kind: EntryKind)
    ensures
        tree_contains(s, path, Some(kind)) <==> exists|i: int| 0 <= i < s.len() && #[trigger] hit(s, i, path, kind),
        kept_contains(s, path, kind) <==> exists|i: int| 0 <= i < s.len() && #[trigger] kept_hit(s, i, path, kind),
    decreases s.len(),
{
    if s.len() > 0 {
        let t = s.drop_first();
        lemma_tree_contains_some(t, path, kind);
        assert forall|i: int| 0 <= i < t.len() implies (hit(t, i, path, kind) == hit(s, i + 1, path, kind)
            && kept_hit(t, i, path, kind) == kept_hit(s, i + 1, path, kind)) by {
            assert(t[i] == s[i + 1]);
        }
        if tree_contains(s, path, Some(kind)) {
            if !hit(s, 0, path, kind) {
                let i = choose|i: int| 0 <= i < t.len() && #[trigger] hit(t, i, path, kind);
                assert(hit(s, i + 1, path, kind));
            }
        }
        if exists|i: int| 0 <= i < s.len() && #[trigger] hit(s, i, path, kind) {
            let i = choose|i: int| 0 <= i < s.len() && #[trigger] hit(s, i, path, kind);
            if i > 0 {
                assert(hit(t, i - 1, path, kind));
            }
        }
        if kept_contains(s, path, kind) {
            if !kept_hit(s, 0, path, kind) {
                let i = choose|i: int| 0 <= i < t.len() && #[trigger] kept_hit(t, i, path, kind);
                assert(kept_hit(s, i + 1, path, kind));
            }
        }
        if exists|i: int| 0 <= i < s.len() && #[trigger] kept_hit(s, i, path, kind) {
            let i = choose|i: int| 0 <= i < s.len() && #[trigger] kept_hit(s, i, path, kind);
            if i > 0 {
                assert(kept_hit(t, i - 1, path, kind));
            }
        }
    }
}

/// Every directory listing of the tree is in tree order (see `entry_before`).
pub open spec fn tree_ordered(entries: Seq<ProjectEntry>) -> bool
    decreases entries,
{
    &&& forall|i: int, j: int| 0 <= i < j < entries.len() ==> !entry_before(#[trigger] entries[j], #[trigger] entries[i])
    &&& forall|i: int| 0 <= i < entries.len() ==> tree_ordered(#[trigger] entries[i].children@)
}

/// The paths of the Typst files of the tree, in tree order.
pub open spec fn typst_files_of(entries: Seq<ProjectEntry>) -> Seq<Seq<char>>
    decreases entries,
{
    if entries.len() == 0 {
        Seq::empty()
    } else {
        let last = entries.last();
        typst_files_of(entries.drop_last()) + if last.kind == EntryKind::Directory {
            typst_files_of(last.children@)
        } else if last.kind == EntryKind::TypstFile {
            seq![last.path@]
        } else {
            Seq::empty()
        }
    }
}

/// Lists the Typst files of the tree, in tree order.
fn collect_typst_files(entries: &[ProjectEntry]) -> (r: Vec<String>)
    ensures
        strings_view(r@) == typst_files_of(entries@),
    decreases entries@,
{
    let mut files: Vec<String> = Vec::new();
    let mut i: usize = 0;
    proof { assert(entries@.take(0) =~= Seq::<ProjectEntry>::empty()); }
    while i < entries.len()
        invariant
            i <= entries@.len(),
            strings_view(files@) == typst_files_of(entries@.take(i as int)),
        decreases entries@.len() - i,
    {
        let entry = &entries[i];
        proof {
            assert(entries@.take(i + 1).drop_last() =~= entries@.take(i as int));
            assert(entries@.take(i + 1).last() == entries@[i as int]);
            assert(decreases_to!(entries@ => entries@[i as int]));
        }
        let ghost before = strings_view(files@);
        if same_kind(entry.kind, EntryKind::Directory) {
            let mut below = collect_typst_files(entry.children.as_slice());
            let ghost added = strings_view(below@);
            files.append(&mut below);
            assert(strings_view(files@) =~= before + added);
        } else if same_kind(entry.kind, EntryKind::TypstFile) {
            files.push(entry.path.clone());
            assert(strings_view(files@) =~= before + seq![entry.path@]);
        } else {
            assert(before + Seq::<Seq<char>>::empty() =~= before);
        }
        i = i + 1;
    }
    proof { assert(entries@.take(entries@.len() as int) =~= entries@); }
    files
}

/// Two sequences with the same elements, as many times each, have the same
/// length and each holds every element of the other.
proof fn lemma_same_elements(p: Seq<ProjectEntry>, r: Seq<ProjectEntry>)
    requires
        r.to_multiset() == p.to_multiset(),
    ensures
        r.len() == p.len(),
        forall|j: int| 0 <= j < r.len() ==> p.contains(#[trigger] r[j]),
        forall|k: int| 0 <= k < p.len() ==> r.contains(#[trigger] p[k]),
{
    broadcast use vstd::seq_lib::to_multiset_contains;
    vstd::seq_lib::to_multiset_len(r);
    vstd::seq_lib::to_multiset_len(p);
    assert forall|j: int| 0 <= j < r.len() implies p.contains(#[trigger] r[j]) by {
        assert(r.to_multiset().count(r[j]) > 0);
    }
    assert forall|k: int| 0 <= k < p.len() implies r.contains(#[trigger] p[k]) by {
        assert(p.to_multiset().count(p[k]) > 0);
    }
}

/// The scanned listing holds, at every depth, the entries that the project
/// tree keeps of `a`.
proof fn lemma_scanned_members(a: Seq<ProjectEntry>, p: Seq<ProjectEntry>, origin: Seq<int>, r: Seq<ProjectEntry>)
    requires
        p.len() == origin.len(),
        forall|k: int| 0 <= k < origin.len() ==> 0 <= #[trigger] origin[k] < a.len() && matched(a, origin[k], p[k]),
        forall|x: int| 0 <= x < a.len() && kept_entry(a[x]) ==> exists|k: int| 0 <= k < origin.len() && #[trigger] origin[k] == x,
        forall|j: int| 0 <= j < r.len() ==> p.contains(#[trigger] r[j]),
        forall|k: int| 0 <= k < p.len() ==> r.contains(#[trigger] p[k]),
    ensures
        same_members(a, r),
{
    assert forall|path: Seq<char>, kind: EntryKind|
        #[trigger] tree_contains(r, path, Some(kind)) == kept_contains(a, path, kind) by {
        lemma_tree_contains_some(r, path, kind);
        lemma_tree_contains_some(a, path, kind);
        if tree_contains(r, path, Some(kind)) {
            let j = choose|j: int| 0 <= j < r.len() && #[trigger] hit(r, j, path, kind);
            let k = choose|k: int| 0 <= k < p.len() && p[k] == r[j];
            let o = origin[k];
            assert(matched(a, o, p[k]));
            assert(same_members(a[o].children@, r[j].children@));
            assert(tree_contains(r[j].children@, path, Some(kind)) ==> kept_contains(a[o].children@, path, kind));
            assert(kept_hit(a, o, path, kind));
        }
        if kept_contains(a, path, kind) {
            let x = choose|x: int| 0 <= x < a.len() && #[trigger] kept_hit(a, x, path, kind);
            let k = choose|k: int| 0 <= k < origin.len() && #[trigger] origin[k] == x;
            assert(matched(a, x, p[k]));
            let j = choose|j: int| 0 <= j < r.len() && r[j] == p[k];
            assert(same_members(a[x].children@, r[j].children@));
            assert(kept_contains(a[x].children@, path, kind) ==> tree_contains(r[j].children@, path, Some(kind)));
            assert(hit(r, j, path, kind));
        }
    }
}

/// The kept entries of `a`, each scanned (`p`, entry `k` coming from entry
/// `origin[k]` of `a`), then sorted into `r`, make `r` the scanned listing.
proof fn lemma_scanned_listing(a: Seq<ProjectEntry>, p: Seq<ProjectEntry>, origin: Seq<int>, r: Seq<ProjectEntry>)
    requires
        p.len() == origin.len(),
        p.len() == kept_count(a),
        forall|k: int| 0 <= k < origin.len() ==> 0 <= #[trigger] origin[k] < a.len() && matched(a, origin[k], p[k]),
        forall|k: int| 0 <= k < p.len() ==> tree_ordered(#[trigger] p[k].children@),
        forall|x: int| 0 <= x < a.len() && kept_entry(a[x]) ==> exists|k: int| 0 <= k < origin.len() && #[trigger] origin[k] == x,
        r.to_multiset() == p.to_multiset(),
        forall|i: int, j: int| 0 <= i < j < r.len() ==> !entry_before(#[trigger] r[j], #[trigger] r[i]),
    ensures
        rearranged(a, r),
        same_members(a, r),
        tree_ordered(r),
{
    lemma_same_elements(p, r);
    assert forall|j: int| 0 <= j < r.len() implies #[trigger] has_origin(a, r[j]) by {
        let k = choose|k: int| 0 <= k < p.len() && p[k] == r[j];
        assert(matched(a, origin[k], p[k]));
        assert(matched(a, origin[k], r[j]));
    }
    assert forall|x: int| 0 <= x < a.len() && kept_entry(a[x]) implies #[trigger] has_image(a, x, r) by {
        let k = choose|k: int| 0 <= k < origin.len() && #[trigger] origin[k] == x;
        assert(matched(a, x, p[k]));
        let j = choose|j: int| 0 <= j < r.len() && r[j] == p[k];
        assert(matched(a, x, r[j]));
    }
    assert forall|j: int| 0 <= j < r.len() implies tree_ordered(#[trigger] r[j].children@) by {
        let k = choose|k: int| 0 <= k < p.len() && p[k] == r[j];
        assert(tree_ordered(p[k].children@));
    }
    lemma_scanned_members(a, p, origin, r);
}

/// The directory listing `entries` as the project tree shows it: ignored
/// directories left out, every listing in tree order.
fn scan_tree(entries: Vec<ProjectEntry>) -> (r: Vec<ProjectEntry>)
    ensures
        rearranged(entries@, r@),
        same_members(entries@, r@),
        tree_ordered(r@),
    decreases entries@,
{
    broadcast use vstd::seq_lib::to_multiset_len, vstd::seq_lib::to_multiset_contains;
    let ghost a = entries@;
    let n = entries.len();
    let mut rest = entries;
    let mut processed: Vec<ProjectEntry> = Vec::new();
    let ghost mut origin: Seq<int> = Seq::empty();
    let mut i: usize = 0;
    proof {
        assert(a.skip(0) =~= a);
        assert(a.take(0) =~= Seq::<ProjectEntry>::empty());
        reveal_with_fuel(Seq::filter, 1);
    }
    while i < n
        invariant
            n == a.len(),
            a == entries@,
            i <= n,
            rest@ == a.skip(i as int),
            processed@.len() == origin.len(),
            processed@.len() == kept_count(a.take(i as int)),
            forall|k: int| 0 <= k < origin.len() ==> 0 <= #[trigger] origin[k] < i && matched(a, origin[k], processed@[k]),
            forall|k: int| 0 <= k < processed@.len() ==> tree_ordered(#[trigger] processed@[k].children@),
            forall|x: int| 0 <= x < i && kept_entry(a[x]) ==> exists|k: int| 0 <= k < origin.len() && #[trigger] origin[k] == x,
        decreases n - i,
    {
        let ghost before_rest = rest@;
        let e = rest.remove(0);
        proof {
            assert(rest@ =~= a.skip(i + 1));
            assert(before_rest[0] == a[i as int]);
            assert(a.take(i + 1).drop_last() =~= a.take(i as int));
            assert(a.take(i + 1).last() == a[i as int]);
            reveal_with_fuel(Seq::filter, 1);
        }
        let ignored = same_kind(e.kind, EntryKind::Directory) && should_ignore_directory(e.path.as_str());
        if !ignored {
            let ProjectEntry { path, kind, children } = e;
            proof {
                assert(children@ == a[i as int].children@);
                assert(decreases_to!(a => a[i as int].children@));
            }
            let below = scan_tree(children);
            let ghost before = processed@;
            processed.push(ProjectEntry { path, kind, children: below });
            let ghost old_origin = origin;
            proof {
                origin = origin.push(i as int);
                assert forall|k: int| 0 <= k < origin.len() implies 0 <= #[trigger] origin[k] <= i && matched(a, origin[k], processed@[k]) by {
                    if k < before.len() {
                        assert(processed@[k] == before[k]);
                    }
                }
                assert forall|k: int| 0 <= k < processed@.len() implies tree_ordered(#[trigger] processed@[k].children@) by {
                    if k < before.len() {
                        assert(processed@[k] == before[k]);
                    }
                }
                assert forall|x: int| 0 <= x < i + 1 && kept_entry(a[x]) implies exists|k: int| 0 <= k < origin.len() && #[trigger] origin[k] == x by {
                    if x == i {
                        assert(origin[origin.len() - 1] == x);
                    } else {
                        let k = choose|k: int| 0 <= k < old_origin.len() && #[trigger] old_origin[k] == x;
                        assert(old_origin[k] == origin[k]);
                    }
                }
            }
        } else {
            proof {
                assert forall|x: int| 0 <= x < i + 1 && kept_entry(a[x]) implies exists|k: int| 0 <= k < origin.len() && #[trigger] origin[k] == x by {
                    assert(x != i);
                }
            }
        }
        i = i + 1;
    }
    proof {
        assert(a.take(n as int) =~= a);
    }
    let ghost p = processed@;
    let r = sort_entries(processed);
    proof {
        lemma_scanned_listing(a, p, origin, r@);
    }
    r
}

/// The snapshot of a scanned tree: the listing as the project tree shows
/// it (see `scan_tree`), and the Typst files of that tree in path order.
pub fn scan_snapshot(entries: Vec<ProjectEntry>) -> (r: ProjectSnapshot)
    ensures
        rearranged(entries@, r.entries@),
        same_members(entries@, r.entries@),
        tree_ordered(r.entries@),
        sorted(r.typst_files@),
        strings_view(r.typst_files@).to_multiset() == typst_files_of(r.entries@).to_multiset(),
{
    let tree = scan_tree(entries);
    let files = collect_typst_files(tree.as_slice());
    let typst_files = sort_paths(files);
    proof {
        lemma_map_same_elements(typst_files@, files@, |s: String| s@);
    }
    ProjectSnapshot { entries: tree, typst_files }
}

/// The refusal of a project operation, as a message.
pub open spec fn failed_with(outcome: Option<OperationOutcome>, message: Seq<char>) -> bool {
    outcome matches Some(OperationOutcome::Failed(m)) && m@ == message
}

/// Where a new Typst file chosen at `chosen` is created: the path with the
/// Typst extension, refused outside the project.
pub fn created_file_path(root: &str, chosen: &str) -> (r: Result<String, String>)
    ensures
        match r {
            Ok(p) => p@ == typst_path(chosen@) && starts_with(typst_path(chosen@), root@),
            Err(m) => !starts_with(typst_path(chosen@), root@)
                && m@ == "o novo arquivo deve permanecer dentro da pasta do projeto"@,
        },
{
    let path = with_typst_extension(chosen);
    if path_starts_with(path.as_str(), root) {
        Ok(path)
    } else {
        Err("o novo arquivo deve permanecer dentro da pasta do projeto".to_owned())
    }
}

/// Where a new directory chosen at `chosen` is created; refused outside
/// the project.
pub fn created_directory_path(root: &str, chosen: &str) -> (r: Result<String, String>)
    ensures
        match r {
            Ok(p) => p@ == chosen@ && starts_with(chosen@, root@),
            Err(m) => !starts_with(chosen@, root@) && m@ == "a nova pasta deve permanecer dentro da pasta do projeto"@,
        },
{
    if path_starts_with(chosen, root) {
        Ok(chosen.to_owned())
    } else {
        Err("a nova pasta deve permanecer dentro da pasta do projeto".to_owned())
    }
}

/// Whether `path` is an entry of the project below its root.
pub open spec fn inside_project(root: Seq<char>, path: Seq<char>) -> bool {
    path != root && starts_with(path, root)
}

/// The refusal to rename `from`, unless it lies inside the project.
pub fn rename_refusal(root: &str, from: &str) -> (r: Option<OperationOutcome>)
    ensures
        r is None <==> inside_project(root@, from@),
        r is Some ==> failed_with(r, "a raiz do projeto não pode ser renomeada"@),
{
    if str_eq(from, root) || !path_starts_with(from, root) {
        Some(OperationOutcome::Failed("a raiz do projeto não pode ser renomeada".to_owned()))
    } else {
        None
    }
}

/// The refusal to delete `path`, unless it lies inside the project.
pub fn delete_refusal(root: &str, path: &str) -> (r: Option<OperationOutcome>)
    ensures
        r is None <==> inside_project(root@, path@),
        r is Some ==> failed_with(r, "a raiz do projeto não pode ser excluída"@),
{
    if str_eq(path, root) || !path_starts_with(path, root) {
        Some(OperationOutcome::Failed("a raiz do projeto não pode ser excluída".to_owned()))
    } else {
        None
    }
}

/// What the rename dialog offers: the folder it opens in, the name it
/// proposes, its title, and whether it filters Typst documents.
#[derive(Debug)]
pub struct RenameDialog {
    pub directory: String,
    pub file_name: String,
    pub title: &'static str,
    pub typst_filter: bool,
}

/// The rename dialog for the entry `from`: its folder (the project root
/// for a path without one), its name (a generic one for a path without a
/// name), the title for its kind, and the Typst filter for Typst files.
pub fn rename_dialog(root: &str, from: &str, kind: EntryKind) -> (r: RenameDialog)
    ensures
        r.directory@ == match parent(from@) {
            Some(p) => p,
            None => root@,
        },
        r.file_name@ == match file_name(from@) {
            Some(n) => n,
            None => match kind {
                EntryKind::Directory => "pasta"@,
                EntryKind::TypstFile => "documento.typ"@,
                EntryKind::File => "arquivo"@,
            },
        },
        r.title@ == match kind {
            EntryKind::Directory => "Renomear pasta do projeto"@,
            EntryKind::TypstFile => "Renomear arquivo Typst"@,
            EntryKind::File => "Renomear arquivo do projeto"@,
        },
        r.typst_filter == (kind == EntryKind::TypstFile),
{
    let directory = match path_parent(from) {
        Some(p) => p,
        None => root.to_owned(),
    };
    let file_name = match path_file_name(from) {
        Some(n) => n,
        None => entry_fallback_name(kind).to_owned(),
    };
    RenameDialog {
        directory,
        file_name,
        title: rename_dialog_title(kind),
        typst_filter: same_kind(kind, EntryKind::TypstFile),
    }
}

/// The new path of a renamed entry chosen at `chosen`: Typst files keep
/// the Typst extension.
pub fn rename_destination(kind: EntryKind, chosen: &str) -> (r: String)
    ensures
        r@ == if kind == EntryKind::TypstFile { typst_path(chosen@) } else { chosen@ },
{
    if same_kind(kind, EntryKind::TypstFile) {
        with_typst_extension(chosen)
    } else {
        chosen.to_owned()
    }
}

/// The outcome of a rename from `from` to `to` decided before anything is
/// moved, or `None` when the rename may go ahead: nothing to do when the
/// name did not change; refused outside the project, onto an existing
/// entry, or for a directory moved into itself.
pub open spec fn rename_verdict(root: Seq<char>, from: Seq<char>, to: Seq<char>, kind: EntryKind, destination_exists: bool) -> Option<Seq<char>> {
    if to == from {
        Some(Seq::empty())
    } else if !starts_with(to, root) {
        Some("o arquivo renomeado deve permanecer dentro da pasta do projeto"@)
    } else if destination_exists {
        Some("o destino já existe: "@ + to)
    } else if kind == EntryKind::Directory && starts_with(to, from) {
        Some("uma pasta não pode ser movida para dentro dela mesma"@)
    } else {
        None
    }
}

/// Decides a rename before anything is moved (see `rename_verdict`; the
/// unchanged name cancels).
pub fn rename_decision(root: &str, from: &str, to: &str, kind: EntryKind, destination_exists: bool) -> (r: Option<OperationOutcome>)
    ensures
        r is None <==> rename_verdict(root@, from@, to@, kind, destination_exists) is None,
        to@ == from@ ==> r matches Some(OperationOutcome::Cancelled),
        to@ != from@ && r is Some ==> failed_with(r, rename_verdict(root@, from@, to@, kind, destination_exists)->0),
{
    if str_eq(to, from) {
        return Some(OperationOutcome::Cancelled);
    }
    if !path_starts_with(to, root) {
        return Some(OperationOutcome::Failed("o arquivo renomeado deve permanecer dentro da pasta do projeto".to_owned()));
    }
    if destination_exists {
        let mut message = "o destino já existe: ".to_owned();
        crate::text::push_str(&mut message, to);
        return Some(OperationOutcome::Failed(message));
    }
    if same_kind(kind, EntryKind::Directory) && path_starts_with(to, from) {
        return Some(OperationOutcome::Failed("uma pasta não pode ser movida para dentro dela mesma".to_owned()));
    }
    None
}

} // verus!
