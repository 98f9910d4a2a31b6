//! Rules of the application window: menu order, page titles, shortcut
//! labels, outline tracking, and the names shown for files and problems.
use vstd::prelude::*;
use std::ops::Range;
use crate::compiler::{DocumentOutlineItem, ExportFormat, export_extension, ReportedDiagnostic, DiagnosticSeverity, DiagnosticTarget};
use crate::paths::{strip_prefix, path_strip_prefix};
use crate::ui::problems::{ProblemItem, ProblemSeverity};
use crate::paths::{extension, set_extension, file_name, path_extension, path_set_extension, path_file_name};
use crate::source_map::SourceTarget;
use crate::text::{push_str, decimal, decimal_string, to_chars, from_chars};

verus! {

/// The menus of the menu bar, in order.
#[derive(Debug, Clone, Copy, PartialEq, Eq, Structural)]
pub enum AppMenu {
    File,
    Edit,
    View,
    Help,
}

/// The menu to the right of `menu`, wrapping around to the first.
pub open spec fn next_menu(menu: AppMenu) -> AppMenu {
    match menu {
        AppMenu::File => AppMenu::Edit,
        AppMenu::Edit => AppMenu::View,
        AppMenu::View => AppMenu::Help,
        AppMenu::Help => AppMenu::File,
    }
}

/// The menu to the left of `menu`, wrapping around to the last.
pub open spec fn previous_menu(menu: AppMenu) -> AppMenu {
    match menu {
        AppMenu::File => AppMenu::Help,
        AppMenu::Edit => AppMenu::File,
        AppMenu::View => AppMenu::Edit,
        AppMenu::Help => AppMenu::View,
    }
}

impl AppMenu {
    /// The menu to the right, wrapping around to the first.
    pub fn next(self) -> (r: Self)
        ensures
            r == next_menu(self),
    {
        match self {
            AppMenu::File => AppMenu::Edit,
            AppMenu::Edit => AppMenu::View,
            AppMenu::View => AppMenu::Help,
            AppMenu::Help => AppMenu::File,
        }
    }

    /// The menu to the left, wrapping around to the last.
    pub fn previous(self) -> (r: Self)
        ensures
            r == previous_menu(self),
    {
        match self {
            AppMenu::File => AppMenu::Help,
            AppMenu::Edit => AppMenu::File,
            AppMenu::View => AppMenu::Edit,
            AppMenu::Help => AppMenu::View,
        }
    }
}

/// Moving to the next menu and back, or back and then forward, returns to
/// the same menu; four moves in one direction go round the whole bar.
pub proof fn law_menu_moves_undo_each_other(menu: AppMenu)
    ensures
        previous_menu(next_menu(menu)) == menu,
        next_menu(previous_menu(menu)) == menu,
        next_menu(next_menu(next_menu(next_menu(menu)))) == menu,
        next_menu(menu) != menu,
{
}

/// The pages of the settings window.
#[derive(Debug, Clone, Copy, PartialEq, Eq, Structural)]
pub enum SettingsPage {
    Editor,
    Preview,
    Export,
    Appearance,
}

impl SettingsPage {
    /// Title of the page.
    pub fn title(self) -> (r: &'static str)
        ensures
            r@ == match self {
                SettingsPage::Editor => "Editor"@,
                SettingsPage::Preview => "Preview"@,
                SettingsPage::Export => "Exportação"@,
                SettingsPage::Appearance => "Aparência"@,
            },
    {
        match self {
            SettingsPage::Editor => "Editor",
            SettingsPage::Preview => "Preview",
            SettingsPage::Export => "Exportação",
            SettingsPage::Appearance => "Aparência",
        }
    }
}

/// The destinations of the project side panel.
#[derive(Debug, Clone, Copy, PartialEq, Eq, Structural)]
pub enum ProjectNavigation {
    Files,
    Search,
    Topics,
    Problems,
}

impl ProjectNavigation {
    /// Title of the destination.
    pub fn title(self) -> (r: &'static str)
        ensures
            r@ == match self {
                ProjectNavigation::Files => "Arquivos"@,
                ProjectNavigation::Search => "Busca"@,
                ProjectNavigation::Topics => "Sumário"@,
                ProjectNavigation::Problems => "Problemas"@,
            },
    {
        match self {
            ProjectNavigation::Files => "Arquivos",
            ProjectNavigation::Search => "Busca",
            ProjectNavigation::Topics => "Sumário",
            ProjectNavigation::Problems => "Problemas",
        }
    }
}

/// The label of a keyboard shortcut: the command modifier ("⌘" on macOS,
/// "Ctrl+" elsewhere) followed by the key.
pub open spec fn shortcut_label(key: Seq<char>, macos: bool) -> Seq<char> {
    (if macos { "⌘"@ } else { "Ctrl+"@ }) + key
}

/// The label of a shortcut that also holds Shift.
pub open spec fn shift_shortcut_label(key: Seq<char>, macos: bool) -> Seq<char> {
    (if macos { "⇧⌘"@ } else { "Ctrl+Shift+"@ }) + key
}

/// The label of a shortcut that also holds Alt (Option).
pub open spec fn alt_shortcut_label(key: Seq<char>, macos: bool) -> Seq<char> {
    (if macos { "⌥⌘"@ } else { "Ctrl+Alt+"@ }) + key
}

/// Builds the label of a command shortcut.
pub fn command_shortcut(key: &str, macos: bool) -> (r: String)
    ensures
        r@ == shortcut_label(key@, macos),
{
    let mut s = String::new();
    push_str(&mut s, if macos { "⌘" } else { "Ctrl+" });
    push_str(&mut s, key);
    s
}

/// Builds the label of a command shortcut that also holds Shift.
pub fn command_shift_shortcut(key: &str, macos: bool) -> (r: String)
    ensures
        r@ == shift_shortcut_label(key@, macos),
{
    let mut s = String::new();
    push_str(&mut s, if macos { "⇧⌘" } else { "Ctrl+Shift+" });
    push_str(&mut s, key);
    s
}

/// Builds the label of a command shortcut that also holds Alt (Option).
pub fn command_alt_shortcut(key: &str, macos: bool) -> (r: String)
    ensures
        r@ == alt_shortcut_label(key@, macos),
{
    let mut s = String::new();
    push_str(&mut s, if macos { "⌥⌘" } else { "Ctrl+Alt+" });
    push_str(&mut s, key);
    s
}

/// `path` with the extension of `format` when it has none (or an empty one).
pub open spec fn export_path(path: Seq<char>, format: ExportFormat) -> Seq<char> {
    match extension(path) {
        Some(e) => if e.len() == 0 { set_extension(path, export_extension(format)) } else { path },
        None => set_extension(path, export_extension(format)),
    }
}

/// Adds the extension of the export format to a path that has none.
pub fn with_export_extension(path: &str, format: ExportFormat) -> (r: String)
    ensures
        r@ == export_path(path@, format),
{
    match path_extension(path) {
        Some(e) => {
            if e.as_str().is_empty() {
                path_set_extension(path, format.extension())
            } else {
                path.to_owned()
            }
        },
        None => path_set_extension(path, format.extension()),
    }
}

/// The suggested file name of an export: the document name with the
/// extension of the format in place of its own.
pub fn export_file_name(document_name: &str, format: ExportFormat) -> (r: String)
    ensures
        r@ == set_extension(document_name@, export_extension(format)),
{
    path_set_extension(document_name, format.extension())
}

/// The name shown for a project: the name of its root directory, or the
/// whole path when it has none.
pub open spec fn project_name(root: Seq<char>) -> Seq<char> {
    match file_name(root) {
        Some(name) => if name.len() > 0 { name } else { root },
        None => root,
    }
}

/// Name shown for the project at `root`.
pub fn project_display_name(root: &str) -> (r: String)
    ensures
        r@ == project_name(root@),
{
    match path_file_name(root) {
        Some(name) => {
            if name.as_str().is_empty() {
                root.to_owned()
            } else {
                name
            }
        },
        None => root.to_owned(),
    }
}

/// "n thing" or "n things".
pub open spec fn counted(n: nat, one: Seq<char>, many: Seq<char>) -> Seq<char> {
    decimal(n) + " "@ + if n == 1 { one } else { many }
}

/// The label of the problems destination: the counts of errors and
/// warnings that there are, if any.
pub open spec fn problems_label(errors: nat, warnings: nat) -> Seq<char> {
    let e = counted(errors, "erro"@, "erros"@);
    let w = counted(warnings, "aviso"@, "avisos"@);
    if errors == 0 && warnings == 0 {
        "Problemas"@
    } else if warnings == 0 {
        "Problemas: "@ + e
    } else if errors == 0 {
        "Problemas: "@ + w
    } else {
        "Problemas: "@ + e + ", "@ + w
    }
}

fn push_count(s: &mut String, n: usize, one: &str, many: &str)
    ensures
        final(s)@ == old(s)@ + counted(n as nat, one@, many@),
{
    let digits = decimal_string(n);
    push_str(s, digits.as_str());
    push_str(s, " ");
    push_str(s, if n == 1 { one } else { many });
}

/// Label of the problems destination.
pub fn problems_navigation_label(errors: usize, warnings: usize) -> (r: String)
    ensures
        r@ == problems_label(errors as nat, warnings as nat),
{
    if errors == 0 && warnings == 0 {
        return "Problemas".to_owned();
    }
    let mut s = "Problemas: ".to_owned();
    if errors > 0 {
        push_count(&mut s, errors, "erro", "erros");
        if warnings > 0 {
            push_str(&mut s, ", ");
        }
    }
    if warnings > 0 {
        push_count(&mut s, warnings, "aviso", "avisos");
    }
    s
}

/// `text` cut to `limit` characters, followed by "..." when it was longer.
pub open spec fn truncated(text: Seq<char>, limit: nat) -> Seq<char> {
    if text.len() > limit { text.take(limit as int) + "..."@ } else { text }
}

/// Shortens `text` to `limit` characters.
pub fn truncate(text: &str, limit: usize) -> (r: String)
    ensures
        r@ == truncated(text@, limit as nat),
{
    let chars = to_chars(text);
    if chars.len() > limit {
        let mut s = from_chars(chars.as_slice(), 0, limit);
        push_str(&mut s, "...");
        proof { assert(chars@.subrange(0, limit as int) =~= text@.take(limit as int)); }
        s
    } else {
        proof { assert(chars@.subrange(0, chars@.len() as int) =~= text@); }
        from_chars(chars.as_slice(), 0, chars.len())
    }
}

/// A heading of the outline, as the source and byte where it starts.
#[derive(Debug, PartialEq, Eq, Hash)]
pub struct OutlineKey {
    pub target: SourceTarget,
    pub start: usize,
}

impl View for OutlineKey {
    type V = (Option<Seq<char>>, int);

    open spec fn view(&self) -> (Option<Seq<char>>, int) {
        (self.target@, self.start as int)
    }
}

impl OutlineKey {
    /// The key of the heading that starts at `start` in `target`.
    pub fn new(target: SourceTarget, start: usize) -> (r: Self)
        ensures
            r@ == (target@, start as int),
    {
        OutlineKey { target, start }
    }
}

/// The keys of the outline headings, each heading before the headings
/// below it.
pub open spec fn outline_keys(entries: Seq<DocumentOutlineItem>) -> Seq<(Option<Seq<char>>, int)>
    decreases entries,
{
    if entries.len() == 0 {
        Seq::empty()
    } else {
        let last = entries.last();
        outline_keys(entries.drop_last()) + seq![(last.target@, last.range.start as int)] + outline_keys(last.children@)
    }
}

/// Keys by their targets and starts.
pub open spec fn keys_view(keys: Seq<OutlineKey>) -> Seq<(Option<Seq<char>>, int)> {
    keys.map_values(|k: OutlineKey| k@)
}

fn contains_key(keys: &Vec<OutlineKey>, target: &SourceTarget, start: usize) -> (r: bool)
    ensures
        r == keys_view(keys@).contains((target@, start as int)),
{
    let mut i: usize = 0;
    while i < keys.len()
        invariant
            i <= keys@.len(),
            forall|k: int| 0 <= k < i ==> keys_view(keys@)[k] != (target@, start as int),
        decreases keys@.len() - i,
    {
        if keys[i].start == start && keys[i].target.same_as(target) {
            proof { assert(keys_view(keys@)[i as int] == (target@, start as int)); }
            return true;
        }
        i = i + 1;
    }
    false
}

proof fn lemma_single_to_set(key: (Option<Seq<char>>, int))
    ensures
        seq![key].to_set() == set![key],
{
    assert forall|x: (Option<Seq<char>>, int)| seq![key].to_set().contains(x) <==> set![key].contains(x) by {
        if x == key {
            assert(seq![key][0] == key);
        }
    }
    assert(seq![key].to_set() =~= set![key]);
}

/// Adds the keys of every heading of the outline to `keys`, each key once.
pub fn collect_outline_keys(entries: &[DocumentOutlineItem], keys: &mut Vec<OutlineKey>)
    requires
        keys_view(old(keys)@).no_duplicates(),
    ensures
        keys_view(final(keys)@).no_duplicates(),
        keys_view(final(keys)@).to_set() == keys_view(old(keys)@).to_set() + outline_keys(entries@).to_set(),
    decreases entries@,
{
    let mut i: usize = 0;
    let ghost start_set = keys_view(keys@).to_set();
    proof {
        assert(entries@.take(0) =~= Seq::<DocumentOutlineItem>::empty());
        assert(outline_keys(entries@.take(0)).to_set() =~= Set::<(Option<Seq<char>>, int)>::empty());
        assert(start_set + Set::<(Option<Seq<char>>, int)>::empty() =~= start_set);
    }
    while i < entries.len()
        invariant
            i <= entries@.len(),
            keys_view(keys@).no_duplicates(),
            keys_view(keys@).to_set() == start_set + outline_keys(entries@.take(i as int)).to_set(),
        decreases entries@.len() - i,
    {
        let entry = &entries[i];
        proof {
            assert(entries@.take(i + 1).drop_last() =~= entries@.take(i as int));
            assert(entries@.take(i + 1).last() == entries@[i as int]);
            assert(decreases_to!(entries@ => entries@[i as int]));
        }
        let ghost before = keys_view(keys@);
        let ghost key = (entry.target@, entry.range.start as int);
        if !contains_key(keys, &entry.target, entry.range.start) {
            keys.push(OutlineKey::new(entry.target.copied(), entry.range.start));
            proof {
                assert(keys_view(keys@) =~= before.push(key));
                assert forall|a: int, b: int| 0 <= a < b < keys_view(keys@).len() implies
                    keys_view(keys@)[a] != keys_view(keys@)[b] by {
                    if b == before.len() {
                        assert(keys_view(keys@)[a] == before[a]);
                    } else {
                        assert(keys_view(keys@)[a] == before[a] && keys_view(keys@)[b] == before[b]);
                    }
                }
                lemma_single_to_set(key);
                vstd::seq_lib::seq_to_set_distributes_over_add(before, seq![key]);
                assert(before.push(key) =~= before + seq![key]);
            }
        } else {
            proof {
                assert(before.to_set().contains(key));
            }
        }
        let ghost middle = keys_view(keys@).to_set();
        proof {
            assert(middle == before.to_set().insert(key)) by {
                if before.contains(key) {
                    assert(before.to_set().insert(key) =~= before.to_set());
                }
            }
        }
        collect_outline_keys(entry.children.as_slice(), keys);
        proof {
            let prefix = entries@.take(i as int);
            let step = seq![key];
            vstd::seq_lib::seq_to_set_distributes_over_add(outline_keys(prefix), step);
            vstd::seq_lib::seq_to_set_distributes_over_add(outline_keys(prefix) + step, outline_keys(entry.children@));
            lemma_single_to_set(key);
            assert(keys_view(keys@).to_set() =~= start_set + outline_keys(entries@.take(i + 1)).to_set());
        }
        i = i + 1;
    }
    proof { assert(entries@.take(entries@.len() as int) =~= entries@); }
}

/// The heading that holds the cursor: among the keys in order, the last one
/// of `target` that starts at or before `cursor` and not before the one
/// chosen so far.
pub open spec fn picked(
    keys: Seq<(Option<Seq<char>>, int)>,
    target: Option<Seq<char>>,
    cursor: int,
    chosen: Option<(Option<Seq<char>>, int)>,
) -> Option<(Option<Seq<char>>, int)>
    decreases keys.len(),
{
    if keys.len() == 0 {
        chosen
    } else {
        let before = picked(keys.drop_last(), target, cursor, chosen);
        let k = keys.last();
        if k.0 == target && k.1 <= cursor && (before matches Some(c) ==> c.1 <= k.1) {
            Some(k)
        } else {
            before
        }
    }
}

/// Picking over two parts in turn is picking over both.
pub proof fn lemma_picked_concat(
    a: Seq<(Option<Seq<char>>, int)>,
    b: Seq<(Option<Seq<char>>, int)>,
    target: Option<Seq<char>>,
    cursor: int,
    chosen: Option<(Option<Seq<char>>, int)>,
)
    ensures
        picked(a + b, target, cursor, chosen) == picked(b, target, cursor, picked(a, target, cursor, chosen)),
    decreases b.len(),
{
    if b.len() == 0 {
        assert(a + b =~= a);
    } else {
        assert((a + b).drop_last() =~= a + b.drop_last());
        assert((a + b).last() == b.last());
        lemma_picked_concat(a, b.drop_last(), target, cursor, chosen);
    }
}

/// An optional key by its target and start.
pub open spec fn key_option_view(k: Option<OutlineKey>) -> Option<(Option<Seq<char>>, int)> {
    match k {
        Some(k) => Some(k@),
        None => None,
    }
}

/// Updates `selected` to the heading of `target` that holds `cursor`.
pub fn find_current_outline_key(
    entries: &[DocumentOutlineItem],
    target: &SourceTarget,
    cursor: usize,
    selected: &mut Option<OutlineKey>,
)
    ensures
        key_option_view(*final(selected)) == picked(outline_keys(entries@), target@, cursor as int, key_option_view(*old(selected))),
    decreases entries@,
{
    let ghost initial = key_option_view(*selected);
    let mut i: usize = 0;
    proof {
        assert(entries@.take(0) =~= Seq::<DocumentOutlineItem>::empty());
    }
    while i < entries.len()
        invariant
            i <= entries@.len(),
            key_option_view(*selected) == picked(outline_keys(entries@.take(i as int)), target@, cursor as int, initial),
        decreases entries@.len() - i,
    {
        let entry = &entries[i];
        proof {
            assert(entries@.take(i + 1).drop_last() =~= entries@.take(i as int));
            assert(entries@.take(i + 1).last() == entries@[i as int]);
            assert(decreases_to!(entries@ => entries@[i as int]));
        }
        let ghost chosen = key_option_view(*selected);
        let start = entry.range.start;
        let later = match selected {
            Some(current) => current.start <= start,
            None => true,
        };
        if later && start <= cursor && entry.target.same_as(target) {
            *selected = Some(OutlineKey::new(entry.target.copied(), start));
        }
        proof {
            let key = (entry.target@, start as int);
            assert(picked(seq![key], target@, cursor as int, chosen) == key_option_view(*selected)) by {
                reveal_with_fuel(picked, 2);
                assert(seq![key].drop_last() =~= Seq::<(Option<Seq<char>>, int)>::empty());
                assert(seq![key].last() == key);
            }
            lemma_picked_concat(outline_keys(entries@.take(i as int)), seq![key], target@, cursor as int, initial);
        }
        let ghost middle = key_option_view(*selected);
        find_current_outline_key(entry.children.as_slice(), target, cursor, selected);
        proof {
            let key = (entry.target@, start as int);
            let prefix = outline_keys(entries@.take(i as int));
            lemma_picked_concat(prefix + seq![key], outline_keys(entry.children@), target@, cursor as int, initial);
        }
        i = i + 1;
    }
    proof { assert(entries@.take(entries@.len() as int) =~= entries@); }
}

/// The number of errors and of warnings among the diagnostics.
pub open spec fn severity_counts(diagnostics: Seq<ReportedDiagnostic>) -> (int, int)
    decreases diagnostics.len(),
{
    if diagnostics.len() == 0 {
        (0, 0)
    } else {
        let before = severity_counts(diagnostics.drop_last());
        match diagnostics.last().severity {
            DiagnosticSeverity::Error => (before.0 + 1, before.1),
            DiagnosticSeverity::Warning => (before.0, before.1 + 1),
        }
    }
}

proof fn lemma_severity_counts_bound(diagnostics: Seq<ReportedDiagnostic>)
    ensures
        0 <= severity_counts(diagnostics).0,
        0 <= severity_counts(diagnostics).1,
        severity_counts(diagnostics).0 + severity_counts(diagnostics).1 == diagnostics.len(),
    decreases diagnostics.len(),
{
    if diagnostics.len() > 0 {
        lemma_severity_counts_bound(diagnostics.drop_last());
    }
}

/// Counts the errors and the warnings.
pub fn diagnostic_counts(diagnostics: &[ReportedDiagnostic]) -> (r: (usize, usize))
    ensures
        (r.0 as int, r.1 as int) == severity_counts(diagnostics@),
{
    let mut errors: usize = 0;
    let mut warnings: usize = 0;
    let mut i: usize = 0;
    proof {
        assert(diagnostics@.take(0) =~= Seq::<ReportedDiagnostic>::empty());
    }
    while i < diagnostics.len()
        invariant
            i <= diagnostics@.len(),
            (errors as int, warnings as int) == severity_counts(diagnostics@.take(i as int)),
        decreases diagnostics@.len() - i,
    {
        proof {
            assert(diagnostics@.take(i + 1).drop_last() =~= diagnostics@.take(i as int));
            assert(diagnostics@.take(i + 1).last() == diagnostics@[i as int]);
            lemma_severity_counts_bound(diagnostics@.take(i as int));
        }
        match diagnostics[i].severity {
            DiagnosticSeverity::Error => errors = errors + 1,
            DiagnosticSeverity::Warning => warnings = warnings + 1,
        }
        i = i + 1;
    }
    proof {
        assert(diagnostics@.take(diagnostics@.len() as int) =~= diagnostics@);
    }
    (errors, warnings)
}

/// The problem severity shown for a diagnostic severity.
pub open spec fn problem_severity(s: DiagnosticSeverity) -> ProblemSeverity {
    match s {
        DiagnosticSeverity::Error => ProblemSeverity::Error,
        DiagnosticSeverity::Warning => ProblemSeverity::Warning,
    }
}

/// Where a problem is shown to come from: the compiled document for the
/// main source, else the file's path inside the project.
pub open spec fn problem_source(target: Option<Seq<char>>, root: Seq<char>, main_name: Seq<char>) -> Seq<char> {
    match target {
        None => main_name,
        Some(path) => match strip_prefix(path, root) {
            Some(inside) => inside,
            None => path,
        },
    }
}

/// The problems panel items of the diagnostics: severity, full message,
/// source, and the location that pressing the item opens.
pub fn problem_items(diagnostics: &[ReportedDiagnostic], root: &str, main_name: &str)
    -> (r: Vec<ProblemItem<(DiagnosticTarget, Range<usize>)>>)
    ensures
        r@.len() == diagnostics@.len(),
        forall|i: int| 0 <= i < r@.len() ==> {
            let d = diagnostics@[i];
            let item = #[trigger] r@[i];
            &&& item.severity == problem_severity(d.severity)
            &&& item.message@ == d.message@
            &&& item.source@ == problem_source(d.target@, root@, main_name@)
            &&& item.on_press matches Some(place) && place.0@ == d.target@ && place.1 == d.range
        },
{
    let mut items: Vec<ProblemItem<(DiagnosticTarget, Range<usize>)>> = Vec::new();
    let mut i: usize = 0;
    while i < diagnostics.len()
        invariant
            i <= diagnostics@.len(),
            items@.len() == i,
            forall|k: int| 0 <= k < i ==> {
                let d = diagnostics@[k];
                let item = #[trigger] items@[k];
                &&& item.severity == problem_severity(d.severity)
                &&& item.message@ == d.message@
                &&& item.source@ == problem_source(d.target@, root@, main_name@)
                &&& item.on_press matches Some(place) && place.0@ == d.target@ && place.1 == d.range
            },
        decreases diagnostics@.len() - i,
    {
        let d = &diagnostics[i];
        let severity = match d.severity {
            DiagnosticSeverity::Error => ProblemSeverity::Error,
            DiagnosticSeverity::Warning => ProblemSeverity::Warning,
        };
        let source = match &d.target {
            SourceTarget::Main => main_name.to_owned(),
            SourceTarget::ProjectFile(path) => match path_strip_prefix(path.as_str(), root) {
                Some(inside) => inside,
                None => path.clone(),
            },
        };
        let place = (d.target.copied(), d.range.start..d.range.end);
        items.push(ProblemItem::new(severity, d.message.clone(), source, Some(place)));
        i = i + 1;
    }
    items
}

/// The state of the preview shown in the status bar.
#[derive(Debug, PartialEq, Eq)]
pub enum PreviewStatus {
    Waiting,
    Compiling,
    Ready { pages: usize, warnings: usize },
    Failed { errors: usize, summary: String },
}

/// The preview part of the status bar.
pub open spec fn preview_status_text(status: PreviewStatus) -> Seq<char> {
    match status {
        PreviewStatus::Waiting => "Alterações pendentes; preview desatualizado"@,
        PreviewStatus::Compiling => "Compilando preview..."@,
        PreviewStatus::Ready { pages, warnings } => "Preview atualizado: "@ + counted(pages as nat, "página"@, "páginas"@)
            + ", "@ + counted(warnings as nat, "aviso"@, "avisos"@),
        PreviewStatus::Failed { errors, summary } => "Preview desatualizado: "@ + counted(errors as nat, "erro"@, "erros"@)
            + " - "@ + truncated(summary@, 100),
    }
}

/// The status bar: the last file message, when there is one (cut to 100
/// characters), then the state of the preview.
pub open spec fn status_line(status: PreviewStatus, file_status: Option<Seq<char>>) -> Seq<char> {
    match file_status {
        Some(file) => truncated(file, 100) + " | "@ + preview_status_text(status),
        None => preview_status_text(status),
    }
}

/// Text of the status bar.
pub fn status_text(preview: &PreviewStatus, file_status: Option<&str>) -> (r: String)
    ensures
        r@ == status_line(*preview, match file_status {
            Some(f) => Some(f@),
            None => None,
        }),
{
    let mut text = match file_status {
        Some(file) => {
            let mut s = truncate(file, 100);
            push_str(&mut s, " | ");
            s
        },
        None => String::new(),
    };
    let ghost prefix = text@;
    match preview {
        PreviewStatus::Waiting => push_str(&mut text, "Alterações pendentes; preview desatualizado"),
        PreviewStatus::Compiling => push_str(&mut text, "Compilando preview..."),
        PreviewStatus::Ready { pages, warnings } => {
            push_str(&mut text, "Preview atualizado: ");
            push_count(&mut text, *pages, "página", "páginas");
            push_str(&mut text, ", ");
            push_count(&mut text, *warnings, "aviso", "avisos");
        },
        PreviewStatus::Failed { errors, summary } => {
            push_str(&mut text, "Preview desatualizado: ");
            push_count(&mut text, *errors, "erro", "erros");
            push_str(&mut text, " - ");
            push_str(&mut text, truncate(summary.as_str(), 100).as_str());
        },
    }
    proof {
        assert(text@ =~= prefix + preview_status_text(*preview));
        if file_status is None {
            assert(prefix =~= Seq::<char>::empty());
            assert(text@ =~= preview_status_text(*preview));
        }
    }
    text
}

} // verus!
