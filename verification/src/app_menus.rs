//! The commands of the application, the entries of the menu bar's menus and
//! those of the project tree's context menu.
use vstd::prelude::*;
use crate::compiler::ExportFormat;
use crate::document::{DocumentId, Documents};
use crate::interface::{
    AppMenu, command_shortcut, command_shift_shortcut, command_alt_shortcut, shortcut_label,
    shift_shortcut_label, alt_shortcut_label,
};
use crate::menus::{AppMenuEntry, EntryView, entries_view};
use crate::paths::{parent, path_parent, opt_view, starts_with, path_starts_with};
use crate::project::{EntryKind, ProjectEntry, kind_of, find_project_entry_kind};
use crate::text::str_eq;
use crate::settings::Settings;
use crate::workspace::{ProjectState, ProjectStateView};

verus! {

/// An editing action that a menu hands to the editor.
#[derive(Debug, Clone, Copy, PartialEq, Eq, Structural)]
pub enum EditorAction {
    Undo,
    Redo,
    ToggleLineComment,
    DuplicateLine,
    MoveLineUp,
    MoveLineDown,
}

/// What choosing a menu item asks of the application; `P` is how a path is
/// held (a `String` when the program runs, its characters in contracts).
#[derive(Debug, Clone)]
pub enum MenuCommand<P> {
    NewDocument,
    OpenDocument,
    OpenProject,
    SaveDocument,
    SaveDocumentAs,
    SaveAllDocuments,
    Export(ExportFormat),
    CloseDocument(DocumentId),
    Exit,
    Editor(EditorAction),
    OpenSearch,
    OpenProjectSearch,
    OpenReplace,
    ActivateRelativeDocument(bool),
    MoveActiveDocument(bool),
    ReopenClosedDocument,
    OpenRecentProject(P),
    ToggleSettings,
    OpenExportSettings,
    ShowGutter(bool),
    WrapLines(bool),
    ToggleProjectPane,
    PreviewZoomIn,
    PreviewZoomOut,
    PreviewZoomReset,
    OpenTypstDocumentation,
    ShowAbout,
    OpenProjectEntry(P, EntryKind),
    CreateProjectFileAt(P),
    CreateProjectDirectoryAt(P),
    RenameProjectEntry(P, EntryKind),
    MoveProjectEntry(P, EntryKind),
    DuplicateProjectEntry(P, EntryKind),
    CopyProjectPath(P),
    DeleteProjectEntry(P, EntryKind),
    SetProjectMain(P),
    ClearProjectMain,
    RefreshProjectTree,
}

impl View for MenuCommand<String> {
    type V = MenuCommand<Seq<char>>;

    open spec fn view(&self) -> MenuCommand<Seq<char>> {
        match self {
            MenuCommand::NewDocument => MenuCommand::NewDocument,
            MenuCommand::OpenDocument => MenuCommand::OpenDocument,
            MenuCommand::OpenProject => MenuCommand::OpenProject,
            MenuCommand::SaveDocument => MenuCommand::SaveDocument,
            MenuCommand::SaveDocumentAs => MenuCommand::SaveDocumentAs,
            MenuCommand::SaveAllDocuments => MenuCommand::SaveAllDocuments,
            MenuCommand::Export(f) => MenuCommand::Export(*f),
            MenuCommand::CloseDocument(id) => MenuCommand::CloseDocument(*id),
            MenuCommand::Exit => MenuCommand::Exit,
            MenuCommand::Editor(a) => MenuCommand::Editor(*a),
            MenuCommand::OpenSearch => MenuCommand::OpenSearch,
            MenuCommand::OpenProjectSearch => MenuCommand::OpenProjectSearch,
            MenuCommand::OpenReplace => MenuCommand::OpenReplace,
            MenuCommand::ActivateRelativeDocument(b) => MenuCommand::ActivateRelativeDocument(*b),
            MenuCommand::MoveActiveDocument(b) => MenuCommand::MoveActiveDocument(*b),
            MenuCommand::ReopenClosedDocument => MenuCommand::ReopenClosedDocument,
            MenuCommand::OpenRecentProject(p) => MenuCommand::OpenRecentProject(p@),
            MenuCommand::ToggleSettings => MenuCommand::ToggleSettings,
            MenuCommand::OpenExportSettings => MenuCommand::OpenExportSettings,
            MenuCommand::ShowGutter(b) => MenuCommand::ShowGutter(*b),
            MenuCommand::WrapLines(b) => MenuCommand::WrapLines(*b),
            MenuCommand::ToggleProjectPane => MenuCommand::ToggleProjectPane,
            MenuCommand::PreviewZoomIn => MenuCommand::PreviewZoomIn,
            MenuCommand::PreviewZoomOut => MenuCommand::PreviewZoomOut,
            MenuCommand::PreviewZoomReset => MenuCommand::PreviewZoomReset,
            MenuCommand::OpenTypstDocumentation => MenuCommand::OpenTypstDocumentation,
            MenuCommand::ShowAbout => MenuCommand::ShowAbout,
            MenuCommand::OpenProjectEntry(p, k) => MenuCommand::OpenProjectEntry(p@, *k),
            MenuCommand::CreateProjectFileAt(p) => MenuCommand::CreateProjectFileAt(p@),
            MenuCommand::CreateProjectDirectoryAt(p) => MenuCommand::CreateProjectDirectoryAt(p@),
            MenuCommand::RenameProjectEntry(p, k) => MenuCommand::RenameProjectEntry(p@, *k),
            MenuCommand::MoveProjectEntry(p, k) => MenuCommand::MoveProjectEntry(p@, *k),
            MenuCommand::DuplicateProjectEntry(p, k) => MenuCommand::DuplicateProjectEntry(p@, *k),
            MenuCommand::CopyProjectPath(p) => MenuCommand::CopyProjectPath(p@),
            MenuCommand::DeleteProjectEntry(p, k) => MenuCommand::DeleteProjectEntry(p@, *k),
            MenuCommand::SetProjectMain(p) => MenuCommand::SetProjectMain(p@),
            MenuCommand::ClearProjectMain => MenuCommand::ClearProjectMain,
            MenuCommand::RefreshProjectTree => MenuCommand::RefreshProjectTree,
        }
    }
}

/// A command as its menus show it.
pub type Command = MenuCommand<Seq<char>>;

/// What the menus read of the application besides its documents and
/// settings.
pub struct MenuContext {
    /// A file is being opened, saved or changed on disk.
    pub file_busy: bool,
    /// A compiler for the current document exists.
    pub can_export: bool,
    /// Some closed tab can be reopened.
    pub can_reopen: bool,
    /// The recent projects, most recent first, each with whether it is still
    /// a directory on disk.
    pub recent_projects: Vec<(String, bool)>,
    /// The project tree is shown.
    pub project_pane_visible: bool,
    /// Shortcuts are labelled as on macOS.
    pub macos: bool,
}

/// An item with these texts, flags and command.
pub open spec fn shown(label: Seq<char>, value: Option<Seq<char>>, selected: bool, enabled: bool, command: Command) -> EntryView<Command> {
    EntryView::Item { label, value, selected, enabled, command }
}

/// An item of the menus.
fn item(label: &str, value: Option<String>, selected: bool, enabled: bool, command: MenuCommand<String>) -> (r: AppMenuEntry<MenuCommand<String>>)
    ensures
        r@ == shown(label@, opt_view(value), selected, enabled, command@),
{
    AppMenuEntry::item(label.to_owned(), value, selected, enabled, command)
}

/// How many recent projects the File menu lists.
pub const RECENT_PROJECTS_SHOWN: usize = 5;

/// The item of a recent project.
pub open spec fn recent_item(project: (String, bool), file_busy: bool) -> EntryView<Command> {
    shown("Projeto recente: "@ + project.0@, None, false, !file_busy && project.1, MenuCommand::OpenRecentProject(project.0@))
}

/// The recent projects in the File menu: none when there are none, else a
/// divider and the first few of them.
pub open spec fn recent_entries(c: MenuContext) -> Seq<EntryView<Command>> {
    let all = c.recent_projects@;
    let n = if all.len() < RECENT_PROJECTS_SHOWN { all.len() as int } else { RECENT_PROJECTS_SHOWN as int };
    if all.len() == 0 {
        Seq::empty()
    } else {
        seq![EntryView::Divider] + all.take(n).map_values(|p: (String, bool)| recent_item(p, c.file_busy))
    }
}

/// Whether some document of the list has changes that are not saved.
pub open spec fn some_dirty(d: Documents) -> bool {
    exists|i: int| 0 <= i < d.docs().len() && (#[trigger] d.docs()[i]).is_dirty()
}

/// The File menu.
pub open spec fn file_menu(c: MenuContext, d: Documents) -> Seq<EntryView<Command>> {
    let free = !c.file_busy;
    let m = c.macos;
    let count = d.ids().len();
    let position = d.active_index();
    seq![
        shown("Novo documento"@, Some(shortcut_label("N"@, m)), false, free, MenuCommand::NewDocument),
        shown("Abrir arquivo…"@, Some(shortcut_label("O"@, m)), false, free, MenuCommand::OpenDocument),
        shown("Abrir projeto…"@, Some(shift_shortcut_label("O"@, m)), false, free, MenuCommand::OpenProject),
    ] + recent_entries(c) + seq![
        EntryView::Divider,
        shown("Salvar"@, Some(shortcut_label("S"@, m)), false, free && d.docs()[position].is_dirty(), MenuCommand::SaveDocument),
        shown("Salvar como…"@, Some(shift_shortcut_label("S"@, m)), false, free, MenuCommand::SaveDocumentAs),
        shown("Salvar tudo"@, Some(alt_shortcut_label("S"@, m)), false, free && some_dirty(d), MenuCommand::SaveAllDocuments),
        shown("Exportar PDF…"@, None, false, free && c.can_export, MenuCommand::Export(ExportFormat::Pdf)),
        shown("Exportar SVG…"@, None, false, free && c.can_export, MenuCommand::Export(ExportFormat::Svg)),
        shown("Exportar HTML…"@, None, false, free && c.can_export, MenuCommand::Export(ExportFormat::Html)),
        EntryView::Divider,
        shown("Fechar documento"@, Some(shortcut_label("W"@, m)), false, free, MenuCommand::CloseDocument(d.active_document_id())),
        shown("Reabrir aba fechada"@, Some(shift_shortcut_label("T"@, m)), false, free && c.can_reopen, MenuCommand::ReopenClosedDocument),
        shown("Próxima aba"@, Some("Ctrl+Tab"@), false, free && count > 1, MenuCommand::ActivateRelativeDocument(false)),
        shown("Aba anterior"@, Some("Ctrl+Shift+Tab"@), false, free && count > 1, MenuCommand::ActivateRelativeDocument(true)),
        shown("Mover aba para a esquerda"@, Some("Ctrl+Shift+PageUp"@), false, free && position > 0, MenuCommand::MoveActiveDocument(true)),
        shown("Mover aba para a direita"@, Some("Ctrl+Shift+PageDown"@), false, free && position + 1 < count, MenuCommand::MoveActiveDocument(false)),
        shown("Sair"@, Some(shortcut_label("Q"@, m)), false, true, MenuCommand::Exit),
    ]
}

/// Appends the recent projects of the File menu.
fn push_recent_entries(entries: &mut Vec<AppMenuEntry<MenuCommand<String>>>, c: &MenuContext)
    ensures
        entries_view(final(entries)@) == entries_view(old(entries)@) + recent_entries(*c),
{
    let ghost start = entries_view(entries@);
    let all = &c.recent_projects;
    if all.len() == 0 {
        proof { assert(entries_view(entries@) =~= start + recent_entries(*c)); }
        return;
    }
    entries.push(AppMenuEntry::Divider);
    let n = if all.len() < RECENT_PROJECTS_SHOWN { all.len() } else { RECENT_PROJECTS_SHOWN };
    let ghost shown_all = all@.take(n as int).map_values(|p: (String, bool)| recent_item(p, c.file_busy));
    let mut i: usize = 0;
    proof { assert(entries_view(entries@) =~= start + seq![EntryView::Divider] + shown_all.take(0)); }
    while i < n
        invariant
            n <= all@.len(),
            i <= n,
            shown_all == all@.take(n as int).map_values(|p: (String, bool)| recent_item(p, c.file_busy)),
            entries_view(entries@) == start + seq![EntryView::Divider] + shown_all.take(i as int),
        decreases n - i,
    {
        let project = &all[i];
        let mut label = String::new();
        crate::text::push_str(&mut label, "Projeto recente: ");
        crate::text::push_str(&mut label, project.0.as_str());
        let e = AppMenuEntry::item(label, None, false, !c.file_busy && project.1,
            MenuCommand::OpenRecentProject(project.0.clone()));
        let ghost before = entries@;
        entries.push(e);
        proof {
            assert(e@ == shown_all[i as int]);
            assert(entries_view(entries@) =~= entries_view(before).push(e@));
            assert(shown_all.take(i + 1) =~= shown_all.take(i as int).push(shown_all[i as int]));
        }
        i = i + 1;
    }
    proof { assert(shown_all.take(n as int) =~= shown_all); }
}

/// Builds the File menu.
fn file_menu_entries(c: &MenuContext, d: &Documents) -> (r: Vec<AppMenuEntry<MenuCommand<String>>>)
    requires
        d.wf(),
    ensures
        entries_view(r@) == file_menu(*c, *d),
{
    let free = !c.file_busy;
    let m = c.macos;
    let mut head: Vec<AppMenuEntry<MenuCommand<String>>> = Vec::new();
    head.push(item("Novo documento", Some(command_shortcut("N", m)), false, free, MenuCommand::NewDocument));
    head.push(item("Abrir arquivo…", Some(command_shortcut("O", m)), false, free, MenuCommand::OpenDocument));
    head.push(item("Abrir projeto…", Some(command_shift_shortcut("O", m)), false, free, MenuCommand::OpenProject));
    let ghost first = entries_view(head@);
    proof {
        assert(first =~= seq![
            shown("Novo documento"@, Some(shortcut_label("N"@, m)), false, free, MenuCommand::NewDocument),
            shown("Abrir arquivo…"@, Some(shortcut_label("O"@, m)), false, free, MenuCommand::OpenDocument),
            shown("Abrir projeto…"@, Some(shift_shortcut_label("O"@, m)), false, free, MenuCommand::OpenProject),
        ]);
    }
    push_recent_entries(&mut head, c);
    let count = d.len();
    let position = d.active_position();
    let mut tail: Vec<AppMenuEntry<MenuCommand<String>>> = Vec::new();
    tail.push(AppMenuEntry::Divider);
    tail.push(item("Salvar", Some(command_shortcut("S", m)), false, free && d.active().is_dirty(), MenuCommand::SaveDocument));
    tail.push(item("Salvar como…", Some(command_shift_shortcut("S", m)), false, free, MenuCommand::SaveDocumentAs));
    tail.push(item("Salvar tudo", Some(command_alt_shortcut("S", m)), false, free && d.any_dirty(), MenuCommand::SaveAllDocuments));
    tail.push(item("Exportar PDF…", None, false, free && c.can_export, MenuCommand::Export(ExportFormat::Pdf)));
    tail.push(item("Exportar SVG…", None, false, free && c.can_export, MenuCommand::Export(ExportFormat::Svg)));
    tail.push(item("Exportar HTML…", None, false, free && c.can_export, MenuCommand::Export(ExportFormat::Html)));
    tail.push(AppMenuEntry::Divider);
    tail.push(item("Fechar documento", Some(command_shortcut("W", m)), false, free, MenuCommand::CloseDocument(d.active_id())));
    tail.push(item("Reabrir aba fechada", Some(command_shift_shortcut("T", m)), false, free && c.can_reopen, MenuCommand::ReopenClosedDocument));
    tail.push(item("Próxima aba", Some("Ctrl+Tab".to_owned()), false, free && count > 1, MenuCommand::ActivateRelativeDocument(false)));
    tail.push(item("Aba anterior", Some("Ctrl+Shift+Tab".to_owned()), false, free && count > 1, MenuCommand::ActivateRelativeDocument(true)));
    tail.push(item("Mover aba para a esquerda", Some("Ctrl+Shift+PageUp".to_owned()), false, free && position > 0, MenuCommand::MoveActiveDocument(true)));
    tail.push(item("Mover aba para a direita", Some("Ctrl+Shift+PageDown".to_owned()), false, free && position < count - 1, MenuCommand::MoveActiveDocument(false)));
    tail.push(item("Sair", Some(command_shortcut("Q", m)), false, true, MenuCommand::Exit));
    let ghost last = entries_view(tail@);
    let ghost middle = entries_view(head@);
    head.append(&mut tail);
    proof {
        assert(entries_view(head@) =~= middle + last);
        assert(file_menu(*c, *d) =~= first + recent_entries(*c) + last);
    }
    head
}

/// The Edit menu.
pub open spec fn edit_menu(c: MenuContext) -> Seq<EntryView<Command>> {
    let can_edit = !c.file_busy;
    let m = c.macos;
    seq![
        shown("Desfazer"@, Some(shortcut_label("Z"@, m)), false, can_edit, MenuCommand::Editor(EditorAction::Undo)),
        shown("Refazer"@, Some(shift_shortcut_label("Z"@, m)), false, can_edit, MenuCommand::Editor(EditorAction::Redo)),
        EntryView::Divider,
        shown("Buscar…"@, Some(shortcut_label("F"@, m)), false, true, MenuCommand::OpenSearch),
        shown("Buscar no projeto…"@, Some(shift_shortcut_label("F"@, m)), false, true, MenuCommand::OpenProjectSearch),
        shown("Substituir…"@, Some(shortcut_label("H"@, m)), false, true, MenuCommand::OpenReplace),
        EntryView::Divider,
        shown("Alternar comentário de linha"@, None, false, can_edit, MenuCommand::Editor(EditorAction::ToggleLineComment)),
        shown("Duplicar linha ou seleção"@, None, false, can_edit, MenuCommand::Editor(EditorAction::DuplicateLine)),
        shown("Mover linha para cima"@, None, false, can_edit, MenuCommand::Editor(EditorAction::MoveLineUp)),
        shown("Mover linha para baixo"@, None, false, can_edit, MenuCommand::Editor(EditorAction::MoveLineDown)),
        EntryView::Divider,
        shown("Configurações…"@, None, false, true, MenuCommand::ToggleSettings),
    ]
}

/// Builds the Edit menu.
fn edit_menu_entries(c: &MenuContext) -> (r: Vec<AppMenuEntry<MenuCommand<String>>>)
    ensures
        entries_view(r@) == edit_menu(*c),
{
    let can_edit = !c.file_busy;
    let m = c.macos;
    let mut v: Vec<AppMenuEntry<MenuCommand<String>>> = Vec::new();
    v.push(item("Desfazer", Some(command_shortcut("Z", m)), false, can_edit, MenuCommand::Editor(EditorAction::Undo)));
    v.push(item("Refazer", Some(command_shift_shortcut("Z", m)), false, can_edit, MenuCommand::Editor(EditorAction::Redo)));
    v.push(AppMenuEntry::Divider);
    v.push(item("Buscar…", Some(command_shortcut("F", m)), false, true, MenuCommand::OpenSearch));
    v.push(item("Buscar no projeto…", Some(command_shift_shortcut("F", m)), false, true, MenuCommand::OpenProjectSearch));
    v.push(item("Substituir…", Some(command_shortcut("H", m)), false, true, MenuCommand::OpenReplace));
    v.push(AppMenuEntry::Divider);
    v.push(item("Alternar comentário de linha", None, false, can_edit, MenuCommand::Editor(EditorAction::ToggleLineComment)));
    v.push(item("Duplicar linha ou seleção", None, false, can_edit, MenuCommand::Editor(EditorAction::DuplicateLine)));
    v.push(item("Mover linha para cima", None, false, can_edit, MenuCommand::Editor(EditorAction::MoveLineUp)));
    v.push(item("Mover linha para baixo", None, false, can_edit, MenuCommand::Editor(EditorAction::MoveLineDown)));
    v.push(AppMenuEntry::Divider);
    v.push(item("Configurações…", None, false, true, MenuCommand::ToggleSettings));
    proof { assert(entries_view(v@) =~= edit_menu(*c)); }
    v
}

/// The View menu.
pub open spec fn view_menu(c: MenuContext, s: Settings) -> Seq<EntryView<Command>> {
    let m = c.macos;
    seq![
        shown("Mostrar árvore do projeto"@, None, c.project_pane_visible, true, MenuCommand::ToggleProjectPane),
        shown("Mostrar números de linha"@, None, s.show_gutter, true, MenuCommand::ShowGutter(!s.show_gutter)),
        shown("Quebrar linhas"@, None, s.wrap_lines, true, MenuCommand::WrapLines(!s.wrap_lines)),
        EntryView::Divider,
        shown("Diminuir zoom do preview"@, Some(shortcut_label("−"@, m)), false, s.preview_zoom > 25, MenuCommand::PreviewZoomOut),
        shown("Tamanho real do documento"@, Some(shortcut_label("0"@, m)), s.preview_zoom == 100, true, MenuCommand::PreviewZoomReset),
        shown("Aumentar zoom do preview"@, Some(shortcut_label("+"@, m)), false, s.preview_zoom < 300, MenuCommand::PreviewZoomIn),
    ]
}

/// Builds the View menu.
fn view_menu_entries(c: &MenuContext, s: &Settings) -> (r: Vec<AppMenuEntry<MenuCommand<String>>>)
    ensures
        entries_view(r@) == view_menu(*c, *s),
{
    let m = c.macos;
    let mut v: Vec<AppMenuEntry<MenuCommand<String>>> = Vec::new();
    v.push(item("Mostrar árvore do projeto", None, c.project_pane_visible, true, MenuCommand::ToggleProjectPane));
    v.push(item("Mostrar números de linha", None, s.show_gutter, true, MenuCommand::ShowGutter(!s.show_gutter)));
    v.push(item("Quebrar linhas", None, s.wrap_lines, true, MenuCommand::WrapLines(!s.wrap_lines)));
    v.push(AppMenuEntry::Divider);
    v.push(item("Diminuir zoom do preview", Some(command_shortcut("−", m)), false, s.preview_zoom > 25, MenuCommand::PreviewZoomOut));
    v.push(item("Tamanho real do documento", Some(command_shortcut("0", m)), s.preview_zoom == 100, true, MenuCommand::PreviewZoomReset));
    v.push(item("Aumentar zoom do preview", Some(command_shortcut("+", m)), false, s.preview_zoom < 300, MenuCommand::PreviewZoomIn));
    proof { assert(entries_view(v@) =~= view_menu(*c, *s)); }
    v
}

/// The Help menu.
pub open spec fn help_menu() -> Seq<EntryView<Command>> {
    seq![
        shown("Documentação do Typst"@, None, false, true, MenuCommand::OpenTypstDocumentation),
        EntryView::Divider,
        shown("Sobre o Typstation"@, None, false, true, MenuCommand::ShowAbout),
    ]
}

/// Builds the Help menu.
fn help_menu_entries() -> (r: Vec<AppMenuEntry<MenuCommand<String>>>)
    ensures
        entries_view(r@) == help_menu(),
{
    let mut v: Vec<AppMenuEntry<MenuCommand<String>>> = Vec::new();
    v.push(item("Documentação do Typst", None, false, true, MenuCommand::OpenTypstDocumentation));
    v.push(AppMenuEntry::Divider);
    v.push(item("Sobre o Typstation", None, false, true, MenuCommand::ShowAbout));
    proof { assert(entries_view(v@) =~= help_menu()); }
    v
}

/// The entries of a menu of the menu bar.
pub open spec fn menu_table(menu: AppMenu, c: MenuContext, d: Documents, s: Settings) -> Seq<EntryView<Command>> {
    match menu {
        AppMenu::File => file_menu(c, d),
        AppMenu::Edit => edit_menu(c),
        AppMenu::View => view_menu(c, s),
        AppMenu::Help => help_menu(),
    }
}

/// The entries of `menu`, read from the open documents, the settings and
/// the rest of the application's state.
pub fn menu_entries(menu: AppMenu, c: &MenuContext, d: &Documents, s: &Settings) -> (r: Vec<AppMenuEntry<MenuCommand<String>>>)
    requires
        d.wf(),
    ensures
        entries_view(r@) == menu_table(menu, *c, *d, *s),
{
    match menu {
        AppMenu::File => file_menu_entries(c, d),
        AppMenu::Edit => edit_menu_entries(c),
        AppMenu::View => view_menu_entries(c, s),
        AppMenu::Help => help_menu_entries(),
    }
}

/// The menu of the export button.
pub open spec fn export_menu(file_busy: bool, can_export: bool) -> Seq<EntryView<Command>> {
    let enabled = !file_busy && can_export;
    seq![
        shown("Exportar como SVG…"@, None, false, enabled, MenuCommand::Export(ExportFormat::Svg)),
        shown("Exportar como HTML…"@, None, false, enabled, MenuCommand::Export(ExportFormat::Html)),
        EntryView::Divider,
        shown("Configurações de exportação…"@, None, false, true, MenuCommand::OpenExportSettings),
    ]
}

/// The entries of the export button's menu.
pub fn export_menu_entries(file_busy: bool, can_export: bool) -> (r: Vec<AppMenuEntry<MenuCommand<String>>>)
    ensures
        entries_view(r@) == export_menu(file_busy, can_export),
{
    let enabled = !file_busy && can_export;
    let mut v: Vec<AppMenuEntry<MenuCommand<String>>> = Vec::new();
    v.push(item("Exportar como SVG…", None, false, enabled, MenuCommand::Export(ExportFormat::Svg)));
    v.push(item("Exportar como HTML…", None, false, enabled, MenuCommand::Export(ExportFormat::Html)));
    v.push(AppMenuEntry::Divider);
    v.push(item("Configurações de exportação…", None, false, true, MenuCommand::OpenExportSettings));
    proof { assert(entries_view(v@) =~= export_menu(file_busy, can_export)); }
    v
}

/// The entries of a context menu that depend on the kind of its entry.
pub open spec fn context_own_entries(v: ProjectStateView, path: Seq<char>, kind: EntryKind, enabled: bool) -> Seq<EntryView<Command>> {
    let rename = shown("Renomear…"@, None, false, enabled, MenuCommand::RenameProjectEntry(path, kind));
    let delete = shown("Excluir…"@, None, false, enabled, MenuCommand::DeleteProjectEntry(path, kind));
    match kind {
        EntryKind::Directory => seq![
            shown(if v.expanded.contains(path) { "Recolher pasta"@ } else { "Expandir pasta"@ }, None, false, enabled,
                MenuCommand::OpenProjectEntry(path, kind)),
            EntryView::Divider,
            shown("Novo arquivo Typst…"@, None, false, enabled, MenuCommand::CreateProjectFileAt(path)),
            shown("Nova pasta…"@, None, false, enabled, MenuCommand::CreateProjectDirectoryAt(path)),
        ] + if path == v.root { Seq::empty() } else { seq![EntryView::Divider, rename, delete] },
        EntryKind::TypstFile => seq![
            shown("Abrir"@, None, false, enabled, MenuCommand::OpenProjectEntry(path, kind)),
            EntryView::Divider,
            shown("Fixar este arquivo no Preview"@, None, v.project_main == Some(path), enabled, MenuCommand::SetProjectMain(path)),
            shown("Acompanhar a aba ativa"@, None, v.project_main is None, enabled && v.project_main is Some, MenuCommand::ClearProjectMain),
            EntryView::Divider,
            rename,
            delete,
        ],
        EntryKind::File => seq![rename, delete],
    }
}

/// The entries that every context menu ends with.
pub open spec fn context_common_entries(path: Seq<char>, kind: EntryKind, is_root: bool, enabled: bool, scan_busy: bool) -> Seq<EntryView<Command>> {
    let copies = if is_root {
        Seq::empty()
    } else {
        seq![
            shown("Duplicar"@, None, false, enabled, MenuCommand::DuplicateProjectEntry(path, kind)),
            shown("Mover para…"@, None, false, enabled, MenuCommand::MoveProjectEntry(path, kind)),
        ]
    };
    seq![EntryView::Divider, shown("Copiar caminho"@, None, false, enabled, MenuCommand::CopyProjectPath(path))]
        + copies + seq![EntryView::Divider, shown("Atualizar árvore"@, None, false, enabled && !scan_busy, MenuCommand::RefreshProjectTree)]
}

/// The context menu of the entry `path` of the project tree: an entry of its
/// own for each kind of entry, then copying the path, duplicating and moving
/// (but for the root of the project) and refreshing the tree.
pub open spec fn context_menu(v: ProjectStateView, path: Seq<char>, kind: EntryKind, file_busy: bool, scan_busy: bool) -> Seq<EntryView<Command>> {
    context_own_entries(v, path, kind, !file_busy) + context_common_entries(path, kind, path == v.root, !file_busy, scan_busy)
}

fn directory_context_entries(state: &ProjectState, path: &str, enabled: bool) -> (r: Vec<AppMenuEntry<MenuCommand<String>>>)
    ensures
        entries_view(r@) == context_own_entries(state@, path@, EntryKind::Directory, enabled),
{
    let kind = EntryKind::Directory;
    let mut v: Vec<AppMenuEntry<MenuCommand<String>>> = Vec::new();
    let label = if state.is_expanded(path) { "Recolher pasta" } else { "Expandir pasta" };
    v.push(item(label, None, false, enabled, MenuCommand::OpenProjectEntry(path.to_owned(), kind)));
    v.push(AppMenuEntry::Divider);
    v.push(item("Novo arquivo Typst…", None, false, enabled, MenuCommand::CreateProjectFileAt(path.to_owned())));
    v.push(item("Nova pasta…", None, false, enabled, MenuCommand::CreateProjectDirectoryAt(path.to_owned())));
    if !str_eq(path, state.root()) {
        v.push(AppMenuEntry::Divider);
        v.push(item("Renomear…", None, false, enabled, MenuCommand::RenameProjectEntry(path.to_owned(), kind)));
        v.push(item("Excluir…", None, false, enabled, MenuCommand::DeleteProjectEntry(path.to_owned(), kind)));
    }
    proof { assert(entries_view(v@) =~= context_own_entries(state@, path@, kind, enabled)); }
    v
}

fn typst_file_context_entries(state: &ProjectState, path: &str, enabled: bool) -> (r: Vec<AppMenuEntry<MenuCommand<String>>>)
    ensures
        entries_view(r@) == context_own_entries(state@, path@, EntryKind::TypstFile, enabled),
{
    let kind = EntryKind::TypstFile;
    let pinned = match state.project_main() {
        Some(main) => str_eq(main.as_str(), path),
        None => false,
    };
    let follows = state.project_main().is_none();
    let mut v: Vec<AppMenuEntry<MenuCommand<String>>> = Vec::new();
    v.push(item("Abrir", None, false, enabled, MenuCommand::OpenProjectEntry(path.to_owned(), kind)));
    v.push(AppMenuEntry::Divider);
    v.push(item("Fixar este arquivo no Preview", None, pinned, enabled, MenuCommand::SetProjectMain(path.to_owned())));
    v.push(item("Acompanhar a aba ativa", None, follows, enabled && !follows, MenuCommand::ClearProjectMain));
    v.push(AppMenuEntry::Divider);
    v.push(item("Renomear…", None, false, enabled, MenuCommand::RenameProjectEntry(path.to_owned(), kind)));
    v.push(item("Excluir…", None, false, enabled, MenuCommand::DeleteProjectEntry(path.to_owned(), kind)));
    proof { assert(entries_view(v@) =~= context_own_entries(state@, path@, kind, enabled)); }
    v
}

fn common_context_entries(path: &str, kind: EntryKind, is_root: bool, enabled: bool, scan_busy: bool) -> (r: Vec<AppMenuEntry<MenuCommand<String>>>)
    ensures
        entries_view(r@) == context_common_entries(path@, kind, is_root, enabled, scan_busy),
{
    let mut v: Vec<AppMenuEntry<MenuCommand<String>>> = Vec::new();
    v.push(AppMenuEntry::Divider);
    v.push(item("Copiar caminho", None, false, enabled, MenuCommand::CopyProjectPath(path.to_owned())));
    if !is_root {
        v.push(item("Duplicar", None, false, enabled, MenuCommand::DuplicateProjectEntry(path.to_owned(), kind)));
        v.push(item("Mover para…", None, false, enabled, MenuCommand::MoveProjectEntry(path.to_owned(), kind)));
    }
    v.push(AppMenuEntry::Divider);
    v.push(item("Atualizar árvore", None, false, enabled && !scan_busy, MenuCommand::RefreshProjectTree));
    proof { assert(entries_view(v@) =~= context_common_entries(path@, kind, is_root, enabled, scan_busy)); }
    v
}

/// The entries of the context menu of the entry `path` of the project tree,
/// while a file operation runs (`file_busy`) or the tree is being scanned
/// (`scan_busy`) or not.
pub fn project_context_entries(state: &ProjectState, path: &str, kind: EntryKind, file_busy: bool, scan_busy: bool)
    -> (r: Vec<AppMenuEntry<MenuCommand<String>>>)
    ensures
        entries_view(r@) == context_menu(state@, path@, kind, file_busy, scan_busy),
{
    let enabled = !file_busy;
    let mut own = match kind {
        EntryKind::Directory => directory_context_entries(state, path, enabled),
        EntryKind::TypstFile => typst_file_context_entries(state, path, enabled),
        EntryKind::File => {
            let mut v: Vec<AppMenuEntry<MenuCommand<String>>> = Vec::new();
            v.push(item("Renomear…", None, false, enabled, MenuCommand::RenameProjectEntry(path.to_owned(), kind)));
            v.push(item("Excluir…", None, false, enabled, MenuCommand::DeleteProjectEntry(path.to_owned(), kind)));
            proof { assert(entries_view(v@) =~= context_own_entries(state@, path@, kind, enabled)); }
            v
        },
    };
    let ghost own_view = entries_view(own@);
    let is_root = str_eq(path, state.root());
    let mut rest = common_context_entries(path, kind, is_root, enabled, scan_busy);
    let ghost rest_view = entries_view(rest@);
    own.append(&mut rest);
    proof { assert(entries_view(own@) =~= own_view + rest_view); }
    own
}

/// A command that renames, deletes, duplicates or moves an entry of the
/// project.
pub open spec fn changes_entry(c: Command) -> bool {
    ||| c is RenameProjectEntry
    ||| c is DeleteProjectEntry
    ||| c is DuplicateProjectEntry
    ||| c is MoveProjectEntry
}

/// Whether an entry is an item that can be chosen.
pub open spec fn is_enabled(e: EntryView<Command>) -> bool {
    e matches EntryView::Item { enabled, .. } && enabled
}

/// Whether an entry is an item that runs `c`.
pub open spec fn runs(e: EntryView<Command>, c: Command) -> bool {
    e matches EntryView::Item { command, .. } && command == c
}

/// The context menu of the project's root directory offers nothing that
/// renames, deletes, duplicates or moves it.
pub proof fn law_context_menu_keeps_the_root(v: ProjectStateView, file_busy: bool, scan_busy: bool)
    ensures
        forall|i: int| 0 <= i < context_menu(v, v.root, EntryKind::Directory, file_busy, scan_busy).len() ==>
            !(#[trigger] context_menu(v, v.root, EntryKind::Directory, file_busy, scan_busy)[i] matches EntryView::Item { command, .. }
                && changes_entry(command)),
{
    let m = context_menu(v, v.root, EntryKind::Directory, file_busy, scan_busy);
    let own = context_own_entries(v, v.root, EntryKind::Directory, !file_busy);
    let common = context_common_entries(v.root, EntryKind::Directory, true, !file_busy, scan_busy);
    assert(own.len() == 4);
    assert(common.len() == 4);
    assert forall|i: int| 0 <= i < m.len() implies !(#[trigger] m[i] matches EntryView::Item { command, .. } && changes_entry(command)) by {
        if i < 4 {
            assert(m[i] == own[i]);
        } else {
            assert(m[i] == common[i - 4]);
        }
    }
}

/// While a file operation runs, nothing in a context menu of the project
/// tree can be chosen.
pub proof fn law_busy_context_menu_is_disabled(v: ProjectStateView, path: Seq<char>, kind: EntryKind, scan_busy: bool)
    ensures
        forall|i: int| 0 <= i < context_menu(v, path, kind, true, scan_busy).len() ==>
            !is_enabled(#[trigger] context_menu(v, path, kind, true, scan_busy)[i]),
{
    let m = context_menu(v, path, kind, true, scan_busy);
    let own = context_own_entries(v, path, kind, false);
    let common = context_common_entries(path, kind, path == v.root, false, scan_busy);
    assert forall|i: int| 0 <= i < m.len() implies !is_enabled(#[trigger] m[i]) by {
        if i < own.len() {
            assert(m[i] == own[i]);
        } else {
            assert(m[i] == common[i - own.len()]);
        }
    }
}

/// While a file operation runs, the only item of the File menu that can be
/// chosen is the one that quits, and it always can.
pub proof fn law_busy_file_menu_only_quits(c: MenuContext, d: Documents)
    requires
        c.file_busy,
    ensures
        forall|i: int| 0 <= i < file_menu(c, d).len() && is_enabled(#[trigger] file_menu(c, d)[i]) ==>
            runs(file_menu(c, d)[i], MenuCommand::Exit),
        is_enabled(file_menu(c, d).last()) && runs(file_menu(c, d).last(), MenuCommand::Exit),
{
    let m = file_menu(c, d);
    let recent = recent_entries(c);
    let all = c.recent_projects@;
    let n = if all.len() < RECENT_PROJECTS_SHOWN { all.len() as int } else { RECENT_PROJECTS_SHOWN as int };
    assert forall|k: int| 0 <= k < recent.len() implies !is_enabled(#[trigger] recent[k]) by {
        if k > 0 {
            assert(recent[k] == recent_item(all.take(n)[k - 1], c.file_busy));
        }
    }
    assert forall|i: int| 0 <= i < m.len() && is_enabled(#[trigger] m[i]) implies runs(m[i], MenuCommand::Exit) by {
        if 3 <= i < 3 + recent.len() {
            assert(m[i] == recent[i - 3]);
        }
    }
}

} // verus!
