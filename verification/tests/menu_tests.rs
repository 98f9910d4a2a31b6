use typstation::app_menus::{
    export_menu_entries, menu_entries, project_context_entries, EditorAction, MenuCommand,
    MenuContext,
};
use typstation::document::{Document, Documents};
use typstation::interface::AppMenu;
use typstation::menus::{first_enabled_menu_item, AppMenuEntry};
use typstation::project::{EntryKind, ProjectEntry};
use typstation::session::remember_recent_project;
use typstation::settings::Settings;
use typstation::workspace::ProjectState;

type Entry = AppMenuEntry<MenuCommand<String>>;

fn menu_labels(entries: &[Entry]) -> Vec<&str> {
    entries
        .iter()
        .filter_map(|entry| match entry {
            AppMenuEntry::Item { label, .. } => Some(label.as_str()),
            AppMenuEntry::Divider => None,
        })
        .collect()
}

fn find<'a>(entries: &'a [Entry], wanted: &str) -> (&'a Option<String>, bool, bool, &'a MenuCommand<String>) {
    for entry in entries {
        if let AppMenuEntry::Item { label, value, selected, enabled, command } = entry {
            if label == wanted {
                return (value, *selected, *enabled, command);
            }
        }
    }
    panic!("no item {wanted}");
}

fn context(file_busy: bool) -> MenuContext {
    MenuContext {
        file_busy,
        can_export: true,
        can_reopen: false,
        recent_projects: Vec::new(),
        project_pane_visible: true,
        macos: false,
    }
}

#[test]
fn project_context_menu_protects_the_root_and_exposes_directory_operations() {
    let state = ProjectState::new("/home/ana/tese".to_owned());
    let root = state.root().to_owned();
    let root_entries = project_context_entries(&state, &root, EntryKind::Directory, false, false);
    let root_labels = menu_labels(&root_entries);

    assert!(root_labels.contains(&"Novo arquivo Typst…"));
    assert!(root_labels.contains(&"Nova pasta…"));
    assert!(root_labels.contains(&"Atualizar árvore"));
    assert!(!root_labels.contains(&"Renomear…"));
    assert!(!root_labels.contains(&"Excluir…"));

    let folder = format!("{root}/capitulos");
    let folder_entries = project_context_entries(&state, &folder, EntryKind::Directory, false, false);
    let folder_labels = menu_labels(&folder_entries);

    assert!(folder_labels.contains(&"Renomear…"));
    assert!(folder_labels.contains(&"Excluir…"));
}

#[test]
fn creation_toolbar_targets_the_selected_directory_or_file_parent() {
    let directory = tempfile::tempdir().expect("a temporary project can be created");
    let root = directory.path().to_str().unwrap().to_owned();
    let chapters = format!("{root}/chapters");
    let chapter = format!("{chapters}/one.typ");
    let mut state = ProjectState::new(root.clone());
    let tree = vec![ProjectEntry {
        path: chapters.clone(),
        kind: EntryKind::Directory,
        children: vec![ProjectEntry {
            path: chapter.clone(),
            kind: EntryKind::TypstFile,
            children: Vec::new(),
        }],
    }];

    state.select_entry(&chapters, EntryKind::Directory);
    assert_eq!(state.selected_target_directory(&tree), chapters);

    state.select_entry(&chapter, EntryKind::TypstFile);
    assert_eq!(state.selected_target_directory(&tree), chapters);

    state.clear_selected_entry();
    assert_eq!(state.selected_target_directory(&tree), root);
}

#[test]
fn recent_projects_are_persisted_in_most_recent_first_order() {
    let first = tempfile::tempdir().expect("a first project can be created");
    let second = tempfile::tempdir().expect("a second project can be created");
    let first = first.path().to_str().unwrap().to_owned();
    let second = second.path().to_str().unwrap().to_owned();
    let mut recent: Vec<String> = Vec::new();

    remember_recent_project(&mut recent, &first);
    remember_recent_project(&mut recent, &second);
    remember_recent_project(&mut recent, &first);

    assert_eq!(recent[0], first);
    assert_eq!(recent[1], second);
    assert_eq!(recent.len(), 2);
}

#[test]
fn recent_projects_keep_the_ten_latest() {
    let mut recent: Vec<String> = Vec::new();
    for i in 0..12 {
        remember_recent_project(&mut recent, &format!("/p/{i}"));
    }
    assert_eq!(recent.len(), 10);
    assert_eq!(recent[0], "/p/11");
    assert_eq!(recent[9], "/p/2");
    remember_recent_project(&mut recent, "/p/5");
    assert_eq!(recent[0], "/p/5");
    assert_eq!(recent.iter().filter(|p| p.as_str() == "/p/5").count(), 1);
    assert_eq!(recent.len(), 10);
}

#[test]
fn file_menu_follows_the_documents_and_the_recent_projects() {
    let mut documents = Documents::new(Document::draft("rascunho"));
    documents.add(Document::new());
    let mut c = context(false);
    c.recent_projects = vec![("/p/um".to_owned(), true), ("/p/dois".to_owned(), false)];
    let entries = menu_entries(AppMenu::File, &c, &documents, &Settings::default());
    let labels = menu_labels(&entries);

    assert_eq!(
        &labels[..5],
        &["Novo documento", "Abrir arquivo…", "Abrir projeto…", "Projeto recente: /p/um", "Projeto recente: /p/dois"]
    );
    assert!(matches!(entries[3], AppMenuEntry::Divider));
    let (value, _, enabled, _) = find(&entries, "Novo documento");
    assert_eq!(value.as_deref(), Some("Ctrl+N"));
    assert!(enabled);
    assert!(find(&entries, "Projeto recente: /p/um").2);
    assert!(!find(&entries, "Projeto recente: /p/dois").2);
    assert!(find(&entries, "Próxima aba").2);
    assert_eq!(find(&entries, "Salvar tudo").0.as_deref(), Some("Ctrl+Alt+S"));
    assert!(find(&entries, "Salvar tudo").2);
    assert!(!find(&entries, "Salvar").2);
    assert!(!find(&entries, "Reabrir aba fechada").2);
    assert!(find(&entries, "Mover aba para a esquerda").2);
    assert!(!find(&entries, "Mover aba para a direita").2);
    assert!(matches!(find(&entries, "Sair").3, MenuCommand::Exit));
    assert_eq!(labels.len(), 18);
}

#[test]
fn only_quitting_is_possible_from_the_file_menu_while_busy() {
    let documents = Documents::new(Document::draft("rascunho"));
    let c = context(true);
    let entries = menu_entries(AppMenu::File, &c, &documents, &Settings::default());
    for entry in &entries {
        if let AppMenuEntry::Item { enabled: true, command, .. } = entry {
            assert!(matches!(command, MenuCommand::Exit));
        }
    }
    assert_eq!(first_enabled_menu_item(&entries), Some(menu_labels(&entries).len() - 1));
}

#[test]
fn edit_and_view_menus_reflect_the_settings() {
    let documents = Documents::new(Document::new());
    let mut c = context(false);
    c.macos = true;
    let edit = menu_entries(AppMenu::Edit, &c, &documents, &Settings::default());
    assert_eq!(find(&edit, "Desfazer").0.as_deref(), Some("⌘Z"));
    assert_eq!(find(&edit, "Refazer").0.as_deref(), Some("⇧⌘Z"));
    assert!(matches!(find(&edit, "Mover linha para baixo").3, MenuCommand::Editor(EditorAction::MoveLineDown)));

    let mut settings = Settings::default();
    settings.preview_zoom = 25;
    settings.show_gutter = false;
    let view = menu_entries(AppMenu::View, &c, &documents, &settings);
    assert!(!find(&view, "Diminuir zoom do preview").2);
    assert!(find(&view, "Aumentar zoom do preview").2);
    assert!(!find(&view, "Tamanho real do documento").1);
    assert!(!find(&view, "Mostrar números de linha").1);
    assert!(matches!(find(&view, "Mostrar números de linha").3, MenuCommand::ShowGutter(true)));
    assert!(find(&view, "Mostrar árvore do projeto").1);

    let help = menu_entries(AppMenu::Help, &c, &documents, &settings);
    assert_eq!(menu_labels(&help), vec!["Documentação do Typst", "Sobre o Typstation"]);
}

#[test]
fn export_menu_lists_the_related_actions() {
    let entries = export_menu_entries(false, true);
    assert_eq!(
        menu_labels(&entries),
        vec!["Exportar como SVG…", "Exportar como HTML…", "Configurações de exportação…"]
    );
    let disabled = export_menu_entries(false, false);
    assert!(!find(&disabled, "Exportar como SVG…").2);
    assert!(find(&disabled, "Configurações de exportação…").2);
}

#[test]
fn typst_file_context_menu_pins_the_preview() {
    let mut state = ProjectState::new("/p".to_owned());
    let entries = project_context_entries(&state, "/p/main.typ", EntryKind::TypstFile, false, true);
    assert!(!find(&entries, "Fixar este arquivo no Preview").1);
    assert!(find(&entries, "Acompanhar a aba ativa").1);
    assert!(!find(&entries, "Acompanhar a aba ativa").2);
    assert!(!find(&entries, "Atualizar árvore").2);
    assert!(matches!(find(&entries, "Duplicar").3, MenuCommand::DuplicateProjectEntry(p, EntryKind::TypstFile) if p == "/p/main.typ"));

    state.set_project_main(Some("/p/main.typ".to_owned()));
    let entries = project_context_entries(&state, "/p/main.typ", EntryKind::TypstFile, false, false);
    assert!(find(&entries, "Fixar este arquivo no Preview").1);
    assert!(find(&entries, "Acompanhar a aba ativa").2);

    let busy = project_context_entries(&state, "/p/main.typ", EntryKind::TypstFile, true, false);
    assert_eq!(first_enabled_menu_item(&busy), None);

    state.expand("/p/docs");
    let folder = project_context_entries(&state, "/p/docs", EntryKind::Directory, false, false);
    assert_eq!(menu_labels(&folder)[0], "Recolher pasta");
    assert!(matches!(find(&folder, "Nova pasta…").3, MenuCommand::CreateProjectDirectoryAt(p) if p == "/p/docs"));
}
