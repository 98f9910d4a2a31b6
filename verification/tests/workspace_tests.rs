use typstation::document::{Document, Documents};
use typstation::menus::{
    enabled_menu_items, first_enabled_menu_item, menu_command_at, move_menu_focus,
    switched_menu, AppMenuEntry, MenuNavigation,
};
use typstation::interface::AppMenu;
use typstation::app_menus::MenuCommand;

type Command = MenuCommand<String>;
use typstation::project::{EntryKind, ProjectEntry};
use typstation::workspace::{
    documents_under, relocate_documents, tree_action, visible_project_entries, ProjectState,
    TreeAction, TreeNavigation,
};

#[test]
fn menu_navigation_skips_disabled_items_and_dividers() {
    let entries = vec![
        AppMenuEntry::item("Desabilitado".to_owned(), None, false, false, Command::SaveDocument),
        AppMenuEntry::Divider,
        AppMenuEntry::item("Primeiro".to_owned(), None, false, true, Command::OpenSearch),
        AppMenuEntry::item("Segundo".to_owned(), None, false, true, Command::OpenReplace),
    ];

    assert_eq!(enabled_menu_items(&entries), vec![1, 2]);
    assert_eq!(first_enabled_menu_item(&entries), Some(1));
    assert!(menu_command_at(&entries, 0).is_none());
    assert!(matches!(menu_command_at(&entries, 1), Some(Command::OpenSearch)));
    assert!(menu_command_at(&entries, 5).is_none());
}

#[test]
fn menu_focus_goes_round_the_enabled_items() {
    let enabled = vec![1, 2, 4];
    assert_eq!(move_menu_focus(&enabled, 4, MenuNavigation::NextItem), Some(1));
    assert_eq!(move_menu_focus(&enabled, 1, MenuNavigation::PreviousItem), Some(4));
    assert_eq!(move_menu_focus(&enabled, 3, MenuNavigation::NextItem), Some(2));
    assert_eq!(move_menu_focus(&enabled, 2, MenuNavigation::FirstItem), Some(1));
    assert_eq!(move_menu_focus(&enabled, 2, MenuNavigation::LastItem), Some(4));
    assert_eq!(move_menu_focus(&Vec::new(), 0, MenuNavigation::NextItem), None);
    assert_eq!(move_menu_focus(&enabled, 2, MenuNavigation::Activate), None);
    assert_eq!(switched_menu(AppMenu::Help, MenuNavigation::NextMenu), Some(AppMenu::File));
    assert_eq!(switched_menu(AppMenu::File, MenuNavigation::PreviousMenu), Some(AppMenu::Help));
    assert_eq!(switched_menu(AppMenu::File, MenuNavigation::NextItem), None);
}

fn tree() -> Vec<ProjectEntry> {
    vec![ProjectEntry {
        path: "/p/chapters".to_owned(),
        kind: EntryKind::Directory,
        children: vec![ProjectEntry {
            path: "/p/chapters/one.typ".to_owned(),
            kind: EntryKind::TypstFile,
            children: Vec::new(),
        }],
    }]
}

#[test]
fn project_tree_keyboard_navigation_respects_expansion() {
    let mut state = ProjectState::new("/p".to_owned());
    state.expand("/p");
    let tree = tree();

    let rows = visible_project_entries(&state, &tree);
    assert_eq!(rows.len(), 2);
    assert_eq!(
        tree_action(&rows, Some("/p/chapters"), &state, TreeNavigation::ChildOrExpand),
        TreeAction::Expand(1)
    );
    state.expand("/p/chapters");

    let rows = visible_project_entries(&state, &tree);
    assert_eq!(rows.len(), 3);
    assert_eq!(
        tree_action(&rows, Some("/p/chapters"), &state, TreeNavigation::ChildOrExpand),
        TreeAction::Select(2)
    );
    assert_eq!(
        tree_action(&rows, Some("/p/chapters/one.typ"), &state, TreeNavigation::ParentOrCollapse),
        TreeAction::Select(1)
    );
    assert_eq!(
        tree_action(&rows, Some("/p/chapters"), &state, TreeNavigation::ParentOrCollapse),
        TreeAction::Collapse(1)
    );
    assert_eq!(tree_action(&rows, None, &state, TreeNavigation::Last), TreeAction::Select(2));
    assert_eq!(tree_action(&rows, Some("/elsewhere"), &state, TreeNavigation::Next), TreeAction::Select(1));
    assert_eq!(tree_action(&rows, Some("/p"), &state, TreeNavigation::Previous), TreeAction::Select(0));
    assert_eq!(tree_action(&rows, Some("/p/chapters/one.typ"), &state, TreeNavigation::Activate), TreeAction::Open(2));
}

#[test]
fn revealing_an_entry_expands_its_ancestors_inside_the_project() {
    let mut state = ProjectState::new("/p".to_owned());
    state.reveal_entry("/p/a/b/c.typ");

    assert!(state.is_expanded("/p"));
    assert!(state.is_expanded("/p/a"));
    assert!(state.is_expanded("/p/a/b"));
    assert!(!state.is_expanded("/"));
    assert_eq!(state.selected_entry().map(|s| s.as_str()), Some("/p/a/b/c.typ"));
}

#[test]
fn created_entries_are_revealed_and_selected() {
    let mut state = ProjectState::new("/p".to_owned());
    assert_eq!(state.after_created("/p/novo.typ", EntryKind::TypstFile), "Arquivo criado: /p/novo.typ");
    assert_eq!(state.selected_file().map(|s| s.as_str()), Some("/p/novo.typ"));

    assert_eq!(state.after_created("/p/pasta", EntryKind::Directory), "Pasta criada: /p/pasta");
    assert!(state.is_expanded("/p/pasta"));
    assert_eq!(state.selected_file(), None);
}

#[test]
fn renaming_a_directory_moves_what_was_inside() {
    let mut state = ProjectState::new("/p".to_owned());
    state.expand("/p");
    state.expand("/p/old");
    state.expand("/p/old/sub");
    state.set_project_main(Some("/p/old/main.typ".to_owned()));

    let status = state.after_renamed("/p/old", "/p/new", EntryKind::Directory);

    assert_eq!(status, "Pasta renomeado: /p/old -> /p/new");
    assert_eq!(state.project_main().map(|s| s.as_str()), Some("/p/new/main.typ"));
    assert!(state.is_expanded("/p/new"));
    assert!(state.is_expanded("/p/new/sub"));
    assert!(!state.is_expanded("/p/old"));
    assert_eq!(state.selected_entry().map(|s| s.as_str()), Some("/p/new"));
}

#[test]
fn deleting_a_directory_forgets_what_was_inside() {
    let mut state = ProjectState::new("/p".to_owned());
    state.expand("/p");
    state.expand("/p/cap");
    state.expand("/p/cap/sub");
    state.set_project_main(Some("/p/cap/main.typ".to_owned()));
    state.reveal_entry("/p/cap/sub/x.typ");

    let (status, main_deleted) = state.after_deleted("/p/cap", EntryKind::Directory);

    assert!(main_deleted);
    assert_eq!(status, "Pasta excluída: /p/cap; o Preview agora acompanha a aba ativa");
    assert_eq!(state.project_main(), None);
    assert!(state.is_expanded("/p"));
    assert!(!state.is_expanded("/p/cap"));
    assert!(!state.is_expanded("/p/cap/sub"));
    assert_eq!(state.selected_entry(), None);

    let (status, main_deleted) = state.after_deleted("/p/outro.typ", EntryKind::File);
    assert!(!main_deleted);
    assert_eq!(status, "Arquivo excluído: /p/outro.typ");
}

#[test]
fn open_documents_follow_renames_and_deletions() {
    let mut documents = Documents::new(Document::opened("/p/old/a.typ".to_owned(), "a".to_owned()));
    let second = documents.add(Document::opened("/p/b.typ".to_owned(), "b".to_owned()));
    let third = documents.add(Document::opened("/p/old/c.typ".to_owned(), "c".to_owned()));

    assert!(relocate_documents(&mut documents, "/p/old", "/p/new", EntryKind::Directory));
    assert_eq!(documents.document_at(0).path(), Some("/p/new/a.typ"));
    assert_eq!(documents.document_at(1).path(), Some("/p/b.typ"));
    assert_eq!(documents.document_at(2).path(), Some("/p/new/c.typ"));
    assert_eq!(documents.active_id(), third);

    let inside = documents_under(&documents, "/p/new", EntryKind::Directory);
    assert_eq!(inside.len(), 2);
    assert!(!inside.contains(&second));
    assert_eq!(documents_under(&documents, "/p/b.typ", EntryKind::File), vec![second]);
}

#[test]
fn renaming_a_directory_remaps_open_documents_main_and_expansion() {
    let from = "/projeto/chapters";
    let to = "/projeto/sections";
    let mut documents = Documents::new(Document::opened("/projeto/chapters/one.typ".to_owned(), String::new()));
    documents.add(Document::opened("/projeto/chapters/nested/two.typ".to_owned(), String::new()));
    let mut state = ProjectState::new("/projeto".to_owned());
    state.set_project_main(Some("/projeto/chapters/one.typ".to_owned()));
    state.expand("/projeto");
    state.expand(from);
    state.expand("/projeto/chapters/nested");

    relocate_documents(&mut documents, from, to, EntryKind::Directory);
    state.after_renamed(from, to, EntryKind::Directory);

    let paths: Vec<_> = (0..documents.len())
        .filter_map(|index| documents.document_at(index).path().map(str::to_owned))
        .collect();
    assert!(paths.contains(&"/projeto/sections/one.typ".to_owned()));
    assert!(paths.contains(&"/projeto/sections/nested/two.typ".to_owned()));
    assert_eq!(state.project_main().map(|s| s.as_str()), Some("/projeto/sections/one.typ"));
    assert!(state.is_expanded(to));
    assert!(state.is_expanded("/projeto/sections/nested"));
}
