use typstation::app_menus::{
    export_menu_entries, menu_entries, project_context_entries, MenuCommand, MenuContext,
};
use typstation::document::{Document, Documents};
use typstation::interface::AppMenu;
use typstation::menu_overlay::{MenuOverlay, MenuStep, ShownOverlay};
use typstation::menus::{AppMenuEntry, MenuNavigation};
use typstation::project::EntryKind;
use typstation::settings::Settings;
use typstation::workspace::ProjectState;

type Entry = AppMenuEntry<MenuCommand<String>>;

fn context() -> MenuContext {
    MenuContext {
        file_busy: false,
        can_export: true,
        can_reopen: false,
        recent_projects: Vec::new(),
        project_pane_visible: true,
        macos: false,
    }
}

fn entries_of(menu: AppMenu) -> Vec<Entry> {
    let documents = Documents::new(Document::draft("rascunho"));
    menu_entries(menu, &context(), &documents, &Settings::default())
}

fn label_at(entries: &[Entry], position: usize) -> String {
    entries
        .iter()
        .filter_map(|entry| match entry {
            AppMenuEntry::Item { label, .. } => Some(label.clone()),
            AppMenuEntry::Divider => None,
        })
        .nth(position)
        .expect("an item at that position")
}

#[test]
fn pointer_drag_switches_between_menu_bar_submenus() {
    let mut overlay = MenuOverlay::new();

    overlay.pointer_entered(AppMenu::Edit, &entries_of(AppMenu::Edit));
    assert_eq!(overlay.shown(), ShownOverlay::Nothing);

    overlay.pointer_pressed(AppMenu::File, &entries_of(AppMenu::File));
    assert_eq!(overlay.shown(), ShownOverlay::Menu(AppMenu::File));
    assert!(overlay.dragging());

    overlay.pointer_entered(AppMenu::View, &entries_of(AppMenu::View));
    assert_eq!(overlay.shown(), ShownOverlay::Menu(AppMenu::View));

    overlay.pointer_released();
    assert!(!overlay.dragging());
    assert_eq!(overlay.shown(), ShownOverlay::Menu(AppMenu::View));

    overlay.pointer_entered(AppMenu::Help, &entries_of(AppMenu::Help));
    assert_eq!(overlay.shown(), ShownOverlay::Menu(AppMenu::Help));

    overlay.dismiss();
    overlay.pointer_entered(AppMenu::File, &entries_of(AppMenu::File));
    assert_eq!(overlay.shown(), ShownOverlay::Nothing);
}

#[test]
fn export_overflow_contains_related_actions_and_can_be_dismissed() {
    let mut overlay = MenuOverlay::new();
    let entries = export_menu_entries(false, true);
    assert_eq!(label_at(&entries, 0), "Exportar como SVG…");
    assert_eq!(label_at(&entries, 1), "Exportar como HTML…");
    assert_eq!(label_at(&entries, 2), "Configurações de exportação…");

    overlay.toggle_export(&entries);
    assert_eq!(overlay.shown(), ShownOverlay::Export);
    overlay.dismiss();
    assert_eq!(overlay.shown(), ShownOverlay::Nothing);
}

#[test]
fn clicking_an_open_menu_title_closes_it() {
    let mut overlay = MenuOverlay::new();
    let file = entries_of(AppMenu::File);
    overlay.toggle_menu(AppMenu::File, &file);
    assert_eq!(overlay.shown(), ShownOverlay::Menu(AppMenu::File));
    overlay.toggle_menu(AppMenu::File, &file);
    assert_eq!(overlay.shown(), ShownOverlay::Nothing);
}

#[test]
fn only_one_overlay_is_shown_at_a_time() {
    let mut overlay = MenuOverlay::new();
    let state = ProjectState::new("/p".to_owned());
    let context_entries = project_context_entries(&state, "/p/a.typ", EntryKind::TypstFile, false, false);

    overlay.toggle_menu(AppMenu::Edit, &entries_of(AppMenu::Edit));
    overlay.show_context("/p/a.typ".to_owned(), EntryKind::TypstFile, &context_entries, false);
    assert_eq!(overlay.shown(), ShownOverlay::Context);
    assert_eq!(overlay.context(), Some(("/p/a.typ", EntryKind::TypstFile)));

    overlay.toggle_export(&export_menu_entries(false, true));
    assert_eq!(overlay.shown(), ShownOverlay::Export);
    assert_eq!(overlay.context(), None);

    overlay.toggle_menu(AppMenu::Help, &entries_of(AppMenu::Help));
    assert_eq!(overlay.shown(), ShownOverlay::Menu(AppMenu::Help));
}

#[test]
fn busy_files_keep_the_context_menu_closed() {
    let mut overlay = MenuOverlay::new();
    let state = ProjectState::new("/p".to_owned());
    let entries = project_context_entries(&state, "/p", EntryKind::Directory, true, false);
    overlay.show_context("/p".to_owned(), EntryKind::Directory, &entries, true);
    assert_eq!(overlay.shown(), ShownOverlay::Nothing);
}

#[test]
fn escape_closes_one_overlay_at_a_time() {
    let mut overlay = MenuOverlay::new();
    assert!(!overlay.escape());
    overlay.pointer_pressed(AppMenu::View, &entries_of(AppMenu::View));
    assert!(overlay.escape());
    assert!(!overlay.dragging());
    assert_eq!(overlay.shown(), ShownOverlay::Nothing);
    assert!(!overlay.escape());
}

#[test]
fn keyboard_moves_between_menus_items_and_commands() {
    let mut overlay = MenuOverlay::new();
    let help = entries_of(AppMenu::Help);
    assert!(matches!(overlay.navigate(MenuNavigation::NextItem, &help), MenuStep::Nothing));

    overlay.toggle_menu(AppMenu::Help, &help);
    assert_eq!(overlay.focus(), 0);
    assert!(matches!(overlay.navigate(MenuNavigation::NextMenu, &help), MenuStep::Show(AppMenu::File)));
    assert!(matches!(overlay.navigate(MenuNavigation::PreviousMenu, &help), MenuStep::Show(AppMenu::View)));

    overlay.navigate(MenuNavigation::NextItem, &help);
    assert_eq!(overlay.focus(), 1);
    overlay.navigate(MenuNavigation::NextItem, &help);
    assert_eq!(overlay.focus(), 0);
    overlay.navigate(MenuNavigation::LastItem, &help);
    assert_eq!(overlay.focus(), 1);
    match overlay.navigate(MenuNavigation::Activate, &help) {
        MenuStep::Run(command) => assert!(matches!(command, MenuCommand::ShowAbout)),
        _ => panic!("the focused item runs its command"),
    }

    overlay.focus_item(0);
    assert_eq!(overlay.focus(), 0);
    overlay.dismiss();
    overlay.focus_item(1);
    assert_eq!(overlay.focus(), 0);
}
