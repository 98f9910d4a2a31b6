use typstation::ui::{MenuEntry, MenuItem, QuickSwitcherItem, TabItem, WorkflowIcon};

#[derive(Debug, Clone, PartialEq, Eq)]
enum Message {
    Select,
    Close,
}

#[test]
fn menu_item_builders_preserve_semantic_state() {
    let item = MenuItem::new("Mostrar números de linha".to_owned(), Some(1))
        .value("Ctrl+L".to_owned())
        .selected(true)
        .focused(true);

    assert_eq!(item.label, "Mostrar números de linha");
    assert_eq!(item.value.as_deref(), Some("Ctrl+L"));
    assert!(item.selected);
    assert!(item.focused);
    assert_eq!(item.on_press, Some(1));
    assert_eq!(item.on_focus, None);
}

#[test]
fn menu_item_focus_message_is_kept_apart_from_the_press_message() {
    let item = MenuItem::new("Abrir".to_owned(), Some(1)).on_focus(2);
    assert_eq!(item.on_press, Some(1));
    assert_eq!(item.on_focus, Some(2));
    assert!(!item.selected);
    assert!(!item.focused);
    assert_eq!(item.value, None);
    let entries = vec![MenuEntry::Item(item), MenuEntry::Divider];
    assert!(matches!(entries[1], MenuEntry::Divider));
}

#[test]
fn tab_item_keeps_selection_and_both_actions() {
    let item = TabItem::new("main.typ".to_owned(), Some(Message::Select), Some(Message::Close))
        .selected(true);

    assert_eq!(item.label, "main.typ");
    assert!(item.selected);
    assert_eq!(item.on_select, Some(Message::Select));
    assert_eq!(item.on_close, Some(Message::Close));
}

#[test]
fn new_tab_item_starts_unselected() {
    let item = TabItem::<Message>::new("a.typ".to_owned(), None, None);
    assert!(!item.selected);
    assert_eq!(item.on_select, None);
    assert_eq!(item.on_close, None);
}

#[test]
fn quick_switcher_item_focus_defaults_to_its_press_message() {
    let item = QuickSwitcherItem::new(WorkflowIcon::FolderOpen, "Abrir pasta".to_owned(), 3);
    assert_eq!(item.on_press, 3);
    assert_eq!(item.on_focus, 3);
    assert!(!item.selected);
    assert_eq!(item.detail, None);
    assert_eq!(item.shortcut, None);

    let item = item
        .detail("Projeto".to_owned())
        .shortcut(Some("Ctrl+O".to_owned()))
        .selected(true)
        .on_focus(4);
    assert_eq!(item.label, "Abrir pasta");
    assert_eq!(item.detail.as_deref(), Some("Projeto"));
    assert_eq!(item.shortcut.as_deref(), Some("Ctrl+O"));
    assert!(item.selected);
    assert_eq!(item.on_press, 3);
    assert_eq!(item.on_focus, 4);
}
