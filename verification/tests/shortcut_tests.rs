use typstation::shortcuts::{shortcut_action, KeyModifiers, ShortcutAction};

const COMMAND: KeyModifiers = KeyModifiers { command: true, shift: false, alt: false };
const COMMAND_SHIFT: KeyModifiers = KeyModifiers { command: true, shift: true, alt: false };
const COMMAND_ALT: KeyModifiers = KeyModifiers { command: true, shift: false, alt: true };
const NONE: KeyModifiers = KeyModifiers { command: false, shift: false, alt: false };

#[test]
fn command_shortcuts_reuse_application_messages() {
    assert_eq!(shortcut_action('n', COMMAND), Some(ShortcutAction::NewDocument));
    assert_eq!(shortcut_action('o', COMMAND), Some(ShortcutAction::OpenDocument));
    assert_eq!(shortcut_action('o', COMMAND_SHIFT), Some(ShortcutAction::OpenProject));
    assert_eq!(shortcut_action('s', COMMAND), Some(ShortcutAction::SaveDocument));
    assert_eq!(shortcut_action('s', COMMAND_SHIFT), Some(ShortcutAction::SaveDocumentAs));
    assert_eq!(shortcut_action('q', COMMAND), Some(ShortcutAction::ExitApplication));
    assert_eq!(shortcut_action('b', COMMAND), Some(ShortcutAction::Bold));
    assert_eq!(shortcut_action('i', COMMAND), Some(ShortcutAction::Italic));
    assert_eq!(shortcut_action('u', COMMAND), Some(ShortcutAction::Underline));
    assert_eq!(shortcut_action('f', COMMAND), Some(ShortcutAction::OpenSearch));
    assert_eq!(shortcut_action('h', COMMAND), Some(ShortcutAction::OpenReplace));
    assert_eq!(shortcut_action('j', COMMAND), Some(ShortcutAction::RevealInPreview));
    assert_eq!(shortcut_action('f', COMMAND_SHIFT), Some(ShortcutAction::OpenProjectSearch));
    assert_eq!(shortcut_action('w', COMMAND), Some(ShortcutAction::CloseActiveDocument));
    assert_eq!(shortcut_action('t', COMMAND_SHIFT), Some(ShortcutAction::ReopenClosedDocument));
    assert_eq!(shortcut_action('s', COMMAND_ALT), Some(ShortcutAction::SaveAllDocuments));
    assert!(shortcut_action('s', NONE).is_none());
    assert!(shortcut_action('n', COMMAND_SHIFT).is_none());
}

#[test]
fn shortcuts_accept_capitals_and_zoom_keys() {
    assert_eq!(shortcut_action('S', COMMAND_SHIFT), Some(ShortcutAction::SaveDocumentAs));
    assert_eq!(shortcut_action('S', KeyModifiers { command: true, shift: true, alt: true }), Some(ShortcutAction::SaveAllDocuments));
    assert_eq!(shortcut_action('=', COMMAND), Some(ShortcutAction::PreviewZoomIn));
    assert_eq!(shortcut_action('+', COMMAND_SHIFT), Some(ShortcutAction::PreviewZoomIn));
    assert_eq!(shortcut_action('-', COMMAND), Some(ShortcutAction::PreviewZoomOut));
    assert_eq!(shortcut_action('0', COMMAND), Some(ShortcutAction::PreviewZoomReset));
    assert!(shortcut_action('n', COMMAND_ALT).is_none());
    assert!(shortcut_action('ç', COMMAND).is_none());
}
