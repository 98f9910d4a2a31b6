//! The keyboard shortcuts of the main window.
use vstd::prelude::*;

verus! {

/// What a shortcut asks of the application.
#[derive(Debug, Clone, Copy, PartialEq, Eq, Structural)]
pub enum ShortcutAction {
    SaveAllDocuments,
    PreviewZoomIn,
    PreviewZoomOut,
    PreviewZoomReset,
    NewDocument,
    OpenDocument,
    OpenProject,
    SaveDocument,
    SaveDocumentAs,
    ExitApplication,
    CloseActiveDocument,
    ReopenClosedDocument,
    Bold,
    Italic,
    Underline,
    OpenSearch,
    OpenProjectSearch,
    OpenReplace,
    RevealInPreview,
}

/// The modifier keys held with a key: the command key (Ctrl, or ⌘ on
/// macOS), Shift and Alt (Option).
#[derive(Debug, Clone, Copy, PartialEq, Eq, Structural)]
pub struct KeyModifiers {
    pub command: bool,
    pub shift: bool,
    pub alt: bool,
}

/// `c` with an ASCII capital letter made small.
pub open spec fn ascii_lower(c: char) -> char {
    if 'A' <= c && c <= 'Z' { ((c as u32) + 32) as char } else { c }
}

/// Makes an ASCII capital letter small.
pub fn to_ascii_lower(c: char) -> (r: char)
    ensures
        r == ascii_lower(c),
{
    if 'A' <= c && c <= 'Z' {
        let b: u8 = (c as u32) as u8;
        let lower: u8 = b + 32;
        lower as char
    } else {
        c
    }
}

/// The action of the key `key` held with `modifiers`: with the command key
/// and Alt only S saves everything; otherwise the command key is needed
/// without Alt, and Shift tells apart the pairs of actions on one letter.
pub open spec fn shortcut(key: char, modifiers: KeyModifiers) -> Option<ShortcutAction> {
    let k = ascii_lower(key);
    if modifiers.command && modifiers.alt && k == 's' {
        Some(ShortcutAction::SaveAllDocuments)
    } else if !modifiers.command || modifiers.alt {
        None
    } else if k == '+' || k == '=' {
        Some(ShortcutAction::PreviewZoomIn)
    } else if k == '-' {
        Some(ShortcutAction::PreviewZoomOut)
    } else if k == '0' {
        Some(ShortcutAction::PreviewZoomReset)
    } else if modifiers.shift {
        if k == 'o' {
            Some(ShortcutAction::OpenProject)
        } else if k == 's' {
            Some(ShortcutAction::SaveDocumentAs)
        } else if k == 't' {
            Some(ShortcutAction::ReopenClosedDocument)
        } else if k == 'f' {
            Some(ShortcutAction::OpenProjectSearch)
        } else {
            None
        }
    } else if k == 'n' {
        Some(ShortcutAction::NewDocument)
    } else if k == 'o' {
        Some(ShortcutAction::OpenDocument)
    } else if k == 's' {
        Some(ShortcutAction::SaveDocument)
    } else if k == 'q' {
        Some(ShortcutAction::ExitApplication)
    } else if k == 'w' {
        Some(ShortcutAction::CloseActiveDocument)
    } else if k == 'b' {
        Some(ShortcutAction::Bold)
    } else if k == 'i' {
        Some(ShortcutAction::Italic)
    } else if k == 'u' {
        Some(ShortcutAction::Underline)
    } else if k == 'f' {
        Some(ShortcutAction::OpenSearch)
    } else if k == 'h' {
        Some(ShortcutAction::OpenReplace)
    } else if k == 'j' {
        Some(ShortcutAction::RevealInPreview)
    } else {
        None
    }
}

/// The action of a shortcut, if the keys make one.
pub fn shortcut_action(key: char, modifiers: KeyModifiers) -> (r: Option<ShortcutAction>)
    ensures
        r == shortcut(key, modifiers),
{
    let k = to_ascii_lower(key);
    if modifiers.command && modifiers.alt && k == 's' {
        return Some(ShortcutAction::SaveAllDocuments);
    }
    if !modifiers.command || modifiers.alt {
        return None;
    }
    match (k, modifiers.shift) {
        ('+', _) | ('=', _) => Some(ShortcutAction::PreviewZoomIn),
        ('-', _) => Some(ShortcutAction::PreviewZoomOut),
        ('0', _) => Some(ShortcutAction::PreviewZoomReset),
        ('n', false) => Some(ShortcutAction::NewDocument),
        ('o', false) => Some(ShortcutAction::OpenDocument),
        ('o', true) => Some(ShortcutAction::OpenProject),
        ('s', false) => Some(ShortcutAction::SaveDocument),
        ('s', true) => Some(ShortcutAction::SaveDocumentAs),
        ('q', false) => Some(ShortcutAction::ExitApplication),
        ('w', false) => Some(ShortcutAction::CloseActiveDocument),
        ('t', true) => Some(ShortcutAction::ReopenClosedDocument),
        ('b', false) => Some(ShortcutAction::Bold),
        ('i', false) => Some(ShortcutAction::Italic),
        ('u', false) => Some(ShortcutAction::Underline),
        ('f', false) => Some(ShortcutAction::OpenSearch),
        ('f', true) => Some(ShortcutAction::OpenProjectSearch),
        ('h', false) => Some(ShortcutAction::OpenReplace),
        ('j', false) => Some(ShortcutAction::RevealInPreview),
        _ => None,
    }
}

/// A shortcut does not depend on whether its letter was typed as a capital.
pub proof fn law_shortcuts_ignore_capitals(key: char, modifiers: KeyModifiers)
    ensures
        shortcut(key, modifiers) == shortcut(ascii_lower(key), modifiers),
{
    let k = ascii_lower(key);
    assert(ascii_lower(k) == k) by {
        if 'A' <= key && key <= 'Z' {
            assert((key as u32) + 32 > 'Z' as u32);
        }
    }
}

} // verus!
