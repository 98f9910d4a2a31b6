use vstd::prelude::*;

verus! {

/// The workflow icons of the interface.
#[derive(Debug, Clone, Copy, PartialEq, Eq, Structural)]
pub enum WorkflowIcon {
    TextBold,
    TextItalic,
    TextUnderline,
    TextBulleted,
    TextNumbered,
    ChevronDown,
    ChevronRight,
    Document,
    FileCode,
    Folder,
    FolderOpen,
    Project,
    FileAdd,
    FolderAdd,
    Refresh,
    Visibility,
    Alert,
    AlertCircleFilled,
    Search,
    FindAndReplace,
    ChevronUp,
    Close,
    Settings,
    More,
    Undo,
    Redo,
    Code,
    ZoomIn,
    ZoomOut,
}

/// Position of an icon's image in the icon table.
pub open spec fn workflow_index(icon: WorkflowIcon) -> nat {
    match icon {
        WorkflowIcon::TextBold => 0,
        WorkflowIcon::TextItalic => 1,
        WorkflowIcon::TextUnderline => 2,
        WorkflowIcon::TextBulleted => 3,
        WorkflowIcon::TextNumbered => 4,
        WorkflowIcon::ChevronDown => 5,
        WorkflowIcon::ChevronRight => 6,
        WorkflowIcon::Document => 7,
        WorkflowIcon::FileCode => 8,
        WorkflowIcon::Folder => 9,
        WorkflowIcon::FolderOpen => 10,
        WorkflowIcon::Project => 11,
        WorkflowIcon::FileAdd => 12,
        WorkflowIcon::FolderAdd => 13,
        WorkflowIcon::Refresh => 14,
        WorkflowIcon::Visibility => 15,
        WorkflowIcon::Alert => 16,
        WorkflowIcon::AlertCircleFilled => 17,
        WorkflowIcon::Search => 18,
        WorkflowIcon::FindAndReplace => 19,
        WorkflowIcon::ChevronUp => 20,
        WorkflowIcon::Close => 21,
        WorkflowIcon::Settings => 22,
        WorkflowIcon::More => 23,
        WorkflowIcon::Undo => 24,
        WorkflowIcon::Redo => 25,
        WorkflowIcon::Code => 26,
        WorkflowIcon::ZoomIn => 27,
        WorkflowIcon::ZoomOut => 28,
    }
}

impl WorkflowIcon {
    /// Position of the icon's image in the icon table.
    pub fn index(self) -> (r: usize)
        ensures
            r == workflow_index(self),
    {
        match self {
            WorkflowIcon::TextBold => 0,
            WorkflowIcon::TextItalic => 1,
            WorkflowIcon::TextUnderline => 2,
            WorkflowIcon::TextBulleted => 3,
            WorkflowIcon::TextNumbered => 4,
            WorkflowIcon::ChevronDown => 5,
            WorkflowIcon::ChevronRight => 6,
            WorkflowIcon::Document => 7,
            WorkflowIcon::FileCode => 8,
            WorkflowIcon::Folder => 9,
            WorkflowIcon::FolderOpen => 10,
            WorkflowIcon::Project => 11,
            WorkflowIcon::FileAdd => 12,
            WorkflowIcon::FolderAdd => 13,
            WorkflowIcon::Refresh => 14,
            WorkflowIcon::Visibility => 15,
            WorkflowIcon::Alert => 16,
            WorkflowIcon::AlertCircleFilled => 17,
            WorkflowIcon::Search => 18,
            WorkflowIcon::FindAndReplace => 19,
            WorkflowIcon::ChevronUp => 20,
            WorkflowIcon::Close => 21,
            WorkflowIcon::Settings => 22,
            WorkflowIcon::More => 23,
            WorkflowIcon::Undo => 24,
            WorkflowIcon::Redo => 25,
            WorkflowIcon::Code => 26,
            WorkflowIcon::ZoomIn => 27,
            WorkflowIcon::ZoomOut => 28,
        }
    }
}

/// Every workflow icon has its own image: the table positions are distinct
/// and all lie in a table of 29 images.
pub proof fn law_workflow_icons_have_distinct_images(a: WorkflowIcon, b: WorkflowIcon)
    ensures
        workflow_index(a) < 29,
        workflow_index(a) == workflow_index(b) ==> a == b,
{
}

/// The small interface icons.
#[derive(Debug, Clone, Copy, PartialEq, Eq, Structural)]
pub enum UiIcon {
    Cross100,
    Checkmark100,
}

/// The position of an icon in the list of interface icons.
pub open spec fn ui_index(icon: UiIcon) -> nat {
    match icon {
        UiIcon::Cross100 => 0,
        UiIcon::Checkmark100 => 1,
    }
}

impl UiIcon {
    /// Position of the icon's image in the icon table.
    pub fn index(self) -> (r: usize)
        ensures
            r == ui_index(self),
    {
        match self {
            UiIcon::Cross100 => 0,
            UiIcon::Checkmark100 => 1,
        }
    }
}

/// Each small icon has its own image in a table of two.
pub proof fn law_ui_icons_have_distinct_images(a: UiIcon, b: UiIcon)
    ensures
        ui_index(a) < 2,
        ui_index(a) == ui_index(b) ==> a == b,
{
}

} // verus!
