//! The semantic state of the interface components: variants, sizes,
//! positions, icons and the rules that order and label them.

pub mod alert_dialog;
pub mod button;
pub mod button_group;
pub mod icons;
pub mod menu;
pub mod panel_tabs;
pub mod problems;
pub mod quick_switcher;
pub mod side_navigation;
pub mod tabs;

pub use alert_dialog::{AlertDialog, AlertDialogAction, AlertDialogVariant};
pub use button::{
    ActionButtonOptions, ActionButtonPosition, ActionButtonSize, ButtonOptions, ButtonSize,
    ButtonStyle, ButtonVariant,
};
pub use button_group::{ButtonGroup, ButtonGroupItem, ButtonGroupOrientation};
pub use icons::{UiIcon, WorkflowIcon};
pub use menu::{MenuEntry, MenuItem};
pub use panel_tabs::{PanelTabItem, PanelTabNotification, PanelTabs};
pub use problems::{ProblemCounts, ProblemItem, ProblemSeverity, Problems};
pub use quick_switcher::QuickSwitcherItem;
pub use side_navigation::{SideNavigation, SideNavigationItem, SideNavigationNotification};
pub use tabs::TabItem;
