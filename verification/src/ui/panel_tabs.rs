use vstd::prelude::*;
use super::icons::WorkflowIcon;

verus! {

/// The status an entry reports with a badge.
#[derive(Debug, Clone, Copy, PartialEq, Eq, Structural)]
pub enum PanelTabNotification {
    Error,
    Warning,
}

/// One entry: its label, icon, selection, badge and action.
#[derive(Debug, Clone)]
pub struct PanelTabItem<Message> {
    pub label: String,
    pub icon: WorkflowIcon,
    pub selected: bool,
    pub notification: Option<PanelTabNotification>,
    pub on_select: Option<Message>,
}

impl<Message> PanelTabItem<Message> {
    /// An unselected entry without a badge.
    pub fn new(label: String, icon: WorkflowIcon, on_select: Option<Message>) -> (r: Self)
        ensures
            r.label@ == label@,
            r.icon == icon,
            !r.selected,
            r.notification is None,
            r.on_select == on_select,
    {
        PanelTabItem { label, icon, selected: false, notification: None, on_select }
    }

    /// The tab, selected or not.
    pub fn selected(self, selected: bool) -> (r: Self)
        ensures
            r.label@ == self.label@,
            r.icon == self.icon,
            r.selected == selected,
            r.notification == self.notification,
            r.on_select == self.on_select,
    {
        PanelTabItem { label: self.label, icon: self.icon, selected, notification: self.notification, on_select: self.on_select }
    }

    /// The tab with a notification, or without one.
    pub fn notification(self, notification: Option<PanelTabNotification>) -> (r: Self)
        ensures
            r.label@ == self.label@,
            r.icon == self.icon,
            r.selected == self.selected,
            r.notification == notification,
            r.on_select == self.on_select,
    {
        PanelTabItem { label: self.label, icon: self.icon, selected: self.selected, notification, on_select: self.on_select }
    }
}

/// The entries, in order.
pub struct PanelTabs<Message> {
    items: Vec<PanelTabItem<Message>>,
}

impl<Message> PanelTabs<Message> {
    /// The number of tabs.
    pub closed spec fn item_count(&self) -> nat {
        self.items@.len()
    }

    /// Tabs with these items.
    pub fn new(items: Vec<PanelTabItem<Message>>) -> (r: Self)
        ensures
            r.item_count() == items@.len(),
    {
        PanelTabs { items }
    }

    /// The number of tabs.
    pub fn len(&self) -> (n: usize)
        ensures
            n == self.item_count(),
    {
        self.items.len()
    }

    /// Whether there are no tabs.
    pub fn is_empty(&self) -> (r: bool)
        ensures
            r == (self.item_count() == 0),
    {
        self.items.len() == 0
    }
}

} // verus!
