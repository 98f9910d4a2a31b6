use vstd::prelude::*;
use super::icons::WorkflowIcon;

verus! {

/// The status an entry reports with a badge.
#[derive(Debug, Clone, Copy, PartialEq, Eq, Structural)]
pub enum SideNavigationNotification {
    Error,
    Warning,
}

/// One entry: its label, icon, selection, badge and action.
#[derive(Debug, Clone)]
pub struct SideNavigationItem<Message> {
    pub label: String,
    pub icon: WorkflowIcon,
    pub selected: bool,
    pub notification: Option<SideNavigationNotification>,
    pub on_press: Option<Message>,
}

impl<Message> SideNavigationItem<Message> {
    /// An unselected entry without a badge.
    pub fn new(label: String, icon: WorkflowIcon, on_press: Option<Message>) -> (r: Self)
        ensures
            r.label@ == label@,
            r.icon == icon,
            !r.selected,
            r.notification is None,
            r.on_press == on_press,
    {
        SideNavigationItem { label, icon, selected: false, notification: None, on_press }
    }

    /// The item, selected or not.
    pub fn selected(self, selected: bool) -> (r: Self)
        ensures
            r.label@ == self.label@,
            r.icon == self.icon,
            r.selected == selected,
            r.notification == self.notification,
            r.on_press == self.on_press,
    {
        SideNavigationItem { label: self.label, icon: self.icon, selected, notification: self.notification, on_press: self.on_press }
    }

    /// The item with a notification, or without one.
    pub fn notification(self, notification: Option<SideNavigationNotification>) -> (r: Self)
        ensures
            r.label@ == self.label@,
            r.icon == self.icon,
            r.selected == self.selected,
            r.notification == notification,
            r.on_press == self.on_press,
    {
        SideNavigationItem { label: self.label, icon: self.icon, selected: self.selected, notification, on_press: self.on_press }
    }
}

/// The entries, in order.
pub struct SideNavigation<Message> {
    items: Vec<SideNavigationItem<Message>>,
}

impl<Message> SideNavigation<Message> {
    /// The number of items.
    pub closed spec fn item_count(&self) -> nat {
        self.items@.len()
    }

    /// A navigation with these items.
    pub fn new(items: Vec<SideNavigationItem<Message>>) -> (r: Self)
        ensures
            r.item_count() == items@.len(),
    {
        SideNavigation { items }
    }

    /// The number of items.
    pub fn len(&self) -> (n: usize)
        ensures
            n == self.item_count(),
    {
        self.items.len()
    }

    /// Whether there are no items.
    pub fn is_empty(&self) -> (r: bool)
        ensures
            r == (self.item_count() == 0),
    {
        self.items.len() == 0
    }
}

} // verus!
