use vstd::prelude::*;
use super::icons::WorkflowIcon;

verus! {

/// One result of the quick switcher: its icon, label, optional detail line and
/// shortcut, whether it is the selected result, and the messages sent when it
/// is pressed or focused.
pub struct QuickSwitcherItem<Message> {
    pub icon: WorkflowIcon,
    pub label: String,
    pub detail: Option<String>,
    pub shortcut: Option<String>,
    pub selected: bool,
    pub on_press: Message,
    pub on_focus: Message,
}

impl<Message: Clone> QuickSwitcherItem<Message> {
    /// An unselected result without detail or shortcut; focusing it sends a
    /// copy of its press message.
    pub fn new(icon: WorkflowIcon, label: String, on_press: Message) -> (r: Self)
        ensures
            r.icon == icon,
            r.label@ == label@,
            r.detail is None,
            r.shortcut is None,
            !r.selected,
            r.on_press == on_press,
            cloned(on_press, r.on_focus),
    {
        let on_focus = on_press.clone();
        QuickSwitcherItem {
            icon,
            label,
            detail: None,
            shortcut: None,
            selected: false,
            on_press,
            on_focus,
        }
    }
}

impl<Message> QuickSwitcherItem<Message> {
    /// The result with a detail line.
    pub fn detail(self, detail: String) -> (r: Self)
        ensures
            r.icon == self.icon,
            r.label@ == self.label@,
            r.detail matches Some(d) && d@ == detail@,
            r.shortcut == self.shortcut,
            r.selected == self.selected,
            r.on_press == self.on_press,
            r.on_focus == self.on_focus,
    {
        QuickSwitcherItem {
            icon: self.icon,
            label: self.label,
            detail: Some(detail),
            shortcut: self.shortcut,
            selected: self.selected,
            on_press: self.on_press,
            on_focus: self.on_focus,
        }
    }

    /// The result with a shortcut, or without one.
    pub fn shortcut(self, shortcut: Option<String>) -> (r: Self)
        ensures
            r.icon == self.icon,
            r.label@ == self.label@,
            r.detail == self.detail,
            r.shortcut == shortcut,
            r.selected == self.selected,
            r.on_press == self.on_press,
            r.on_focus == self.on_focus,
    {
        QuickSwitcherItem {
            icon: self.icon,
            label: self.label,
            detail: self.detail,
            shortcut,
            selected: self.selected,
            on_press: self.on_press,
            on_focus: self.on_focus,
        }
    }

    /// The result, selected or not.
    pub fn selected(self, selected: bool) -> (r: Self)
        ensures
            r.icon == self.icon,
            r.label@ == self.label@,
            r.detail == self.detail,
            r.shortcut == self.shortcut,
            r.selected == selected,
            r.on_press == self.on_press,
            r.on_focus == self.on_focus,
    {
        QuickSwitcherItem {
            icon: self.icon,
            label: self.label,
            detail: self.detail,
            shortcut: self.shortcut,
            selected,
            on_press: self.on_press,
            on_focus: self.on_focus,
        }
    }

    /// The result with its own focus message.
    pub fn on_focus(self, on_focus: Message) -> (r: Self)
        ensures
            r.icon == self.icon,
            r.label@ == self.label@,
            r.detail == self.detail,
            r.shortcut == self.shortcut,
            r.selected == self.selected,
            r.on_press == self.on_press,
            r.on_focus == on_focus,
    {
        QuickSwitcherItem {
            icon: self.icon,
            label: self.label,
            detail: self.detail,
            shortcut: self.shortcut,
            selected: self.selected,
            on_press: self.on_press,
            on_focus,
        }
    }
}

} // verus!
