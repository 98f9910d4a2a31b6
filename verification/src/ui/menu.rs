use vstd::prelude::*;

verus! {

/// One entry of a popover menu: its label, an optional trailing value (a
/// shortcut or a setting), whether it is selected or focused, and the messages
/// sent when it is pressed or focused.
#[derive(Debug, Clone)]
pub struct MenuItem<Message> {
    pub label: String,
    pub value: Option<String>,
    pub selected: bool,
    pub focused: bool,
    pub on_press: Option<Message>,
    pub on_focus: Option<Message>,
}

impl<Message> MenuItem<Message> {
    /// An unselected, unfocused item without a value or a focus message.
    pub fn new(label: String, on_press: Option<Message>) -> (r: Self)
        ensures
            r.label@ == label@,
            r.value is None,
            !r.selected,
            !r.focused,
            r.on_press == on_press,
            r.on_focus is None,
    {
        MenuItem { label, value: None, selected: false, focused: false, on_press, on_focus: None }
    }

    /// The item with a trailing value.
    pub fn value(self, value: String) -> (r: Self)
        ensures
            r.label@ == self.label@,
            r.value matches Some(v) && v@ == value@,
            r.selected == self.selected,
            r.focused == self.focused,
            r.on_press == self.on_press,
            r.on_focus == self.on_focus,
    {
        MenuItem {
            label: self.label,
            value: Some(value),
            selected: self.selected,
            focused: self.focused,
            on_press: self.on_press,
            on_focus: self.on_focus,
        }
    }

    /// The item, selected or not.
    pub fn selected(self, selected: bool) -> (r: Self)
        ensures
            r.label@ == self.label@,
            r.value == self.value,
            r.selected == selected,
            r.focused == self.focused,
            r.on_press == self.on_press,
            r.on_focus == self.on_focus,
    {
        MenuItem {
            label: self.label,
            value: self.value,
            selected,
            focused: self.focused,
            on_press: self.on_press,
            on_focus: self.on_focus,
        }
    }

    /// The item, focused or not.
    pub fn focused(self, focused: bool) -> (r: Self)
        ensures
            r.label@ == self.label@,
            r.value == self.value,
            r.selected == self.selected,
            r.focused == focused,
            r.on_press == self.on_press,
            r.on_focus == self.on_focus,
    {
        MenuItem {
            label: self.label,
            value: self.value,
            selected: self.selected,
            focused,
            on_press: self.on_press,
            on_focus: self.on_focus,
        }
    }

    /// The item with the message sent when it gains focus.
    pub fn on_focus(self, on_focus: Message) -> (r: Self)
        ensures
            r.label@ == self.label@,
            r.value == self.value,
            r.selected == self.selected,
            r.focused == self.focused,
            r.on_press == self.on_press,
            r.on_focus == Some(on_focus),
    {
        MenuItem {
            label: self.label,
            value: self.value,
            selected: self.selected,
            focused: self.focused,
            on_press: self.on_press,
            on_focus: Some(on_focus),
        }
    }
}

/// A row of a popover menu: an item or a divider between groups.
#[derive(Debug, Clone)]
pub enum MenuEntry<Message> {
    Item(MenuItem<Message>),
    Divider,
}

} // verus!
