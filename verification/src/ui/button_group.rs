use vstd::prelude::*;
use super::button::ButtonOptions;

verus! {

/// Whether the buttons of a group stand side by side or one above another.
#[derive(Debug, Clone, Copy, PartialEq, Eq, Structural)]
pub enum ButtonGroupOrientation {
    Horizontal,
    Vertical,
}

/// One button of a group.
#[derive(Debug, Clone)]
pub struct ButtonGroupItem<'a, Message> {
    pub label: &'a str,
    pub on_press: Option<Message>,
    pub options: ButtonOptions,
}

impl<'a, Message> ButtonGroupItem<'a, Message> {
    /// A button labelled `label`.
    pub fn new(label: &'a str, on_press: Option<Message>, options: ButtonOptions) -> (r: Self)
        ensures
            r.label == label,
            r.on_press == on_press,
            r.options == options,
    {
        ButtonGroupItem { label, on_press, options }
    }
}

/// Related buttons laid out together, with an optional trailing control.
pub struct ButtonGroup<'a, Message, Trailing> {
    items: Vec<ButtonGroupItem<'a, Message>>,
    trailing: Option<Trailing>,
    orientation: ButtonGroupOrientation,
}

impl<'a, Message, Trailing> ButtonGroup<'a, Message, Trailing> {
    /// The number of buttons.
    pub closed spec fn item_count(&self) -> nat {
        self.items@.len()
    }

    /// Whether a trailing element follows the buttons.
    pub closed spec fn has_trailing(&self) -> bool {
        self.trailing is Some
    }

    /// How the buttons stand.
    pub closed spec fn spec_orientation(&self) -> ButtonGroupOrientation {
        self.orientation
    }

    /// A horizontal group of `items` without a trailing control.
    pub fn new(items: Vec<ButtonGroupItem<'a, Message>>) -> (r: Self)
        ensures
            r.item_count() == items@.len(),
            !r.has_trailing(),
            r.spec_orientation() == ButtonGroupOrientation::Horizontal,
    {
        ButtonGroup { items, trailing: None, orientation: ButtonGroupOrientation::Horizontal }
    }

    /// Adds a control after the buttons.
    pub fn trailing(self, content: Trailing) -> (r: Self)
        ensures
            r.item_count() == self.item_count(),
            r.has_trailing(),
            r.spec_orientation() == self.spec_orientation(),
    {
        ButtonGroup { items: self.items, trailing: Some(content), orientation: self.orientation }
    }

    /// Stacks the buttons vertically.
    pub fn vertical(self) -> (r: Self)
        ensures
            r.item_count() == self.item_count(),
            r.has_trailing() == self.has_trailing(),
            r.spec_orientation() == ButtonGroupOrientation::Vertical,
    {
        ButtonGroup { items: self.items, trailing: self.trailing, orientation: ButtonGroupOrientation::Vertical }
    }

    /// How the buttons stand.
    pub fn orientation(&self) -> (r: ButtonGroupOrientation)
        ensures
            r == self.spec_orientation(),
    {
        self.orientation
    }

    /// Number of controls: the buttons and the trailing control, if any.
    pub fn len(&self) -> (n: usize)
        requires
            self.item_count() < usize::MAX,
        ensures
            n == self.item_count() + if self.has_trailing() { 1nat } else { 0nat },
    {
        self.items.len() + if self.trailing.is_some() { 1 } else { 0 }
    }

    /// Whether there are no buttons.
    pub fn is_empty(&self) -> (r: bool)
        ensures
            r == (self.item_count() == 0 && !self.has_trailing()),
    {
        self.items.len() == 0 && self.trailing.is_none()
    }
}

} // verus!
