use vstd::prelude::*;
use super::button::ButtonOptions;
use super::icons::WorkflowIcon;

verus! {

/// The semantic variant of an alert dialog.
#[derive(Debug, Clone, Copy, PartialEq, Eq, Structural)]
pub enum AlertDialogVariant {
    Confirmation,
    Warning,
    Destructive,
    Error,
}

/// The icon shown next to the title of a dialog of `variant`.
pub open spec fn variant_icon_of(variant: AlertDialogVariant) -> Option<WorkflowIcon> {
    match variant {
        AlertDialogVariant::Confirmation => None,
        AlertDialogVariant::Warning => Some(WorkflowIcon::Alert),
        AlertDialogVariant::Destructive | AlertDialogVariant::Error => Some(WorkflowIcon::AlertCircleFilled),
    }
}

/// The icon shown next to the title of a dialog of `variant`.
pub fn variant_icon(variant: AlertDialogVariant) -> (r: Option<WorkflowIcon>)
    ensures
        r == variant_icon_of(variant),
{
    match variant {
        AlertDialogVariant::Confirmation => None,
        AlertDialogVariant::Warning => Some(WorkflowIcon::Alert),
        AlertDialogVariant::Destructive | AlertDialogVariant::Error => Some(WorkflowIcon::AlertCircleFilled),
    }
}

/// A button of an alert dialog.
#[derive(Debug, Clone)]
pub struct AlertDialogAction<Message> {
    pub label: &'static str,
    pub on_press: Option<Message>,
    pub options: ButtonOptions,
}

impl<Message> AlertDialogAction<Message> {
    /// An action labelled `label`.
    pub fn new(label: &'static str, on_press: Option<Message>, options: ButtonOptions) -> (r: Self)
        ensures
            r.label == label,
            r.on_press == on_press,
            r.options == options,
    {
        AlertDialogAction { label, on_press, options }
    }
}

/// A modal dialog with a title, a description and at most three actions.
pub struct AlertDialog<Message> {
    variant: AlertDialogVariant,
    title: String,
    description: String,
    actions: Vec<AlertDialogAction<Message>>,
    blocked_message: Message,
}

impl<Message> AlertDialog<Message> {
    /// The kind of dialog.
    pub closed spec fn spec_variant(&self) -> AlertDialogVariant {
        self.variant
    }

    /// The title.
    pub closed spec fn spec_title(&self) -> Seq<char> {
        self.title@
    }

    /// The text below the title.
    pub closed spec fn spec_description(&self) -> Seq<char> {
        self.description@
    }

    /// The actions offered.
    pub closed spec fn spec_actions(&self) -> Seq<AlertDialogAction<Message>> {
        self.actions@
    }

    /// The message sent by a click outside the dialog.
    pub closed spec fn spec_blocked_message(&self) -> Message {
        self.blocked_message
    }

    /// A dialog; it holds no more than three actions.
    pub fn new(
        variant: AlertDialogVariant,
        title: String,
        description: String,
        actions: Vec<AlertDialogAction<Message>>,
        blocked_message: Message,
    ) -> (r: Self)
        requires
            actions@.len() <= 3,
        ensures
            r.spec_variant() == variant,
            r.spec_title() == title@,
            r.spec_description() == description@,
            r.spec_actions() == actions@,
            r.spec_blocked_message() == blocked_message,
    {
        AlertDialog { variant, title, description, actions, blocked_message }
    }

    /// The kind of dialog.
    pub fn variant(&self) -> (r: AlertDialogVariant)
        ensures
            r == self.spec_variant(),
    {
        self.variant
    }

    /// The title.
    pub fn title(&self) -> (r: &str)
        ensures
            r@ == self.spec_title(),
    {
        self.title.as_str()
    }

    /// The text below the title.
    pub fn description(&self) -> (r: &str)
        ensures
            r@ == self.spec_description(),
    {
        self.description.as_str()
    }

    /// The number of actions.
    pub fn len(&self) -> (n: usize)
        ensures
            n == self.spec_actions().len(),
    {
        self.actions.len()
    }

    /// The icon shown next to the title.
    pub fn icon(&self) -> (r: Option<WorkflowIcon>)
        ensures
            r == variant_icon_of(self.spec_variant()),
    {
        variant_icon(self.variant)
    }
}

} // verus!
