use vstd::prelude::*;

verus! {

/// The colour scheme of a button.
#[derive(Debug, Clone, Copy, PartialEq, Eq, Structural)]
pub enum ButtonVariant {
    Accent,
    Primary,
    Secondary,
    Negative,
}

/// Whether a button is filled or outlined.
#[derive(Debug, Clone, Copy, PartialEq, Eq, Structural)]
pub enum ButtonStyle {
    Fill,
    Outline,
}

/// The size of a button.
#[derive(Debug, Clone, Copy, PartialEq, Eq, Structural)]
pub enum ButtonSize {
    Small,
    Medium,
    Large,
    ExtraLarge,
}

/// Variant, style and size of a button.
#[derive(Debug, Clone, Copy, PartialEq, Eq, Structural)]
pub struct ButtonOptions {
    pub variant: ButtonVariant,
    pub style: ButtonStyle,
    pub size: ButtonSize,
}

impl ButtonOptions {
    /// Filled accent button of medium size.
    pub fn accent() -> (r: ButtonOptions)
        ensures
            r == (ButtonOptions {
        variant: ButtonVariant::Accent,
        style: ButtonStyle::Fill,
        size: ButtonSize::Medium,
    }),
    {
        ButtonOptions {
        variant: ButtonVariant::Accent,
        style: ButtonStyle::Fill,
        size: ButtonSize::Medium,
    }
    }

    /// Filled primary button of medium size.
    pub fn primary() -> (r: ButtonOptions)
        ensures
            r == (ButtonOptions {
        variant: ButtonVariant::Primary,
        style: ButtonStyle::Fill,
        size: ButtonSize::Medium,
    }),
    {
        ButtonOptions {
        variant: ButtonVariant::Primary,
        style: ButtonStyle::Fill,
        size: ButtonSize::Medium,
    }
    }

    /// Outlined secondary button of medium size.
    pub fn secondary() -> (r: ButtonOptions)
        ensures
            r == (ButtonOptions {
        variant: ButtonVariant::Secondary,
        style: ButtonStyle::Outline,
        size: ButtonSize::Medium,
    }),
    {
        ButtonOptions {
        variant: ButtonVariant::Secondary,
        style: ButtonStyle::Outline,
        size: ButtonSize::Medium,
    }
    }

    /// Filled negative button of medium size.
    pub fn negative() -> (r: ButtonOptions)
        ensures
            r == (ButtonOptions {
        variant: ButtonVariant::Negative,
        style: ButtonStyle::Fill,
        size: ButtonSize::Medium,
    }),
    {
        ButtonOptions {
        variant: ButtonVariant::Negative,
        style: ButtonStyle::Fill,
        size: ButtonSize::Medium,
    }
    }

    /// The same options at another size.
    pub fn size(self, size: ButtonSize) -> (r: Self)
        ensures
            r == (ButtonOptions { size, ..self }),
    {
        let mut r = self;
        r.size = size;
        r
    }
}

/// The size of an action button.
#[derive(Debug, Clone, Copy, PartialEq, Eq, Structural)]
pub enum ActionButtonSize {
    ExtraSmall,
    Small,
    Medium,
    Large,
    ExtraLarge,
}

/// Size and state of an action button.
#[derive(Debug, Clone, Copy, PartialEq, Eq, Structural)]
pub struct ActionButtonOptions {
    pub size: ActionButtonSize,
    pub quiet: bool,
    pub selected: bool,
    pub emphasized: bool,
}

/// Where a button sits in a joined group, which decides its rounded edges.
#[derive(Debug, Clone, Copy, PartialEq, Eq, Structural)]
pub enum ActionButtonPosition {
    Standalone,
    First,
    Middle,
    Last,
}

/// The position of the button at `index` in a group of `len` buttons.
pub open spec fn position_in_group(index: int, len: int) -> ActionButtonPosition {
    if len <= 1 {
        ActionButtonPosition::Standalone
    } else if index == 0 {
        ActionButtonPosition::First
    } else if index + 1 == len {
        ActionButtonPosition::Last
    } else {
        ActionButtonPosition::Middle
    }
}

impl ActionButtonPosition {
    /// The position of the button `index` in a group of `len`.
    pub fn in_group(index: usize, len: usize) -> (r: Self)
        ensures
            r == position_in_group(index as int, len as int),
    {
        if len <= 1 {
            ActionButtonPosition::Standalone
        } else if index == 0 {
            ActionButtonPosition::First
        } else if index == len - 1 {
            ActionButtonPosition::Last
        } else {
            ActionButtonPosition::Middle
        }
    }
}

/// In a group of two or more, exactly the first button is `First` and
/// exactly the last is `Last`; a lone button stands alone.
pub proof fn law_group_edges(len: int)
    ensures
        forall|i: int| 0 <= i < len ==> (position_in_group(i, len) == ActionButtonPosition::Standalone) == (len == 1),
        len >= 2 ==> forall|i: int| 0 <= i < len ==> ((position_in_group(i, len) == ActionButtonPosition::First) == (i == 0)),
        len >= 2 ==> forall|i: int| 0 <= i < len ==> ((position_in_group(i, len) == ActionButtonPosition::Last) == (i == len - 1)),
{
}

impl ActionButtonOptions {
    /// A medium action button with a visible background.
    pub fn standard() -> (r: ActionButtonOptions)
        ensures
            r == (ActionButtonOptions {
        size: ActionButtonSize::Medium,
        quiet: false,
        selected: false,
        emphasized: false,
    }),
    {
        ActionButtonOptions {
        size: ActionButtonSize::Medium,
        quiet: false,
        selected: false,
        emphasized: false,
    }
    }

    /// A medium action button without a background until hovered.
    pub fn quiet() -> (r: ActionButtonOptions)
        ensures
            r == (ActionButtonOptions {
        size: ActionButtonSize::Medium,
        quiet: true,
        selected: false,
        emphasized: false,
    }),
    {
        ActionButtonOptions {
        size: ActionButtonSize::Medium,
        quiet: true,
        selected: false,
        emphasized: false,
    }
    }

    /// The options with another size.
    pub fn size(self, size: ActionButtonSize) -> (r: Self)
        ensures
            r == (ActionButtonOptions { size, ..self }),
    {
        let mut r = self;
        r.size = size;
        r
    }

    /// The options, selected or not.
    pub fn selected(self, selected: bool) -> (r: Self)
        ensures
            r == (ActionButtonOptions { selected, ..self }),
    {
        let mut r = self;
        r.selected = selected;
        r
    }

    /// The options, emphasized or not.
    pub fn emphasized(self, emphasized: bool) -> (r: Self)
        ensures
            r == (ActionButtonOptions { emphasized, ..self }),
    {
        let mut r = self;
        r.emphasized = emphasized;
        r
    }
}

} // verus!
