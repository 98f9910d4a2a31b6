use vstd::prelude::*;

verus! {

/// One document tab: its label, whether it is the selected one, and the
/// messages sent to select it and to close it.
#[derive(Debug, Clone)]
pub struct TabItem<Message> {
    pub label: String,
    pub selected: bool,
    pub on_select: Option<Message>,
    pub on_close: Option<Message>,
}

impl<Message> TabItem<Message> {
    /// An unselected tab.
    pub fn new(label: String, on_select: Option<Message>, on_close: Option<Message>) -> (r: Self)
        ensures
            r.label@ == label@,
            !r.selected,
            r.on_select == on_select,
            r.on_close == on_close,
    {
        TabItem { label, selected: false, on_select, on_close }
    }

    /// The tab, selected or not.
    pub fn selected(self, selected: bool) -> (r: Self)
        ensures
            r.label@ == self.label@,
            r.selected == selected,
            r.on_select == self.on_select,
            r.on_close == self.on_close,
    {
        TabItem { label: self.label, selected, on_select: self.on_select, on_close: self.on_close }
    }
}

} // verus!
