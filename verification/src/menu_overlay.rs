//! The menus that float over the window: the application menus of the menu
//! bar, the context menu of a project entry and the export menu.  At most one
//! of them is shown at a time; the keyboard focus moves through its items.
use vstd::prelude::*;
use crate::interface::{AppMenu, next_menu, previous_menu};
use crate::menus::{
    AppMenuEntry, MenuNavigation, enabled_menu_items, first_enabled_menu_item, menu_command_at,
    move_menu_focus, enabled_positions, item_flags, item_commands, moved_focus, lemma_enabled_positions,
};
use crate::project::EntryKind;

verus! {

/// The overlay that is shown.
#[derive(Debug, Clone, Copy, PartialEq, Eq, Structural)]
pub enum ShownOverlay {
    Nothing,
    Menu(AppMenu),
    Context,
    Export,
}

/// The state of the overlays: the open application menu, the entry whose
/// context menu is shown, whether the export menu is shown, whether the
/// pointer is being dragged over the menu bar, and the focused item (its
/// position among the items of the shown menu).
pub struct MenuOverlay {
    open_menu: Option<AppMenu>,
    context: Option<(String, EntryKind)>,
    export_visible: bool,
    dragging: bool,
    focus: usize,
}

/// What the overlays look like, with the context entry's path as characters.
pub ghost struct MenuOverlayView {
    pub open_menu: Option<AppMenu>,
    pub context: Option<(Seq<char>, EntryKind)>,
    pub export_visible: bool,
    pub dragging: bool,
    pub focus: int,
}

/// At most one overlay is shown.
pub open spec fn single_overlay(v: MenuOverlayView) -> bool {
    &&& v.open_menu is Some ==> v.context is None && !v.export_visible
    &&& v.context is Some ==> !v.export_visible
}

/// Some overlay is shown.
pub open spec fn any_shown(v: MenuOverlayView) -> bool {
    v.open_menu is Some || v.context is Some || v.export_visible
}

/// The item that gets the focus when a menu opens: its first enabled item,
/// or the first item when none is enabled.
pub open spec fn first_focus<Command>(entries: Seq<AppMenuEntry<Command>>) -> int {
    let enabled = enabled_positions(item_flags(entries));
    if enabled.len() > 0 { enabled[0] } else { 0 }
}

/// The overlays after opening the application menu `menu`, whose entries
/// are `entries`: the other overlays close and the focus goes to its first
/// enabled item.
pub open spec fn menu_shown<Command>(v: MenuOverlayView, menu: AppMenu, entries: Seq<AppMenuEntry<Command>>) -> MenuOverlayView {
    MenuOverlayView {
        open_menu: Some(menu),
        context: None,
        export_visible: false,
        focus: first_focus(entries),
        ..v
    }
}

/// The overlays after pressing the title of `menu`: an open `menu` closes,
/// otherwise `menu` opens.
pub open spec fn menu_toggled<Command>(v: MenuOverlayView, menu: AppMenu, entries: Seq<AppMenuEntry<Command>>) -> MenuOverlayView {
    if v.open_menu == Some(menu) {
        MenuOverlayView { open_menu: None, ..v }
    } else {
        menu_shown(v, menu, entries)
    }
}

/// The overlays with none of them shown and no drag under way.
pub open spec fn all_closed(v: MenuOverlayView) -> MenuOverlayView {
    MenuOverlayView { open_menu: None, context: None, export_visible: false, dragging: false, ..v }
}

/// What a key press in a shown menu asks of the application.
pub enum MenuStep<'a, Command> {
    /// Nothing more to do.
    Nothing,
    /// Open this application menu (with its own entries).
    Show(AppMenu),
    /// Run the command of the focused item.
    Run(&'a Command),
}

impl View for MenuOverlay {
    type V = MenuOverlayView;

    closed spec fn view(&self) -> MenuOverlayView {
        MenuOverlayView {
            open_menu: self.open_menu,
            context: match self.context {
                Some((path, kind)) => Some((path@, kind)),
                None => None,
            },
            export_visible: self.export_visible,
            dragging: self.dragging,
            focus: self.focus as int,
        }
    }
}

fn first_focus_of<Command>(entries: &[AppMenuEntry<Command>]) -> (r: usize)
    ensures
        r as int == first_focus(entries@),
{
    match first_enabled_menu_item(entries) {
        Some(i) => i,
        None => 0,
    }
}

impl MenuOverlay {
    #[verifier::type_invariant]
    closed spec fn one_at_a_time(&self) -> bool {
        single_overlay(self@)
    }

    /// No overlay shown, no drag, the focus on the first item.
    pub fn new() -> (r: Self)
        ensures
            r@ == (MenuOverlayView { open_menu: None, context: None, export_visible: false, dragging: false, focus: 0 }),
            single_overlay(r@),
    {
        MenuOverlay { open_menu: None, context: None, export_visible: false, dragging: false, focus: 0 }
    }

    /// The overlay that is shown.
    pub fn shown(&self) -> (r: ShownOverlay)
        ensures
            r == match self@.open_menu {
                Some(menu) => ShownOverlay::Menu(menu),
                None => if self@.context is Some {
                    ShownOverlay::Context
                } else if self@.export_visible {
                    ShownOverlay::Export
                } else {
                    ShownOverlay::Nothing
                },
            },
            single_overlay(self@),
    {
        proof { use_type_invariant(self); }
        match self.open_menu {
            Some(menu) => ShownOverlay::Menu(menu),
            None => if self.context.is_some() {
                ShownOverlay::Context
            } else if self.export_visible {
                ShownOverlay::Export
            } else {
                ShownOverlay::Nothing
            },
        }
    }

    /// Whether some overlay is shown.
    pub fn any_shown(&self) -> (r: bool)
        ensures
            r == any_shown(self@),
    {
        self.open_menu.is_some() || self.context.is_some() || self.export_visible
    }

    /// The entry whose context menu is shown.
    pub fn context(&self) -> (r: Option<(&str, EntryKind)>)
        ensures
            match r {
                Some((path, kind)) => self@.context == Some((path@, kind)),
                None => self@.context is None,
            },
    {
        match &self.context {
            Some((path, kind)) => Some((path.as_str(), *kind)),
            None => None,
        }
    }

    /// The focused item.
    pub fn focus(&self) -> (r: usize)
        ensures
            r as int == self@.focus,
    {
        self.focus
    }

    /// Whether the pointer is being dragged over the menu bar.
    pub fn dragging(&self) -> (r: bool)
        ensures
            r == self@.dragging,
    {
        self.dragging
    }

    /// Opens the application menu `menu`, whose entries are `entries`,
    /// closing the other overlays.
    pub fn show_menu<Command>(&mut self, menu: AppMenu, entries: &[AppMenuEntry<Command>])
        ensures
            final(self)@ == menu_shown(old(self)@, menu, entries@),
            single_overlay(final(self)@),
    {
        let focus = first_focus_of(entries);
        let dragging = self.dragging;
        *self = MenuOverlay { open_menu: Some(menu), context: None, export_visible: false, dragging, focus };
    }

    /// A click on the title of `menu` (whose entries are `entries`): ends a
    /// drag and opens the menu, or closes it when it is open.
    pub fn toggle_menu<Command>(&mut self, menu: AppMenu, entries: &[AppMenuEntry<Command>])
        ensures
            final(self)@ == menu_toggled(MenuOverlayView { dragging: false, ..old(self)@ }, menu, entries@),
            single_overlay(final(self)@),
    {
        proof { use_type_invariant(&*self); }
        self.dragging = false;
        self.toggle(menu, entries);
    }

    fn toggle<Command>(&mut self, menu: AppMenu, entries: &[AppMenuEntry<Command>])
        ensures
            final(self)@ == menu_toggled(old(self)@, menu, entries@),
    {
        proof { use_type_invariant(&*self); }
        if self.open_menu == Some(menu) {
            self.open_menu = None;
        } else {
            self.show_menu(menu, entries);
        }
    }

    /// The pointer pressed on the title of `menu`: a drag over the menu bar
    /// starts and the menu opens, or closes when it is open.
    pub fn pointer_pressed<Command>(&mut self, menu: AppMenu, entries: &[AppMenuEntry<Command>])
        ensures
            final(self)@ == menu_toggled(MenuOverlayView { dragging: true, ..old(self)@ }, menu, entries@),
            single_overlay(final(self)@),
    {
        proof { use_type_invariant(&*self); }
        self.dragging = true;
        self.toggle(menu, entries);
    }

    /// The pointer entered the title of `menu`: while dragging, or while an
    /// application menu is open, `menu` opens in its place; otherwise
    /// nothing changes.
    pub fn pointer_entered<Command>(&mut self, menu: AppMenu, entries: &[AppMenuEntry<Command>])
        ensures
            final(self)@ == if old(self)@.dragging || old(self)@.open_menu is Some {
                menu_shown(old(self)@, menu, entries@)
            } else {
                old(self)@
            },
            single_overlay(final(self)@),
    {
        proof { use_type_invariant(&*self); }
        if self.dragging || self.open_menu.is_some() {
            self.show_menu(menu, entries);
        }
    }

    /// The pointer was released: the drag ends and the open menu stays.
    pub fn pointer_released(&mut self)
        ensures
            final(self)@ == (MenuOverlayView { dragging: false, ..old(self)@ }),
            single_overlay(final(self)@),
    {
        proof { use_type_invariant(&*self); }
        self.dragging = false;
    }

    /// Closes every overlay and ends a drag; this also comes before any
    /// command of a menu runs.
    pub fn dismiss(&mut self)
        ensures
            final(self)@ == all_closed(old(self)@),
            single_overlay(final(self)@),
    {
        proof { use_type_invariant(&*self); }
        self.open_menu = None;
        self.context = None;
        self.export_visible = false;
        self.dragging = false;
    }

    /// Shows or hides the export menu, whose entries are `entries`,
    /// closing the other overlays; the focus goes to its first enabled item
    /// when it opens.
    pub fn toggle_export<Command>(&mut self, entries: &[AppMenuEntry<Command>])
        ensures
            final(self)@ == (MenuOverlayView {
                open_menu: None,
                context: None,
                dragging: false,
                export_visible: !old(self)@.export_visible,
                focus: if !old(self)@.export_visible { first_focus(entries@) } else { old(self)@.focus },
            }),
            single_overlay(final(self)@),
    {
        let export_visible = !self.export_visible;
        let focus = if export_visible { first_focus_of(entries) } else { self.focus };
        *self = MenuOverlay { open_menu: None, context: None, export_visible, dragging: false, focus };
    }

    /// Shows the context menu of the entry at `path`, whose entries are
    /// `entries`, unless a file operation is under way; the other overlays
    /// close and the focus goes to its first enabled item.
    pub fn show_context<Command>(&mut self, path: String, kind: EntryKind, entries: &[AppMenuEntry<Command>], file_busy: bool)
        ensures
            final(self)@ == if file_busy {
                old(self)@
            } else {
                MenuOverlayView {
                    open_menu: None,
                    context: Some((path@, kind)),
                    export_visible: false,
                    dragging: false,
                    focus: first_focus(entries@),
                }
            },
            single_overlay(final(self)@),
    {
        proof { use_type_invariant(&*self); }
        if file_busy {
            return;
        }
        let focus = first_focus_of(entries);
        *self = MenuOverlay { open_menu: None, context: Some((path, kind)), export_visible: false, dragging: false, focus };
    }

    /// The pointer rests on item `index` of the shown menu: it takes the
    /// focus, when some overlay is shown.
    pub fn focus_item(&mut self, index: usize)
        ensures
            final(self)@ == if any_shown(old(self)@) {
                MenuOverlayView { focus: index as int, ..old(self)@ }
            } else {
                old(self)@
            },
            single_overlay(final(self)@),
    {
        proof { use_type_invariant(&*self); }
        if self.open_menu.is_some() || self.context.is_some() || self.export_visible {
            self.focus = index;
        }
    }

    /// Escape ends a drag and closes the context menu, else the open
    /// application menu, else the export menu; tells whether one was closed.
    pub fn escape(&mut self) -> (r: bool)
        ensures
            r == any_shown(old(self)@),
            final(self)@ == if old(self)@.context is Some {
                MenuOverlayView { context: None, dragging: false, ..old(self)@ }
            } else if old(self)@.open_menu is Some {
                MenuOverlayView { open_menu: None, dragging: false, ..old(self)@ }
            } else {
                MenuOverlayView { export_visible: false, dragging: false, ..old(self)@ }
            },
            single_overlay(final(self)@),
    {
        proof { use_type_invariant(&*self); }
        self.dragging = false;
        if self.context.is_some() {
            self.context = None;
            return true;
        }
        if self.open_menu.is_some() {
            self.open_menu = None;
            return true;
        }
        if self.export_visible {
            self.export_visible = false;
            return true;
        }
        false
    }

    /// A key press in the shown menu, whose entries are `entries`: moving
    /// between items moves the focus among the enabled ones; moving between
    /// menus asks to open the neighbouring application menu; activation asks
    /// to run the focused item's command when it is enabled.  Nothing
    /// happens when no overlay is shown.
    pub fn navigate<'a, Command>(&mut self, navigation: MenuNavigation, entries: &'a [AppMenuEntry<Command>]) -> (r: MenuStep<'a, Command>)
        ensures
            single_overlay(final(self)@),
            !any_shown(old(self)@) ==> r is Nothing && final(self)@ == old(self)@,
            any_shown(old(self)@) ==> match navigation {
                MenuNavigation::NextMenu => final(self)@ == old(self)@ && match old(self)@.open_menu {
                    Some(menu) => r == MenuStep::<'a, Command>::Show(next_menu(menu)),
                    None => r is Nothing,
                },
                MenuNavigation::PreviousMenu => final(self)@ == old(self)@ && match old(self)@.open_menu {
                    Some(menu) => r == MenuStep::<'a, Command>::Show(previous_menu(menu)),
                    None => r is Nothing,
                },
                MenuNavigation::Activate => {
                    let focus = old(self)@.focus;
                    let flags = item_flags(entries@);
                    &&& final(self)@ == old(self)@
                    &&& if 0 <= focus < flags.len() && flags[focus] {
                        r matches MenuStep::Run(c) && *c == item_commands(entries@)[focus]
                    } else {
                        r is Nothing
                    }
                },
                _ => r is Nothing && final(self)@ == MenuOverlayView {
                    focus: match moved_focus(enabled_positions(item_flags(entries@)), old(self)@.focus, navigation) {
                        Some(f) => f,
                        None => old(self)@.focus,
                    },
                    ..old(self)@
                },
            },
    {
        proof { use_type_invariant(&*self); }
        if !(self.open_menu.is_some() || self.context.is_some() || self.export_visible) {
            return MenuStep::Nothing;
        }
        match navigation {
            MenuNavigation::NextMenu => match self.open_menu {
                Some(menu) => MenuStep::Show(menu.next()),
                None => MenuStep::Nothing,
            },
            MenuNavigation::PreviousMenu => match self.open_menu {
                Some(menu) => MenuStep::Show(menu.previous()),
                None => MenuStep::Nothing,
            },
            MenuNavigation::Activate => match menu_command_at(entries, self.focus) {
                Some(command) => MenuStep::Run(command),
                None => MenuStep::Nothing,
            },
            _ => {
                let enabled = enabled_menu_items(entries);
                proof {
                    let ev = enabled@.map_values(|i: usize| i as int);
                    lemma_enabled_positions(item_flags(entries@));
                    assert forall|a: int, b: int| 0 <= a < ev.len() && 0 <= b < ev.len() && a != b implies ev[a] != ev[b] by {
                        if a < b {
                            assert(ev[a] < ev[b]);
                        } else {
                            assert(ev[b] < ev[a]);
                        }
                    }
                }
                if let Some(f) = move_menu_focus(&enabled, self.focus, navigation) {
                    self.focus = f;
                }
                MenuStep::Nothing
            },
        }
    }
}

/// Pressing the title of a menu twice, from no open menu, leaves it closed
/// again.
pub proof fn law_second_press_closes_the_menu<Command>(v: MenuOverlayView, menu: AppMenu, entries: Seq<AppMenuEntry<Command>>)
    requires
        v.open_menu is None,
    ensures
        menu_toggled(menu_toggled(v, menu, entries), menu, entries).open_menu is None,
        menu_toggled(v, menu, entries).open_menu == Some(menu),
{
}

} // verus!
