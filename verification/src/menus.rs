//! The entries of the application menus and moving the focus through them
//! with the keyboard.
use vstd::prelude::*;
use crate::interface::{AppMenu, next_menu, previous_menu};
use crate::paths::opt_view;

verus! {

/// An entry of a menu: an item that runs `command`, or a divider.
#[derive(Debug, Clone)]
pub enum AppMenuEntry<Command> {
    Item { label: String, value: Option<String>, selected: bool, enabled: bool, command: Command },
    Divider,
}

impl<Command> AppMenuEntry<Command> {
    /// An item.
    pub fn item(label: String, value: Option<String>, selected: bool, enabled: bool, command: Command) -> (r: Self)
        ensures
            r == (AppMenuEntry::Item { label, value, selected, enabled, command }),
    {
        AppMenuEntry::Item { label, value, selected, enabled, command }
    }
}

/// What an entry shows and does: its texts as character sequences and its
/// command by its view.
pub enum EntryView<C> {
    Item { label: Seq<char>, value: Option<Seq<char>>, selected: bool, enabled: bool, command: C },
    Divider,
}

impl<Command: View> View for AppMenuEntry<Command> {
    type V = EntryView<Command::V>;

    open spec fn view(&self) -> EntryView<Command::V> {
        match self {
            AppMenuEntry::Item { label, value, selected, enabled, command } => EntryView::Item {
                label: label@,
                value: opt_view(*value),
                selected: *selected,
                enabled: *enabled,
                command: command@,
            },
            AppMenuEntry::Divider => EntryView::Divider,
        }
    }
}

/// The view of each entry of a menu.
pub open spec fn entries_view<Command: View>(entries: Seq<AppMenuEntry<Command>>) -> Seq<EntryView<Command::V>> {
    entries.map_values(|e: AppMenuEntry<Command>| e@)
}

/// The items of a menu, without the dividers, each told by whether it is
/// enabled.
pub open spec fn item_flags<Command>(entries: Seq<AppMenuEntry<Command>>) -> Seq<bool>
    decreases entries.len(),
{
    if entries.len() == 0 {
        Seq::empty()
    } else {
        let before = item_flags(entries.drop_last());
        match entries.last() {
            AppMenuEntry::Item { enabled, .. } => before.push(enabled),
            AppMenuEntry::Divider => before,
        }
    }
}

/// The commands of the items, without the dividers.
pub open spec fn item_commands<Command>(entries: Seq<AppMenuEntry<Command>>) -> Seq<Command>
    decreases entries.len(),
{
    if entries.len() == 0 {
        Seq::empty()
    } else {
        let before = item_commands(entries.drop_last());
        match entries.last() {
            AppMenuEntry::Item { command, .. } => before.push(command),
            AppMenuEntry::Divider => before,
        }
    }
}

proof fn lemma_items_same_length<Command>(entries: Seq<AppMenuEntry<Command>>)
    ensures
        item_flags(entries).len() == item_commands(entries).len(),
    decreases entries.len(),
{
    if entries.len() > 0 {
        lemma_items_same_length(entries.drop_last());
    }
}

/// The positions, among the items, of the enabled ones, in order.
pub open spec fn enabled_positions(flags: Seq<bool>) -> Seq<int>
    decreases flags.len(),
{
    if flags.len() == 0 {
        Seq::empty()
    } else {
        let before = enabled_positions(flags.drop_last());
        if flags.last() { before.push(flags.len() - 1) } else { before }
    }
}

/// The enabled positions are exactly the enabled items, in increasing order.
pub proof fn lemma_enabled_positions(flags: Seq<bool>)
    ensures
        forall|k: int| 0 <= k < enabled_positions(flags).len() ==>
            0 <= #[trigger] enabled_positions(flags)[k] < flags.len() && flags[enabled_positions(flags)[k]],
        forall|a: int, b: int| 0 <= a < b < enabled_positions(flags).len() ==>
            #[trigger] enabled_positions(flags)[a] < #[trigger] enabled_positions(flags)[b],
        forall|i: int| 0 <= i < flags.len() && flags[i] ==> enabled_positions(flags).contains(i),
    decreases flags.len(),
{
    if flags.len() > 0 {
        let before = flags.drop_last();
        lemma_enabled_positions(before);
        let e = enabled_positions(flags);
        let eb = enabled_positions(before);
        assert forall|k: int| 0 <= k < e.len() implies 0 <= #[trigger] e[k] < flags.len() && flags[e[k]] by {
            if k < eb.len() {
                assert(e[k] == eb[k]);
                assert(before[eb[k]] == flags[eb[k]]);
            }
        }
        assert forall|a: int, b: int| 0 <= a < b < e.len() implies #[trigger] e[a] < #[trigger] e[b] by {
            if b < eb.len() {
                assert(e[a] == eb[a] && e[b] == eb[b]);
            } else {
                assert(e[a] == eb[a]);
            }
        }
        assert forall|i: int| 0 <= i < flags.len() && flags[i] implies e.contains(i) by {
            if i < flags.len() - 1 {
                assert(before[i] == flags[i]);
                let k = eb.index_of(i);
                assert(e[k] == i);
            } else {
                assert(e[e.len() - 1] == i);
            }
        }
    }
}

/// The positions, among the items, of the enabled items.
pub fn enabled_menu_items<Command>(entries: &[AppMenuEntry<Command>]) -> (r: Vec<usize>)
    ensures
        r@.map_values(|i: usize| i as int) == enabled_positions(item_flags(entries@)),
{
    let mut enabled: Vec<usize> = Vec::new();
    let mut items: usize = 0;
    let mut i: usize = 0;
    proof {
        assert(entries@.take(0) =~= Seq::<AppMenuEntry<Command>>::empty());
        assert(enabled@.map_values(|i: usize| i as int) =~= Seq::<int>::empty());
    }
    while i < entries.len()
        invariant
            i <= entries@.len(),
            items <= i,
            items == item_flags(entries@.take(i as int)).len(),
            enabled@.map_values(|i: usize| i as int) == enabled_positions(item_flags(entries@.take(i as int))),
        decreases entries@.len() - i,
    {
        proof {
            assert(entries@.take(i + 1).drop_last() =~= entries@.take(i as int));
            assert(entries@.take(i + 1).last() == entries@[i as int]);
        }
        match &entries[i] {
            AppMenuEntry::Item { enabled: item_enabled, .. } => {
                let ghost flags = item_flags(entries@.take(i + 1));
                proof {
                    assert(flags.drop_last() =~= item_flags(entries@.take(i as int)));
                    assert(flags.last() == *item_enabled);
                }
                if *item_enabled {
                    let ghost before = enabled@;
                    enabled.push(items);
                    proof {
                        assert(enabled@.map_values(|i: usize| i as int) =~= before.map_values(|i: usize| i as int).push(items as int));
                    }
                }
                items = items + 1;
            },
            AppMenuEntry::Divider => {},
        }
        i = i + 1;
    }
    proof {
        assert(entries@.take(entries@.len() as int) =~= entries@);
    }
    enabled
}

/// The first enabled item, if any.
pub fn first_enabled_menu_item<Command>(entries: &[AppMenuEntry<Command>]) -> (r: Option<usize>)
    ensures
        match r {
            Some(i) => enabled_positions(item_flags(entries@)).len() > 0
                && i as int == enabled_positions(item_flags(entries@))[0],
            None => enabled_positions(item_flags(entries@)).len() == 0,
        },
{
    let enabled = enabled_menu_items(entries);
    if enabled.len() == 0 {
        None
    } else {
        proof {
            assert(enabled@.map_values(|i: usize| i as int)[0] == enabled@[0] as int);
        }
        Some(enabled[0])
    }
}

proof fn lemma_items_concat<Command>(a: Seq<AppMenuEntry<Command>>, b: Seq<AppMenuEntry<Command>>)
    ensures
        item_flags(a + b) == item_flags(a) + item_flags(b),
        item_commands(a + b) == item_commands(a) + item_commands(b),
    decreases b.len(),
{
    if b.len() == 0 {
        assert(a + b =~= a);
        assert(item_flags(a) + item_flags(b) =~= item_flags(a));
        assert(item_commands(a) + item_commands(b) =~= item_commands(a));
    } else {
        assert((a + b).drop_last() =~= a + b.drop_last());
        assert((a + b).last() == b.last());
        lemma_items_concat(a, b.drop_last());
        match b.last() {
            AppMenuEntry::Item { enabled, command, .. } => {
                assert(item_flags(a) + item_flags(b) =~= (item_flags(a) + item_flags(b.drop_last())).push(enabled));
                assert(item_commands(a) + item_commands(b) =~= (item_commands(a) + item_commands(b.drop_last())).push(command));
            },
            AppMenuEntry::Divider => {},
        }
    }
}

/// The command of the item at position `target` among the items, when that
/// item is enabled.
pub fn menu_command_at<Command>(entries: &[AppMenuEntry<Command>], target: usize) -> (r: Option<&Command>)
    ensures
        match r {
            Some(c) => 0 <= target < item_flags(entries@).len() && item_flags(entries@)[target as int]
                && *c == item_commands(entries@)[target as int],
            None => !(0 <= target < item_flags(entries@).len() && item_flags(entries@)[target as int]),
        },
{
    let ghost all = entries@;
    let mut items: usize = 0;
    let mut i: usize = 0;
    proof {
        assert(all.take(0) =~= Seq::<AppMenuEntry<Command>>::empty());
    }
    while i < entries.len()
        invariant
            all == entries@,
            i <= all.len(),
            items <= i,
            items == item_flags(all.take(i as int)).len(),
            items <= target,
        decreases all.len() - i,
    {
        proof {
            assert(all.take(i + 1).drop_last() =~= all.take(i as int));
            assert(all.take(i + 1).last() == all[i as int]);
            assert(all.take(i + 1) + all.skip(i + 1) =~= all);
            lemma_items_concat(all.take(i + 1), all.skip(i + 1));
            lemma_items_same_length(all.take(i + 1));
        }
        match &entries[i] {
            AppMenuEntry::Item { enabled, command, .. } => {
                if items == target {
                    proof {
                        assert(item_flags(all)[target as int] == item_flags(all.take(i + 1))[target as int]);
                        assert(item_commands(all)[target as int] == item_commands(all.take(i + 1))[target as int]);
                    }
                    if *enabled {
                        return Some(command);
                    } else {
                        return None;
                    }
                }
                items = items + 1;
            },
            AppMenuEntry::Divider => {},
        }
        i = i + 1;
    }
    proof {
        assert(all.take(all.len() as int) =~= all);
    }
    None
}

/// Keyboard moves inside the menus.
#[derive(Debug, Clone, Copy, PartialEq, Eq, Structural)]
pub enum MenuNavigation {
    NextItem,
    PreviousItem,
    FirstItem,
    LastItem,
    NextMenu,
    PreviousMenu,
    Activate,
}

/// The item focused after moving from `focus` among the enabled items
/// `enabled` (positions among the items): the next or previous one, going
/// round, or the first or last one.  A focus on no enabled item counts as
/// the first enabled item.  `None` when no item is enabled or the move is
/// not between items.
pub open spec fn moved_focus(enabled: Seq<int>, focus: int, navigation: MenuNavigation) -> Option<int> {
    let n = enabled.len() as int;
    let current = if enabled.contains(focus) { enabled.index_of(focus) } else { 0 };
    if n == 0 {
        None
    } else {
        match navigation {
            MenuNavigation::NextItem => Some(enabled[(current + 1) % n]),
            MenuNavigation::PreviousItem => Some(enabled[(current + n - 1) % n]),
            MenuNavigation::FirstItem => Some(enabled[0]),
            MenuNavigation::LastItem => Some(enabled[n - 1]),
            _ => None,
        }
    }
}

/// The focus after moving between the items of the open menu.
pub fn move_menu_focus(enabled: &Vec<usize>, focus: usize, navigation: MenuNavigation) -> (r: Option<usize>)
    requires
        enabled@.map_values(|i: usize| i as int).no_duplicates(),
    ensures
        match r {
            Some(f) => moved_focus(enabled@.map_values(|i: usize| i as int), focus as int, navigation) == Some(f as int),
            None => moved_focus(enabled@.map_values(|i: usize| i as int), focus as int, navigation) is None,
        },
{
    let ghost ev = enabled@.map_values(|i: usize| i as int);
    let n = enabled.len();
    if n == 0 {
        return None;
    }
    let mut current: usize = 0;
    let mut k: usize = 0;
    while k < n
        invariant
            n == enabled@.len() == ev.len(),
            ev == enabled@.map_values(|i: usize| i as int),
            k <= n,
            forall|j: int| 0 <= j < k ==> ev[j] != focus as int,
        ensures
            k <= n,
            forall|j: int| 0 <= j < k ==> ev[j] != focus as int,
            k < n ==> ev[k as int] == focus as int,
        decreases n - k,
    {
        if enabled[k] == focus {
            break;
        }
        k = k + 1;
    }
    if k < n {
        current = k;
        proof {
            assert(ev[k as int] == focus as int);
            assert(ev.contains(focus as int));
            assert(ev.index_of(focus as int) == k as int) by {
                let w = ev.index_of(focus as int);
                assert(ev[w] == focus as int);
                if w != k as int {
                    assert(ev[w] == ev[k as int]);
                }
            }
        }
    } else {
        proof {
            if ev.contains(focus as int) {
                let w = ev.index_of(focus as int);
                assert(ev[w] == focus as int);
            }
        }
    }
    let target = match navigation {
        MenuNavigation::NextItem => (current + 1) % n,
        MenuNavigation::PreviousItem => if current == 0 { n - 1 } else { current - 1 },
        MenuNavigation::FirstItem => 0,
        MenuNavigation::LastItem => n - 1,
        _ => return None,
    };
    proof {
        assert(current < n);
        if navigation == MenuNavigation::PreviousItem {
            assert((current + n - 1) % (n as int) == target) by (nonlinear_arith)
                requires
                    current < n,
                    target == if current == 0 { n - 1 } else { current - 1 },
            ;
        }
        assert(ev[target as int] == enabled@[target as int] as int);
    }
    Some(enabled[target])
}

/// The menu opened by moving to the next or previous menu.
pub fn switched_menu(current: AppMenu, navigation: MenuNavigation) -> (r: Option<AppMenu>)
    ensures
        r == match navigation {
            MenuNavigation::NextMenu => Some(next_menu(current)),
            MenuNavigation::PreviousMenu => Some(previous_menu(current)),
            _ => None,
        },
{
    match navigation {
        MenuNavigation::NextMenu => Some(current.next()),
        MenuNavigation::PreviousMenu => Some(current.previous()),
        _ => None,
    }
}

} // verus!
