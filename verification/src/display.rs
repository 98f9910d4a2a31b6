//! Choosing the display whose density sizes the preview.
use vstd::prelude::*;

verus! {

/// Position and size of a display, in logical pixels.
#[derive(Debug, Clone, Copy, PartialEq, Eq, Structural)]
pub struct DisplayGeometry {
    pub x: i32,
    pub y: i32,
    pub width: u32,
    pub height: u32,
    pub is_primary: bool,
}

/// Whether the origin of the desktop lies on the display.
pub open spec fn holds_origin(d: DisplayGeometry) -> bool {
    d.x <= 0 && 0 < d.x + d.width && d.y <= 0 && 0 < d.y + d.height
}

/// Whether the display holds the origin of the desktop.
pub fn contains_origin(display: &DisplayGeometry) -> (r: bool)
    ensures
        r == holds_origin(*display),
{
    let left = display.x as i64;
    let top = display.y as i64;
    let right = left + display.width as i64;
    let bottom = top + display.height as i64;
    left <= 0 && 0 < right && top <= 0 && 0 < bottom
}

/// Index of the first display that satisfies `wanted`.
pub open spec fn first_index(displays: Seq<DisplayGeometry>, wanted: spec_fn(DisplayGeometry) -> bool) -> Option<int>
    decreases displays.len(),
{
    if displays.len() == 0 {
        None
    } else if wanted(displays[0]) {
        Some(0)
    } else {
        match first_index(displays.drop_first(), wanted) {
            Some(i) => Some(i + 1),
            None => None,
        }
    }
}

/// The display used at start: the primary one, else the one that holds the
/// origin, else the first.
pub open spec fn initial_display(displays: Seq<DisplayGeometry>) -> Option<int> {
    match first_index(displays, |d: DisplayGeometry| d.is_primary) {
        Some(i) => Some(i),
        None => match first_index(displays, |d: DisplayGeometry| holds_origin(d)) {
            Some(i) => Some(i),
            None => if displays.len() > 0 { Some(0) } else { None },
        },
    }
}

proof fn lemma_first_index_step(displays: Seq<DisplayGeometry>, wanted: spec_fn(DisplayGeometry) -> bool, i: int)
    requires
        0 <= i < displays.len(),
        forall|k: int| 0 <= k < i ==> !wanted(#[trigger] displays[k]),
    ensures
        first_index(displays, wanted) == match first_index(displays.skip(i), wanted) {
            Some(j) => Some(j + i),
            None => None,
        },
    decreases i,
{
    if i == 0 {
        assert(displays.skip(0) =~= displays);
    } else {
        assert(!wanted(displays[0]));
        let rest = displays.drop_first();
        assert forall|k: int| 0 <= k < i - 1 implies !wanted(#[trigger] rest[k]) by {
            assert(rest[k] == displays[k + 1]);
        }
        assert(rest.skip(i - 1) =~= displays.skip(i));
        lemma_first_index_step(rest, wanted, i - 1);
    }
}

proof fn lemma_first_index_none(displays: Seq<DisplayGeometry>, wanted: spec_fn(DisplayGeometry) -> bool)
    requires
        forall|k: int| 0 <= k < displays.len() ==> !wanted(#[trigger] displays[k]),
    ensures
        first_index(displays, wanted) is None,
    decreases displays.len(),
{
    if displays.len() > 0 {
        assert(!wanted(displays[0]));
        let rest = displays.drop_first();
        assert forall|k: int| 0 <= k < rest.len() implies !wanted(#[trigger] rest[k]) by {
            assert(rest[k] == displays[k + 1]);
        }
        lemma_first_index_none(rest, wanted);
    }
}

fn find_display(displays: &[DisplayGeometry], primary: bool) -> (r: Option<usize>)
    ensures
        match r {
            Some(i) => Some(i as int) == first_index(displays@, if primary {
                |d: DisplayGeometry| d.is_primary
            } else {
                |d: DisplayGeometry| holds_origin(d)
            }),
            None => first_index(displays@, if primary {
                |d: DisplayGeometry| d.is_primary
            } else {
                |d: DisplayGeometry| holds_origin(d)
            }) is None,
        },
{
    let ghost wanted = if primary {
        |d: DisplayGeometry| d.is_primary
    } else {
        |d: DisplayGeometry| holds_origin(d)
    };
    let mut i: usize = 0;
    while i < displays.len()
        invariant
            i <= displays@.len(),
            wanted == (if primary { |d: DisplayGeometry| d.is_primary } else { |d: DisplayGeometry| holds_origin(d) }),
            forall|k: int| 0 <= k < i ==> !wanted(#[trigger] displays@[k]),
        decreases displays@.len() - i,
    {
        let hit = if primary { displays[i].is_primary } else { contains_origin(&displays[i]) };
        if hit {
            proof {
                lemma_first_index_step(displays@, wanted, i as int);
                assert(displays@.skip(i as int)[0] == displays@[i as int]);
            }
            return Some(i);
        }
        i = i + 1;
    }
    proof {
        lemma_first_index_none(displays@, wanted);
    }
    None
}

/// Index of the display used at start.
pub fn select_initial_display(displays: &[DisplayGeometry]) -> (r: Option<usize>)
    ensures
        match r {
            Some(i) => Some(i as int) == initial_display(displays@),
            None => initial_display(displays@) is None,
        },
{
    match find_display(displays, true) {
        Some(i) => Some(i),
        None => match find_display(displays, false) {
            Some(i) => Some(i),
            None => if displays.len() > 0 { Some(0) } else { None },
        },
    }
}

} // verus!
