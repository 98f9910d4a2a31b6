//! Links between source byte ranges and the preview regions they produced.
use vstd::prelude::*;
use std::ops::Range;
use std::cmp::Ordering;

verus! {

/// The source file that produced a preview region.
#[derive(Debug, Clone, PartialEq, Eq, Hash)]
pub enum SourceTarget {
    Main,
    ProjectFile(String),
}

impl View for SourceTarget {
    type V = Option<Seq<char>>;

    /// `None` for the main document, else the path of the project file.
    open spec fn view(&self) -> Option<Seq<char>> {
        match self {
            SourceTarget::Main => None,
            SourceTarget::ProjectFile(path) => Some(path@),
        }
    }
}

impl SourceTarget {
    /// Whether both name the same source.
    pub fn same_as(&self, other: &SourceTarget) -> (r: bool)
        ensures
            r == (self@ == other@),
    {
        match (self, other) {
            (SourceTarget::Main, SourceTarget::Main) => true,
            (SourceTarget::ProjectFile(a), SourceTarget::ProjectFile(b)) => crate::text::str_eq(a.as_str(), b.as_str()),
            _ => false,
        }
    }

    /// A copy of the target.
    pub fn copied(&self) -> (r: SourceTarget)
        ensures
            r@ == self@,
    {
        match self {
            SourceTarget::Main => SourceTarget::Main,
            SourceTarget::ProjectFile(path) => SourceTarget::ProjectFile(path.clone()),
        }
    }
}

/// Kind of content a preview region shows.
#[derive(Debug, Clone, Copy, PartialEq, Eq, Structural)]
pub enum SourceRegionKind {
    Text,
    Image,
    Shape,
}

/// Priority of a region kind when several regions are hit (lower wins).
pub open spec fn hit_priority_of(kind: SourceRegionKind) -> u8 {
    match kind {
        SourceRegionKind::Text => 0,
        SourceRegionKind::Image => 1,
        SourceRegionKind::Shape => 2,
    }
}

impl SourceRegionKind {
    /// The priority of the kind when regions overlap (lower wins).
    pub fn hit_priority(self) -> (r: u8)
        ensures
            r == hit_priority_of(self),
    {
        match self {
            SourceRegionKind::Text => 0,
            SourceRegionKind::Image => 1,
            SourceRegionKind::Shape => 2,
        }
    }
}

/// Distance in bytes from `offset` to the range `[start, end)`: zero inside
/// it (and at its end), the gap otherwise.
pub open spec fn distance(start: int, end: int, offset: int) -> int {
    if offset < start {
        start - offset
    } else if offset > end {
        offset - end
    } else {
        0
    }
}

/// Byte distance from `offset` to `range`.
pub fn source_distance(range: &Range<usize>, offset: usize) -> (r: usize)
    ensures
        r == distance(range.start as int, range.end as int, offset as int),
{
    if offset < range.start {
        range.start - offset
    } else if offset > range.end {
        offset - range.end
    } else {
        0
    }
}

/// The part of `base` that a rendered piece covers: `rendered_len` bytes
/// (at least one) from `offset`, limited to `base`; the whole of `base` when
/// the offset lies outside it, the length is unknown (`usize::MAX`), or the
/// piece would be empty.
pub open spec fn narrowed_range(base: Range<usize>, offset: int, rendered_len: int) -> (int, int) {
    let len = base.end - base.start;
    if offset >= len || rendered_len == usize::MAX {
        (base.start as int, base.end as int)
    } else {
        let start = base.start + offset;
        let wanted = if rendered_len < 1 { 1 } else { rendered_len };
        let sum = if start + wanted > usize::MAX { usize::MAX as int } else { start + wanted };
        let end = if sum < base.end { sum } else { base.end as int };
        if start < end {
            (start, end)
        } else {
            (base.start as int, base.end as int)
        }
    }
}

/// Narrows a source range to the bytes of one rendered piece of it.
pub fn narrow_source_range(base: Range<usize>, offset: usize, rendered_len: usize) -> (r: Range<usize>)
    requires
        base.start <= base.end,
    ensures
        (r.start as int, r.end as int) == narrowed_range(base, offset as int, rendered_len as int),
        base.start <= r.start <= r.end <= base.end,
{
    let len = base.end - base.start;
    if offset >= len || rendered_len == usize::MAX {
        return base;
    }
    let start = base.start + offset;
    let wanted = if rendered_len < 1 { 1 } else { rendered_len };
    let sum = start.saturating_add(wanted);
    let end = if sum < base.end { sum } else { base.end };
    if start < end {
        start..end
    } else {
        base
    }
}

/// The order of two candidate regions for the source position `offset`,
/// by their source ranges and kinds alone: a range containing the offset
/// first, then the closer one, then the kind that is preferred when hit,
/// then the shorter range.
pub open spec fn rank_order(
    left: Range<usize>,
    left_kind: SourceRegionKind,
    right: Range<usize>,
    right_kind: SourceRegionKind,
    offset: int,
) -> int {
    let lc = left.start <= offset && offset < left.end;
    let rc = right.start <= offset && offset < right.end;
    let ld = distance(left.start as int, left.end as int, offset);
    let rd = distance(right.start as int, right.end as int, offset);
    let lp = hit_priority_of(left_kind);
    let rp = hit_priority_of(right_kind);
    let ll = left.end - left.start;
    let rl = right.end - right.start;
    if lc && !rc {
        -1
    } else if rc && !lc {
        1
    } else if ld < rd {
        -1
    } else if ld > rd {
        1
    } else if lp < rp {
        -1
    } else if lp > rp {
        1
    } else if ll < rl {
        -1
    } else if ll > rl {
        1
    } else {
        0
    }
}

/// The rank order at a byte position.
pub open spec fn rank_order_at(
    left: Range<usize>,
    left_kind: SourceRegionKind,
    right: Range<usize>,
    right_kind: SourceRegionKind,
    offset: usize,
) -> int {
    rank_order(left, left_kind, right, right_kind, offset as int)
}

fn order_of_u8(a: u8, b: u8) -> (r: Ordering)
    ensures
        (r == Ordering::Less) == (a < b),
        (r == Ordering::Greater) == (a > b),
        (r == Ordering::Equal) == (a == b),
{
    if a < b {
        Ordering::Less
    } else if a > b {
        Ordering::Greater
    } else {
        Ordering::Equal
    }
}

fn order_of(a: usize, b: usize) -> (r: Ordering)
    ensures
        (r == Ordering::Less) == (a < b),
        (r == Ordering::Greater) == (a > b),
        (r == Ordering::Equal) == (a == b),
{
    if a < b {
        Ordering::Less
    } else if a > b {
        Ordering::Greater
    } else {
        Ordering::Equal
    }
}

/// Compares two candidate regions for `offset` by everything but their
/// painted area; `Equal` leaves the decision to the area.
pub fn compare_source_ranks(
    left: &Range<usize>,
    left_kind: SourceRegionKind,
    right: &Range<usize>,
    right_kind: SourceRegionKind,
    offset: usize,
) -> (r: Ordering)
    requires
        left.start <= left.end,
        right.start <= right.end,
    ensures
        (r == Ordering::Less) == (rank_order_at(*left, left_kind, *right, right_kind, offset) < 0),
        (r == Ordering::Greater) == (rank_order_at(*left, left_kind, *right, right_kind, offset) > 0),
        (r == Ordering::Equal) == (rank_order_at(*left, left_kind, *right, right_kind, offset) == 0),
{
    let left_contains = left.start <= offset && offset < left.end;
    let right_contains = right.start <= offset && offset < right.end;
    if left_contains && !right_contains {
        return Ordering::Less;
    }
    if right_contains && !left_contains {
        return Ordering::Greater;
    }
    let by_distance = order_of(source_distance(left, offset), source_distance(right, offset));
    match by_distance {
        Ordering::Equal => {},
        _ => return by_distance,
    }
    let by_priority = order_of_u8(left_kind.hit_priority(), right_kind.hit_priority());
    match by_priority {
        Ordering::Equal => {},
        _ => return by_priority,
    }
    order_of(left.end - left.start, right.end - right.start)
}

/// The rank order is antisymmetric: swapping the candidates flips it.
pub proof fn law_rank_order_antisymmetric(
    a: Range<usize>,
    ak: SourceRegionKind,
    b: Range<usize>,
    bk: SourceRegionKind,
    offset: int,
)
    ensures
        rank_order(a, ak, b, bk, offset) == -rank_order(b, bk, a, ak, offset),
{
}

} // verus!
