//! The search bar of the editor: which match is current as the matches
//! change, moving between them, and replacing one or all of them.
use vstd::prelude::*;
use vstd::utf8::*;
use vstd::string::*;
use std::ops::Range;
use crate::edits::{spliced, splice_tracking};
use crate::search::{ranges_view, well_placed};
use crate::text::{decimal, decimal_string, push_str};

verus! {

/// The current match after the matches were found again: the preferred one,
/// else the one that was current, else the first, but never past the last;
/// none when there are no matches.
pub open spec fn current_after_refresh(count: nat, preferred: Option<usize>, previous: Option<usize>) -> Option<int> {
    if count == 0 {
        None
    } else {
        let wanted: int = match preferred {
            Some(p) => p as int,
            None => match previous {
                Some(p) => p as int,
                None => 0,
            },
        };
        Some(if wanted < count - 1 { wanted } else { count - 1 })
    }
}

/// Chooses the current match among `count` new ones.
pub fn refreshed_current(count: usize, preferred: Option<usize>, previous: Option<usize>) -> (r: Option<usize>)
    ensures
        match r {
            Some(i) => current_after_refresh(count as nat, preferred, previous) == Some(i as int),
            None => current_after_refresh(count as nat, preferred, previous) is None,
        },
{
    if count == 0 {
        return None;
    }
    let wanted = match preferred {
        Some(p) => p,
        None => match previous {
            Some(p) => p,
            None => 0,
        },
    };
    Some(if wanted < count - 1 { wanted } else { count - 1 })
}

/// The match after moving from `current` among `count` matches: forwards
/// from the last comes the first, backwards from the first (or from none)
/// comes the last.
pub open spec fn moved_to(count: nat, current: Option<usize>, reverse: bool) -> Option<int> {
    if count == 0 {
        None
    } else {
        Some(match (current, reverse) {
            (Some(i), true) => if i == 0 { count - 1 } else { i - 1 },
            (None, true) => count - 1,
            (Some(i), false) => (i + 1) % (count as int),
            (None, false) => 0,
        })
    }
}

/// Moving forward from match `i` goes to the match after it, and from the
/// last one back to the first; moving backward undoes moving forward and
/// the other way round.
pub proof fn law_next_and_previous_match(count: nat, i: usize)
    requires
        i < count,
        count <= usize::MAX,
    ensures
        i + 1 < count ==> moved_to(count, Some(i), false) == Some(i + 1),
        i + 1 == count ==> moved_to(count, Some(i), false) == Some(0int),
        i > 0 ==> moved_to(count, Some(i), true) == Some(i - 1),
        i == 0 ==> moved_to(count, Some(i), true) == Some(count - 1),
        moved_to(count, Some(i), false) matches Some(j) && 0 <= j < count
            && moved_to(count, Some(j as usize), true) == Some(i as int),
        moved_to(count, Some(i), true) matches Some(j) && 0 <= j < count
            && moved_to(count, Some(j as usize), false) == Some(i as int),
{
    let m = count as int;
    if i + 1 < count {
        vstd::arithmetic::div_mod::lemma_small_mod((i + 1) as nat, count);
    } else {
        vstd::arithmetic::div_mod::lemma_mod_self_0(m);
    }
    if i > 0 {
        vstd::arithmetic::div_mod::lemma_small_mod(i as nat, count);
    } else if count > 1 {
        vstd::arithmetic::div_mod::lemma_small_mod(0, count);
    } else {
        vstd::arithmetic::div_mod::lemma_mod_self_0(m);
    }
}

/// Moves to the next match, or the previous one with `reverse`.
pub fn moved_match(count: usize, current: Option<usize>, reverse: bool) -> (r: Option<usize>)
    ensures
        match r {
            Some(i) => moved_to(count as nat, current, reverse) == Some(i as int),
            None => moved_to(count as nat, current, reverse) is None,
        },
{
    if count == 0 {
        return None;
    }
    Some(match (current, reverse) {
        (Some(i), true) => if i == 0 { count - 1 } else { i - 1 },
        (None, true) => count - 1,
        (Some(i), false) => {
            let r = i % count;
            proof {
                let m = count as int;
                vstd::arithmetic::div_mod::lemma_add_mod_noop_right(1, i as int, m);
                if r < count - 1 {
                    vstd::arithmetic::div_mod::lemma_small_mod((r + 1) as nat, m as nat);
                } else {
                    assert(r + 1 == m);
                    vstd::arithmetic::div_mod::lemma_mod_self_0(m);
                }
            }
            if r < count - 1 { r + 1 } else { 0 }
        },
        (None, false) => 0,
    })
}

/// Finds the match to continue with after a replacement that ended at
/// `resume_at`: the first that starts there or later, else the first one;
/// none when there are none.
pub fn match_after_replacement(ranges: &Vec<Range<usize>>, resume_at: usize) -> (r: Option<usize>)
    ensures
        ranges@.len() == 0 ==> r is None,
        ranges@.len() > 0 ==> (r matches Some(k) && {
            let v = ranges_view(ranges@);
            &&& k < v.len()
            &&& (v[k as int].0 >= resume_at && forall|j: int| 0 <= j < k ==> v[j].0 < resume_at)
                || (k == 0 && forall|j: int| 0 <= j < v.len() ==> v[j].0 < resume_at)
        }),
{
    let ghost v = ranges_view(ranges@);
    let mut i: usize = 0;
    while i < ranges.len()
        invariant
            v == ranges_view(ranges@),
            i <= ranges@.len(),
            forall|j: int| 0 <= j < i ==> v[j].0 < resume_at,
        decreases ranges@.len() - i,
    {
        if ranges[i].start >= resume_at {
            proof { assert(v[i as int].0 >= resume_at); }
            return Some(i);
        }
        i = i + 1;
    }
    if ranges.len() > 0 {
        Some(0)
    } else {
        None
    }
}

/// Replaces the current match of the search bar in `text` by `replacement`:
/// returns the new text and the byte where the search goes on, or nothing
/// when no match is current.
pub fn replace_current_match(text: &str, ranges: &Vec<Range<usize>>, current: Option<usize>, replacement: &str)
    -> (r: Option<(String, usize)>)
    requires
        well_placed(ranges_view(ranges@), text.spec_bytes()),
        text.spec_bytes().len() + replacement.spec_bytes().len() <= usize::MAX,
    ensures
        match current {
            Some(i) if i < ranges@.len() => r matches Some((new_text, resume_at)) && {
                let range = ranges_view(ranges@)[i as int];
                &&& encode_utf8(new_text@) == spliced(text.spec_bytes(), seq![range], replacement.spec_bytes(), 0)
                &&& resume_at == range.0 + replacement.spec_bytes().len()
            },
            _ => r is None,
        },
{
    let index = match current {
        None => return None,
        Some(i) => i,
    };
    if index >= ranges.len() {
        return None;
    }
    let start = ranges[index].start;
    let end = ranges[index].end;
    let mut one: Vec<Range<usize>> = Vec::new();
    one.push(start..end);
    proof {
        let v = ranges_view(ranges@);
        assert(ranges_view(one@) =~= seq![v[index as int]]);
    }
    let resume_at = start + replacement.len();
    let (new_text, _, _) = splice_tracking(text, &one, replacement, 0, false, 0, false);
    Some((new_text, resume_at))
}

/// The status message after replacing `count` matches at once.
pub open spec fn replaced_all_status(count: nat) -> Seq<char> {
    decimal(count) + " ocorrência(s) substituída(s)"@
}

/// Replaces every match of the search bar in `text` by `replacement` in one
/// edit: returns the new text and the status message, or nothing when there
/// are no matches.
pub fn replace_all_matches(text: &str, ranges: &Vec<Range<usize>>, replacement: &str) -> (r: Option<(String, String)>)
    requires
        well_placed(ranges_view(ranges@), text.spec_bytes()),
    ensures
        ranges@.len() == 0 ==> r is None,
        ranges@.len() > 0 ==> (r matches Some((new_text, status)) && {
            &&& encode_utf8(new_text@) == spliced(text.spec_bytes(), ranges_view(ranges@), replacement.spec_bytes(), 0)
            &&& status@ == replaced_all_status(ranges@.len())
        }),
{
    if ranges.len() == 0 {
        return None;
    }
    let (new_text, _, _) = splice_tracking(text, ranges, replacement, 0, false, 0, false);
    let mut status = decimal_string(ranges.len());
    push_str(&mut status, " ocorrência(s) substituída(s)");
    Some((new_text, status))
}

/// The position of the current match, counted from one (zero when none is
/// current or it lies past the last).
pub open spec fn shown_position(count: nat, current: Option<usize>) -> nat {
    match current {
        Some(i) => if (i as nat) < count { (i + 1) as nat } else { 0 },
        None => 0,
    }
}

/// What the search bar shows of the matches: "0 resultados" when there is
/// none, else the position of the current match and how many there are.
pub open spec fn count_label(count: nat, current: Option<usize>) -> Seq<char> {
    if count == 0 {
        "0 resultados"@
    } else {
        decimal(shown_position(count, current)) + " de "@ + decimal(count)
    }
}

/// The count shown in the search bar for `count` matches of which
/// `current` is the current one.
pub fn search_count_label(count: usize, current: Option<usize>) -> (r: String)
    ensures
        r@ == count_label(count as nat, current),
{
    if count == 0 {
        return "0 resultados".to_owned();
    }
    let position: usize = match current {
        Some(i) => if i < count { i + 1 } else { 0 },
        None => 0,
    };
    let mut label = decimal_string(position);
    push_str(&mut label, " de ");
    let total = decimal_string(count);
    push_str(&mut label, total.as_str());
    label
}

} // verus!
