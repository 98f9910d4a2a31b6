//! Replacing byte ranges of a text, and where positions of the text end up.
use vstd::prelude::*;
use vstd::utf8::*;
use vstd::string::*;
use std::ops::Range;
use crate::search::{well_placed, ranges_view};
use crate::text::{push_str, byte_count, lemma_encode_concat, lemma_boundary_left, lemma_boundary_right, lemma_boundary_inside};

verus! {

/// `bytes` from `from` on, with each of `ranges` replaced by `replacement`.
pub open spec fn spliced(bytes: Seq<u8>, ranges: Seq<(int, int)>, replacement: Seq<u8>, from: int) -> Seq<u8>
    decreases ranges.len(),
{
    if ranges.len() == 0 {
        bytes.subrange(from, bytes.len() as int)
    } else {
        bytes.subrange(from, ranges[0].0) + replacement + spliced(bytes, ranges.drop_first(), replacement, ranges[0].1)
    }
}

/// A character boundary of a text is one of the text that follows any
/// earlier boundary.
pub proof fn lemma_boundary_in_suffix(bytes: Seq<u8>, a: int, b: int)
    requires
        valid_utf8(bytes),
        0 <= a <= b <= bytes.len(),
        is_char_boundary(bytes, a),
        is_char_boundary(bytes, b),
    ensures
        is_char_boundary(bytes.subrange(a, bytes.len() as int), b - a),
{
    let suffix = bytes.subrange(a, bytes.len() as int);
    valid_utf8_split(bytes, a);
    is_char_boundary_start_end_of_seq(suffix);
    if b < bytes.len() {
        is_char_boundary_iff_not_is_continuation_byte(bytes, b);
        is_char_boundary_iff_not_is_continuation_byte(suffix, b - a);
        assert(suffix[b - a] == bytes[b]);
    }
}

/// Splicing can go range by range: the text up to a range, the replacement, then the rest.
pub proof fn lemma_splice_step(bytes: Seq<u8>, found: Seq<(int, int)>, replacement: Seq<u8>, k: int, last: int)
    requires
        well_placed(found, bytes),
        0 <= k < found.len(),
        k > 0 ==> last == found[k - 1].1,
        k == 0 ==> last == 0,
    ensures
        0 <= last <= found[k].0 <= found[k].1 <= bytes.len(),
        spliced(bytes, found.skip(k), replacement, last) == bytes.subrange(last, found[k].0) + replacement
            + spliced(bytes, found.skip(k + 1), replacement, found[k].1),
{
    if k > 0 {
        assert(found[k - 1].1 <= found[k].0);
        assert(0 <= found[k - 1].0 <= found[k - 1].1);
    }
    assert(found[k].0 <= found[k].1);
    let tail = found.skip(k);
    assert(tail[0] == found[k]);
    assert(tail.drop_first() =~= found.skip(k + 1));
}

/// Where byte position `p` of the text ends up once each of `ranges`
/// (from `from` on) is replaced by `inserted` bytes: a position before a
/// range keeps its place, one inside a replaced range moves to where the
/// range started, and one at an insertion point stays in front of the
/// inserted bytes unless `after` asks to move behind them.  The result is
/// counted from the image of `from`.
pub open spec fn moved(p: int, ranges: Seq<(int, int)>, inserted: int, after: bool, from: int) -> int
    decreases ranges.len(),
{
    if ranges.len() == 0 {
        p - from
    } else {
        let a = ranges[0].0;
        let b = ranges[0].1;
        if p < a || (p == a && (a < b || !after)) {
            p - from
        } else if p < b {
            a - from
        } else {
            (a - from) + inserted + moved(p, ranges.drop_first(), inserted, after, b)
        }
    }
}

/// The ranges that come after `from`.
pub open spec fn placed_from(ranges: Seq<(int, int)>, bytes: Seq<u8>, from: int) -> bool {
    &&& well_placed(ranges, bytes)
    &&& 0 <= from <= bytes.len()
    &&& is_char_boundary(bytes, from)
    &&& ranges.len() > 0 ==> from <= ranges[0].0
}

proof fn lemma_placed_rest(ranges: Seq<(int, int)>, bytes: Seq<u8>, from: int)
    requires
        placed_from(ranges, bytes, from),
        ranges.len() > 0,
    ensures
        placed_from(ranges.drop_first(), bytes, ranges[0].1),
        from <= ranges[0].0 <= ranges[0].1 <= bytes.len(),
        is_char_boundary(bytes, ranges[0].0),
{
    let rest = ranges.drop_first();
    assert(0 <= ranges[0].0 <= ranges[0].1 <= bytes.len());
    assert forall|i: int| 0 <= i < rest.len() implies {
        &&& 0 <= (#[trigger] rest[i]).0 <= rest[i].1 <= bytes.len()
        &&& is_char_boundary(bytes, rest[i].0)
        &&& is_char_boundary(bytes, rest[i].1)
    } by {
        assert(rest[i] == ranges[i + 1]);
    }
    assert forall|i: int, j: int| 0 <= i < j < rest.len() implies (#[trigger] rest[i]).1 <= (#[trigger] rest[j]).0 by {
        assert(rest[i] == ranges[i + 1]);
        assert(rest[j] == ranges[j + 1]);
    }
    if rest.len() > 0 {
        assert(rest[0] == ranges[1]);
        assert(ranges[0].1 <= ranges[1].0);
    }
}

/// Splicing valid replacements into valid text gives valid text, and every
/// character boundary ends up on one.
pub proof fn lemma_moved_boundary(bytes: Seq<u8>, ranges: Seq<(int, int)>, replacement: Seq<u8>, from: int, p: int, after: bool)
    requires
        valid_utf8(bytes),
        valid_utf8(replacement),
        placed_from(ranges, bytes, from),
        from <= p <= bytes.len(),
        is_char_boundary(bytes, p),
    ensures
        valid_utf8(spliced(bytes, ranges, replacement, from)),
        0 <= moved(p, ranges, replacement.len() as int, after, from) <= spliced(bytes, ranges, replacement, from).len(),
        is_char_boundary(spliced(bytes, ranges, replacement, from), moved(p, ranges, replacement.len() as int, after, from)),
    decreases ranges.len(),
{
    let n = bytes.len() as int;
    is_char_boundary_start_end_of_seq(bytes);
    if ranges.len() == 0 {
        lemma_boundary_inside(bytes, from, n, p);
    } else {
        lemma_placed_rest(ranges, bytes, from);
        let a = ranges[0].0;
        let b = ranges[0].1;
        let x = bytes.subrange(from, a);
        let y = spliced(bytes, ranges.drop_first(), replacement, b);
        lemma_boundary_inside(bytes, from, a, a);
        lemma_moved_boundary(bytes, ranges.drop_first(), replacement, b, b, after);
        let whole = x + replacement + y;
        assert(spliced(bytes, ranges, replacement, from) == whole);
        lemma_boundary_left(x, replacement, x.len() as int);
        if p < a || (p == a && (a < b || !after)) {
            lemma_boundary_inside(bytes, from, a, p);
            lemma_boundary_left(x, replacement, p - from);
            lemma_boundary_left(x + replacement, y, p - from);
        } else if p < b {
            is_char_boundary_start_end_of_seq(x);
            lemma_boundary_left(x, replacement, x.len() as int);
            lemma_boundary_left(x + replacement, y, x.len() as int);
        } else {
            lemma_moved_boundary(bytes, ranges.drop_first(), replacement, b, p, after);
            let q = moved(p, ranges.drop_first(), replacement.len() as int, after, b);
            lemma_boundary_right(x + replacement, y, q);
        }
    }
}

/// Positions keep their order.
pub proof fn lemma_moved_monotone(ranges: Seq<(int, int)>, inserted: int, from: int, p: int, p_after: bool, q: int, q_after: bool, bytes: Seq<u8>)
    requires
        placed_from(ranges, bytes, from),
        inserted >= 0,
        from <= p,
        p < q || (p == q && p_after == q_after),
    ensures
        moved(p, ranges, inserted, p_after, from) <= moved(q, ranges, inserted, q_after, from),
    decreases ranges.len(),
{
    if ranges.len() > 0 {
        lemma_placed_rest(ranges, bytes, from);
        let b = ranges[0].1;
        if q >= b {
            lemma_moved_nonnegative(ranges.drop_first(), inserted, b, q, q_after, bytes);
        }
        if p >= b && q >= b {
            lemma_moved_monotone(ranges.drop_first(), inserted, b, p, p_after, q, q_after, bytes);
        }
    }
}

proof fn lemma_moved_nonnegative(ranges: Seq<(int, int)>, inserted: int, from: int, p: int, after: bool, bytes: Seq<u8>)
    requires
        placed_from(ranges, bytes, from),
        inserted >= 0,
        from <= p,
    ensures
        moved(p, ranges, inserted, after, from) >= 0,
    decreases ranges.len(),
{
    if ranges.len() > 0 {
        lemma_placed_rest(ranges, bytes, from);
        if p >= ranges[0].1 {
            lemma_moved_nonnegative(ranges.drop_first(), inserted, ranges[0].1, p, after, bytes);
        }
    }
}

proof fn lemma_moved_step(found: Seq<(int, int)>, ins: int, k: int, last: int, p: int, after: bool)
    requires
        0 <= k < found.len(),
    ensures
        moved(p, found.skip(k), ins, after, last) == ({
            let a = found[k].0;
            let b = found[k].1;
            if p < a || (p == a && (a < b || !after)) {
                p - last
            } else if p < b {
                a - last
            } else {
                (a - last) + ins + moved(p, found.skip(k + 1), ins, after, b)
            }
        }),
{
    let tail_found = found.skip(k);
    assert(tail_found[0] == found[k]);
    assert(tail_found.drop_first() =~= found.skip(k + 1));
}

/// The new place of `p` when the step that replaces `[a, b)` settles it,
/// counted in the output written so far (`written` bytes, the text before
/// having been copied up to `last`).
fn settle(p: usize, after: bool, a: usize, b: usize, last: usize, written: usize) -> (r: Option<usize>)
    requires
        last <= p,
        last <= a <= b,
        written + (a - last) <= usize::MAX,
    ensures
        (p < a || (p == a && (a < b || !after))) ==> r == Some((written + (p - last)) as usize),
        !(p < a || (p == a && (a < b || !after))) && p < b ==> r == Some((written + (a - last)) as usize),
        !(p < a || (p == a && (a < b || !after))) && p >= b ==> r is None,
{
    if p < a || (p == a && (a < b || !after)) {
        Some(written + (p - last))
    } else if p < b {
        Some(written + (a - last))
    } else {
        None
    }
}

/// Replaces each of `ranges` of `text` by `replacement`, and tells where
/// the positions `p` and `q` end up (see `moved`).
#[verifier::rlimit(40)]
pub fn splice_tracking(
    text: &str,
    ranges: &Vec<Range<usize>>,
    replacement: &str,
    p: usize,
    p_after: bool,
    q: usize,
    q_after: bool,
) -> (r: (String, usize, usize))
    requires
        well_placed(ranges_view(ranges@), text.spec_bytes()),
        p <= text.spec_bytes().len(),
        q <= text.spec_bytes().len(),
    ensures
        encode_utf8(r.0@) == spliced(text.spec_bytes(), ranges_view(ranges@), replacement.spec_bytes(), 0),
        r.1 == moved(p as int, ranges_view(ranges@), replacement.spec_bytes().len() as int, p_after, 0),
        r.2 == moved(q as int, ranges_view(ranges@), replacement.spec_bytes().len() as int, q_after, 0),
{
    let ghost bytes = text.spec_bytes();
    let ghost found = ranges_view(ranges@);
    let ghost rep = replacement.spec_bytes();
    let ghost ins = rep.len() as int;
    let mut out = String::new();
    let mut rest: &str = text;
    let mut last: usize = 0;
    let mut k: usize = 0;
    let mut p_at: Option<usize> = None;
    let mut q_at: Option<usize> = None;
    proof {
        encode_utf8_valid_utf8(text@);
        assert(bytes.subrange(0, bytes.len() as int) =~= bytes);
        assert(found.skip(0) =~= found);
        is_char_boundary_start_end_of_seq(bytes);
        assert(encode_utf8(out@) =~= Seq::<u8>::empty());
        assert(encode_utf8(out@) + spliced(bytes, found.skip(0), rep, 0) =~= spliced(bytes, found, rep, 0));
    }
    while k < ranges.len()
        invariant
            bytes == text.spec_bytes(),
            rep == replacement.spec_bytes(),
            ins == rep.len(),
            valid_utf8(bytes),
            k <= ranges@.len() == found.len(),
            found == ranges_view(ranges@),
            well_placed(found, bytes),
            p <= bytes.len(),
            q <= bytes.len(),
            last <= bytes.len(),
            is_char_boundary(bytes, last as int),
            k > 0 ==> last == found[k - 1].1,
            k == 0 ==> last == 0,
            rest.spec_bytes() == bytes.subrange(last as int, bytes.len() as int),
            encode_utf8(out@) + spliced(bytes, found.skip(k as int), rep, last as int) == spliced(bytes, found, rep, 0),
            match p_at {
                Some(v) => v == moved(p as int, found, ins, p_after, 0),
                None => last <= p && moved(p as int, found, ins, p_after, 0)
                    == encode_utf8(out@).len() + moved(p as int, found.skip(k as int), ins, p_after, last as int),
            },
            match q_at {
                Some(v) => v == moved(q as int, found, ins, q_after, 0),
                None => last <= q && moved(q as int, found, ins, q_after, 0)
                    == encode_utf8(out@).len() + moved(q as int, found.skip(k as int), ins, q_after, last as int),
            },
        decreases ranges@.len() - k,
    {
        let start = ranges[k].start;
        let end = ranges[k].end;
        proof {
            assert(found[k as int] == (start as int, end as int));
            lemma_splice_step(bytes, found, rep, k as int, last as int);
            lemma_boundary_in_suffix(bytes, last as int, start as int);
            lemma_moved_step(found, ins, k as int, last as int, p as int, p_after);
            lemma_moved_step(found, ins, k as int, last as int, q as int, q_after);
        }
        let (piece, tail) = rest.split_at(start - last);
        proof {
            assert(tail.spec_bytes() =~= bytes.subrange(start as int, bytes.len() as int));
            lemma_boundary_in_suffix(bytes, start as int, end as int);
            assert(piece.spec_bytes() =~= bytes.subrange(last as int, start as int));
        }
        let written = byte_count(out.as_str());
        let ghost before = out@;
        push_str(&mut out, piece);
        let copied = byte_count(out.as_str());
        proof {
            lemma_encode_concat(before, piece@);
        }
        if p_at.is_none() {
            p_at = settle(p, p_after, start, end, last, written);
        }
        if q_at.is_none() {
            q_at = settle(q, q_after, start, end, last, written);
        }
        let ghost middle = out@;
        push_str(&mut out, replacement);
        let (_, after) = tail.split_at(end - start);
        proof {
            lemma_encode_concat(middle, replacement@);
            assert(after.spec_bytes() =~= bytes.subrange(end as int, bytes.len() as int));
            let rest_of = spliced(bytes, found.skip(k + 1), rep, end as int);
            assert(encode_utf8(out@) + rest_of =~= encode_utf8(before) + (bytes.subrange(last as int, start as int)
                + rep + rest_of));
        }
        rest = after;
        last = end;
        k = k + 1;
    }
    let written = byte_count(out.as_str());
    let ghost before = out@;
    push_str(&mut out, rest);
    proof {
        lemma_encode_concat(before, rest@);
        assert(found.skip(k as int) =~= Seq::<(int, int)>::empty());
    }
    let total = byte_count(out.as_str());
    let p_new = match p_at {
        Some(v) => v,
        None => written + (p - last),
    };
    let q_new = match q_at {
        Some(v) => v,
        None => written + (q - last),
    };
    (out, p_new, q_new)
}

} // verus!
