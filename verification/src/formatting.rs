//! Formatting commands of the editor: surrounding the selection with
//! markup, and toggling a prefix at the start of the selected lines.
use vstd::prelude::*;
use vstd::utf8::*;
use vstd::string::*;
use std::ops::Range;
use crate::edits::{spliced, moved, splice_tracking, lemma_moved_boundary, lemma_moved_monotone, placed_from};
use crate::search::{well_placed, ranges_view};
use crate::project_search::{first_kept, lemma_first_kept, is_whitespace};
use crate::text::{push_str, substr, lemma_encode_concat, lemma_boundary_left, lemma_boundary_right, lemma_boundary_inside,
    lemma_boundary_after_prefix, lemma_boundary_before_suffix, byte_count};

verus! {

broadcast use vstd::utf8::encode_utf8_valid_utf8, vstd::utf8::valid_utf8_concat, vstd::utf8::encode_utf8_decode_utf8;

/// The text of an editor and its selection, as byte positions.
pub struct Content {
    text: String,
    start: usize,
    end: usize,
}

/// The text of an editor as bytes, and its selection.
pub ghost struct ContentView {
    pub bytes: Seq<u8>,
    pub start: int,
    pub end: int,
}

/// A selection runs forward between two character boundaries of the text.
pub open spec fn selection_valid(bytes: Seq<u8>, start: int, end: int) -> bool {
    &&& 0 <= start <= end <= bytes.len()
    &&& is_char_boundary(bytes, start)
    &&& is_char_boundary(bytes, end)
}

impl View for Content {
    type V = ContentView;

    closed spec fn view(&self) -> ContentView {
        ContentView { bytes: encode_utf8(self.text@), start: self.start as int, end: self.end as int }
    }
}

impl Content {
    #[verifier::type_invariant]
    closed spec fn selection_in_text(&self) -> bool {
        selection_valid(encode_utf8(self.text@), self.start as int, self.end as int)
    }

    /// A content holding `text`, with the caret at its start.
    pub fn with_text(text: String) -> (c: Self)
        ensures
            c@ == (ContentView { bytes: encode_utf8(text@), start: 0, end: 0 }),
    {
        proof {
            is_char_boundary_start_end_of_seq(encode_utf8(text@));
        }
        Content { text, start: 0, end: 0 }
    }

    /// The whole text.
    pub fn text(&self) -> (r: &str)
        ensures
            r.spec_bytes() == self@.bytes,
    {
        self.text.as_str()
    }

    /// The selected byte range.
    pub fn selection(&self) -> (r: Range<usize>)
        ensures
            r.start == self@.start,
            r.end == self@.end,
            selection_valid(self@.bytes, self@.start, self@.end),
    {
        proof { use_type_invariant(self); }
        self.start..self.end
    }

    /// The selected text, when the selection is not empty.
    pub fn selection_text(&self) -> (r: Option<String>)
        ensures
            r is None <==> self@.start == self@.end,
            r matches Some(t) ==> encode_utf8(t@) == self@.bytes.subrange(self@.start, self@.end),
    {
        proof { use_type_invariant(self); }
        if self.start == self.end {
            None
        } else {
            let part = substr(self.text.as_str(), self.start, self.end);
            Some(part.to_owned())
        }
    }

    /// Selects the bytes `[start, end)` when they lie between character
    /// boundaries of the text; otherwise leaves the selection as it is.
    pub fn select(&mut self, start: usize, end: usize) -> (r: bool)
        ensures
            r == selection_valid(old(self)@.bytes, start as int, end as int),
            final(self)@ == if r {
                ContentView { bytes: old(self)@.bytes, start: start as int, end: end as int }
            } else {
                old(self)@
            },
    {
        let text = self.text.as_str();
        if start <= end && end <= byte_count(text) && text.is_char_boundary(start) && text.is_char_boundary(end) {
            let text = self.text.clone();
            *self = Content { text, start, end };
            true
        } else {
            false
        }
    }

    /// Selects the whole text.
    pub fn select_all(&mut self)
        ensures
            final(self)@ == (ContentView { bytes: old(self)@.bytes, start: 0, end: old(self)@.bytes.len() as int }),
    {
        proof { is_char_boundary_start_end_of_seq(encode_utf8(self.text@)); }
        let n = byte_count(self.text.as_str());
        let text = self.text.clone();
        *self = Content { text, start: 0, end: n };
    }
}

/// `pattern` occurs at byte `at` of `bytes`, between character boundaries.
pub open spec fn has_at(bytes: Seq<u8>, at: int, pattern: Seq<u8>) -> bool {
    &&& 0 <= at
    &&& at + pattern.len() <= bytes.len()
    &&& is_char_boundary(bytes, at)
    &&& is_char_boundary(bytes, at + pattern.len())
    &&& bytes.subrange(at, at + pattern.len()) == pattern
}

/// The content after surrounding its selection with `open` and `close`:
/// an empty pair at a caret; the markers removed when they already stand
/// around the selection, or when the selection starts and ends with them;
/// else the selection wrapped in them.  The selection follows the text.
pub open spec fn surrounded(c: ContentView, open: Seq<u8>, close: Seq<u8>) -> ContentView {
    let b = c.bytes;
    let s = c.start;
    let e = c.end;
    let selected = b.subrange(s, e);
    if s == e {
        ContentView { bytes: b.take(s) + open + close + b.skip(s), start: s + open.len(), end: s + open.len() }
    } else if s >= open.len() && has_at(b, s - open.len(), open) && has_at(b, e, close) {
        ContentView {
            bytes: b.take(s - open.len()) + selected + b.skip(e + close.len()),
            start: s - open.len(),
            end: s - open.len() + selected.len(),
        }
    } else if open.len() + close.len() <= selected.len() && selected.take(open.len() as int) == open
        && selected.skip(selected.len() - close.len()) == close {
        let inner = selected.subrange(open.len() as int, selected.len() - close.len());
        ContentView { bytes: b.take(s) + inner + b.skip(e), start: s, end: s + inner.len() }
    } else {
        ContentView {
            bytes: b.take(s) + open + selected + close + b.skip(e),
            start: s + open.len(),
            end: e + open.len(),
        }
    }
}

/// Appends `t`, as bytes.
fn append(out: &mut String, t: &str)
    ensures
        encode_utf8(final(out)@) == encode_utf8(old(out)@) + t.spec_bytes(),
{
    let ghost before = out@;
    push_str(out, t);
    proof { lemma_encode_concat(before, t@); }
}

/// Whether `pattern` occurs at byte `at` of `text`, between character
/// boundaries (`text.get(at..at + pattern.len()) == Some(pattern)`).
fn occurs_at(text: &str, at: usize, pattern: &str) -> (r: bool)
    ensures
        r == has_at(text.spec_bytes(), at as int, pattern.spec_bytes()),
{
    let t = text.as_bytes();
    let p = pattern.as_bytes();
    if at > t.len() || p.len() > t.len() - at {
        return false;
    }
    if !text.is_char_boundary(at) || !text.is_char_boundary(at + p.len()) {
        return false;
    }
    bytes_equal(t, at, p)
}

/// Whether `t[at..at + p.len()]` is `p`.
fn bytes_equal(t: &[u8], at: usize, p: &[u8]) -> (r: bool)
    requires
        at + p@.len() <= t@.len(),
    ensures
        r == (t@.subrange(at as int, at + p@.len()) == p@),
{
    let n = t.len();
    let mut i: usize = 0;
    while i < p.len()
        invariant
            i <= p@.len(),
            n == t@.len(),
            at + p@.len() <= t@.len(),
            forall|k: int| 0 <= k < i ==> t@[at + k] == p@[k],
        decreases p@.len() - i,
    {
        if t[at + i] != p[i] {
            proof { assert(t@.subrange(at as int, at + p@.len())[i as int] != p@[i as int]); }
            return false;
        }
        i = i + 1;
    }
    proof { assert(t@.subrange(at as int, at + p@.len()) =~= p@); }
    true
}

/// Valid parts join into valid text with a boundary where they meet.
proof fn lemma_join(x: Seq<u8>, y: Seq<u8>)
    requires
        valid_utf8(x),
        valid_utf8(y),
    ensures
        valid_utf8(x + y),
        is_char_boundary(x + y, x.len() as int),
{
    lemma_boundary_right(x, y, 0);
}

/// A boundary of the part between two boundaries is one of the whole.
proof fn lemma_boundary_outward(bytes: Seq<u8>, lo: int, hi: int, k: int)
    requires
        valid_utf8(bytes),
        0 <= lo <= hi <= bytes.len(),
        0 <= k <= hi - lo,
        is_char_boundary(bytes, lo),
        is_char_boundary(bytes, hi),
        is_char_boundary(bytes.subrange(lo, hi), k),
    ensures
        is_char_boundary(bytes, lo + k),
{
    let part = bytes.subrange(lo, hi);
    lemma_boundary_inside(bytes, lo, hi, lo);
    if k < hi - lo {
        is_char_boundary_iff_not_is_continuation_byte(part, k);
        is_char_boundary_iff_not_is_continuation_byte(bytes, lo + k);
        assert(part[k] == bytes[lo + k]);
    }
}

/// The text of a content, and facts about its selection.
proof fn lemma_parts(b: Seq<u8>, s: int, e: int)
    requires
        valid_utf8(b),
        selection_valid(b, s, e),
    ensures
        valid_utf8(b.take(s)),
        valid_utf8(b.skip(s)),
        valid_utf8(b.subrange(s, e)),
        valid_utf8(b.skip(e)),
        is_char_boundary(b, 0),
        is_char_boundary(b, b.len() as int),
{
    is_char_boundary_start_end_of_seq(b);
    lemma_boundary_inside(b, 0, s, s);
    lemma_boundary_inside(b, s, b.len() as int, s);
    lemma_boundary_inside(b, s, e, s);
    lemma_boundary_inside(b, e, b.len() as int, e);
    assert(b.take(s) =~= b.subrange(0, s));
    assert(b.skip(s) =~= b.subrange(s, b.len() as int));
    assert(b.skip(e) =~= b.subrange(e, b.len() as int));
}

/// Three valid parts joined, with boundaries where they meet.
proof fn lemma_join3(x: Seq<u8>, m: Seq<u8>, y: Seq<u8>)
    requires
        valid_utf8(x),
        valid_utf8(m),
        valid_utf8(y),
    ensures
        valid_utf8(x + m + y),
        is_char_boundary(x + m + y, x.len() as int),
        is_char_boundary(x + m + y, (x.len() + m.len()) as int),
{
    lemma_join(x, m + y);
    lemma_join(x + m, y);
    assert(x + m + y =~= x + (m + y));
}

/// An empty pair of markers at the caret, which ends up between them.
fn insert_pair(text: &str, s: usize, open: &str, close: &str) -> (r: Content)
    requires
        selection_valid(text.spec_bytes(), s as int, s as int),
        text.spec_bytes().len() + open.spec_bytes().len() + close.spec_bytes().len() <= usize::MAX,
    ensures
        r@ == surrounded(ContentView { bytes: text.spec_bytes(), start: s as int, end: s as int },
            open.spec_bytes(), close.spec_bytes()),
{
    let ghost b = text.spec_bytes();
    let n = byte_count(text);
    proof { lemma_parts(b, s as int, s as int); }
    let mut out = String::new();
    proof { assert(encode_utf8(out@) =~= Seq::<u8>::empty()); }
    append(&mut out, substr(text, 0, s));
    append(&mut out, open);
    append(&mut out, close);
    append(&mut out, substr(text, s, n));
    proof {
        let x = b.take(s as int) + open.spec_bytes();
        let y = close.spec_bytes() + b.skip(s as int);
        lemma_join(x, y);
        assert(encode_utf8(out@) =~= x + y);
        assert(x + y =~= b.take(s as int) + open.spec_bytes() + close.spec_bytes() + b.skip(s as int));
    }
    Content { text: out, start: s + byte_count(open), end: s + byte_count(open) }
}

/// The selection without the markers that stand around it.
fn remove_outside(text: &str, s: usize, e: usize, open: &str, close: &str) -> (r: Content)
    requires
        selection_valid(text.spec_bytes(), s as int, e as int),
        s >= open.spec_bytes().len(),
        has_at(text.spec_bytes(), s - open.spec_bytes().len(), open.spec_bytes()),
        has_at(text.spec_bytes(), e as int, close.spec_bytes()),
    ensures
        r@ == (ContentView {
            bytes: text.spec_bytes().take(s - open.spec_bytes().len()) + text.spec_bytes().subrange(s as int, e as int)
                + text.spec_bytes().skip(e + close.spec_bytes().len()),
            start: s - open.spec_bytes().len(),
            end: s - open.spec_bytes().len() + (e - s),
        }),
{
    let ghost b = text.spec_bytes();
    let n = byte_count(text);
    let from = s - byte_count(open);
    let to = e + byte_count(close);
    proof {
        lemma_parts(b, s as int, e as int);
        lemma_boundary_inside(b, 0, from as int, from as int);
        lemma_boundary_inside(b, to as int, n as int, to as int);
        assert(b.take(from as int) =~= b.subrange(0, from as int));
        assert(b.skip(to as int) =~= b.subrange(to as int, n as int));
    }
    let mut out = String::new();
    proof { assert(encode_utf8(out@) =~= Seq::<u8>::empty()); }
    append(&mut out, substr(text, 0, from));
    append(&mut out, substr(text, s, e));
    append(&mut out, substr(text, to, n));
    proof {
        let x = b.take(from as int);
        let m = b.subrange(s as int, e as int);
        let y = b.skip(to as int);
        lemma_join3(x, m, y);
        assert(encode_utf8(out@) =~= x + m + y);
    }
    Content { text: out, start: from, end: from + (e - s) }
}

/// The selection without the markers it starts and ends with.
fn remove_inside(text: &str, s: usize, e: usize, open: &str, close: &str) -> (r: Content)
    requires
        selection_valid(text.spec_bytes(), s as int, e as int),
        open.spec_bytes().len() + close.spec_bytes().len() <= e - s,
        text.spec_bytes().subrange(s as int, e as int).take(open.spec_bytes().len() as int) == open.spec_bytes(),
        text.spec_bytes().subrange(s as int, e as int).skip(e - s - close.spec_bytes().len()) == close.spec_bytes(),
    ensures
        r@ == (ContentView {
            bytes: text.spec_bytes().take(s as int) + text.spec_bytes().subrange(s + open.spec_bytes().len(),
                e - close.spec_bytes().len()) + text.spec_bytes().skip(e as int),
            start: s as int,
            end: s + (e - s - open.spec_bytes().len() - close.spec_bytes().len()),
        }),
{
    let ghost b = text.spec_bytes();
    let ghost ob = open.spec_bytes();
    let ghost cb = close.spec_bytes();
    let n = byte_count(text);
    let o = byte_count(open);
    let c = byte_count(close);
    let ghost sel = b.subrange(s as int, e as int);
    proof {
        lemma_parts(b, s as int, e as int);
        assert(sel =~= ob + sel.skip(o as int));
        lemma_boundary_after_prefix(ob, sel.skip(o as int));
        lemma_boundary_outward(b, s as int, e as int, o as int);
        assert(sel =~= sel.take(sel.len() - c) + cb);
        lemma_boundary_before_suffix(sel.take(sel.len() - c), cb);
        lemma_boundary_outward(b, s as int, e as int, sel.len() - c);
    }
    let inner_start = s + o;
    let inner_end = e - c;
    let mut out = String::new();
    proof { assert(encode_utf8(out@) =~= Seq::<u8>::empty()); }
    append(&mut out, substr(text, 0, s));
    append(&mut out, substr(text, inner_start, inner_end));
    append(&mut out, substr(text, e, n));
    proof {
        lemma_boundary_inside(b, inner_start as int, inner_end as int, inner_start as int);
        let x = b.take(s as int);
        let m = b.subrange(inner_start as int, inner_end as int);
        let y = b.skip(e as int);
        lemma_join3(x, m, y);
        assert(encode_utf8(out@) =~= x + m + y);
    }
    Content { text: out, start: s, end: s + (inner_end - inner_start) }
}

/// The selection wrapped in the markers, and still selected.
fn wrap(text: &str, s: usize, e: usize, open: &str, close: &str) -> (r: Content)
    requires
        selection_valid(text.spec_bytes(), s as int, e as int),
        text.spec_bytes().len() + open.spec_bytes().len() + close.spec_bytes().len() <= usize::MAX,
    ensures
        r@ == (ContentView {
            bytes: text.spec_bytes().take(s as int) + open.spec_bytes() + text.spec_bytes().subrange(s as int, e as int)
                + close.spec_bytes() + text.spec_bytes().skip(e as int),
            start: s + open.spec_bytes().len(),
            end: e + open.spec_bytes().len(),
        }),
{
    let ghost b = text.spec_bytes();
    let n = byte_count(text);
    proof { lemma_parts(b, s as int, e as int); }
    let mut out = String::new();
    proof { assert(encode_utf8(out@) =~= Seq::<u8>::empty()); }
    append(&mut out, substr(text, 0, s));
    append(&mut out, open);
    append(&mut out, substr(text, s, e));
    append(&mut out, close);
    append(&mut out, substr(text, e, n));
    proof {
        let x = b.take(s as int) + open.spec_bytes();
        let m = b.subrange(s as int, e as int);
        let y = close.spec_bytes() + b.skip(e as int);
        lemma_join3(x, m, y);
        assert(encode_utf8(out@) =~= x + m + y);
        assert(x + m + y =~= b.take(s as int) + open.spec_bytes() + m + close.spec_bytes() + b.skip(e as int));
    }
    Content { text: out, start: s + byte_count(open), end: e + byte_count(open) }
}

/// Whether the selection starts with `open` and ends with `close`.
fn starts_and_ends_with(text: &str, s: usize, e: usize, open: &str, close: &str) -> (r: bool)
    requires
        selection_valid(text.spec_bytes(), s as int, e as int),
    ensures
        r == (open.spec_bytes().len() + close.spec_bytes().len() <= e - s
            && text.spec_bytes().subrange(s as int, e as int).take(open.spec_bytes().len() as int) == open.spec_bytes()
            && text.spec_bytes().subrange(s as int, e as int).skip(e - s - close.spec_bytes().len()) == close.spec_bytes()),
{
    let t = text.as_bytes();
    let ghost sel = text.spec_bytes().subrange(s as int, e as int);
    let o = byte_count(open);
    let c = byte_count(close);
    if o > e - s || c > e - s - o {
        return false;
    }
    let starts = bytes_equal(t, s, open.as_bytes());
    let ends = bytes_equal(t, e - c, close.as_bytes());
    proof {
        assert(sel.take(o as int) =~= t@.subrange(s as int, s + o));
        assert(sel.skip(e - s - c) =~= t@.subrange(e - c, e as int));
    }
    starts && ends
}

/// Surrounds the selection with `open` and `close`, or removes them when
/// they are already there (see `surrounded`).
pub fn toggle_surround(content: &mut Content, open: &str, close: &str) -> (r: bool)
    requires
        old(content)@.bytes.len() + open.spec_bytes().len() + close.spec_bytes().len() <= usize::MAX,
    ensures
        r,
        final(content)@ == surrounded(old(content)@, open.spec_bytes(), close.spec_bytes()),
{
    proof { use_type_invariant(&*content); }
    let text = content.text.as_str();
    let s = content.start;
    let e = content.end;
    let n = byte_count(text);
    let o = byte_count(open);
    let c = byte_count(close);
    let changed = if s == e {
        insert_pair(text, s, open, close)
    } else if s >= o && occurs_at(text, s - o, open) && e <= n && c <= n - e && occurs_at(text, e, close) {
        remove_outside(text, s, e, open, close)
    } else if starts_and_ends_with(text, s, e, open, close) {
        let r = remove_inside(text, s, e, open, close);
        proof {
            let sel = text.spec_bytes().subrange(s as int, e as int);
            assert(sel.subrange(o as int, sel.len() - c) =~= text.spec_bytes().subrange(s + o, e - c));
        }
        r
    } else {
        wrap(text, s, e, open, close)
    };
    *content = changed;
    true
}

/// End of the line that holds byte `i`: the next line feed, or the end.
pub open spec fn line_end(bytes: Seq<u8>, i: int) -> int
    decreases bytes.len() - i,
{
    if i < 0 || i >= bytes.len() {
        bytes.len() as int
    } else if bytes[i] == 10u8 {
        i
    } else {
        line_end(bytes, i + 1)
    }
}

/// Start of the line that holds byte `i`: just after the line feed before
/// it, or the start of the text.
pub open spec fn line_start(bytes: Seq<u8>, i: int) -> int
    decreases i,
{
    if i <= 0 || i > bytes.len() {
        0
    } else if bytes[i - 1] == 10u8 {
        i
    } else {
        line_start(bytes, i - 1)
    }
}

/// The end of a line lies between the byte and the end of the text, and
/// no line feed comes before it.
pub proof fn lemma_line_end(bytes: Seq<u8>, i: int)
    requires
        0 <= i <= bytes.len(),
    ensures
        i <= line_end(bytes, i) <= bytes.len(),
        line_end(bytes, i) < bytes.len() ==> bytes[line_end(bytes, i)] == 10u8,
        forall|k: int| i <= k < line_end(bytes, i) ==> bytes[k] != 10u8,
    decreases bytes.len() - i,
{
    if i < bytes.len() && bytes[i] != 10u8 {
        lemma_line_end(bytes, i + 1);
    }
}

/// The start of a line lies before the byte, just after a line feed
/// unless it is the start of the text.
pub proof fn lemma_line_start(bytes: Seq<u8>, i: int)
    requires
        0 <= i <= bytes.len(),
    ensures
        0 <= line_start(bytes, i) <= i,
        line_start(bytes, i) > 0 ==> bytes[line_start(bytes, i) - 1] == 10u8,
    decreases i,
{
    if i > 0 && bytes[i - 1] != 10u8 {
        lemma_line_start(bytes, i - 1);
    }
}

/// Where a line's content starts, if it holds more than whitespace: the
/// position of its first character that is not whitespace, and whether
/// the text there starts with `prefix` (within the line).
pub open spec fn slot(bytes: Seq<u8>, start: int, end: int, prefix: Seq<u8>) -> Option<(int, bool)> {
    let chars = decode_utf8(bytes.subrange(start, end));
    let k = first_kept(chars);
    if k >= chars.len() {
        None
    } else {
        let at = start + encode_utf8(chars.take(k)).len();
        Some((at, at + prefix.len() <= end && bytes.subrange(at, at + prefix.len()) == prefix))
    }
}

/// The slots of the lines from the one that starts at `start` up to the
/// one that holds byte `last`; blank lines have none.
pub open spec fn line_slots(bytes: Seq<u8>, start: int, last: int, prefix: Seq<u8>) -> Seq<(int, bool)>
    decreases bytes.len() + 1 - start,
{
    if start < 0 || start > last || start > bytes.len() {
        Seq::empty()
    } else {
        let end = line_end(bytes, start);
        proof { lemma_line_end(bytes, start); }
        let rest = if end < bytes.len() { line_slots(bytes, end + 1, last, prefix) } else { Seq::empty() };
        match slot(bytes, start, end, prefix) {
            Some(x) => seq![x] + rest,
            None => rest,
        }
    }
}

/// Every line already carries the prefix.
pub open spec fn all_prefixed(slots: Seq<(int, bool)>) -> bool {
    forall|i: int| 0 <= i < slots.len() ==> (#[trigger] slots[i]).1
}

/// The edits of a prefix toggle: the prefix removed from every line when
/// all of them carry it, else inserted where it is missing.
pub open spec fn prefix_edits(slots: Seq<(int, bool)>, remove: bool, prefix_len: int) -> Seq<(int, int)>
    decreases slots.len(),
{
    if slots.len() == 0 {
        Seq::empty()
    } else {
        let rest = prefix_edits(slots.drop_first(), remove, prefix_len);
        let at = slots[0].0;
        if remove {
            seq![(at, at + prefix_len)] + rest
        } else if slots[0].1 {
            rest
        } else {
            seq![(at, at)] + rest
        }
    }
}

/// When the prefix is inserted, it goes exactly where a line lacks it, in
/// line order: a line that already carries the prefix gets no edit, so it
/// keeps a single copy.  When it is removed, every line loses exactly one
/// copy at its slot.
pub proof fn law_prefix_goes_only_where_missing(slots: Seq<(int, bool)>, prefix_len: int)
    ensures
        prefix_edits(slots, false, prefix_len)
            == slots.filter(|s: (int, bool)| !s.1).map_values(|s: (int, bool)| (s.0, s.0)),
        prefix_edits(slots, true, prefix_len)
            == slots.map_values(|s: (int, bool)| (s.0, s.0 + prefix_len)),
    decreases slots.len(),
{
    reveal_with_fuel(Seq::filter, 1);
    if slots.len() == 0 {
        assert(slots.filter(|s: (int, bool)| !s.1) =~= Seq::<(int, bool)>::empty());
    } else {
        let rest = slots.drop_first();
        law_prefix_goes_only_where_missing(rest, prefix_len);
        lemma_filter_first(slots);
        assert(slots.map_values(|s: (int, bool)| (s.0, s.0 + prefix_len))
            =~= seq![(slots[0].0, slots[0].0 + prefix_len)] + rest.map_values(|s: (int, bool)| (s.0, s.0 + prefix_len)));
        let fr = rest.filter(|s: (int, bool)| !s.1);
        if slots[0].1 {
            assert(slots.filter(|s: (int, bool)| !s.1) == fr);
        } else {
            assert(slots.filter(|s: (int, bool)| !s.1) == seq![slots[0]] + fr);
            assert((seq![slots[0]] + fr).map_values(|s: (int, bool)| (s.0, s.0))
                =~= seq![(slots[0].0, slots[0].0)] + fr.map_values(|s: (int, bool)| (s.0, s.0)));
        }
    }
}

/// Filtering a sequence keeps or drops its first element, then filters the rest.
proof fn lemma_filter_first(slots: Seq<(int, bool)>)
    requires
        slots.len() > 0,
    ensures
        slots.filter(|s: (int, bool)| !s.1) == if !slots[0].1 {
            seq![slots[0]] + slots.drop_first().filter(|s: (int, bool)| !s.1)
        } else {
            slots.drop_first().filter(|s: (int, bool)| !s.1)
        },
    decreases slots.len(),
{
    reveal_with_fuel(Seq::filter, 1);
    let rest = slots.drop_first();
    if slots.len() == 1 {
        assert(rest =~= Seq::<(int, bool)>::empty());
        assert(rest.filter(|s: (int, bool)| !s.1) =~= Seq::<(int, bool)>::empty());
        assert(slots.drop_last() =~= Seq::<(int, bool)>::empty());
        assert(slots.drop_last().filter(|s: (int, bool)| !s.1) =~= Seq::<(int, bool)>::empty());
        if !slots[0].1 {
            assert(Seq::<(int, bool)>::empty().push(slots[0]) =~= seq![slots[0]] + Seq::<(int, bool)>::empty());
        }
    } else {
        lemma_filter_first(slots.drop_last());
        assert(slots.drop_last().drop_first() =~= rest.drop_last());
        assert(slots.drop_last()[0] == slots[0]);
        assert(rest.last() == slots.last());
        if !slots[0].1 {
            assert((seq![slots[0]] + rest.drop_last().filter(|s: (int, bool)| !s.1)).push(slots.last())
                =~= seq![slots[0]] + rest.drop_last().filter(|s: (int, bool)| !s.1).push(slots.last()));
        }
    }
}

/// The slots of the lines that the selection touches: from the line of its
/// start to the line of its last byte (the line of the caret when empty).
pub open spec fn selected_slots(c: ContentView, prefix: Seq<u8>) -> Seq<(int, bool)> {
    let last = if c.start == c.end { c.start } else { c.end - 1 };
    line_slots(c.bytes, line_start(c.bytes, c.start), last, prefix)
}

/// The content after toggling `prefix` on the selected lines, or `None`
/// when there is nothing to change.  The selection follows the text: its
/// start moves behind an insertion at its place, its end stays in front.
pub open spec fn prefix_toggled(c: ContentView, prefix: Seq<u8>) -> Option<ContentView> {
    let slots = selected_slots(c, prefix);
    let remove = slots.len() > 0 && all_prefixed(slots);
    let edits = prefix_edits(slots, remove, prefix.len() as int);
    let replacement = if remove { Seq::<u8>::empty() } else { prefix };
    if prefix.len() == 0 || edits.len() == 0 {
        None
    } else {
        let start = moved(c.start, edits, replacement.len() as int, true, 0);
        let end = if c.start == c.end {
            start
        } else {
            moved(c.end, edits, replacement.len() as int, false, 0)
        };
        Some(ContentView { bytes: spliced(c.bytes, edits, replacement, 0), start, end })
    }
}

/// A line feed is a whole character: the position after it is a boundary.
proof fn lemma_after_newline(bytes: Seq<u8>, i: int)
    requires
        valid_utf8(bytes),
        0 < i <= bytes.len(),
        bytes[i - 1] == 10u8,
    ensures
        is_char_boundary(bytes, i),
        is_char_boundary(bytes, i - 1),
{
    let n = bytes.len() as int;
    is_char_boundary_iff_not_is_continuation_byte(bytes, i - 1);
    is_char_boundary_start_end_of_seq(bytes);
    let suffix = bytes.subrange(i - 1, n);
    lemma_boundary_inside(bytes, i - 1, n, i - 1);
    assert(suffix[0] == 10u8);
    assert(length_of_first_scalar(suffix) == 1);
    assert(pop_first_scalar(suffix) =~= suffix.subrange(1, suffix.len() as int));
    assert(is_char_boundary(suffix, 1)) by {
        reveal_with_fuel(is_char_boundary, 2);
    }
    lemma_boundary_outward(bytes, i - 1, n, 1);
}

/// Line starts and ends are character boundaries.
proof fn lemma_line_bounds(bytes: Seq<u8>, i: int)
    requires
        valid_utf8(bytes),
        0 <= i <= bytes.len(),
    ensures
        is_char_boundary(bytes, line_start(bytes, i)),
        is_char_boundary(bytes, line_end(bytes, i)),
{
    lemma_line_start(bytes, i);
    lemma_line_end(bytes, i);
    is_char_boundary_start_end_of_seq(bytes);
    if line_start(bytes, i) > 0 {
        lemma_after_newline(bytes, line_start(bytes, i));
    }
    if line_end(bytes, i) < bytes.len() {
        is_char_boundary_iff_not_is_continuation_byte(bytes, line_end(bytes, i));
    }
}

fn find_line_start(t: &[u8], i: usize) -> (r: usize)
    requires
        i <= t@.len(),
    ensures
        r == line_start(t@, i as int),
{
    let mut k = i;
    while k > 0 && t[k - 1] != 10u8
        invariant
            k <= i <= t@.len(),
            line_start(t@, k as int) == line_start(t@, i as int),
        decreases k,
    {
        k = k - 1;
    }
    k
}

fn find_line_end(t: &[u8], i: usize) -> (r: usize)
    requires
        i <= t@.len(),
    ensures
        r == line_end(t@, i as int),
{
    let n = t.len();
    let mut k = i;
    while k < n && t[k] != 10u8
        invariant
            i <= k <= n == t@.len(),
            line_end(t@, k as int) == line_end(t@, i as int),
        decreases n - k,
    {
        k = k + 1;
    }
    k
}

/// The slot of the line `[start, end)` of `text`.
fn line_slot(text: &str, start: usize, end: usize, prefix: &str) -> (r: Option<(usize, bool)>)
    requires
        start <= end <= text.spec_bytes().len(),
        is_char_boundary(text.spec_bytes(), start as int),
        is_char_boundary(text.spec_bytes(), end as int),
    ensures
        match r {
            None => slot(text.spec_bytes(), start as int, end as int, prefix.spec_bytes()) is None,
            Some((at, carried)) => {
                &&& slot(text.spec_bytes(), start as int, end as int, prefix.spec_bytes()) == Some((at as int, carried))
                &&& start <= at <= end
                &&& is_char_boundary(text.spec_bytes(), at as int)
                &&& carried ==> at + prefix.spec_bytes().len() <= end
                &&& carried ==> is_char_boundary(text.spec_bytes(), at + prefix.spec_bytes().len())
            },
        },
{
    let ghost b = text.spec_bytes();
    let line = substr(text, start, end);
    let chars = crate::text::to_chars(line);
    let ghost cs = chars@;
    proof {
        lemma_boundary_inside(b, start as int, end as int, start as int);
        assert(encode_utf8(line@) == b.subrange(start as int, end as int));
        assert(decode_utf8(b.subrange(start as int, end as int)) == cs);
        lemma_first_kept(cs);
    }
    let mut i: usize = 0;
    let mut off: usize = 0;
    proof {
        assert(cs.take(0) =~= Seq::<char>::empty());
        assert(encode_utf8(cs.take(0)) =~= Seq::<u8>::empty());
    }
    while i < chars.len() && is_whitespace(chars[i])
        invariant
            i <= cs.len() == chars@.len(),
            cs == chars@,
            encode_utf8(cs) == b.subrange(start as int, end as int),
            start <= end <= b.len(),
            off == encode_utf8(cs.take(i as int)).len(),
            forall|k: int| 0 <= k < i ==> crate::project_search::unicode_whitespace(#[trigger] cs[k]),
        decreases cs.len() - i,
    {
        let w = crate::text::char_len_utf8(chars[i]);
        proof {
            crate::text::lemma_byte_len_push(cs.take(i as int), cs[i as int]);
            assert(cs.take(i + 1) =~= cs.take(i as int).push(cs[i as int]));
            crate::text::lemma_byte_len_take_mono(cs, i + 1, i + 1);
        }
        off = off + w;
        i = i + 1;
    }
    proof {
        lemma_first_kept(cs);
        let f = first_kept(cs);
        if f < i {
            assert(crate::project_search::unicode_whitespace(cs[f]));
        }
        if i < cs.len() && f > i {
            assert(crate::project_search::unicode_whitespace(cs[i as int]));
        }
        assert(f == i);
    }
    if i == chars.len() {
        return None;
    }
    proof {
        crate::text::lemma_byte_len_take_mono(cs, i as int, i as int);
        lemma_encode_concat(cs.take(i as int), cs.skip(i as int));
        assert(cs.take(i as int) + cs.skip(i as int) =~= cs);
        lemma_join(encode_utf8(cs.take(i as int)), encode_utf8(cs.skip(i as int)));
        lemma_boundary_outward(b, start as int, end as int, off as int);
    }
    let at = start + off;
    let p = prefix.as_bytes();
    let plen = p.len();
    let carried = plen <= end - at && bytes_equal(text.as_bytes(), at, p);
    proof {
        if carried {
            let n = b.len() as int;
            is_char_boundary_start_end_of_seq(b);
            lemma_boundary_inside(b, at as int, n, at as int);
            let after = b.subrange(at as int, n);
            let pb = prefix.spec_bytes();
            assert(after =~= pb + b.subrange(at + plen, n));
            lemma_boundary_after_prefix(pb, b.subrange(at + plen, n));
            lemma_boundary_outward(b, at as int, n, plen as int);
        }
    }
    Some((at, carried))
}

/// Positions and flags as integers.
pub open spec fn slots_view(slots: Seq<(usize, bool)>) -> Seq<(int, bool)> {
    slots.map_values(|x: (usize, bool)| (x.0 as int, x.1))
}

/// Slots that lie on boundaries of `bytes`, each (with its prefix) before
/// the next one.
pub open spec fn slots_placed(slots: Seq<(int, bool)>, bytes: Seq<u8>, prefix_len: int) -> bool {
    &&& forall|i: int| 0 <= i < slots.len() ==> {
        &&& 0 <= (#[trigger] slots[i]).0 <= bytes.len()
        &&& is_char_boundary(bytes, slots[i].0)
        &&& slots[i].1 ==> slots[i].0 + prefix_len <= bytes.len()
        &&& slots[i].1 ==> is_char_boundary(bytes, slots[i].0 + prefix_len)
    }
    &&& forall|i: int, j: int| 0 <= i < j < slots.len() ==>
        (#[trigger] slots[i]).0 + (if slots[i].1 { prefix_len } else { 0 }) < (#[trigger] slots[j]).0
}

/// The slots of the lines from the one starting at `first` to the one that
/// holds byte `last`.
fn collect_slots(text: &str, first: usize, last: usize, prefix: &str) -> (r: Vec<(usize, bool)>)
    requires
        first <= text.spec_bytes().len(),
        is_char_boundary(text.spec_bytes(), first as int),
    ensures
        slots_view(r@) == line_slots(text.spec_bytes(), first as int, last as int, prefix.spec_bytes()),
        slots_placed(slots_view(r@), text.spec_bytes(), prefix.spec_bytes().len() as int),
{
    let ghost b = text.spec_bytes();
    let ghost pb = prefix.spec_bytes();
    let ghost plen = pb.len() as int;
    let t = text.as_bytes();
    let n = t.len();
    let mut slots: Vec<(usize, bool)> = Vec::new();
    let mut start = first;
    let mut done = false;
    proof {
        assert(slots_view(slots@) =~= Seq::<(int, bool)>::empty());
    }
    while !done && start <= last
        invariant
            b == text.spec_bytes(),
            t@ == b,
            n == b.len(),
            pb == prefix.spec_bytes(),
            plen == pb.len(),
            valid_utf8(b),
            start <= n,
            is_char_boundary(b, start as int),
            slots_view(slots@) + (if done { Seq::empty() } else { line_slots(b, start as int, last as int, pb) })
                == line_slots(b, first as int, last as int, pb),
            slots_placed(slots_view(slots@), b, plen),
            !done ==> forall|i: int| 0 <= i < slots@.len() ==>
                (#[trigger] slots_view(slots@)[i]).0 + (if slots_view(slots@)[i].1 { plen } else { 0 }) < start,
        decreases (if done { 0int } else { 1int }) + n - start,
    {
        let end = find_line_end(t, start);
        proof {
            lemma_line_end(b, start as int);
            lemma_line_bounds(b, start as int);
            assert(line_end(b, line_end(b, start as int)) == line_end(b, start as int)) by {
                lemma_line_end(b, line_end(b, start as int));
            }
        }
        let ghost before = slots_view(slots@);
        let ghost rest = if end < n { line_slots(b, end + 1, last as int, pb) } else { Seq::<(int, bool)>::empty() };
        match line_slot(text, start, end, prefix) {
            Some(x) => {
                slots.push(x);
                proof {
                    assert(slots_view(slots@) =~= before.push((x.0 as int, x.1)));
                    let v = slots_view(slots@);
                    assert forall|i: int, j: int| 0 <= i < j < v.len() implies
                        (#[trigger] v[i]).0 + (if v[i].1 { plen } else { 0 }) < (#[trigger] v[j]).0 by {
                        if j < v.len() - 1 {
                            assert(v[i] == before[i] && v[j] == before[j]);
                        } else {
                            assert(v[i] == before[i]);
                        }
                    }
                    assert(before + (seq![(x.0 as int, x.1)] + rest) =~= v + rest);
                }
            },
            None => {},
        }
        if end == n {
            done = true;
        } else {
            proof {
                lemma_after_newline(b, end + 1);
                let v = slots_view(slots@);
                assert forall|i: int| 0 <= i < v.len() implies
                    (#[trigger] v[i]).0 + (if v[i].1 { plen } else { 0 }) < end + 1 by {
                    if i < before.len() {
                        assert(v[i] == before[i]);
                    }
                }
            }
            start = end + 1;
        }
    }
    proof {
        if !done {
            assert(line_slots(b, start as int, last as int, pb) =~= Seq::<(int, bool)>::empty());
        }
        assert(slots_view(slots@) + Seq::<(int, bool)>::empty() =~= slots_view(slots@));
    }
    slots
}

/// Whether every slot already carries the prefix.
fn every_line_prefixed(slots: &Vec<(usize, bool)>) -> (r: bool)
    ensures
        r == (slots@.len() > 0 && all_prefixed(slots_view(slots@))),
{
    if slots.len() == 0 {
        return false;
    }
    let mut i: usize = 0;
    while i < slots.len()
        invariant
            i <= slots@.len(),
            forall|k: int| 0 <= k < i ==> (#[trigger] slots@[k]).1,
        decreases slots@.len() - i,
    {
        if !slots[i].1 {
            proof { assert(slots_view(slots@)[i as int].1 == false); }
            return false;
        }
        i = i + 1;
    }
    proof {
        assert forall|k: int| 0 <= k < slots@.len() implies (#[trigger] slots_view(slots@)[k]).1 by {
            assert(slots@[k].1);
        }
    }
    true
}

/// The edits of the toggle, as byte ranges.
fn plan_edits(text: &str, slots: &Vec<(usize, bool)>, remove: bool, prefix_len: usize) -> (r: Vec<Range<usize>>)
    requires
        slots_placed(slots_view(slots@), text.spec_bytes(), prefix_len as int),
        remove ==> all_prefixed(slots_view(slots@)),
    ensures
        ranges_view(r@) == prefix_edits(slots_view(slots@), remove, prefix_len as int),
        well_placed(ranges_view(r@), text.spec_bytes()),
{
    let ghost b = text.spec_bytes();
    let ghost sv = slots_view(slots@);
    let ghost plen = prefix_len as int;
    let n = byte_count(text);
    let mut edits: Vec<Range<usize>> = Vec::new();
    let mut i: usize = 0;
    let ghost mut bound: int = 0;
    proof {
        assert(sv.skip(0) =~= sv);
        assert(ranges_view(edits@) =~= Seq::<(int, int)>::empty());
        if sv.len() > 0 {
            assert(0 <= sv[0].0);
        }
    }
    while i < slots.len()
        invariant
            i <= slots@.len() == sv.len(),
            sv == slots_view(slots@),
            b == text.spec_bytes(),
            n == b.len(),
            plen == prefix_len,
            slots_placed(sv, b, plen),
            remove ==> all_prefixed(sv),
            ranges_view(edits@) + prefix_edits(sv.skip(i as int), remove, plen) == prefix_edits(sv, remove, plen),
            well_placed(ranges_view(edits@), b),
            forall|m: int| 0 <= m < edits@.len() ==> (#[trigger] ranges_view(edits@)[m]).1 <= bound,
            i < sv.len() ==> bound <= sv[i as int].0,
        decreases sv.len() - i,
    {
        let (at, carried) = slots[i];
        let ghost before = ranges_view(edits@);
        proof {
            assert(sv[i as int] == (at as int, carried));
            let tail = sv.skip(i as int);
            assert(tail[0] == sv[i as int]);
            assert(tail.drop_first() =~= sv.skip(i + 1));
            if i + 1 < sv.len() {
                assert(sv[i as int].0 + (if sv[i as int].1 { plen } else { 0 }) < sv[i + 1].0);
            }
            if remove {
                assert(sv[i as int].1);
            }
        }
        if remove {
            edits.push(at..at + prefix_len);
            proof {
                assert(ranges_view(edits@) =~= before.push((at as int, at + plen)));
                assert(before + (seq![(at as int, at + plen)] + prefix_edits(sv.skip(i + 1), remove, plen))
                    =~= ranges_view(edits@) + prefix_edits(sv.skip(i + 1), remove, plen));
                bound = at + plen;
            }
        } else if !carried {
            edits.push(at..at);
            proof {
                assert(ranges_view(edits@) =~= before.push((at as int, at as int)));
                assert(before + (seq![(at as int, at as int)] + prefix_edits(sv.skip(i + 1), remove, plen))
                    =~= ranges_view(edits@) + prefix_edits(sv.skip(i + 1), remove, plen));
                bound = at as int;
            }
        }
        proof {
            let v = ranges_view(edits@);
            assert forall|m: int| 0 <= m < v.len() implies {
                &&& 0 <= (#[trigger] v[m]).0 <= v[m].1 <= b.len()
                &&& is_char_boundary(b, v[m].0)
                &&& is_char_boundary(b, v[m].1)
            } by {
                if m < before.len() {
                    assert(v[m] == before[m]);
                }
            }
            assert forall|x: int, y: int| 0 <= x < y < v.len() implies (#[trigger] v[x]).1 <= (#[trigger] v[y]).0 by {
                if y < before.len() {
                    assert(v[x] == before[x] && v[y] == before[y]);
                } else {
                    assert(v[x] == before[x]);
                }
            }
            assert forall|m: int| 0 <= m < v.len() implies (#[trigger] v[m]).1 <= bound by {
                if m < before.len() {
                    assert(v[m] == before[m]);
                }
            }
        }
        i = i + 1;
    }
    proof {
        assert(sv.skip(sv.len() as int) =~= Seq::<(int, bool)>::empty());
        assert(ranges_view(edits@) + Seq::<(int, int)>::empty() =~= ranges_view(edits@));
    }
    edits
}

/// Toggles `prefix` at the start of the content of each line that the
/// selection touches (see `prefix_toggled`); tells whether anything changed.
pub fn toggle_line_prefix(content: &mut Content, prefix: &str) -> (r: bool)
    ensures
        r == prefix_toggled(old(content)@, prefix.spec_bytes()) is Some,
        final(content)@ == match prefix_toggled(old(content)@, prefix.spec_bytes()) {
            Some(v) => v,
            None => old(content)@,
        },
{
    proof { use_type_invariant(&*content); }
    let plen = byte_count(prefix);
    if plen == 0 {
        return false;
    }
    let text = content.text.as_str();
    let ghost b = text.spec_bytes();
    let t = text.as_bytes();
    let s = content.start;
    let e = content.end;
    let last = if s == e { s } else { e - 1 };
    let first = find_line_start(t, s);
    proof {
        lemma_line_bounds(b, s as int);
        lemma_line_start(b, s as int);
    }
    let slots = collect_slots(text, first, last, prefix);
    let remove = every_line_prefixed(&slots);
    let edits = plan_edits(text, &slots, remove, plen);
    if edits.len() == 0 {
        return false;
    }
    let replacement = if remove { substr(prefix, 0, 0) } else { prefix };
    let ghost ev = ranges_view(edits@);
    let ghost rep = replacement.spec_bytes();
    proof {
        if remove {
            assert(rep =~= Seq::<u8>::empty());
        }
        is_char_boundary_start_end_of_seq(b);
        assert(ev[0] == ranges_view(edits@)[0]);
        assert(placed_from(ev, b, 0));
        lemma_moved_boundary(b, ev, rep, 0, s as int, true);
        lemma_moved_boundary(b, ev, rep, 0, e as int, false);
        if s < e {
            lemma_moved_monotone(ev, rep.len() as int, 0, s as int, true, e as int, false, b);
        }
    }
    let (new_text, new_start, moved_end) = splice_tracking(text, &edits, replacement, s, true, e, false);
    let new_end = if s == e { new_start } else { moved_end };
    *content = Content { text: new_text, start: new_start, end: new_end };
    true
}

/// Boundaries of five valid parts joined in order.
proof fn lemma_join5(p: Seq<u8>, o: Seq<u8>, m: Seq<u8>, c: Seq<u8>, q: Seq<u8>)
    requires
        valid_utf8(p),
        valid_utf8(o),
        valid_utf8(m),
        valid_utf8(c),
        valid_utf8(q),
    ensures
        valid_utf8(p + o + m + c + q),
        is_char_boundary(p + o + m + c + q, p.len() as int),
        is_char_boundary(p + o + m + c + q, (p.len() + o.len()) as int),
        is_char_boundary(p + o + m + c + q, (p.len() + o.len() + m.len()) as int),
        is_char_boundary(p + o + m + c + q, (p.len() + o.len() + m.len() + c.len()) as int),
{
    let x1 = p + o;
    let x2 = x1 + m;
    let x3 = x2 + c;
    let x4 = x3 + q;
    lemma_join(p, o);
    lemma_join(x1, m);
    lemma_boundary_left(x1, m, p.len() as int);
    lemma_join(x2, c);
    lemma_boundary_left(x2, c, p.len() as int);
    lemma_boundary_left(x2, c, x1.len() as int);
    lemma_join(x3, q);
    lemma_boundary_left(x3, q, p.len() as int);
    lemma_boundary_left(x3, q, x1.len() as int);
    lemma_boundary_left(x3, q, x2.len() as int);
}

/// Surrounding a selection with markers that are neither around it nor at
/// its ends, and toggling the same markers again, gives back the text and
/// the selection.
pub proof fn law_surround_twice_restores(c: ContentView, open: Seq<u8>, close: Seq<u8>)
    requires
        valid_utf8(c.bytes),
        valid_utf8(open),
        valid_utf8(close),
        selection_valid(c.bytes, c.start, c.end),
        c.start < c.end,
        !(c.start >= open.len() && has_at(c.bytes, c.start - open.len(), open) && has_at(c.bytes, c.end, close)),
        !(open.len() + close.len() <= c.end - c.start
            && c.bytes.subrange(c.start, c.end).take(open.len() as int) == open
            && c.bytes.subrange(c.start, c.end).skip(c.end - c.start - close.len()) == close),
    ensures
        surrounded(surrounded(c, open, close), open, close) == c,
{
    let b = c.bytes;
    let s = c.start;
    let e = c.end;
    lemma_parts(b, s, e);
    let p = b.take(s);
    let m = b.subrange(s, e);
    let q = b.skip(e);
    let w = surrounded(c, open, close);
    assert(w.bytes == p + open + m + close + q);
    lemma_join5(p, open, m, close, q);
    let wb = w.bytes;
    assert(wb.subrange(s, s + open.len()) =~= open);
    assert(wb.subrange(e + open.len(), e + open.len() + close.len()) =~= close);
    assert(has_at(wb, w.start - open.len(), open));
    assert(has_at(wb, w.end, close));
    let r = surrounded(w, open, close);
    assert(wb.take(s) =~= p);
    assert(wb.subrange(w.start, w.end) =~= m);
    assert(wb.skip(w.end + close.len()) =~= q);
    assert(p + m + q =~= b);
    assert(r.bytes == b);
}

} // verus!
