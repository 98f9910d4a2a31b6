//! Searching and replacing across the files of a project: positions,
//! excerpts, ordering of results and the text after replacement.
use vstd::prelude::*;
use vstd::utf8::*;
use vstd::string::*;
use std::ops::Range;
use crate::text::{to_chars, from_chars, push_str, str_eq, strings_view, decimal, decimal_string, joined, join_strings};
use crate::document::{DocumentView, Documents, edited};
use crate::interface::{truncate, truncated};
use crate::paths::{last_index_of, starts_with, path_starts_with, opt_view};
use crate::search::{text_before, find_matches, literal_matches, ranges_view, well_placed, Options};
use crate::edits::{spliced, splice_tracking};
use crate::sorting::{Ordered, sorted, sort_stable, path_less, paths_less, lemma_path_less, lemma_map_same_elements};

verus! {

broadcast use vstd::utf8::encode_utf8_decode_utf8, vstd::utf8::encode_utf8_valid_utf8;

/// One occurrence of the query in a project file.
#[derive(Debug, PartialEq, Eq)]
pub struct Match {
    pub path: String,
    pub range: Range<usize>,
    pub line: usize,
    pub column: usize,
    pub excerpt: String,
}

/// The matches of a search, and how many files could not be searched.
#[derive(Debug)]
pub struct SearchReport {
    pub matches: Vec<Match>,
    pub skipped_files: usize,
}

/// The answer to a project search started at `revision` in `root`.
#[derive(Debug)]
pub struct SearchOutcome {
    pub revision: u64,
    pub root: String,
    pub result: Result<SearchReport, String>,
}

/// The answer to a replacement in closed files started at `revision`.
#[derive(Debug)]
pub struct ReplaceOutcome {
    pub revision: u64,
    pub replaced: usize,
    pub changed_files: usize,
    pub errors: Vec<String>,
}

/// How many line breaks the text holds.
pub open spec fn count_newlines(s: Seq<char>) -> nat {
    s.filter(|c: char| c == '\n').len()
}

/// Line and column (both counted from one) of the position that follows
/// the characters `prefix`.
pub open spec fn line_column_of(prefix: Seq<char>) -> (int, int) {
    (count_newlines(prefix) + 1int, prefix.len() - (last_index_of(prefix, '\n') + 1) + 1)
}

proof fn lemma_count_newlines_le(s: Seq<char>)
    ensures
        count_newlines(s) <= s.len(),
    decreases s.len(),
{
    reveal_with_fuel(Seq::filter, 1);
    if s.len() > 0 {
        lemma_count_newlines_le(s.drop_last());
    }
}

/// Line and column, both counted from one, of the byte position `offset`
/// (the end of the text for a position past it).
pub fn line_column(text: &str, offset: usize) -> (r: (usize, usize))
    requires
        is_char_boundary(text.spec_bytes(), if offset < text.spec_bytes().len() { offset as int } else { text.spec_bytes().len() as int }),
        text.spec_bytes().len() < usize::MAX,
    ensures
        (r.0 as int, r.1 as int) == line_column_of(text_before(
            text.spec_bytes(),
            if offset < text.spec_bytes().len() { offset as int } else { text.spec_bytes().len() as int },
        )),
{
    let n = text.as_bytes().len();
    let at = if offset < n { offset } else { n };
    let (prefix, _) = text.split_at(at);
    proof {
        assert(prefix.spec_bytes() =~= text.spec_bytes().subrange(0, at as int));
        crate::text::lemma_byte_len_ge_len(prefix@);
        crate::text::lemma_byte_len_take_mono(text@, 0, 0);
    }
    let chars = to_chars(prefix);
    let ghost p = chars@;
    assert(p.len() <= at);
    let mut lines: usize = 0;
    let mut last_newline: Option<usize> = None;
    let mut i: usize = 0;
    proof {
        assert(p.take(0) =~= Seq::<char>::empty());
        reveal_with_fuel(Seq::filter, 1);
    }
    while i < chars.len()
        invariant
            i <= p.len() == chars@.len(),
            p.len() < usize::MAX,
            p == chars@,
            lines == count_newlines(p.take(i as int)),
            lines <= i,
            match last_newline {
                None => last_index_of(p.take(i as int), '\n') == -1,
                Some(k) => last_index_of(p.take(i as int), '\n') == k && k < i,
            },
        decreases p.len() - i,
    {
        proof {
            reveal_with_fuel(Seq::filter, 1);
            assert(p.take(i + 1).drop_last() =~= p.take(i as int));
            assert(p.take(i + 1).last() == p[i as int]);
        }
        if chars[i] == '\n' {
            lines = lines + 1;
            last_newline = Some(i);
        }
        i = i + 1;
    }
    proof { assert(p.take(p.len() as int) =~= p); }
    let column_start = match last_newline {
        None => 0,
        Some(k) => k + 1,
    };
    (lines + 1, chars.len() - column_start + 1)
}

/// Whitespace in the sense of `char::is_whitespace`: the characters with
/// the Unicode White_Space property.
pub open spec fn unicode_whitespace(c: char) -> bool {
    ||| '\u{9}' <= c <= '\u{d}'
    ||| c == ' '
    ||| c == '\u{85}'
    ||| c == '\u{a0}'
    ||| c == '\u{1680}'
    ||| '\u{2000}' <= c <= '\u{200a}'
    ||| c == '\u{2028}'
    ||| c == '\u{2029}'
    ||| c == '\u{202f}'
    ||| c == '\u{205f}'
    ||| c == '\u{3000}'
}

/// `char::is_whitespace`: whether `c` has the Unicode White_Space property.
#[verifier::external_body]
pub(crate) fn is_whitespace(c: char) -> (r: bool)
    ensures
        r == unicode_whitespace(c),
{
    c.is_whitespace()
}

/// `s` without leading and trailing whitespace, as `str::trim` gives it.
pub open spec fn trimmed(s: Seq<char>) -> Seq<char> {
    let start = first_kept(s);
    let end = last_kept_end(s);
    if start >= end { Seq::empty() } else { s.subrange(start, end) }
}

/// Position of the first character that is not whitespace (the length when none).
pub open spec fn first_kept(s: Seq<char>) -> int
    decreases s.len(),
{
    if s.len() == 0 {
        0
    } else if !unicode_whitespace(s[0]) {
        0
    } else {
        1 + first_kept(s.drop_first())
    }
}

/// Position just after the last character that is not whitespace (zero when none).
pub open spec fn last_kept_end(s: Seq<char>) -> int
    decreases s.len(),
{
    if s.len() == 0 {
        0
    } else if !unicode_whitespace(s.last()) {
        s.len() as int
    } else {
        last_kept_end(s.drop_last())
    }
}

pub(crate) proof fn lemma_first_kept(s: Seq<char>)
    ensures
        0 <= first_kept(s) <= s.len(),
        forall|k: int| 0 <= k < first_kept(s) ==> unicode_whitespace(#[trigger] s[k]),
        first_kept(s) < s.len() ==> !unicode_whitespace(s[first_kept(s)]),
    decreases s.len(),
{
    if s.len() > 0 && unicode_whitespace(s[0]) {
        lemma_first_kept(s.drop_first());
        assert forall|k: int| 0 <= k < first_kept(s) implies unicode_whitespace(#[trigger] s[k]) by {
            if k > 0 {
                assert(s.drop_first()[k - 1] == s[k]);
            }
        }
    }
}

proof fn lemma_last_kept_end(s: Seq<char>)
    ensures
        0 <= last_kept_end(s) <= s.len(),
        forall|k: int| last_kept_end(s) <= k < s.len() ==> unicode_whitespace(#[trigger] s[k]),
        last_kept_end(s) > 0 ==> !unicode_whitespace(s[last_kept_end(s) - 1]),
    decreases s.len(),
{
    if s.len() > 0 && unicode_whitespace(s.last()) {
        lemma_last_kept_end(s.drop_last());
        assert forall|k: int| last_kept_end(s) <= k < s.len() implies unicode_whitespace(#[trigger] s[k]) by {
            if k < s.len() - 1 {
                assert(s.drop_last()[k] == s[k]);
            }
        }
    }
}

/// `v[start..end]` without leading and trailing whitespace.
fn trim_range(v: &Vec<char>, start: usize, end: usize) -> (r: (usize, usize))
    requires
        start <= end <= v@.len(),
    ensures
        start <= r.0 <= r.1 <= end,
        v@.subrange(r.0 as int, r.1 as int) == trimmed(v@.subrange(start as int, end as int)),
{
    let ghost s = v@.subrange(start as int, end as int);
    proof {
        lemma_first_kept(s);
        lemma_last_kept_end(s);
    }
    let mut a = start;
    while a < end && is_whitespace(v[a])
        invariant
            start <= a <= end <= v@.len(),
            s == v@.subrange(start as int, end as int),
            forall|k: int| start <= k < a ==> unicode_whitespace(#[trigger] v@[k]),
        decreases end - a,
    {
        a = a + 1;
    }
    proof {
        lemma_first_kept(s);
        let f = first_kept(s);
        if f < a - start {
            assert(s[f] == v@[start + f]);
        }
        if a < end && f > a - start {
            assert(s[a - start] == v@[a as int]);
        }
        assert(f == a - start);
    }
    let mut b = end;
    while b > a && is_whitespace(v[b - 1])
        invariant
            start <= a <= b <= end <= v@.len(),
            s == v@.subrange(start as int, end as int),
            a - start == first_kept(s),
            forall|k: int| b <= k < end ==> unicode_whitespace(#[trigger] v@[k]),
        decreases b - a,
    {
        b = b - 1;
    }
    proof {
        lemma_first_kept(s);
        lemma_last_kept_end(s);
        let l = last_kept_end(s);
        if l > b - start && l > 0 {
            assert(s[l - 1] == v@[start + l - 1]);
        }
        if b > a && l < b - start {
            assert(s[b - start - 1] == v@[b - 1]);
        }
        if b == a {
            // everything before `a` and from `b` on is whitespace
            assert(l <= b - start || l == 0) by {
                if l > b - start {
                    assert(s[l - 1] == v@[start + l - 1]);
                }
            }
        }
        if b > a {
            assert(l == b - start);
            assert(v@.subrange(a as int, b as int) =~= s.subrange(a - start, b - start));
        } else {
            assert(v@.subrange(a as int, b as int) =~= Seq::<char>::empty());
        }
    }
    (a, b)
}

/// The text before a character boundary is a prefix of the text.
proof fn lemma_prefix_chars(text: Seq<char>, at: int)
    requires
        is_char_boundary(encode_utf8(text), at),
    ensures
        text_before(encode_utf8(text), at).len() <= text.len(),
        text.take(text_before(encode_utf8(text), at).len() as int) == text_before(encode_utf8(text), at),
{
    let bytes = encode_utf8(text);
    decode_utf8_split(bytes, at);
    let a = decode_utf8(bytes.subrange(0, at));
    let b = decode_utf8(bytes.subrange(at, bytes.len() as int));
    assert(text == a + b);
    assert(text.take(a.len() as int) =~= a);
}

/// The line of `chars` that holds the characters `[i, j)`: from after the
/// last line feed before `i` to the first line feed at or after `j`.
pub open spec fn line_around(chars: Seq<char>, i: int, j: int) -> Seq<char> {
    let start = last_index_of(chars.take(i), '\n') + 1;
    let rest = chars.skip(j);
    let f = crate::language::find_char(rest, '\n');
    let end = if f < 0 { chars.len() as int } else { j + f };
    chars.subrange(start, end)
}

/// The excerpt shown for a line: at most 160 characters of the trimmed
/// line, followed by "..." when it is longer.
pub open spec fn excerpt_of(line: Seq<char>) -> Seq<char> {
    let t = trimmed(line);
    if t.len() > 160 { t.take(160) + "..."@ } else { t }
}

/// The trimmed line around a match, shortened to 160 characters.
pub fn line_excerpt(text: &str, range: &Range<usize>) -> (r: String)
    requires
        range.start <= range.end,
        is_char_boundary(text.spec_bytes(), range.start as int),
        is_char_boundary(text.spec_bytes(), range.end as int),
    ensures
        r@ == excerpt_of(line_around(
            text@,
            text_before(text.spec_bytes(), range.start as int).len() as int,
            text_before(text.spec_bytes(), range.end as int).len() as int,
        )),
{
    let ghost bytes = text.spec_bytes();
    let (before_start, _) = text.split_at(range.start);
    let (before_end, _) = text.split_at(range.end);
    proof {
        assert(before_start.spec_bytes() =~= bytes.subrange(0, range.start as int));
        assert(before_end.spec_bytes() =~= bytes.subrange(0, range.end as int));
    }
    let chars = to_chars(text);
    let i = to_chars(before_start).len();
    let j = to_chars(before_end).len();
    proof {
        lemma_prefix_chars(text@, range.start as int);
        lemma_prefix_chars(text@, range.end as int);
        crate::paths::lemma_last_index_of(chars@.take(i as int), '\n');
    }
    proof {
        let p1 = text_before(bytes, range.start as int);
        let p2 = text_before(bytes, range.end as int);
        if p1.len() > p2.len() {
            crate::text::lemma_byte_len_take_mono(text@, p2.len() as int, p1.len() as int);
            assert(text@.take(p1.len() as int) =~= p1);
            assert(text@.take(p2.len() as int) =~= p2);
            assert(encode_utf8(p1) =~= bytes.subrange(0, range.start as int));
            assert(encode_utf8(p2) =~= bytes.subrange(0, range.end as int));
            // the longer prefix has at least one more character, hence more bytes
            crate::text::lemma_byte_len_concat(p2, text@.subrange(p2.len() as int, p1.len() as int));
            assert(p2 + text@.subrange(p2.len() as int, p1.len() as int) =~= p1);
            crate::text::lemma_byte_len_ge_len(text@.subrange(p2.len() as int, p1.len() as int));
        }
    }
    // start of the line
    let mut start = i;
    while start > 0 && chars[start - 1] != '\n'
        invariant
            start <= i <= chars@.len(),
            forall|k: int| start <= k < i ==> #[trigger] chars@[k] != '\n',
        decreases start,
    {
        start = start - 1;
    }
    proof {
        let t = chars@.take(i as int);
        crate::paths::lemma_last_index_of(t, '\n');
        let l = last_index_of(t, '\n');
        if l >= start as int {
            assert(t[l] == chars@[l]);
        }
        if start > 0 && l < start - 1 {
            assert(t[start - 1] == chars@[start - 1]);
        }
        assert(l + 1 == start);
    }
    // end of the line
    let mut end = j;
    while end < chars.len() && chars[end] != '\n'
        invariant
            j <= end <= chars@.len(),
            forall|k: int| j <= k < end ==> #[trigger] chars@[k] != '\n',
        decreases chars@.len() - end,
    {
        end = end + 1;
    }
    proof {
        let rest = chars@.skip(j as int);
        crate::language::lemma_find_char(rest, '\n');
        let f = crate::language::find_char(rest, '\n');
        if f >= 0 && f < end - j {
            assert(rest[f] == chars@[j + f]);
        }
        if end < chars@.len() && (f < 0 || f > end - j) {
            assert(rest[end - j] == chars@[end as int]);
        }
    }
    let (a, b) = trim_range(&chars, start, end);
    if b - a > 160 {
        let mut excerpt = from_chars(chars.as_slice(), a, a + 160);
        push_str(&mut excerpt, "...");
        proof {
            assert(chars@.subrange(a as int, a + 160) =~= chars@.subrange(a as int, b as int).take(160));
        }
        excerpt
    } else {
        from_chars(chars.as_slice(), a, b)
    }
}

/// A match as plain values.
pub ghost struct MatchView {
    pub path: Seq<char>,
    pub start: int,
    pub end: int,
    pub line: int,
    pub column: int,
    pub excerpt: Seq<char>,
}

impl View for Match {
    type V = MatchView;

    open spec fn view(&self) -> MatchView {
        MatchView {
            path: self.path@,
            start: self.range.start as int,
            end: self.range.end as int,
            line: self.line as int,
            column: self.column as int,
            excerpt: self.excerpt@,
        }
    }
}

/// The match over the bytes `[start, end)` of `text`, in the file `path`.
pub open spec fn match_at(path: Seq<char>, text: Seq<char>, start: int, end: int) -> MatchView {
    let bytes = encode_utf8(text);
    let position = line_column_of(text_before(bytes, start));
    MatchView {
        path,
        start,
        end,
        line: position.0,
        column: position.1,
        excerpt: excerpt_of(line_around(
            text,
            text_before(bytes, start).len() as int,
            text_before(bytes, end).len() as int,
        )),
    }
}

/// The matches of `query` in the text of the file `path`, in text order.
pub open spec fn matches_in(path: Seq<char>, text: Seq<char>, query: Seq<char>, options: Options) -> Seq<MatchView> {
    literal_matches(text, query, options).map_values(|r: (int, int)| match_at(path, text, r.0, r.1))
}

/// Matches come by path, then by position in the file.
pub open spec fn match_less(a: MatchView, b: MatchView) -> bool {
    path_less(a.path, b.path) || (a.path == b.path && a.start < b.start)
}

/// The text that the overlays give for `path`: that of the last overlay
/// for it, if any.
pub open spec fn overlay_text(overlays: Seq<(Seq<char>, Seq<char>)>, path: Seq<char>) -> Option<Seq<char>>
    decreases overlays.len(),
{
    if overlays.len() == 0 {
        None
    } else if overlays.last().0 == path {
        Some(overlays.last().1)
    } else {
        overlay_text(overlays.drop_last(), path)
    }
}

/// Paths and texts by their characters.
pub open spec fn overlays_view(overlays: Seq<(String, String)>) -> Seq<(Seq<char>, Seq<char>)> {
    overlays.map_values(|o: (String, String)| (o.0@, o.1@))
}


/// Optional texts by their characters.
pub open spec fn sources_view(sources: Seq<Option<String>>) -> Seq<Option<Seq<char>>> {
    sources.map_values(|s: Option<String>| opt_view(s))
}

/// A file takes part in a search when it lies under the root; its text is
/// that of an overlay, or what was read from disk.
pub open spec fn needs_reading(root: Seq<char>, path: Seq<char>, overlays: Seq<(Seq<char>, Seq<char>)>) -> bool {
    starts_with(path, root) && overlay_text(overlays, path) is None
}

/// The matches found in the first `files.len()` files, in file order, and
/// the number of files under the root whose text could not be read.
pub open spec fn searched(
    root: Seq<char>,
    files: Seq<Seq<char>>,
    overlays: Seq<(Seq<char>, Seq<char>)>,
    read: Seq<Option<Seq<char>>>,
    query: Seq<char>,
    options: Options,
) -> (Seq<MatchView>, nat)
    decreases files.len(),
{
    if files.len() == 0 {
        (Seq::empty(), 0)
    } else {
        let before = searched(root, files.drop_last(), overlays, read, query, options);
        let path = files.last();
        if !starts_with(path, root) {
            before
        } else {
            let text = match overlay_text(overlays, path) {
                Some(t) => Some(t),
                None => read[files.len() - 1],
            };
            match text {
                None => (before.0, before.1 + 1),
                Some(t) => (before.0 + matches_in(path, t, query, options), before.1),
            }
        }
    }
}

impl Ordered for Match {
    open spec fn less(&self, other: &Self) -> bool {
        match_less(self@, other@)
    }

    fn exec_less(&self, other: &Self) -> (r: bool) {
        paths_less(self.path.as_str(), other.path.as_str()) || (str_eq(self.path.as_str(), other.path.as_str())
            && self.range.start < other.range.start)
    }

    proof fn lemma_strict_weak_order(a: &Self, b: &Self, c: &Self) {
        lemma_path_less(a.path@, b.path@, c.path@);
        lemma_path_less(b.path@, c.path@, a.path@);
        lemma_path_less(c.path@, a.path@, b.path@);
        lemma_path_less(a.path@, c.path@, b.path@);
        lemma_path_less(c.path@, b.path@, a.path@);
        lemma_path_less(b.path@, a.path@, c.path@);
    }
}

/// Index of the last overlay for `path`.
fn find_overlay(overlays: &Vec<(String, String)>, path: &str) -> (r: Option<usize>)
    ensures
        match r {
            None => overlay_text(overlays_view(overlays@), path@) is None,
            Some(k) => k < overlays@.len() && overlay_text(overlays_view(overlays@), path@) == Some(overlays@[k as int].1@),
        },
{
    let ghost all = overlays_view(overlays@);
    let mut k = overlays.len();
    proof { assert(all.take(k as int) =~= all); }
    while k > 0
        invariant
            k <= overlays@.len() == all.len(),
            all == overlays_view(overlays@),
            overlay_text(all, path@) == overlay_text(all.take(k as int), path@),
        decreases k,
    {
        proof {
            assert(all.take(k as int).drop_last() =~= all.take(k - 1));
            assert(all.take(k as int).last() == all[k - 1]);
        }
        if str_eq(overlays[k - 1].0.as_str(), path) {
            return Some(k - 1);
        }
        k = k - 1;
    }
    None
}

/// Which files a search has to read from disk: those under the root for
/// which no overlay holds the text (none at all for an empty query).
pub fn files_to_read(root: &str, files: &Vec<String>, overlays: &Vec<(String, String)>, query: &str) -> (r: Vec<bool>)
    ensures
        r@.len() == files@.len(),
        forall|i: int| 0 <= i < files@.len() ==> #[trigger] r@[i] == (query@.len() > 0
            && needs_reading(root@, files@[i]@, overlays_view(overlays@))),
{
    let mut r: Vec<bool> = Vec::new();
    let mut i: usize = 0;
    while i < files.len()
        invariant
            i <= files@.len(),
            r@.len() == i,
            forall|j: int| 0 <= j < i ==> #[trigger] r@[j] == (query@.len() > 0
                && needs_reading(root@, files@[j]@, overlays_view(overlays@))),
        decreases files@.len() - i,
    {
        let wanted = !query.is_empty() && path_starts_with(files[i].as_str(), root)
            && find_overlay(overlays, files[i].as_str()).is_none();
        r.push(wanted);
        i = i + 1;
    }
    r
}

/// Appends the matches of `query` in `text`, the text of `path`.
fn push_file_matches(out: &mut Vec<Match>, path: &String, text: &str, query: &str, options: Options)
    requires
        text.spec_bytes().len() < usize::MAX,
    ensures
        final(out)@.map_values(|m: Match| m@) == old(out)@.map_values(|m: Match| m@) + matches_in(path@, text@, query@, options),
{
    let ghost start_view = out@.map_values(|m: Match| m@);
    let ranges = find_matches(text, query, options);
    let ghost found = ranges_view(ranges@);
    let ghost f = |r: (int, int)| match_at(path@, text@, r.0, r.1);
    let mut k: usize = 0;
    proof {
        assert(found.take(0).map_values(f) =~= Seq::<MatchView>::empty());
        assert(out@.map_values(|m: Match| m@) =~= start_view + found.take(0).map_values(f));
    }
    while k < ranges.len()
        invariant
            k <= ranges@.len() == found.len(),
            found == ranges_view(ranges@),
            found == literal_matches(text@, query@, options),
            well_placed(found, text.spec_bytes()),
            text.spec_bytes().len() < usize::MAX,
            f == (|r: (int, int)| match_at(path@, text@, r.0, r.1)),
            out@.map_values(|m: Match| m@) == start_view + found.take(k as int).map_values(f),
        decreases ranges@.len() - k,
    {
        let r = &ranges[k];
        proof {
            assert(found[k as int] == (r.start as int, r.end as int));
        }
        let (line, column) = line_column(text, r.start);
        let excerpt = line_excerpt(text, r);
        let ghost before = out@;
        out.push(Match { path: path.clone(), range: r.start..r.end, line, column, excerpt });
        proof {
            assert(found.take(k + 1) =~= found.take(k as int).push(found[k as int]));
            assert(found.take(k + 1).map_values(f) =~= found.take(k as int).map_values(f).push(f(found[k as int])));
            assert(out@.map_values(|m: Match| m@) =~= before.map_values(|m: Match| m@).push(out@[k as int + before.len() - k]@));
        }
        k = k + 1;
    }
    proof {
        assert(found.take(found.len() as int) =~= found);
    }
}

/// What a search for `query` reports: no match at all for an empty query,
/// else the matches of every file under the root and the number of files
/// whose text could not be read.
pub open spec fn search_result(
    root: Seq<char>,
    files: Seq<Seq<char>>,
    overlays: Seq<(Seq<char>, Seq<char>)>,
    read: Seq<Option<Seq<char>>>,
    query: Seq<char>,
    options: Options,
) -> (Seq<MatchView>, nat) {
    if query.len() == 0 {
        (Seq::empty(), 0)
    } else {
        searched(root, files, overlays, read, query, options)
    }
}

/// Searches the files under `root`.  The text of a file is that of the
/// last overlay for its path, or else `read[i]`, what was read from disk
/// (`None` when the file could not be read as text).  The matches come
/// sorted by path and position.
pub fn search_sync(
    root: &str,
    files: Vec<String>,
    overlays: Vec<(String, String)>,
    read: Vec<Option<String>>,
    query: &str,
    options: Options,
) -> (r: Result<SearchReport, String>)
    requires
        read@.len() == files@.len(),
        forall|i: int| 0 <= i < overlays@.len() ==> encode_utf8((#[trigger] overlays@[i]).1@).len() < usize::MAX,
        forall|i: int| 0 <= i < read@.len() ==> (#[trigger] read@[i] matches Some(t)
            ==> encode_utf8(t@).len() < usize::MAX),
    ensures
        r is Ok,
        r matches Ok(report) ==> {
            let expected = search_result(root@, strings_view(files@), overlays_view(overlays@),
                sources_view(read@), query@, options);
            &&& report.skipped_files == expected.1
            &&& sorted(report.matches@)
            &&& report.matches@.map_values(|m: Match| m@).to_multiset() == expected.0.to_multiset()
        },
{
    let ghost fv = strings_view(files@);
    let ghost ov = overlays_view(overlays@);
    let ghost rv = sources_view(read@);
    if query.is_empty() {
        let matches: Vec<Match> = Vec::new();
        proof {
            assert(matches@.map_values(|m: Match| m@) =~= Seq::<MatchView>::empty());
        }
        return Ok(SearchReport { matches, skipped_files: 0 });
    }
    let mut all: Vec<Match> = Vec::new();
    let mut skipped: usize = 0;
    let mut i: usize = 0;
    proof {
        assert(fv.take(0) =~= Seq::<Seq<char>>::empty());
        assert(all@.map_values(|m: Match| m@) =~= Seq::<MatchView>::empty());
    }
    while i < files.len()
        invariant
            i <= files@.len() == read@.len(),
            fv == strings_view(files@),
            ov == overlays_view(overlays@),
            rv == sources_view(read@),
            skipped <= i,
            forall|k: int| 0 <= k < overlays@.len() ==> encode_utf8((#[trigger] overlays@[k]).1@).len() < usize::MAX,
            forall|k: int| 0 <= k < read@.len() ==> (#[trigger] read@[k] matches Some(t)
                ==> encode_utf8(t@).len() < usize::MAX),
            (all@.map_values(|m: Match| m@), skipped as nat) == searched(root@, fv.take(i as int), ov, rv, query@, options),
        decreases files@.len() - i,
    {
        let path = &files[i];
        proof {
            assert(fv.take(i + 1).drop_last() =~= fv.take(i as int));
            assert(fv.take(i + 1).last() == path@);
            assert(fv.take(i + 1).len() - 1 == i);
        }
        if path_starts_with(path.as_str(), root) {
            match find_overlay(&overlays, path.as_str()) {
                Some(k) => {
                    push_file_matches(&mut all, path, overlays[k].1.as_str(), query, options);
                },
                None => {
                    match &read[i] {
                        Some(text) => {
                            proof { assert(rv[i as int] == Some(text@)); }
                            push_file_matches(&mut all, path, text.as_str(), query, options);
                        },
                        None => {
                            proof { assert(rv[i as int] is None); }
                            skipped = skipped + 1;
                        },
                    }
                },
            }
        }
        i = i + 1;
    }
    proof {
        assert(fv.take(files@.len() as int) =~= fv);
    }
    let matches = sort_stable(all);
    proof {
        lemma_map_same_elements(matches@, all@, |m: Match| m@);
    }
    Ok(SearchReport { matches, skipped_files: skipped })
}

/// Replaces every match of `query` in `text` by `replacement`; gives the
/// new text and the number of replacements.
pub fn replace_matches(text: &str, query: &str, replacement: &str, options: Options) -> (r: (String, usize))
    ensures
        r.1 == literal_matches(text@, query@, options).len(),
        encode_utf8(r.0@) == spliced(text.spec_bytes(), literal_matches(text@, query@, options), replacement.spec_bytes(), 0),
{
    let ranges = find_matches(text, query, options);
    let count = ranges.len();
    let (out, _, _) = splice_tracking(text, &ranges, replacement, 0, false, 0, false);
    (out, count)
}

/// Sum of the replacement counts of the files that were replaced.
pub open spec fn replaced_total(results: Seq<Result<usize, String>>) -> int
    decreases results.len(),
{
    if results.len() == 0 {
        0
    } else {
        replaced_total(results.drop_last()) + match results.last() {
            Ok(count) => count as int,
            Err(_) => 0,
        }
    }
}

/// Number of files in which at least one replacement was written.
pub open spec fn changed_total(results: Seq<Result<usize, String>>) -> int
    decreases results.len(),
{
    if results.len() == 0 {
        0
    } else {
        changed_total(results.drop_last()) + match results.last() {
            Ok(count) => if count > 0 { 1int } else { 0 },
            Err(_) => 0,
        }
    }
}

/// The errors, in file order.
pub open spec fn errors_of(results: Seq<Result<usize, String>>) -> Seq<Seq<char>>
    decreases results.len(),
{
    if results.len() == 0 {
        Seq::empty()
    } else {
        let before = errors_of(results.drop_last());
        match results.last() {
            Ok(_) => before,
            Err(e) => before.push(e@),
        }
    }
}

/// Sums up a replacement over closed files from the outcome of each file:
/// the number of replacements written, or the error that stopped it.
/// Gives the number of replacements, of changed files, and the errors.
pub fn tally_replacements(results: Vec<Result<usize, String>>) -> (r: (usize, usize, Vec<String>))
    requires
        replaced_total(results@) <= usize::MAX,
    ensures
        r.0 == replaced_total(results@),
        r.1 == changed_total(results@),
        strings_view(r.2@) == errors_of(results@),
{
    let mut replaced: usize = 0;
    let mut changed: usize = 0;
    let mut errors: Vec<String> = Vec::new();
    let mut i: usize = 0;
    let ghost all = results@;
    let mut results = results;
    proof {
        assert(all.take(0) =~= Seq::<Result<usize, String>>::empty());
        assert(strings_view(errors@) =~= Seq::<Seq<char>>::empty());
    }
    while i < results.len()
        invariant
            i <= results@.len() == all.len(),
            results@ == all,
            replaced_total(all) <= usize::MAX,
            replaced == replaced_total(all.take(i as int)),
            changed == changed_total(all.take(i as int)),
            changed <= i,
            strings_view(errors@) == errors_of(all.take(i as int)),
        decreases all.len() - i,
    {
        proof {
            assert(all.take(i + 1).drop_last() =~= all.take(i as int));
            assert(all.take(i + 1).last() == all[i as int]);
            lemma_replaced_total_prefix(all, i as int + 1);
        }
        match &results[i] {
            Ok(count) => {
                if *count > 0 {
                    replaced = replaced + *count;
                    changed = changed + 1;
                }
            },
            Err(error) => {
                let ghost before = errors@;
                errors.push(error.clone());
                proof {
                    assert(strings_view(errors@) =~= strings_view(before).push(error@));
                }
            },
        }
        i = i + 1;
    }
    proof {
        assert(all.take(all.len() as int) =~= all);
    }
    (replaced, changed, errors)
}

proof fn lemma_replaced_total_prefix(results: Seq<Result<usize, String>>, n: int)
    requires
        0 <= n <= results.len(),
    ensures
        0 <= replaced_total(results.take(n)) <= replaced_total(results),
    decreases results.len(),
{
    if results.len() > 0 {
        if n == results.len() {
            assert(results.take(n) =~= results);
            lemma_replaced_total_prefix(results.drop_last(), n - 1);
            assert(results.drop_last().take(n - 1) =~= results.drop_last());
        } else {
            lemma_replaced_total_prefix(results.drop_last(), n);
            assert(results.drop_last().take(n) =~= results.take(n));
        }
    }
}

/// Every match found comes from one of the files, and that file lies under
/// the root of the search.
pub proof fn law_matches_lie_under_root(
    root: Seq<char>,
    files: Seq<Seq<char>>,
    overlays: Seq<(Seq<char>, Seq<char>)>,
    read: Seq<Option<Seq<char>>>,
    query: Seq<char>,
    options: Options,
)
    ensures
        forall|k: int| 0 <= k < search_result(root, files, overlays, read, query, options).0.len() ==> {
            let m = #[trigger] search_result(root, files, overlays, read, query, options).0[k];
            &&& starts_with(m.path, root)
            &&& files.contains(m.path)
        },
    decreases files.len(),
{
    if query.len() > 0 && files.len() > 0 {
        let before = files.drop_last();
        law_matches_lie_under_root(root, before, overlays, read, query, options);
        let all = searched(root, files, overlays, read, query, options).0;
        let prev = searched(root, before, overlays, read, query, options).0;
        let path = files.last();
        assert forall|k: int| 0 <= k < all.len() implies {
            &&& starts_with((#[trigger] all[k]).path, root)
            &&& files.contains(all[k].path)
        } by {
            if k < prev.len() {
                assert(all[k] == prev[k]);
                assert(search_result(root, before, overlays, read, query, options).0[k] == prev[k]);
                let j = before.index_of(prev[k].path);
                assert(files[j] == before[j]);
            } else {
                assert(files[files.len() - 1] == path);
            }
        }
    }
}

/// The paths, each once, in the order they first appear.
pub open spec fn distinct_paths(paths: Seq<Seq<char>>) -> Seq<Seq<char>>
    decreases paths.len(),
{
    if paths.len() == 0 {
        Seq::empty()
    } else {
        let before = distinct_paths(paths.drop_last());
        if before.contains(paths.last()) { before } else { before.push(paths.last()) }
    }
}

fn list_has(list: &Vec<String>, item: &str) -> (r: bool)
    ensures
        r == strings_view(list@).contains(item@),
{
    let mut i: usize = 0;
    while i < list.len()
        invariant
            i <= list@.len(),
            forall|k: int| 0 <= k < i ==> strings_view(list@)[k] != item@,
        decreases list@.len() - i,
    {
        if str_eq(list[i].as_str(), item) {
            proof { assert(strings_view(list@)[i as int] == item@); }
            return true;
        }
        i = i + 1;
    }
    false
}

/// The files that hold matches, each once, in the order of the matches.
pub fn result_files(matches: &[Match]) -> (r: Vec<String>)
    ensures
        strings_view(r@) == distinct_paths(matches@.map_values(|m: Match| m.path@)),
{
    let ghost all = matches@.map_values(|m: Match| m.path@);
    let mut out: Vec<String> = Vec::new();
    let mut i: usize = 0;
    while i < matches.len()
        invariant
            all == matches@.map_values(|m: Match| m.path@),
            i <= matches@.len(),
            strings_view(out@) == distinct_paths(all.take(i as int)),
        decreases matches@.len() - i,
    {
        proof {
            assert(all.take(i + 1).drop_last() =~= all.take(i as int));
            assert(all.take(i + 1).last() == matches@[i as int].path@);
        }
        let path = &matches[i].path;
        if !list_has(&out, path.as_str()) {
            let ghost before = out@;
            out.push(path.clone());
            proof { assert(strings_view(out@) =~= strings_view(before).push(path@)); }
        }
        i = i + 1;
    }
    proof { assert(all.take(matches@.len() as int) =~= all); }
    out
}

/// Whether some open document lives at `path`.
pub open spec fn is_open(docs: Seq<DocumentView>, path: Seq<char>) -> bool {
    exists|i: int| 0 <= i < docs.len() && docs[i].path == Some(path)
}

/// The paths, in order, of no open document.
pub open spec fn not_open(paths: Seq<Seq<char>>, docs: Seq<DocumentView>) -> Seq<Seq<char>>
    decreases paths.len(),
{
    if paths.len() == 0 {
        Seq::empty()
    } else {
        let before = not_open(paths.drop_last(), docs);
        if is_open(docs, paths.last()) { before } else { before.push(paths.last()) }
    }
}

/// The files among `paths` that no open document shows: those are replaced
/// on disk, the others in their documents.
pub fn closed_files(paths: &Vec<String>, documents: &Documents) -> (r: Vec<String>)
    requires
        documents.wf(),
    ensures
        strings_view(r@) == not_open(strings_view(paths@), documents.docs()),
{
    let ghost all = strings_view(paths@);
    let mut out: Vec<String> = Vec::new();
    let mut i: usize = 0;
    while i < paths.len()
        invariant
            documents.wf(),
            all == strings_view(paths@),
            i <= paths@.len(),
            strings_view(out@) == not_open(all.take(i as int), documents.docs()),
        decreases paths@.len() - i,
    {
        proof {
            assert(all.take(i + 1).drop_last() =~= all.take(i as int));
            assert(all.take(i + 1).last() == paths@[i as int]@);
        }
        let open = documents.find_path(paths[i].as_str()).is_some();
        if !open {
            let ghost before = out@;
            out.push(paths[i].clone());
            proof { assert(strings_view(out@) =~= strings_view(before).push(paths@[i as int]@)); }
        }
        i = i + 1;
    }
    proof { assert(all.take(paths@.len() as int) =~= all); }
    out
}

/// Whether `new_text` is `text` with each match of `query` replaced by
/// `replacement`.
pub open spec fn replaced_text(text: Seq<char>, query: Seq<char>, replacement: Seq<char>, options: Options, new_text: Seq<char>) -> bool {
    encode_utf8(new_text) == spliced(encode_utf8(text), literal_matches(text, query, options), encode_utf8(replacement), 0)
}

/// Whether the open document `d` takes part in a replacement in the files
/// `paths`: it lives at one of them and holds a match.
pub open spec fn takes_replacement(d: DocumentView, paths: Seq<Seq<char>>, query: Seq<char>, options: Options) -> bool {
    d.path matches Some(p) && paths.contains(p) && literal_matches(d.text, query, options).len() > 0
}

/// The replacements and changed documents among the first `n` documents.
pub open spec fn open_replacements(docs: Seq<DocumentView>, paths: Seq<Seq<char>>, query: Seq<char>, options: Options, n: int) -> (int, int)
    decreases n,
{
    if n <= 0 {
        (0, 0)
    } else {
        let (r, c) = open_replacements(docs, paths, query, options, n - 1);
        if takes_replacement(docs[n - 1], paths, query, options) {
            (r + literal_matches(docs[n - 1].text, query, options).len(), c + 1)
        } else {
            (r, c)
        }
    }
}

proof fn lemma_open_replacements_grow(docs: Seq<DocumentView>, paths: Seq<Seq<char>>, query: Seq<char>, options: Options, m: int, n: int)
    requires
        0 <= m <= n,
    ensures
        open_replacements(docs, paths, query, options, m).0 <= open_replacements(docs, paths, query, options, n).0,
        open_replacements(docs, paths, query, options, m).1 <= open_replacements(docs, paths, query, options, n).1,
    decreases n - m,
{
    if m < n {
        lemma_open_replacements_grow(docs, paths, query, options, m, n - 1);
    }
}

/// Replaces each match of `query` by `replacement` in the open documents that
/// live at one of `paths`; returns how many matches were replaced (a count
/// that stops at the largest `usize`) and in how many documents.
pub fn replace_in_open_documents(documents: &mut Documents, paths: &Vec<String>, query: &str, replacement: &str, options: Options)
    -> (r: (usize, usize))
    requires
        old(documents).wf(),
    ensures
        final(documents).wf(),
        final(documents).ids() == old(documents).ids(),
        final(documents).active_index() == old(documents).active_index(),
        final(documents).next_id() == old(documents).next_id(),
        final(documents).docs().len() == old(documents).docs().len(),
        forall|i: int| 0 <= i < old(documents).docs().len() ==> {
            let d = #[trigger] old(documents).docs()[i];
            let e = final(documents).docs()[i];
            if takes_replacement(d, strings_view(paths@), query@, options) {
                e == edited(d, e.text) && replaced_text(d.text, query@, replacement@, options, e.text)
            } else {
                e == d
            }
        },
        ({
            let (replaced, changed) = open_replacements(old(documents).docs(), strings_view(paths@), query@, options,
                old(documents).docs().len() as int);
            &&& r.0 == if replaced <= usize::MAX { replaced } else { usize::MAX as int }
            &&& r.1 == changed
        }),
{
    let ghost docs0 = documents.docs();
    let ghost pv = strings_view(paths@);
    let n = documents.len();
    let mut replaced: usize = 0;
    let mut changed: usize = 0;
    let mut i: usize = 0;
    while i < n
        invariant
            documents.wf(),
            documents.ids() == old(documents).ids(),
            documents.active_index() == old(documents).active_index(),
            documents.next_id() == old(documents).next_id(),
            docs0 == old(documents).docs(),
            pv == strings_view(paths@),
            n == docs0.len(),
            documents.docs().len() == n,
            i <= n,
            ({
                let (total, count) = open_replacements(docs0, pv, query@, options, i as int);
                &&& replaced == if total <= usize::MAX { total } else { usize::MAX as int }
                &&& changed == count
            }),
            changed <= i,
            forall|k: int| i <= k < n ==> documents.docs()[k] == docs0[k],
            forall|k: int| 0 <= k < i ==> {
                let d = #[trigger] docs0[k];
                let e = documents.docs()[k];
                if takes_replacement(d, pv, query@, options) {
                    e == edited(d, e.text) && replaced_text(d.text, query@, replacement@, options, e.text)
                } else {
                    e == d
                }
            },
        decreases n - i,
    {
        proof {
            lemma_open_replacements_grow(docs0, pv, query@, options, i as int, i + 1);
            assert(documents.docs()[i as int] == docs0[i as int]);
        }
        let target = match documents.document_at(i).path() {
            Some(p) => list_has(paths, p),
            None => false,
        };
        if target {
            let (text, count) = {
                let document = documents.document_at(i);
                replace_matches(document.text(), query, replacement, options)
            };
            if count > 0 {
                let ghost before = *documents;
                documents.document_at_mut(i).edit(text);
                proof { Documents::lemma_wf_same_shape(&before, documents); }
                replaced = replaced.saturating_add(count);
                changed = changed + 1;
            }
        }
        i = i + 1;
    }
    (replaced, changed)
}

/// The status message after a replacement in the project, from the total of
/// replaced matches, of changed files and the errors met: the totals, or,
/// after errors, the replaced matches and the errors.
pub open spec fn replacement_status(replaced: nat, changed: nat, errors: Seq<Seq<char>>) -> Seq<char> {
    if errors.len() == 0 {
        decimal(replaced) + " ocorrência(s) substituída(s) em "@ + decimal(changed) + " arquivo(s)"@
    } else {
        "Substituição parcial: "@ + decimal(replaced) + " ocorrência(s); "@ + truncated(joined(errors, "; "@), 140)
    }
}

/// The status message after a replacement in the project, and the full
/// error text to show beside the results when some file failed.
pub fn replacement_summary(replaced: usize, changed: usize, errors: &Vec<String>) -> (r: (String, Option<String>))
    ensures
        r.0@ == replacement_status(replaced as nat, changed as nat, strings_view(errors@)),
        errors@.len() == 0 ==> r.1 is None,
        errors@.len() > 0 ==> (r.1 matches Some(e) && e@ == joined(strings_view(errors@), "; "@)),
{
    if errors.len() == 0 {
        let mut s = decimal_string(replaced);
        push_str(&mut s, " ocorrência(s) substituída(s) em ");
        push_str(&mut s, decimal_string(changed).as_str());
        push_str(&mut s, " arquivo(s)");
        (s, None)
    } else {
        let error = join_strings(errors.as_slice(), "; ");
        let mut s = String::new();
        push_str(&mut s, "Substituição parcial: ");
        push_str(&mut s, decimal_string(replaced).as_str());
        push_str(&mut s, " ocorrência(s); ");
        push_str(&mut s, truncate(error.as_str(), 140).as_str());
        (s, Some(error))
    }
}

/// The open documents that belong to the project at `root`, as the texts the
/// search reads in place of their files, in tab order.
pub open spec fn project_overlays(docs: Seq<DocumentView>, root: Seq<char>, n: int) -> Seq<(Seq<char>, Seq<char>)>
    decreases n,
{
    if n <= 0 {
        Seq::empty()
    } else {
        let before = project_overlays(docs, root, n - 1);
        match docs[n - 1].path {
            Some(p) => if starts_with(p, root) { before.push((p, docs[n - 1].text)) } else { before },
            None => before,
        }
    }
}

/// Every open document whose path lies under the root supplies its current
/// text to the search, and nothing else does: the overlays of the first `n`
/// documents are exactly the pairs (path, text) of those under `root`.
pub proof fn law_open_documents_supply_their_text(docs: Seq<DocumentView>, root: Seq<char>, n: int)
    requires
        0 <= n <= docs.len(),
    ensures
        forall|k: int| 0 <= k < n && docs[k].path is Some && starts_with(docs[k].path->0, root)
            ==> project_overlays(docs, root, n).contains((docs[k].path->0, #[trigger] docs[k].text)),
        forall|j: int| 0 <= j < project_overlays(docs, root, n).len() ==> exists|k: int|
            0 <= k < n && docs[k].path == Some((#[trigger] project_overlays(docs, root, n)[j]).0)
                && starts_with(project_overlays(docs, root, n)[j].0, root)
                && project_overlays(docs, root, n)[j].1 == docs[k].text,
    decreases n,
{
    if n > 0 {
        law_open_documents_supply_their_text(docs, root, n - 1);
        let before = project_overlays(docs, root, n - 1);
        let all = project_overlays(docs, root, n);
        assert forall|k: int| 0 <= k < n && docs[k].path is Some && starts_with(docs[k].path->0, root)
            implies all.contains((docs[k].path->0, #[trigger] docs[k].text)) by {
            if k < n - 1 {
                let i = choose|i: int| 0 <= i < before.len() && before[i] == (docs[k].path->0, docs[k].text);
                assert(all[i] == before[i]);
            } else {
                assert(all[all.len() - 1] == (docs[k].path->0, docs[k].text));
            }
        }
        assert forall|j: int| 0 <= j < all.len() implies exists|k: int|
            0 <= k < n && docs[k].path == Some((#[trigger] all[j]).0)
                && starts_with(all[j].0, root) && all[j].1 == docs[k].text by {
            if j < before.len() {
                assert(all[j] == before[j]);
                let k = choose|k: int| 0 <= k < n - 1 && docs[k].path == Some((#[trigger] before[j]).0)
                    && starts_with(before[j].0, root) && before[j].1 == docs[k].text;
                assert(docs[k].path == Some(all[j].0));
            } else {
                assert(docs[n - 1].path == Some(all[j].0));
            }
        }
    }
}

/// The texts of the open documents of the project, which the search reads
/// in place of their files.
pub fn search_overlays(documents: &Documents, root: &str) -> (r: Vec<(String, String)>)
    requires
        documents.wf(),
    ensures
        overlays_view(r@) == project_overlays(documents.docs(), root@, documents.docs().len() as int),
{
    let n = documents.len();
    let mut out: Vec<(String, String)> = Vec::new();
    let mut i: usize = 0;
    while i < n
        invariant
            documents.wf(),
            n == documents.docs().len(),
            i <= n,
            overlays_view(out@) == project_overlays(documents.docs(), root@, i as int),
        decreases n - i,
    {
        let document = documents.document_at(i);
        match document.path() {
            Some(p) => {
                if path_starts_with(p, root) {
                    let ghost before = out@;
                    let pair = (p.to_owned(), document.text().to_owned());
                    out.push(pair);
                    proof { assert(overlays_view(out@) =~= overlays_view(before).push((p@, document@.text))); }
                }
            },
            None => {},
        }
        i = i + 1;
    }
    out
}

/// The search of the project: what is asked, the revision of the latest
/// search, whether it runs, its results, and the counts of a replacement in
/// open documents waiting for the one in closed files.
pub struct ProjectSearch {
    pub query: String,
    pub replacement: String,
    pub case_sensitive: bool,
    pub whole_word: bool,
    revision: u64,
    busy: bool,
    results: Vec<Match>,
    skipped_files: usize,
    error: Option<String>,
    pending_replaced: usize,
    pending_changed_files: usize,
}

/// The state of a search as plain values (what is asked is in the public
/// fields).
pub ghost struct ProjectSearchView {
    pub query: Seq<char>,
    pub replacement: Seq<char>,
    pub case_sensitive: bool,
    pub whole_word: bool,
    pub revision: u64,
    pub busy: bool,
    pub results: Seq<MatchView>,
    pub skipped_files: usize,
    pub error: Option<Seq<char>>,
    pub pending_replaced: usize,
    pub pending_changed_files: usize,
}

impl View for ProjectSearch {
    type V = ProjectSearchView;

    closed spec fn view(&self) -> ProjectSearchView {
        ProjectSearchView {
            query: self.query@,
            replacement: self.replacement@,
            case_sensitive: self.case_sensitive,
            whole_word: self.whole_word,
            revision: self.revision,
            busy: self.busy,
            results: self.results@.map_values(|m: Match| m@),
            skipped_files: self.skipped_files,
            error: opt_view(self.error),
            pending_replaced: self.pending_replaced,
            pending_changed_files: self.pending_changed_files,
        }
    }
}

/// The revision after the next search.
pub open spec fn next_search_revision(r: u64) -> u64 {
    if r == u64::MAX { 0 } else { (r + 1) as u64 }
}

impl ProjectSearch {
    /// A search for nothing, with no replacement, both options off, no
    /// results, nothing skipped, no error and no replacement pending.
    pub fn new() -> (r: Self)
        ensures
            r@ == (ProjectSearchView {
                query: Seq::<char>::empty(),
                replacement: Seq::<char>::empty(),
                case_sensitive: false,
                whole_word: false,
                revision: 0,
                busy: false,
                results: Seq::<MatchView>::empty(),
                skipped_files: 0,
                error: None,
                pending_replaced: 0,
                pending_changed_files: 0,
            }),
    {
        let r = ProjectSearch {
            query: String::new(),
            replacement: String::new(),
            case_sensitive: false,
            whole_word: false,
            revision: 0,
            busy: false,
            results: Vec::new(),
            skipped_files: 0,
            error: None,
            pending_replaced: 0,
            pending_changed_files: 0,
        };
        proof { assert(r@.results =~= Seq::<MatchView>::empty()); }
        r
    }

    /// The matches found.
    pub fn results(&self) -> (r: &Vec<Match>)
        ensures
            r@.map_values(|m: Match| m@) == self@.results,
    {
        &self.results
    }

    /// Whether a search runs.
    pub fn busy(&self) -> (r: bool)
        ensures
            r == self@.busy,
    {
        self.busy
    }

    /// The revision of the latest search.
    pub fn revision(&self) -> (r: u64)
        ensures
            r == self@.revision,
    {
        self.revision
    }

    /// How many files could not be searched.
    pub fn skipped_files(&self) -> (r: usize)
        ensures
            r == self@.skipped_files,
    {
        self.skipped_files
    }

    /// The error of the latest search or replacement.
    pub fn error(&self) -> (r: Option<&String>)
        ensures
            match r {
                Some(e) => self@.error == Some(e@),
                None => self@.error is None,
            },
    {
        self.error.as_ref()
    }

    /// The options of the search.
    pub fn options(&self) -> (r: Options)
        ensures
            r == (Options { case_sensitive: self@.case_sensitive, whole_word: self@.whole_word }),
    {
        Options { case_sensitive: self.case_sensitive, whole_word: self.whole_word }
    }

    /// Starts a search for the current query under a new revision, which is
    /// returned; an empty query clears the results instead.
    pub fn start(&mut self) -> (r: Option<u64>)
        ensures
            final(self)@.query == old(self)@.query,
            final(self)@.replacement == old(self)@.replacement,
            final(self)@.case_sensitive == old(self)@.case_sensitive,
            final(self)@.whole_word == old(self)@.whole_word,
            final(self)@.revision == next_search_revision(old(self)@.revision),
            final(self)@.error is None,
            old(self)@.query.len() == 0 ==> r is None && !final(self)@.busy
                && final(self)@.results == Seq::<MatchView>::empty() && final(self)@.skipped_files == 0,
            old(self)@.query.len() > 0 ==> r == Some(final(self)@.revision) && final(self)@.busy
                && final(self)@.results == old(self)@.results,
            final(self)@.pending_replaced == old(self)@.pending_replaced,
            final(self)@.pending_changed_files == old(self)@.pending_changed_files,
    {
        self.revision = self.revision.wrapping_add(1);
        self.error = None;
        if self.query.as_str().is_empty() {
            self.busy = false;
            self.results = Vec::new();
            self.skipped_files = 0;
            proof { assert(self@.results =~= Seq::<MatchView>::empty()); }
            return None;
        }
        self.busy = true;
        Some(self.revision)
    }

    /// Takes in the answer of a search: only the latest search in the
    /// current project `root` counts; reports whether it did.
    pub fn finished(&mut self, outcome: SearchOutcome, root: &str) -> (applied: bool)
        ensures
            applied == (outcome.revision == old(self)@.revision && outcome.root@ == root@),
            !applied ==> final(self)@ == old(self)@,
            applied ==> match outcome.result {
                Ok(report) => final(self)@ == (ProjectSearchView {
                    busy: false,
                    results: report.matches@.map_values(|m: Match| m@),
                    skipped_files: report.skipped_files,
                    error: None,
                    ..old(self)@
                }),
                Err(e) => final(self)@ == (ProjectSearchView {
                    busy: false,
                    results: Seq::empty(),
                    skipped_files: 0,
                    error: Some(e@),
                    ..old(self)@
                }),
            },
    {
        if outcome.revision != self.revision || !str_eq(outcome.root.as_str(), root) {
            return false;
        }
        self.busy = false;
        match outcome.result {
            Ok(report) => {
                self.results = report.matches;
                self.skipped_files = report.skipped_files;
                self.error = None;
            },
            Err(error) => {
                self.results = Vec::new();
                self.skipped_files = 0;
                self.error = Some(error);
                proof { assert(self@.results =~= Seq::<MatchView>::empty()); }
            },
        }
        true
    }

    /// Keeps the counts of the replacement done in open documents until the
    /// one in closed files ends.
    pub fn hold_open_replacements(&mut self, replaced: usize, changed_files: usize)
        ensures
            final(self)@ == (ProjectSearchView {
                pending_replaced: replaced,
                pending_changed_files: changed_files,
                ..old(self)@
            }),
    {
        self.pending_replaced = replaced;
        self.pending_changed_files = changed_files;
    }

    /// Takes in the end of the replacement in closed files: returns the
    /// status message, adding the counts held for the open documents (each
    /// stopping at the largest `usize`), and whether the replacement belongs
    /// to the latest search, so that the project is read again.
    pub fn replace_finished(&mut self, outcome: ReplaceOutcome) -> (r: (String, bool))
        ensures
            ({
                let replaced = old(self)@.pending_replaced + outcome.replaced;
                let changed = old(self)@.pending_changed_files + outcome.changed_files;
                let capped_replaced = if replaced <= usize::MAX { replaced } else { usize::MAX as int };
                let capped_changed = if changed <= usize::MAX { changed } else { usize::MAX as int };
                &&& r.0@ == replacement_status(capped_replaced as nat, capped_changed as nat, strings_view(outcome.errors@))
                &&& r.1 == (outcome.revision == old(self)@.revision)
                &&& final(self)@ == (ProjectSearchView {
                    pending_replaced: 0,
                    pending_changed_files: 0,
                    error: if outcome.errors@.len() == 0 {
                        old(self)@.error
                    } else {
                        Some(joined(strings_view(outcome.errors@), "; "@))
                    },
                    ..old(self)@
                })
            }),
    {
        let replaced = self.pending_replaced.saturating_add(outcome.replaced);
        let changed = self.pending_changed_files.saturating_add(outcome.changed_files);
        self.pending_replaced = 0;
        self.pending_changed_files = 0;
        let (status, error) = replacement_summary(replaced, changed, &outcome.errors);
        if error.is_some() {
            self.error = error;
        }
        (status, outcome.revision == self.revision)
    }
}

} // verus!
