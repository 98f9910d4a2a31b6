//! Literal text search with optional case folding and whole-word matching.
use vstd::prelude::*;
use vstd::utf8::*;
use vstd::string::*;
use std::ops::Range;
use regex::{Regex, RegexBuilder};

verus! {

broadcast use vstd::utf8::encode_utf8_decode_utf8, vstd::utf8::encode_utf8_valid_utf8;

/// How a query is matched.
#[derive(Debug, Clone, Copy, Default, PartialEq, Eq, Structural)]
pub struct Options {
    pub case_sensitive: bool,
    pub whole_word: bool,
}

/// The compiled expressions of the `regex` crate.
#[verifier::external_type_specification]
#[verifier::external_body]
pub struct ExRegex(Regex);

/// The characters that have a meaning in a pattern of the `regex` crate.
pub open spec fn regex_meta(c: char) -> bool {
    c == '\\' || c == '.' || c == '+' || c == '*' || c == '?' || c == '(' || c == ')' || c == '|'
        || c == '[' || c == ']' || c == '{' || c == '}' || c == '^' || c == '$' || c == '#' || c == '&'
        || c == '-' || c == '~'
}

/// The pattern that `regex::escape` produces for a literal: each character,
/// with a backslash before each character that has a meaning in a pattern.
pub open spec fn regex_escaped(literal: Seq<char>) -> Seq<char>
    decreases literal.len(),
{
    if literal.len() == 0 {
        Seq::empty()
    } else {
        let c = literal.last();
        regex_escaped(literal.drop_last()) + if regex_meta(c) { seq!['\\', c] } else { seq![c] }
    }
}

/// Whether `regex` accepts `pattern` with the given case folding.
pub uninterp spec fn regex_compiles(pattern: Seq<char>, case_insensitive: bool) -> bool;

/// The byte ranges of the successive non-overlapping matches of `pattern`
/// in `haystack`, as `Regex::find_iter` yields them.
pub uninterp spec fn regex_find_ranges(pattern: Seq<char>, case_insensitive: bool, haystack: Seq<char>) -> Seq<(int, int)>;

/// A compiled pattern, together with the pattern and flag it was built from.
pub struct CompiledPattern {
    regex: Regex,
    pattern: String,
    case_insensitive: bool,
}

impl CompiledPattern {
    /// The pattern that was compiled.
    pub closed spec fn pattern(&self) -> Seq<char> {
        self.pattern@
    }

    /// Whether case was folded.
    pub closed spec fn case_insensitive(&self) -> bool {
        self.case_insensitive
    }
}

/// Match ranges that lie inside `bytes`, start and end on character
/// boundaries, and follow each other without overlap.
pub open spec fn well_placed(ranges: Seq<(int, int)>, bytes: Seq<u8>) -> bool {
    &&& forall|i: int| 0 <= i < ranges.len() ==> {
        &&& 0 <= (#[trigger] ranges[i]).0 <= ranges[i].1 <= bytes.len()
        &&& is_char_boundary(bytes, ranges[i].0)
        &&& is_char_boundary(bytes, ranges[i].1)
    }
    &&& forall|i: int, j: int| 0 <= i < j < ranges.len() ==> (#[trigger] ranges[i]).1 <= (#[trigger] ranges[j]).0
}

/// `regex::escape`: the pattern that matches `literal` literally.
#[verifier::external_body]
fn escape_literal(literal: &str) -> (r: String)
    ensures
        r@ == regex_escaped(literal@),
{
    regex::escape(literal)
}

/// `RegexBuilder::new(pattern).case_insensitive(..).build()`: compiles the
/// pattern, or `None` when the builder reports an error.
#[verifier::external_body]
fn compile_pattern(pattern: &str, case_insensitive: bool) -> (r: Option<CompiledPattern>)
    ensures
        r is Some == regex_compiles(pattern@, case_insensitive),
        r matches Some(c) ==> c.pattern() == pattern@ && c.case_insensitive() == case_insensitive,
{
    match RegexBuilder::new(pattern).case_insensitive(case_insensitive).build() {
        Ok(regex) => Some(CompiledPattern { regex, pattern: pattern.to_owned(), case_insensitive }),
        Err(_) => None,
    }
}

/// `Regex::find_iter` with `Match::range`: the byte ranges of the matches,
/// which the regex documentation promises to be successive, non-overlapping
/// and on code point boundaries; a pattern that escapes a literal, compiled
/// without case folding, matches exactly that literal.
#[verifier::external_body]
fn find_ranges(compiled: &CompiledPattern, haystack: &str) -> (r: Vec<Range<usize>>)
    ensures
        ranges_view(r@) == regex_find_ranges(compiled.pattern(), compiled.case_insensitive(), haystack@),
        well_placed(ranges_view(r@), haystack.spec_bytes()),
        !compiled.case_insensitive() ==> forall|q: Seq<char>| compiled.pattern() == regex_escaped(q)
            ==> #[trigger] all_read(haystack.spec_bytes(), ranges_view(r@), q),
{
    let mut out = Vec::new();
    for found in compiled.regex.find_iter(haystack) {
        out.push(found.range());
    }
    out
}

/// Ranges as pairs of integers.
pub open spec fn ranges_view(ranges: Seq<Range<usize>>) -> Seq<(int, int)> {
    ranges.map_values(|r: Range<usize>| (r.start as int, r.end as int))
}

/// `char::is_alphanumeric`: alphabetic or numeric in the Unicode sense.
pub uninterp spec fn unicode_alphanumeric(c: char) -> bool;

/// `char::is_alphanumeric`, which among ASCII characters holds of the
/// letters and digits and of nothing else.
#[verifier::external_body]
fn is_alphanumeric(c: char) -> (r: bool)
    ensures
        r == unicode_alphanumeric(c),
        c < '\u{80}' ==> (r <==> ('a' <= c <= 'z' || 'A' <= c <= 'Z' || '0' <= c <= '9')),
{
    c.is_alphanumeric()
}

/// A character that may be part of a word.
pub open spec fn word_char(c: char) -> bool {
    unicode_alphanumeric(c) || c == '_'
}

fn is_word_character(c: char) -> (r: bool)
    ensures
        r == word_char(c),
{
    is_alphanumeric(c) || c == '_'
}

/// Whether `c` is `Some` word character.
pub open spec fn some_word_char(c: Option<char>) -> bool {
    match c {
        Some(c) => word_char(c),
        None => false,
    }
}

/// The first character, if any.
pub open spec fn first_of(s: Seq<char>) -> Option<char> {
    if s.len() == 0 { None } else { Some(s[0]) }
}

/// The last character, if any.
pub open spec fn last_of(s: Seq<char>) -> Option<char> {
    if s.len() == 0 { None } else { Some(s.last()) }
}

/// The text before a byte position.
pub open spec fn text_before(bytes: Seq<u8>, at: int) -> Seq<char> {
    decode_utf8(bytes.subrange(0, at))
}

/// The text after a byte position.
pub open spec fn text_after(bytes: Seq<u8>, at: int) -> Seq<char> {
    decode_utf8(bytes.subrange(at, bytes.len() as int))
}

/// A match of `query` over `[start, end)` is a whole word unless a word
/// character of the query touches a word character of the text around it.
pub open spec fn whole_word(text: Seq<char>, start: int, end: int, query: Seq<char>) -> bool {
    let bytes = encode_utf8(text);
    let starts_with_word = some_word_char(first_of(query));
    let ends_with_word = some_word_char(last_of(query));
    let previous_is_word = some_word_char(last_of(text_before(bytes, start)));
    let next_is_word = some_word_char(first_of(text_after(bytes, end)));
    !(starts_with_word && previous_is_word || ends_with_word && next_is_word)
}

/// The matches kept when only whole words are wanted.
pub open spec fn whole_word_matches(text: Seq<char>, found: Seq<(int, int)>, query: Seq<char>) -> Seq<(int, int)>
    decreases found.len(),
{
    if found.len() == 0 {
        Seq::empty()
    } else {
        let before = whole_word_matches(text, found.drop_last(), query);
        let r = found.last();
        if whole_word(text, r.0, r.1, query) {
            before.push(r)
        } else {
            before
        }
    }
}

fn first_char(s: &str) -> (r: Option<char>)
    ensures
        r == first_of(s@),
{
    let mut it = s.chars();
    let ghost start = it;
    proof { axiom_spec_iter(s); }
    let r = it.next();
    proof {
        next_postcondition(&start, &it, r);
    }
    r
}

/// A byte sequence without a character boundary strictly inside it holds one character.
proof fn lemma_single_char(bytes: Seq<u8>)
    requires
        valid_utf8(bytes),
        bytes.len() > 0,
        forall|j: int| 0 < j < bytes.len() ==> is_continuation_byte(bytes[j]),
    ensures
        decode_utf8(bytes).len() == 1,
{
    reveal_with_fuel(decode_utf8, 2);
    let rest = pop_first_scalar(bytes);
    if rest.len() > 0 {
        let n = length_of_first_scalar(bytes);
        reveal_with_fuel(is_char_boundary, 2);
        assert(is_char_boundary(bytes, n));
        is_char_boundary_iff_not_is_continuation_byte(bytes, n);
        assert(false);
    }
}

/// The character just before the byte position `at`, when there is one.
fn char_before(text: &str, at: usize) -> (r: Option<char>)
    requires
        is_char_boundary(text.spec_bytes(), at as int),
    ensures
        r == last_of(text_before(text.spec_bytes(), at as int)),
{
    let ghost bytes = text.spec_bytes();
    let (left, _) = text.split_at(at);
    let ghost lb = left.spec_bytes();
    assert(lb =~= bytes.subrange(0, at as int));
    assert(left@ == decode_utf8(lb));
    if at == 0 {
        assert(left@.len() == 0) by {
            assert(lb.len() == 0);
            reveal_with_fuel(decode_utf8, 1);
        }
        return None;
    }
    proof {
        is_char_boundary_start_end_of_seq(lb);
    }
    let mut k = at - 1;
    while !left.is_char_boundary(k)
        invariant
            lb == left.spec_bytes(),
            valid_utf8(lb),
            lb.len() == at,
            k < at,
            is_char_boundary(lb, 0),
            forall|j: int| k < j < at ==> !is_char_boundary(lb, j),
        decreases k,
    {
        k = k - 1;
    }
    let (_, last) = left.split_at(k);
    let ghost tail = last.spec_bytes();
    proof {
        assert(tail =~= lb.subrange(k as int, at as int));
        valid_utf8_split(lb, k as int);
        assert forall|j: int| 0 < j < tail.len() implies is_continuation_byte(tail[j]) by {
            is_char_boundary_iff_not_is_continuation_byte(lb, k + j);
        }
        lemma_single_char(tail);
        decode_utf8_split(lb, k as int);
        assert(lb.subrange(k as int, lb.len() as int) =~= tail);
        assert(last@ == decode_utf8(tail));
    }
    first_char(last)
}

/// The character at the byte position `at`, when there is one.
fn char_after(text: &str, at: usize) -> (r: Option<char>)
    requires
        is_char_boundary(text.spec_bytes(), at as int),
    ensures
        r == first_of(text_after(text.spec_bytes(), at as int)),
{
    let (_, right) = text.split_at(at);
    assert(right.spec_bytes() =~= text.spec_bytes().subrange(at as int, text.spec_bytes().len() as int));
    first_char(right)
}

fn last_char(s: &str) -> (r: Option<char>)
    ensures
        r == last_of(s@),
{
    let ghost bytes = s.spec_bytes();
    proof {
        is_char_boundary_start_end_of_seq(bytes);
        assert(bytes.subrange(0, bytes.len() as int) =~= bytes);
    }
    let n = s.as_bytes().len();
    char_before(s, n)
}

/// Whether the match `[start, end)` of `query` in `text` is a whole word.
pub fn is_whole_word(text: &str, range: &Range<usize>, query: &str) -> (r: bool)
    requires
        is_char_boundary(text.spec_bytes(), range.start as int),
        is_char_boundary(text.spec_bytes(), range.end as int),
    ensures
        r == whole_word(text@, range.start as int, range.end as int, query@),
{
    let starts_with_word = match first_char(query) {
        Some(c) => is_word_character(c),
        None => false,
    };
    let ends_with_word = match last_char(query) {
        Some(c) => is_word_character(c),
        None => false,
    };
    let previous_is_word = match char_before(text, range.start) {
        Some(c) => is_word_character(c),
        None => false,
    };
    let next_is_word = match char_after(text, range.end) {
        Some(c) => is_word_character(c),
        None => false,
    };
    !(starts_with_word && previous_is_word || ends_with_word && next_is_word)
}

/// Keeps the matches of `query` that `options` accept: all of them, or only
/// the whole words.
pub fn select_matches(text: &str, query: &str, options: Options, found: Vec<Range<usize>>) -> (r: Vec<Range<usize>>)
    requires
        well_placed(ranges_view(found@), text.spec_bytes()),
    ensures
        ranges_view(r@) == if options.whole_word {
            whole_word_matches(text@, ranges_view(found@), query@)
        } else {
            ranges_view(found@)
        },
        well_placed(ranges_view(r@), text.spec_bytes()),
{
    if !options.whole_word {
        return found;
    }
    let ghost all = ranges_view(found@);
    let mut out: Vec<Range<usize>> = Vec::new();
    let mut i: usize = 0;
    proof { assert(all.take(0) =~= Seq::<(int, int)>::empty()); }
    while i < found.len()
        invariant
            i <= found@.len(),
            all == ranges_view(found@),
            well_placed(all, text.spec_bytes()),
            ranges_view(out@) == whole_word_matches(text@, all.take(i as int), query@),
            well_placed(ranges_view(out@), text.spec_bytes()),
            forall|m: int| #![trigger ranges_view(out@)[m]] 0 <= m < out@.len() ==> ranges_view(out@)[m].1 <= (if i == 0 { 0 } else { all[i - 1].1 }),
        decreases found@.len() - i,
    {
        let range = &found[i];
        proof {
            assert(all[i as int] == (range.start as int, range.end as int));
            assert(all.take(i + 1).drop_last() =~= all.take(i as int));
            assert(all.take(i + 1).last() == all[i as int]);
        }
        if is_whole_word(text, range, query) {
            let ghost before = out@;
            out.push(range.start..range.end);
            proof {
                assert(ranges_view(out@) =~= ranges_view(before).push(all[i as int]));
                if i > 0 {
                    assert(all[i - 1].1 <= all[i as int].0);
                }
                let v = ranges_view(out@);
                assert forall|m: int| 0 <= m < v.len() implies (#[trigger] v[m]).1 <= all[i as int].1 by {
                    if m < v.len() - 1 {
                        assert(v[m] == ranges_view(before)[m]);
                    }
                }
            }
        }
        i = i + 1;
    }
    proof { assert(all.take(found@.len() as int) =~= all); }
    out
}

/// The text of the byte range `r` of `bytes`.
pub open spec fn range_text(bytes: Seq<u8>, r: (int, int)) -> Seq<char> {
    decode_utf8(bytes.subrange(r.0, r.1))
}

/// Every range of `bytes` holds exactly `query`.
pub open spec fn all_read(bytes: Seq<u8>, ranges: Seq<(int, int)>, query: Seq<char>) -> bool {
    forall|i: int| 0 <= i < ranges.len() ==> range_text(bytes, #[trigger] ranges[i]) == query
}

/// Whether a match range is a whole word of `text`.
pub open spec fn whole_word_range(text: Seq<char>, query: Seq<char>) -> spec_fn((int, int)) -> bool {
    |r: (int, int)| whole_word(text, r.0, r.1, query)
}

/// A match kept as a whole word never continues a word of the text: when
/// the query starts with a word character, the text just before the match
/// does not end with one, and when the query ends with a word character,
/// the text just after it does not start with one.  Every other match is
/// kept, in order.
pub proof fn law_whole_words_do_not_continue_words(text: Seq<char>, found: Seq<(int, int)>, query: Seq<char>)
    ensures
        forall|i: int| 0 <= i < whole_word_matches(text, found, query).len() ==> {
            let r = #[trigger] whole_word_matches(text, found, query)[i];
            let bytes = encode_utf8(text);
            &&& found.contains(r)
            &&& some_word_char(first_of(query)) ==> !some_word_char(last_of(text_before(bytes, r.0)))
            &&& some_word_char(last_of(query)) ==> !some_word_char(first_of(text_after(bytes, r.1)))
        },
        forall|i: int| 0 <= i < found.len() ==> {
            let r = #[trigger] found[i];
            let bytes = encode_utf8(text);
            (!(some_word_char(first_of(query)) && some_word_char(last_of(text_before(bytes, r.0))))
                && !(some_word_char(last_of(query)) && some_word_char(first_of(text_after(bytes, r.1)))))
                ==> whole_word_matches(text, found, query).contains(r)
        },
    decreases found.len(),
{
    if found.len() > 0 {
        let before = found.drop_last();
        law_whole_words_do_not_continue_words(text, before, query);
        let kept = whole_word_matches(text, before, query);
        let all = whole_word_matches(text, found, query);
        assert forall|i: int| 0 <= i < all.len() implies found.contains(#[trigger] all[i]) by {
            if i < kept.len() {
                assert(all[i] == kept[i]);
                assert(before.contains(kept[i]));
                let k = choose|k: int| 0 <= k < before.len() && before[k] == kept[i];
                assert(found[k] == before[k]);
            } else {
                assert(all[i] == found[found.len() - 1]);
            }
        }
        assert forall|i: int| 0 <= i < all.len() implies {
            let r = #[trigger] all[i];
            let bytes = encode_utf8(text);
            &&& some_word_char(first_of(query)) ==> !some_word_char(last_of(text_before(bytes, r.0)))
            &&& some_word_char(last_of(query)) ==> !some_word_char(first_of(text_after(bytes, r.1)))
        } by {
            if i < kept.len() {
                assert(all[i] == kept[i]);
            }
        }
        assert forall|i: int| 0 <= i < found.len() && {
            let r = #[trigger] found[i];
            let bytes = encode_utf8(text);
            !(some_word_char(first_of(query)) && some_word_char(last_of(text_before(bytes, r.0))))
                && !(some_word_char(last_of(query)) && some_word_char(first_of(text_after(bytes, r.1))))
        } implies all.contains(found[i]) by {
            if i < found.len() - 1 {
                assert(found[i] == before[i]);
                assert(kept.contains(before[i]));
                let k = choose|k: int| 0 <= k < kept.len() && kept[k] == before[i];
                assert(all[k] == kept[k]);
            } else {
                assert(whole_word(text, found[i].0, found[i].1, query));
                assert(all[all.len() - 1] == found[i]);
            }
        }
    }
}

/// Keeping only whole words keeps what every match holds.
proof fn lemma_whole_words_read(text: Seq<char>, bytes: Seq<u8>, found: Seq<(int, int)>, query: Seq<char>)
    requires
        all_read(bytes, found, query),
    ensures
        all_read(bytes, whole_word_matches(text, found, query), query),
    decreases found.len(),
{
    if found.len() > 0 {
        let before = found.drop_last();
        assert(all_read(bytes, before, query)) by {
            assert forall|i: int| 0 <= i < before.len() implies range_text(bytes, #[trigger] before[i]) == query by {
                assert(before[i] == found[i]);
            }
        }
        lemma_whole_words_read(text, bytes, before, query);
        let kept = whole_word_matches(text, before, query);
        let all = whole_word_matches(text, found, query);
        assert forall|i: int| 0 <= i < all.len() implies range_text(bytes, #[trigger] all[i]) == query by {
            if i < kept.len() {
                assert(all[i] == kept[i]);
            } else {
                assert(all[i] == found[found.len() - 1]);
            }
        }
    }
}

/// Keeping only whole words is filtering the matches by `whole_word_range`.
proof fn lemma_whole_word_filter(text: Seq<char>, found: Seq<(int, int)>, query: Seq<char>)
    ensures
        whole_word_matches(text, found, query) == found.filter(whole_word_range(text, query)),
    decreases found.len(),
{
    reveal_with_fuel(Seq::filter, 1);
    if found.len() > 0 {
        lemma_whole_word_filter(text, found.drop_last(), query);
    }
}

/// A search for whole words finds, in order, exactly those matches of the
/// same search without that option that are whole words.
pub proof fn law_whole_words_are_among_the_matches(text: Seq<char>, query: Seq<char>, case_sensitive: bool)
    ensures
        literal_matches(text, query, Options { case_sensitive, whole_word: true })
            == literal_matches(text, query, Options { case_sensitive, whole_word: false }).filter(whole_word_range(text, query)),
{
    let pattern = regex_escaped(query);
    if query.len() == 0 || !regex_compiles(pattern, !case_sensitive) {
        assert(Seq::<(int, int)>::empty().filter(whole_word_range(text, query)) =~= Seq::<(int, int)>::empty()) by {
            reveal_with_fuel(Seq::filter, 1);
        }
    } else {
        lemma_whole_word_filter(text, regex_find_ranges(pattern, !case_sensitive, text), query);
    }
}

/// The byte ranges where `query` occurs in `text` as `options` ask: case
/// folded unless the search is case sensitive, and only whole words when
/// asked for.  An empty query matches nothing.
pub open spec fn literal_matches(text: Seq<char>, query: Seq<char>, options: Options) -> Seq<(int, int)> {
    let pattern = regex_escaped(query);
    let fold = !options.case_sensitive;
    if query.len() == 0 || !regex_compiles(pattern, fold) {
        Seq::empty()
    } else {
        let found = regex_find_ranges(pattern, fold, text);
        if options.whole_word {
            whole_word_matches(text, found, query)
        } else {
            found
        }
    }
}

/// Finds the byte ranges of `query` in `text`.
pub fn find_matches(text: &str, query: &str, options: Options) -> (r: Vec<Range<usize>>)
    ensures
        ranges_view(r@) == literal_matches(text@, query@, options),
        well_placed(ranges_view(r@), text.spec_bytes()),
        options.case_sensitive ==> all_read(text.spec_bytes(), ranges_view(r@), query@),
{
    if query.is_empty() {
        let r: Vec<Range<usize>> = Vec::new();
        assert(ranges_view(r@) =~= Seq::<(int, int)>::empty());
        return r;
    }
    let pattern = escape_literal(query);
    match compile_pattern(pattern.as_str(), !options.case_sensitive) {
        None => {
            let r: Vec<Range<usize>> = Vec::new();
            assert(ranges_view(r@) =~= Seq::<(int, int)>::empty());
            r
        },
        Some(compiled) => {
            let found = find_ranges(&compiled, text);
            proof {
                if options.case_sensitive {
                    assert(all_read(text.spec_bytes(), ranges_view(found@), query@));
                    lemma_whole_words_read(text@, text.spec_bytes(), ranges_view(found@), query@);
                }
            }
            select_matches(text, query, options, found)
        },
    }
}

} // verus!
