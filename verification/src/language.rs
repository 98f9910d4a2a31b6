//! Language-service requests, snippets and the rule that reduces a batch
//! of queued requests.
use vstd::prelude::*;
use std::ops::Range;
use crate::document::DocumentId;
use crate::text::{to_chars, push_char, byte_len, lemma_byte_len_concat};

verus! {

/// Which language service the worker talks to: the project root and the
/// name of its main file.
#[derive(Debug, Clone, PartialEq, Eq, Hash)]
pub struct Config {
    root: String,
    main_name: String,
}

impl Config {
    /// A configuration for the project at `root` around `main_name`.
    pub fn new(root: String, main_name: String) -> (c: Self)
        ensures
            c.spec_root() == root@,
            c.spec_main_name() == main_name@,
    {
        Config { root, main_name }
    }

    /// The root of the project.
    pub closed spec fn spec_root(&self) -> Seq<char> {
        self.root@
    }

    /// The main file, relative to the root.
    pub closed spec fn spec_main_name(&self) -> Seq<char> {
        self.main_name@
    }

    /// The root of the project.
    pub fn root(&self) -> (r: &str)
        ensures
            r@ == self.spec_root(),
    {
        self.root.as_str()
    }

    /// The main file, relative to the root.
    pub fn main_name(&self) -> (r: &str)
        ensures
            r@ == self.spec_main_name(),
    {
        self.main_name.as_str()
    }
}

/// The text of one open document at a revision.
#[derive(Debug, Clone)]
pub struct DocumentSnapshot {
    pub id: DocumentId,
    pub revision: u64,
    pub path: Option<String>,
    pub text: String,
}

/// Everything the language service needs to know about the open documents.
#[derive(Debug, Clone)]
pub struct Snapshot {
    pub revision: u64,
    pub main_document: Option<DocumentId>,
    pub active_document: DocumentId,
    pub documents: Vec<DocumentSnapshot>,
    pub known_files: Vec<String>,
}

/// A request to the language service.
#[derive(Debug)]
pub enum Request {
    Sync(Snapshot),
    Complete { request_id: u64, document: DocumentId, revision: u64, offset: usize, explicit: bool },
    Hover { request_id: u64, document: DocumentId, revision: u64, offset: usize },
    Definition { document: DocumentId, revision: u64, offset: usize },
    References { document: DocumentId, revision: u64, offset: usize },
    PrepareRename { document: DocumentId, revision: u64, offset: usize },
    Format { document: DocumentId, revision: u64, tab_width: usize },
}

/// A completion whose snippet markers were turned into plain text and ranges.
#[derive(Debug, PartialEq, Eq)]
pub struct SnippetCompletion {
    pub replace: Range<usize>,
    pub insert: String,
    pub placeholders: Vec<Range<usize>>,
}

/// A place in a document or project file.
#[derive(Debug, PartialEq, Eq)]
pub struct Location {
    pub document: Option<DocumentId>,
    pub path: Option<String>,
    pub range: Range<usize>,
    pub line: usize,
    pub column: usize,
    pub excerpt: String,
}

/// What kind of symbol a rename changes.
#[derive(Debug, Clone, Copy, PartialEq, Eq, Structural)]
pub enum RenameKind {
    Label,
    Identifier,
}

/// Whether a request hands over new text.
pub open spec fn is_sync(r: Request) -> bool {
    r is Sync
}

/// Whether a request asks for completions.
pub open spec fn is_complete(r: Request) -> bool {
    r is Complete
}

/// Whether a request asks what lies under the pointer.
pub open spec fn is_hover(r: Request) -> bool {
    r is Hover
}

/// Position of the last request of `reqs` that `p` selects, or -1.
pub open spec fn last_where(reqs: Seq<Request>, p: spec_fn(Request) -> bool) -> int
    decreases reqs.len(),
{
    if reqs.len() == 0 {
        -1
    } else if p(reqs.last()) {
        reqs.len() - 1
    } else {
        last_where(reqs.drop_last(), p)
    }
}

proof fn lemma_last_where(reqs: Seq<Request>, p: spec_fn(Request) -> bool)
    ensures
        -1 <= last_where(reqs, p) < reqs.len(),
        last_where(reqs, p) >= 0 ==> p(reqs[last_where(reqs, p)]),
        forall|k: int| last_where(reqs, p) < k < reqs.len() ==> !p(reqs[k]),
    decreases reqs.len(),
{
    if reqs.len() > 0 && !p(reqs.last()) {
        lemma_last_where(reqs.drop_last(), p);
        assert forall|k: int| last_where(reqs, p) < k < reqs.len() implies !p(reqs[k]) by {
            if k < reqs.len() - 1 {
                assert(reqs.drop_last()[k] == reqs[k]);
            }
        }
    }
}

/// The requests of `reqs` kept when only the completion at `lc` and the
/// hover at `lh` are wanted.
pub open spec fn kept_queries(reqs: Seq<Request>, lc: int, lh: int) -> Seq<Request>
    decreases reqs.len(),
{
    if reqs.len() == 0 {
        Seq::empty()
    } else {
        let before = kept_queries(reqs.drop_last(), lc, lh);
        let i = reqs.len() - 1;
        let r = reqs.last();
        if (is_complete(r) && i != lc) || (is_hover(r) && i != lh) {
            before
        } else {
            before.push(r)
        }
    }
}

/// The requests from the last synchronisation on (all of them when there is none).
pub open spec fn since_last_sync(reqs: Seq<Request>) -> Seq<Request> {
    let s = last_where(reqs, |r: Request| is_sync(r));
    if s >= 0 {
        reqs.skip(s)
    } else {
        reqs
    }
}

/// The requests that a batch of queued language requests is reduced to.
pub open spec fn coalesced_queries(reqs: Seq<Request>) -> Seq<Request> {
    let t = since_last_sync(reqs);
    kept_queries(
        t,
        last_where(t, |r: Request| is_complete(r)),
        last_where(t, |r: Request| is_hover(r)),
    )
}

fn classify(r: &Request) -> (k: u8)
    ensures
        (k == 0) == is_sync(*r),
        (k == 1) == is_complete(*r),
        (k == 2) == is_hover(*r),
{
    match r {
        Request::Sync(_) => 0,
        Request::Complete { .. } => 1,
        Request::Hover { .. } => 2,
        _ => 3,
    }
}

fn last_of_kind(reqs: &Vec<Request>, kind: u8, p: Ghost<spec_fn(Request) -> bool>) -> (r: Option<usize>)
    requires
        forall|q: Request| #[trigger] p@(q) == (kind == 0 && is_sync(q) || kind == 1 && is_complete(q) || kind == 2 && is_hover(q)),
        kind <= 2,
    ensures
        match r {
            None => last_where(reqs@, p@) == -1,
            Some(i) => last_where(reqs@, p@) == i && i < reqs@.len(),
        },
{
    let mut i = reqs.len();
    assert(reqs@.take(reqs@.len() as int) =~= reqs@);
    while i > 0
        invariant
            i <= reqs@.len(),
            kind <= 2,
            forall|q: Request| #[trigger] p@(q) == (kind == 0 && is_sync(q) || kind == 1 && is_complete(q) || kind == 2 && is_hover(q)),
            last_where(reqs@, p@) == last_where(reqs@.take(i as int), p@),
        decreases i,
    {
        if classify(&reqs[i - 1]) == kind {
            assert(reqs@.take(i as int).last() == reqs@[i - 1]);
            return Some(i - 1);
        }
        assert(reqs@.take(i as int).drop_last() =~= reqs@.take(i - 1));
        i = i - 1;
    }
    None
}

/// Drops everything before the last synchronisation, and keeps only the
/// latest completion and the latest hover; explicit commands stay in order.
pub fn coalesce_requests(requests: Vec<Request>) -> (r: Vec<Request>)
    ensures
        r@ == coalesced_queries(requests@),
{
    let ghost given = requests@;
    let mut requests = requests;
    let sync = last_of_kind(&requests, 0, Ghost(|r: Request| is_sync(r)));
    match sync {
        Some(s) => {
            let mut k: usize = 0;
            while k < s
                invariant
                    k <= s < given.len(),
                    requests@ == given.skip(k as int),
                decreases s - k,
            {
                requests.remove(0);
                assert(requests@ =~= given.skip(k + 1));
                k = k + 1;
            }
        },
        None => {},
    }
    let ghost t = requests@;
    assert(t == since_last_sync(given));
    let lc = last_of_kind(&requests, 1, Ghost(|r: Request| is_complete(r)));
    let lh = last_of_kind(&requests, 2, Ghost(|r: Request| is_hover(r)));
    let ghost lci: int = match lc { Some(i) => i as int, None => -1 };
    let ghost lhi: int = match lh { Some(i) => i as int, None => -1 };
    let n = requests.len();
    let mut out: Vec<Request> = Vec::new();
    let mut index: usize = 0;
    proof { assert(t.take(0) =~= Seq::<Request>::empty()); }
    while index < n
        invariant
            index <= n == t.len(),
            requests@ == t.skip(index as int),
            lc matches Some(i) ==> lci == i,
            lc is None ==> lci == -1,
            lh matches Some(i) ==> lhi == i,
            lh is None ==> lhi == -1,
            out@ == kept_queries(t.take(index as int), lci, lhi),
        decreases n - index,
    {
        let request = requests.remove(0);
        proof {
            assert(request == t[index as int]);
            assert(requests@ =~= t.skip(index + 1));
            assert(t.take(index + 1).drop_last() =~= t.take(index as int));
            assert(t.take(index + 1).last() == t[index as int]);
        }
        let kind = classify(&request);
        let is_lc = match lc { Some(i) => i == index, None => false };
        let is_lh = match lh { Some(i) => i == index, None => false };
        if !((kind == 1 && !is_lc) || (kind == 2 && !is_lh)) {
            out.push(request);
        }
        index = index + 1;
    }
    proof { assert(t.take(n as int) =~= t); }
    out
}

/// The kept queries of a batch: the non-query requests in order, and of the
/// completions and hovers only the last of each.
pub proof fn law_coalesce_keeps_commands_and_latest_queries(reqs: Seq<Request>)
    ensures
        ({
            let t = since_last_sync(reqs);
            let c = coalesced_queries(reqs);
            let command = |r: Request| !is_complete(r) && !is_hover(r);
            let lc = last_where(t, |r: Request| is_complete(r));
            let lh = last_where(t, |r: Request| is_hover(r));
            &&& c.filter(command) == t.filter(command)
            &&& c.filter(|r: Request| is_complete(r)) == if lc < 0 { Seq::<Request>::empty() } else { seq![t[lc]] }
            &&& c.filter(|r: Request| is_hover(r)) == if lh < 0 { Seq::<Request>::empty() } else { seq![t[lh]] }
        }),
{
    let t = since_last_sync(reqs);
    let lc = last_where(t, |r: Request| is_complete(r));
    let lh = last_where(t, |r: Request| is_hover(r));
    lemma_last_where(t, |r: Request| is_complete(r));
    lemma_last_where(t, |r: Request| is_hover(r));
    lemma_kept_commands(t, lc, lh);
    lemma_kept_completions(t, lc, lh);
    lemma_kept_hovers(t, lc, lh);
}

proof fn lemma_kept_commands(reqs: Seq<Request>, lc: int, lh: int)
    ensures
        kept_queries(reqs, lc, lh).filter(|r: Request| !is_complete(r) && !is_hover(r))
            == reqs.filter(|r: Request| !is_complete(r) && !is_hover(r)),
    decreases reqs.len(),
{
    reveal_with_fuel(Seq::filter, 1);
    if reqs.len() > 0 {
        lemma_kept_commands(reqs.drop_last(), lc, lh);
        let before = kept_queries(reqs.drop_last(), lc, lh);
        assert(before.push(reqs.last()).drop_last() =~= before);
    }
}

proof fn lemma_kept_completions(reqs: Seq<Request>, lc: int, lh: int)
    requires
        -1 <= lc,
        lc < reqs.len() ==> (lc >= 0 ==> is_complete(reqs[lc])),
        forall|k: int| lc < k < reqs.len() ==> !is_complete(#[trigger] reqs[k]),
    ensures
        kept_queries(reqs, lc, lh).filter(|r: Request| is_complete(r))
            == if lc < 0 || lc >= reqs.len() { Seq::<Request>::empty() } else { seq![reqs[lc]] },
    decreases reqs.len(),
{
    reveal_with_fuel(Seq::filter, 1);
    if reqs.len() > 0 {
        let shorter = reqs.drop_last();
        assert forall|k: int| lc < k < shorter.len() implies !is_complete(#[trigger] shorter[k]) by {
            assert(shorter[k] == reqs[k]);
        }
        if lc >= 0 && lc < shorter.len() {
            assert(shorter[lc] == reqs[lc]);
        }
        lemma_kept_completions(shorter, lc, lh);
        let before = kept_queries(shorter, lc, lh);
        let r = reqs.last();
        assert(before.push(r).drop_last() =~= before);
        if lc == reqs.len() - 1 {
            assert(before.filter(|r: Request| is_complete(r)) =~= Seq::<Request>::empty());
            assert(seq![r] =~= Seq::<Request>::empty().push(r));
        }
    }
}

proof fn lemma_kept_hovers(reqs: Seq<Request>, lc: int, lh: int)
    requires
        -1 <= lh,
        lh < reqs.len() ==> (lh >= 0 ==> is_hover(reqs[lh])),
        forall|k: int| lh < k < reqs.len() ==> !is_hover(#[trigger] reqs[k]),
    ensures
        kept_queries(reqs, lc, lh).filter(|r: Request| is_hover(r))
            == if lh < 0 || lh >= reqs.len() { Seq::<Request>::empty() } else { seq![reqs[lh]] },
    decreases reqs.len(),
{
    reveal_with_fuel(Seq::filter, 1);
    if reqs.len() > 0 {
        let shorter = reqs.drop_last();
        assert forall|k: int| lh < k < shorter.len() implies !is_hover(#[trigger] shorter[k]) by {
            assert(shorter[k] == reqs[k]);
        }
        if lh >= 0 && lh < shorter.len() {
            assert(shorter[lh] == reqs[lh]);
        }
        lemma_kept_hovers(shorter, lc, lh);
        let before = kept_queries(shorter, lc, lh);
        let r = reqs.last();
        assert(before.push(r).drop_last() =~= before);
        if lh == reqs.len() - 1 {
            assert(before.filter(|r: Request| is_hover(r)) =~= Seq::<Request>::empty());
            assert(seq![r] =~= Seq::<Request>::empty().push(r));
        }
    }
}

// ---------------------------------------------------------------------
// Snippets

/// Position of the first "${" in `s`, or -1.
pub open spec fn find_open(s: Seq<char>) -> int
    decreases s.len(),
{
    if s.len() < 2 {
        -1
    } else if s[0] == '$' && s[1] == '{' {
        0
    } else {
        let r = find_open(s.drop_first());
        if r < 0 { -1 } else { r + 1 }
    }
}

/// Position of the first `c` in `s`, or -1.
pub open spec fn find_char(s: Seq<char>, c: char) -> int
    decreases s.len(),
{
    if s.len() == 0 {
        -1
    } else if s[0] == c {
        0
    } else {
        let r = find_char(s.drop_first(), c);
        if r < 0 { -1 } else { r + 1 }
    }
}

/// Whether every character is an ASCII digit.
pub open spec fn all_ascii_digits(s: Seq<char>) -> bool {
    forall|i: int| 0 <= i < s.len() ==> '0' <= #[trigger] s[i] <= '9'
}

/// The text a marker stands for: "name" for `${name}`, and "value" for
/// `${2:value}` (a marker whose part before its first ':' is a number).
pub open spec fn marker_value(marker: Seq<char>) -> Seq<char> {
    let c = find_char(marker, ':');
    if c >= 0 && all_ascii_digits(marker.take(c)) {
        marker.skip(c + 1)
    } else {
        marker
    }
}

/// The plain text and the placeholder byte ranges of `rem`, when its text
/// is appended after `base` bytes of output.
pub open spec fn parse_from(rem: Seq<char>, base: int) -> (Seq<char>, Seq<(int, int)>)
    decreases rem.len(),
{
    let s = find_open(rem);
    if s < 0 || s + 2 > rem.len() {
        (rem, Seq::empty())
    } else {
        let after = rem.skip(s + 2);
        let e = find_char(after, '}');
        if e < 0 || e >= after.len() {
            (rem, Seq::empty())
        } else {
            let value = marker_value(after.take(e));
            let start = base + byte_len(rem.take(s));
            let end = start + byte_len(value);
            let (t, ps) = parse_from(after.skip(e + 1), end);
            (rem.take(s) + value + t, seq![(start, end)] + ps)
        }
    }
}

/// The plain text of a snippet and the byte ranges of its placeholders.
pub open spec fn parsed_snippet(snippet: Seq<char>) -> (Seq<char>, Seq<(int, int)>) {
    parse_from(snippet, 0)
}

proof fn lemma_find_open(s: Seq<char>)
    ensures
        -1 <= find_open(s) < s.len() - 1 || find_open(s) == -1,
        find_open(s) >= 0 ==> s[find_open(s)] == '$' && s[find_open(s) + 1] == '{',
        forall|k: int| 0 <= k < s.len() - 1 && (find_open(s) < 0 || k < find_open(s)) ==> !(#[trigger] s[k] == '$' && s[k + 1] == '{'),
    decreases s.len(),
{
    if s.len() >= 2 && !(s[0] == '$' && s[1] == '{') {
        lemma_find_open(s.drop_first());
        assert forall|k: int| 0 <= k < s.len() - 1 && (find_open(s) < 0 || k < find_open(s)) implies !(#[trigger] s[k] == '$' && s[k + 1] == '{') by {
            if k > 0 {
                assert(s.drop_first()[k - 1] == s[k]);
                assert(s.drop_first()[k] == s[k + 1]);
            }
        }
    }
}

/// The position found is that of the first occurrence, or -1.
pub proof fn lemma_find_char(s: Seq<char>, c: char)
    ensures
        -1 <= find_char(s, c) < s.len(),
        find_char(s, c) >= 0 ==> s[find_char(s, c)] == c,
        forall|k: int| 0 <= k < s.len() && (find_char(s, c) < 0 || k < find_char(s, c)) ==> s[k] != c,
    decreases s.len(),
{
    if s.len() > 0 && s[0] != c {
        lemma_find_char(s.drop_first(), c);
        assert forall|k: int| 0 <= k < s.len() && (find_char(s, c) < 0 || k < find_char(s, c)) implies s[k] != c by {
            if k > 0 {
                assert(s.drop_first()[k - 1] == s[k]);
            }
        }
    }
}

/// Position of the first "${" at or after `from`.
fn find_open_from(v: &Vec<char>, from: usize) -> (r: Option<usize>)
    requires
        from <= v@.len(),
    ensures
        match r {
            None => find_open(v@.skip(from as int)) == -1,
            Some(i) => from <= i && i + 1 < v@.len() && find_open(v@.skip(from as int)) == i - from,
        },
{
    let ghost s = v@.skip(from as int);
    let n = v.len();
    let mut j = from;
    while j < n && j + 1 < n
        invariant
            from <= j <= n,
            n == v@.len(),
            s == v@.skip(from as int),
            forall|k: int| from <= k < j && k + 1 < v@.len() ==> !(#[trigger] v@[k] == '$' && v@[k + 1] == '{'),
        decreases n - j,
    {
        if v[j] == '$' && v[j + 1] == '{' {
            proof {
                lemma_find_open(s);
                let f = find_open(s);
                assert(s[j - from] == '$' && s[j - from + 1] == '{');
                if f >= 0 && f < j - from {
                    assert(s[f] == v@[from + f]);
                    assert(s[f + 1] == v@[from + f + 1]);
                }
            }
            return Some(j);
        }
        j = j + 1;
    }
    proof {
        lemma_find_open(s);
        let f = find_open(s);
        if f >= 0 {
            assert(s[f] == v@[from + f]);
            assert(s[f + 1] == v@[from + f + 1]);
        }
    }
    None
}

/// Position of the first `c` at or after `from`.
fn find_char_from(v: &Vec<char>, from: usize, c: char) -> (r: Option<usize>)
    requires
        from <= v@.len(),
    ensures
        match r {
            None => find_char(v@.skip(from as int), c) == -1,
            Some(i) => from <= i < v@.len() && find_char(v@.skip(from as int), c) == i - from,
        },
{
    let ghost s = v@.skip(from as int);
    let mut j = from;
    while j < v.len()
        invariant
            from <= j <= v@.len(),
            s == v@.skip(from as int),
            forall|k: int| from <= k < j ==> #[trigger] v@[k] != c,
        decreases v@.len() - j,
    {
        if v[j] == c {
            proof {
                lemma_find_char(s, c);
                let f = find_char(s, c);
                assert(s[j - from] == c);
                if f >= 0 && f < j - from {
                    assert(s[f] == v@[from + f]);
                }
            }
            return Some(j);
        }
        j = j + 1;
    }
    proof {
        lemma_find_char(s, c);
        let f = find_char(s, c);
        if f >= 0 {
            assert(s[f] == v@[from + f]);
        }
    }
    None
}

fn push_range(out: &mut String, v: &Vec<char>, start: usize, end: usize)
    requires
        start <= end <= v@.len(),
    ensures
        final(out)@ == old(out)@ + v@.subrange(start as int, end as int),
{
    let mut i = start;
    while i < end
        invariant
            start <= i <= end <= v@.len(),
            out@ == old(out)@ + v@.subrange(start as int, i as int),
        decreases end - i,
    {
        push_char(out, v[i]);
        assert(out@ =~= old(out)@ + v@.subrange(start as int, i + 1));
        i = i + 1;
    }
}

fn byte_length(s: &String) -> (n: usize)
    ensures
        n == byte_len(s@),
{
    s.as_str().as_bytes().len()
}

/// The plain text of a completion snippet and where its placeholders ended up.
pub struct ParsedSnippet {
    pub text: String,
    pub placeholders: Vec<Range<usize>>,
}

/// First-colon position of a marker that lies inside the text after an
/// opening, given the first colon of that whole text.
proof fn lemma_marker_colon(after: Seq<char>, e: int, c: int)
    requires
        0 <= e <= after.len(),
        c == find_char(after, ':'),
    ensures
        find_char(after.take(e), ':') == if 0 <= c < e { c } else { -1 },
{
    let m = after.take(e);
    lemma_find_char(after, ':');
    lemma_find_char(m, ':');
    let f = find_char(m, ':');
    if f >= 0 {
        assert(m[f] == after[f]);
    }
    if 0 <= c < e {
        assert(m[c] == after[c]);
    }
}

/// Where the value of the marker between `start` ("${") and `end` ("}") begins.
fn marker_value_start(v: &Vec<char>, start: usize, end: usize) -> (vs: usize)
    requires
        start + 2 <= end < v@.len(),
    ensures
        start + 2 <= vs <= end,
        v@.subrange(vs as int, end as int) == marker_value(v@.subrange(start + 2, end as int)),
{
    let ghost after = v@.skip(start + 2);
    let ghost e = end - start - 2;
    let ghost marker = after.take(e);
    assert(marker =~= v@.subrange(start + 2, end as int));
    let colon = find_char_from(v, start + 2, ':');
    let ghost cidx: int = match colon {
        Some(c) => c - start - 2,
        None => -1,
    };
    proof {
        lemma_marker_colon(after, e, cidx);
    }
    match colon {
        Some(c) if c < end => {
            let mut digits = true;
            let mut k = start + 2;
            while k < c
                invariant
                    start + 2 <= k <= c < end < v@.len(),
                    digits == forall|j: int| start + 2 <= j < k ==> '0' <= #[trigger] v@[j] <= '9',
                decreases c - k,
            {
                if !('0' <= v[k] && v[k] <= '9') {
                    digits = false;
                }
                k = k + 1;
            }
            proof {
                let d = marker.take(cidx);
                assert forall|i: int| 0 <= i < d.len() implies #[trigger] d[i] == v@[start + 2 + i] by {}
                if !digits {
                    let j = choose|j: int| start + 2 <= j < c && !('0' <= #[trigger] v@[j] <= '9');
                    assert(d[j - start - 2] == v@[j]);
                }
                assert(digits == all_ascii_digits(d));
            }
            if digits {
                assert(v@.subrange(c + 1, end as int) =~= marker.skip(cidx + 1));
                c + 1
            } else {
                start + 2
            }
        },
        _ => start + 2,
    }
}

/// One step of the snippet parser: a closed marker at `s` whose "}" lies
/// `e` characters after its "${".
proof fn lemma_parse_step(rem: Seq<char>, base: int, s: int, e: int)
    requires
        find_open(rem) == s,
        0 <= s,
        s + 2 <= rem.len(),
        find_char(rem.skip(s + 2), '}') == e,
        0 <= e < rem.skip(s + 2).len(),
    ensures
        ({
            let value = marker_value(rem.skip(s + 2).take(e));
            let start = base + byte_len(rem.take(s));
            let end = start + byte_len(value);
            let t = parse_from(rem.skip(s + 2).skip(e + 1), end);
            parse_from(rem, base) == (rem.take(s) + value + t.0, seq![(start, end)] + t.1)
        }),
{
}

/// Turns `${name}`, `${2:name}` and `${}` markers into their plain text
/// and records the byte range each one occupies; text after an unclosed
/// marker is kept as it is.
pub fn parse_snippet(snippet: &str) -> (r: ParsedSnippet)
    ensures
        r.text@ == parsed_snippet(snippet@).0,
        r.placeholders@.map_values(|p: Range<usize>| (p.start as int, p.end as int)) == parsed_snippet(snippet@).1,
{
    let v = to_chars(snippet);
    let n = v.len();
    let mut text = String::new();
    let mut placeholders: Vec<Range<usize>> = Vec::new();
    let mut pos: usize = 0;
    let ghost goal = parsed_snippet(snippet@);
    proof {
        assert(v@.skip(0) =~= v@);
        assert(byte_len(text@) == 0) by {
            assert(text@ =~= Seq::<char>::empty());
        }
        assert(text@ + goal.0 =~= goal.0);
        assert(placeholders@.map_values(|p: Range<usize>| (p.start as int, p.end as int)) + goal.1 =~= goal.1);
    }
    loop
        invariant_except_break
            pos <= n,
            ({
                let rest = parse_from(v@.skip(pos as int), byte_len(text@) as int);
                &&& text@ + rest.0 == goal.0
                &&& placeholders@.map_values(|p: Range<usize>| (p.start as int, p.end as int)) + rest.1 == goal.1
            }),
        invariant
            n == v@.len(),
            v@ == snippet@,
            goal == parsed_snippet(snippet@),
        ensures
            text@ == goal.0,
            placeholders@.map_values(|p: Range<usize>| (p.start as int, p.end as int)) == goal.1,
        decreases n - pos,
    {
        let ghost rem = v@.skip(pos as int);
        let ghost pos0 = pos as int;
        let ghost text0 = text@;
        let ghost marks0 = placeholders@.map_values(|p: Range<usize>| (p.start as int, p.end as int));
        let ghost base = byte_len(text0) as int;
        let open = find_open_from(&v, pos);
        let start = match open {
            None => {
                push_range(&mut text, &v, pos, n);
                proof {
                    assert(v@.subrange(pos as int, n as int) =~= rem);
                    assert(marks0 + Seq::<(int, int)>::empty() =~= marks0);
                }
                break;
            },
            Some(start) => start,
        };
        let ghost after = v@.skip(start + 2);
        proof {
            assert(rem.skip(start - pos + 2) =~= after);
        }
        let close = find_char_from(&v, start + 2, '}');
        let end = match close {
            None => {
                push_range(&mut text, &v, pos, n);
                proof {
                    assert(v@.subrange(pos as int, n as int) =~= rem);
                    assert(marks0 + Seq::<(int, int)>::empty() =~= marks0);
                }
                break;
            },
            Some(end) => end,
        };
        let ghost e = end - start - 2;
        let ghost marker = after.take(e);
        let ghost prefix = rem.take(start - pos);
        // the text before the marker
        push_range(&mut text, &v, pos, start);
        proof {
            assert(v@.subrange(pos as int, start as int) =~= prefix);
        }
        let ghost text1 = text@;
        let value_start = marker_value_start(&v, start, end);
        proof {
            assert(v@.subrange(start + 2, end as int) =~= marker);
        }
        let ghost value = v@.subrange(value_start as int, end as int);
        assert(value =~= marker_value(marker));
        let placeholder_start = byte_length(&text);
        push_range(&mut text, &v, value_start, end);
        let placeholder_end = byte_length(&text);
        proof {
            lemma_byte_len_concat(text0, prefix);
            lemma_byte_len_concat(text1, value);
            assert(text1 == text0 + prefix);
            assert(text@ == text1 + value);
        }
        placeholders.push(placeholder_start..placeholder_end);
        pos = end + 1;
        proof {
            assert(v@.skip(pos as int) =~= after.skip(e + 1));
            assert(placeholders@.map_values(|p: Range<usize>| (p.start as int, p.end as int))
                =~= marks0.push((placeholder_start as int, placeholder_end as int)));
            let t = parse_from(after.skip(e + 1), placeholder_end as int);
            lemma_parse_step(rem, base, start - pos0, e);
            assert(text@ + t.0 =~= text0 + (prefix + value + t.0));
            assert(marks0.push((placeholder_start as int, placeholder_end as int)) + t.1
                =~= marks0 + (seq![(placeholder_start as int, placeholder_end as int)] + t.1));
        }
    }
    ParsedSnippet { text, placeholders }
}

} // verus!
