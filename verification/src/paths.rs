//! Paths as '/'-separated text: the file name, parent, extension, prefix and
//! join rules that the project tree and the document tabs rely on.
use vstd::prelude::*;
use crate::text::{to_chars, from_chars, push_str, push_char};

verus! {

/// Index of the last occurrence of `c` in `s`, or -1.
pub open spec fn last_index_of(s: Seq<char>, c: char) -> int
    decreases s.len(),
{
    if s.len() == 0 {
        -1
    } else if s.last() == c {
        s.len() - 1
    } else {
        last_index_of(s.drop_last(), c)
    }
}

/// The last index of `c` is the position of its last occurrence, or -1.
pub proof fn lemma_last_index_of(s: Seq<char>, c: char)
    ensures
        -1 <= last_index_of(s, c) < s.len(),
        last_index_of(s, c) >= 0 ==> s[last_index_of(s, c)] == c,
        forall|k: int| last_index_of(s, c) < k < s.len() ==> s[k] != c,
    decreases s.len(),
{
    if s.len() > 0 && s.last() != c {
        lemma_last_index_of(s.drop_last(), c);
        assert forall|k: int| last_index_of(s, c) < k < s.len() implies s[k] != c by {
            if k < s.len() - 1 {
                assert(s.drop_last()[k] == s[k]);
            }
        }
    }
}

/// The last component of a path, when it names a file or directory.
pub open spec fn file_name(p: Seq<char>) -> Option<Seq<char>> {
    let tail = p.subrange(last_index_of(p, '/') + 1, p.len() as int);
    if tail.len() == 0 || tail == seq!['.'] || tail == seq!['.', '.'] {
        None
    } else {
        Some(tail)
    }
}

/// The path without its last component.
pub open spec fn parent(p: Seq<char>) -> Option<Seq<char>> {
    let i = last_index_of(p, '/');
    if p.len() == 0 {
        None
    } else if i < 0 {
        Some(Seq::empty())
    } else if i == 0 {
        if p.len() == 1 {
            None
        } else {
            Some(seq!['/'])
        }
    } else {
        Some(p.subrange(0, i))
    }
}

/// True when `base` is `p` itself or one of its ancestors.
pub open spec fn starts_with(p: Seq<char>, base: Seq<char>) -> bool {
    ||| base.len() == 0
    ||| p == base
    ||| (base.len() < p.len() && p.take(base.len() as int) == base && (base.last() == '/'
        || p[base.len() as int] == '/'))
}

/// The path of `rel` below `base`; an absolute `rel` replaces `base`.
pub open spec fn join(base: Seq<char>, rel: Seq<char>) -> Seq<char> {
    if rel.len() > 0 && rel[0] == '/' {
        rel
    } else if base.len() == 0 || base.last() == '/' {
        base + rel
    } else {
        base + seq!['/'] + rel
    }
}

/// What remains of `p` below its ancestor `base`.
pub open spec fn strip_prefix(p: Seq<char>, base: Seq<char>) -> Option<Seq<char>> {
    if !starts_with(p, base) {
        None
    } else if base.len() == 0 {
        Some(p)
    } else if p == base {
        Some(Seq::empty())
    } else if base.last() == '/' {
        Some(p.subrange(base.len() as int, p.len() as int))
    } else {
        Some(p.subrange(base.len() as int + 1, p.len() as int))
    }
}

/// The extension of the file name: what follows its last '.', unless the
/// name starts with that '.'.
pub open spec fn extension(p: Seq<char>) -> Option<Seq<char>> {
    match file_name(p) {
        None => None,
        Some(f) => {
            let i = last_index_of(f, '.');
            if i > 0 {
                Some(f.subrange(i + 1, f.len() as int))
            } else {
                None
            }
        },
    }
}

/// `p` with its extension replaced by `ext` (removed when `ext` is empty).
/// A path without a file name is left as it is.
pub open spec fn set_extension(p: Seq<char>, ext: Seq<char>) -> Seq<char> {
    match file_name(p) {
        None => p,
        Some(_) => {
            let stem_end = match extension(p) {
                Some(e) => p.len() - e.len() - 1,
                None => p.len() as int,
            };
            let stem = p.subrange(0, stem_end);
            if ext.len() == 0 {
                stem
            } else {
                stem + seq!['.'] + ext
            }
        },
    }
}

fn last_index(v: &Vec<char>, c: char) -> (r: Option<usize>)
    ensures
        match r {
            None => last_index_of(v@, c) == -1,
            Some(i) => last_index_of(v@, c) == i as int && i < v@.len(),
        },
{
    let mut i = v.len();
    assert(v@.take(v@.len() as int) =~= v@);
    while i > 0
        invariant
            i <= v@.len(),
            last_index_of(v@, c) == last_index_of(v@.take(i as int), c),
        decreases i,
    {
        if v[i - 1] == c {
            assert(v@.take(i as int).last() == c);
            return Some(i - 1);
        }
        assert(v@.take(i as int).drop_last() =~= v@.take(i - 1));
        i = i - 1;
    }
    None
}

fn is_dots(v: &Vec<char>, start: usize) -> (r: bool)
    requires
        start <= v@.len(),
    ensures
        r == (v@.subrange(start as int, v@.len() as int) == seq!['.'] || v@.subrange(
            start as int,
            v@.len() as int,
        ) == seq!['.', '.']),
{
    let n = v.len() - start;
    let ghost t = v@.subrange(start as int, v@.len() as int);
    assert(t.len() == n);
    if n == 1 {
        let r = v[start] == '.';
        assert(r ==> v@.subrange(start as int, v@.len() as int) =~= seq!['.']);
        assert(!r ==> v@.subrange(start as int, v@.len() as int)[0] != '.');
        r
    } else if n == 2 {
        let r = v[start] == '.' && v[start + 1] == '.';
        assert(r ==> v@.subrange(start as int, v@.len() as int) =~= seq!['.', '.']);
        assert(!r ==> (v@.subrange(start as int, v@.len() as int)[0] != '.' || v@.subrange(
            start as int,
            v@.len() as int,
        )[1] != '.'));
        r
    } else {
        assert(t != seq!['.'] && t != seq!['.', '.']) by {
            assert(seq!['.'].len() == 1);
            assert(seq!['.', '.'].len() == 2);
        }
        false
    }
}

fn name_start(v: &Vec<char>) -> (r: usize)
    ensures
        r == last_index_of(v@, '/') + 1,
        r <= v@.len(),
{
    proof { lemma_last_index_of(v@, '/'); }
    let n = v.len();
    match last_index(v, '/') {
        None => 0,
        Some(i) => {
            assert(i < n);
            i + 1
        },
    }
}

/// The last component of `p`, when it names a file or directory.
pub fn path_file_name(p: &str) -> (r: Option<String>)
    ensures
        opt_view(r) == file_name(p@),
{
    let v = to_chars(p);
    let start = name_start(&v);
    if start == v.len() || is_dots(&v, start) {
        None
    } else {
        Some(from_chars(v.as_slice(), start, v.len()))
    }
}

/// The path without its last component.
pub fn path_parent(p: &str) -> (r: Option<String>)
    ensures
        opt_view(r) == parent(p@),
{
    let v = to_chars(p);
    if v.len() == 0 {
        return None;
    }
    proof { lemma_last_index_of(v@, '/'); }
    match last_index(&v, '/') {
        None => Some(String::new()),
        Some(0) => {
            if v.len() == 1 {
                None
            } else {
                let mut s = String::new();
                push_char(&mut s, '/');
                assert(s@ =~= seq!['/']);
                Some(s)
            }
        },
        Some(i) => Some(from_chars(v.as_slice(), 0, i)),
    }
}

fn chars_prefix(p: &Vec<char>, base: &Vec<char>) -> (r: bool)
    requires
        base@.len() <= p@.len(),
    ensures
        r == (p@.take(base@.len() as int) == base@),
{
    let mut i: usize = 0;
    while i < base.len()
        invariant
            base@.len() <= p@.len(),
            i <= base@.len(),
            forall|j: int| 0 <= j < i ==> p@[j] == base@[j],
        decreases base@.len() - i,
    {
        if p[i] != base[i] {
            assert(p@.take(base@.len() as int)[i as int] != base@[i as int]);
            return false;
        }
        i = i + 1;
    }
    assert(p@.take(base@.len() as int) =~= base@);
    true
}

fn chars_starts_with(p: &Vec<char>, base: &Vec<char>) -> (r: bool)
    ensures
        r == starts_with(p@, base@),
{
    if base.len() == 0 {
        return true;
    }
    if base.len() > p.len() {
        assert(p@ != base@);
        return false;
    }
    if !chars_prefix(p, base) {
        assert(p@ != base@) by {
            if p@ == base@ {
                assert(p@.take(base@.len() as int) =~= p@);
            }
        }
        return false;
    }
    if base.len() == p.len() {
        assert(p@ =~= base@) by {
            assert(p@.take(base@.len() as int) =~= p@);
        }
        return true;
    }
    base[base.len() - 1] == '/' || p[base.len()] == '/'
}

/// True when `base` is `p` itself or one of its ancestors.
pub fn path_starts_with(p: &str, base: &str) -> (r: bool)
    ensures
        r == starts_with(p@, base@),
{
    let pv = to_chars(p);
    let bv = to_chars(base);
    chars_starts_with(&pv, &bv)
}

/// The path of `rel` below `base`.
pub fn path_join(base: &str, rel: &str) -> (r: String)
    ensures
        r@ == join(base@, rel@),
{
    let bv = to_chars(base);
    let rv = to_chars(rel);
    if rv.len() > 0 && rv[0] == '/' {
        return rel.to_owned();
    }
    let mut s = base.to_owned();
    if !(bv.len() == 0 || bv[bv.len() - 1] == '/') {
        push_char(&mut s, '/');
    }
    push_str(&mut s, rel);
    s
}

/// What remains of `p` below its ancestor `base`.
pub fn path_strip_prefix(p: &str, base: &str) -> (r: Option<String>)
    ensures
        opt_view(r) == strip_prefix(p@, base@),
{
    let pv = to_chars(p);
    let bv = to_chars(base);
    if !chars_starts_with(&pv, &bv) {
        return None;
    }
    if bv.len() == 0 {
        return Some(p.to_owned());
    }
    if pv.len() == bv.len() {
        assert(pv@ =~= bv@) by {
            assert(pv@.take(bv@.len() as int) =~= pv@);
        }
        return Some(String::new());
    }
    assert(pv@ != bv@);
    if bv[bv.len() - 1] == '/' {
        Some(from_chars(pv.as_slice(), bv.len(), pv.len()))
    } else {
        Some(from_chars(pv.as_slice(), bv.len() + 1, pv.len()))
    }
}

/// The extension of the file name of `p`.
pub fn path_extension(p: &str) -> (r: Option<String>)
    ensures
        opt_view(r) == extension(p@),
{
    let v = to_chars(p);
    let start = name_start(&v);
    if start == v.len() || is_dots(&v, start) {
        return None;
    }
    let name = from_chars(v.as_slice(), start, v.len());
    let nv = to_chars(name.as_str());
    proof { lemma_last_index_of(nv@, '.'); }
    match last_index(&nv, '.') {
        Some(i) if i > 0 => Some(from_chars(nv.as_slice(), i + 1, nv.len())),
        _ => None,
    }
}

/// `p` with its extension replaced by `ext`.
pub fn path_set_extension(p: &str, ext: &str) -> (r: String)
    ensures
        r@ == set_extension(p@, ext@),
{
    let v = to_chars(p);
    let start = name_start(&v);
    if start == v.len() || is_dots(&v, start) {
        return p.to_owned();
    }
    let name = from_chars(v.as_slice(), start, v.len());
    let nv = to_chars(name.as_str());
    proof { lemma_last_index_of(nv@, '.'); }
    let stem_end = match last_index(&nv, '.') {
        Some(i) if i > 0 => start + i,
        _ => v.len(),
    };
    let mut s = from_chars(v.as_slice(), 0, stem_end);
    if !ext.is_empty() {
        push_char(&mut s, '.');
        push_str(&mut s, ext);
        assert(s@ =~= v@.subrange(0, stem_end as int) + seq!['.'] + ext@);
    }
    s
}

/// An optional string by its characters.
pub open spec fn opt_view(s: Option<String>) -> Option<Seq<char>> {
    match s {
        None => None,
        Some(s) => Some(s@),
    }
}

} // verus!
