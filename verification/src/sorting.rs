//! Stable sorting by a strict weak order, and the order of paths.
use vstd::prelude::*;
use crate::text::to_chars;

verus! {

broadcast use vstd::seq_lib::to_multiset_insert, vstd::seq_lib::to_multiset_build;

/// Values with a strict weak order: `less` is irreflexive and transitive,
/// and "not less" is transitive too.
pub trait Ordered: Sized {
    spec fn less(&self, other: &Self) -> bool;

    fn exec_less(&self, other: &Self) -> (r: bool)
        ensures
            r == self.less(other),
    ;

    proof fn lemma_strict_weak_order(a: &Self, b: &Self, c: &Self)
        ensures
            !a.less(a),
            a.less(b) && b.less(c) ==> a.less(c),
            !a.less(b) && !b.less(c) ==> !a.less(c),
    ;
}

/// No value comes before one that precedes it.
pub open spec fn sorted<T: Ordered>(s: Seq<T>) -> bool {
    forall|i: int, j: int| #![trigger s[i], s[j]] 0 <= i < j < s.len() ==> !s[j].less(&s[i])
}

/// Sorts `v`, keeping equal values in their order.
pub fn sort_stable<T: Ordered>(v: Vec<T>) -> (r: Vec<T>)
    ensures
        sorted(r@),
        r@.to_multiset() == v@.to_multiset(),
        r@.len() == v@.len(),
{
    let ghost given = v@;
    let mut rest = v;
    let mut out: Vec<T> = Vec::new();
    let n = rest.len();
    let mut i: usize = 0;
    proof {
        assert(given.skip(0) =~= given);
        assert(out@ =~= given.take(0));
    }
    while i < n
        invariant
            i <= n == given.len(),
            rest@ == given.skip(i as int),
            sorted(out@),
            out@.len() == i,
            out@.to_multiset() == given.take(i as int).to_multiset(),
        decreases n - i,
    {
        let x = rest.remove(0);
        proof {
            assert(rest@ =~= given.skip(i + 1));
            assert(given.take(i + 1) =~= given.take(i as int).push(x));
        }
        // the first position whose value comes after `x`
        let mut k = out.len();
        while k > 0 && x.exec_less(&out[k - 1])
            invariant
                k <= out@.len(),
                sorted(out@),
                forall|j: int| #![trigger out@[j]] k <= j < out@.len() ==> x.less(&out@[j]),
            decreases k,
        {
            k = k - 1;
        }
        proof {
            let o = out@;
            assert forall|j: int| #![trigger o[j]] 0 <= j < k implies !x.less(&o[j]) by {
                T::lemma_strict_weak_order(&x, &o[k - 1], &o[j]);
            }
            let ins = o.insert(k as int, x);
            assert forall|a: int, b: int| #![trigger ins[a], ins[b]] 0 <= a < b < ins.len() implies !ins[b].less(&ins[a]) by {
                if b < k {
                    assert(ins[a] == o[a] && ins[b] == o[b]);
                } else if b == k {
                    assert(ins[a] == o[a]);
                } else if a == k {
                    assert(ins[b] == o[b - 1]);
                    T::lemma_strict_weak_order(&o[b - 1], &x, &o[b - 1]);
                } else if a < k {
                    assert(ins[a] == o[a] && ins[b] == o[b - 1]);
                } else {
                    assert(ins[a] == o[a - 1] && ins[b] == o[b - 1]);
                }
            }
        }
        let ghost before = out@;
        out.insert(k, x);
        proof {
            assert(out@ =~= before.insert(k as int, x));
        }
        i = i + 1;
    }
    proof {
        assert(given.take(n as int) =~= given);
    }
    out
}

/// Two sequences with the same elements keep the same elements under a map.
pub proof fn lemma_map_same_elements<A, B>(a: Seq<A>, b: Seq<A>, f: spec_fn(A) -> B)
    requires
        a.to_multiset() == b.to_multiset(),
    ensures
        a.map_values(f).to_multiset() == b.map_values(f).to_multiset(),
    decreases a.len(),
{
    broadcast use vstd::seq_lib::group_to_multiset_ensures, vstd::multiset::group_multiset_axioms;

    if a.len() == 0 {
        assert(a.to_multiset().len() == 0);
        assert(b.to_multiset().len() == b.len());
        assert(a.map_values(f) =~= b.map_values(f));
    } else {
        let x = a[0];
        assert(a.contains(x));
        assert(a.to_multiset().count(x) > 0);
        assert(b.to_multiset().count(x) > 0);
        assert(b.contains(x));
        let j = b.index_of(x);
        let a1 = a.remove(0);
        let b1 = b.remove(j);
        assert(a1.to_multiset() =~= b1.to_multiset());
        lemma_map_same_elements(a1, b1, f);
        let fa = a.map_values(f);
        let fb = b.map_values(f);
        assert(fa.remove(0) =~= a1.map_values(f));
        assert(fb.remove(j) =~= b1.map_values(f));
        assert(fa.remove(0).to_multiset() == fa.to_multiset().remove(f(x)));
        assert(fb.remove(j).to_multiset() == fb.to_multiset().remove(f(x)));
        assert(fa.contains(f(x)));
        assert(fb.contains(f(x)));
        assert(fa.to_multiset() =~= fa.to_multiset().remove(f(x)).insert(f(x)));
        assert(fb.to_multiset() =~= fb.to_multiset().remove(f(x)).insert(f(x)));
    }
}

/// The order of two path characters: the separator comes before every
/// other character, so that paths compare component by component.
pub open spec fn path_char_less(c: char, d: char) -> bool {
    if c == d {
        false
    } else if c == '/' {
        true
    } else if d == '/' {
        false
    } else {
        c < d
    }
}

/// Lexicographic order of character sequences by `path_char_less`.
pub open spec fn path_less(a: Seq<char>, b: Seq<char>) -> bool
    decreases a.len(),
{
    if a.len() == 0 {
        b.len() > 0
    } else if b.len() == 0 {
        false
    } else if a[0] != b[0] {
        path_char_less(a[0], b[0])
    } else {
        path_less(a.drop_first(), b.drop_first())
    }
}

proof fn lemma_path_less_irreflexive(a: Seq<char>)
    ensures
        !path_less(a, a),
    decreases a.len(),
{
    if a.len() > 0 {
        lemma_path_less_irreflexive(a.drop_first());
    }
}

proof fn lemma_path_less_transitive(a: Seq<char>, b: Seq<char>, c: Seq<char>)
    requires
        path_less(a, b),
        path_less(b, c),
    ensures
        path_less(a, c),
    decreases a.len(),
{
    if a.len() > 0 && a[0] == b[0] && b[0] == c[0] {
        lemma_path_less_transitive(a.drop_first(), b.drop_first(), c.drop_first());
    }
}

proof fn lemma_path_less_total(a: Seq<char>, b: Seq<char>)
    ensures
        path_less(a, b) || path_less(b, a) || a == b,
    decreases a.len(),
{
    if a.len() > 0 && b.len() > 0 {
        if a[0] == b[0] {
            lemma_path_less_total(a.drop_first(), b.drop_first());
            if a.drop_first() == b.drop_first() {
                assert(a =~= seq![a[0]] + a.drop_first());
                assert(b =~= seq![b[0]] + b.drop_first());
            }
        }
    } else if a.len() == 0 && b.len() == 0 {
        assert(a =~= b);
    }
}

/// The path order is a strict total order.
pub proof fn lemma_path_less(a: Seq<char>, b: Seq<char>, c: Seq<char>)
    ensures
        !path_less(a, a),
        path_less(a, b) && path_less(b, c) ==> path_less(a, c),
        path_less(a, b) || path_less(b, a) || a == b,
{
    lemma_path_less_irreflexive(a);
    if path_less(a, b) && path_less(b, c) {
        lemma_path_less_transitive(a, b, c);
    }
    lemma_path_less_total(a, b);
}

/// Lexicographic order of character sequences by code point, the order
/// of `str` and `String`.
pub open spec fn text_less(a: Seq<char>, b: Seq<char>) -> bool
    decreases a.len(),
{
    if a.len() == 0 {
        b.len() > 0
    } else if b.len() == 0 {
        false
    } else if a[0] != b[0] {
        a[0] < b[0]
    } else {
        text_less(a.drop_first(), b.drop_first())
    }
}

proof fn lemma_text_less_irreflexive(a: Seq<char>)
    ensures
        !text_less(a, a),
    decreases a.len(),
{
    if a.len() > 0 {
        lemma_text_less_irreflexive(a.drop_first());
    }
}

proof fn lemma_text_less_transitive(a: Seq<char>, b: Seq<char>, c: Seq<char>)
    requires
        text_less(a, b),
        text_less(b, c),
    ensures
        text_less(a, c),
    decreases a.len(),
{
    if a.len() > 0 && a[0] == b[0] && b[0] == c[0] {
        lemma_text_less_transitive(a.drop_first(), b.drop_first(), c.drop_first());
    }
}

proof fn lemma_text_less_total(a: Seq<char>, b: Seq<char>)
    ensures
        text_less(a, b) || text_less(b, a) || a == b,
    decreases a.len(),
{
    if a.len() > 0 && b.len() > 0 {
        if a[0] == b[0] {
            lemma_text_less_total(a.drop_first(), b.drop_first());
            if a.drop_first() == b.drop_first() {
                assert(a =~= seq![a[0]] + a.drop_first());
                assert(b =~= seq![b[0]] + b.drop_first());
            }
        }
    } else if a.len() == 0 && b.len() == 0 {
        assert(a =~= b);
    }
}

/// The text order is a strict total order.
pub proof fn lemma_text_less(a: Seq<char>, b: Seq<char>, c: Seq<char>)
    ensures
        !text_less(a, a),
        text_less(a, b) && text_less(b, c) ==> text_less(a, c),
        text_less(a, b) || text_less(b, a) || a == b,
{
    lemma_text_less_irreflexive(a);
    if text_less(a, b) && text_less(b, c) {
        lemma_text_less_transitive(a, b, c);
    }
    lemma_text_less_total(a, b);
}

/// Compares two texts by code point.
pub fn texts_less(a: &str, b: &str) -> (r: bool)
    ensures
        r == text_less(a@, b@),
{
    let x = to_chars(a);
    let y = to_chars(b);
    let mut i: usize = 0;
    proof {
        assert(x@.skip(0) =~= x@);
        assert(y@.skip(0) =~= y@);
    }
    while i < x.len() && i < y.len()
        invariant
            i <= x@.len(),
            i <= y@.len(),
            x@ == a@,
            y@ == b@,
            text_less(x@, y@) == text_less(x@.skip(i as int), y@.skip(i as int)),
        decreases x@.len() - i,
    {
        let c = x[i];
        let d = y[i];
        proof {
            assert(x@.skip(i as int)[0] == x@[i as int]);
            assert(y@.skip(i as int)[0] == y@[i as int]);
            assert(x@.skip(i as int).drop_first() =~= x@.skip(i + 1));
            assert(y@.skip(i as int).drop_first() =~= y@.skip(i + 1));
        }
        if c != d {
            return c < d;
        }
        i = i + 1;
    }
    y.len() > i
}

/// Compares two paths.
pub fn paths_less(a: &str, b: &str) -> (r: bool)
    ensures
        r == path_less(a@, b@),
{
    let x = to_chars(a);
    let y = to_chars(b);
    let mut i: usize = 0;
    proof {
        assert(x@.skip(0) =~= x@);
        assert(y@.skip(0) =~= y@);
    }
    while i < x.len() && i < y.len()
        invariant
            i <= x@.len(),
            i <= y@.len(),
            x@ == a@,
            y@ == b@,
            path_less(x@, y@) == path_less(x@.skip(i as int), y@.skip(i as int)),
        decreases x@.len() - i,
    {
        let c = x[i];
        let d = y[i];
        proof {
            assert(x@.skip(i as int)[0] == x@[i as int]);
            assert(y@.skip(i as int)[0] == y@[i as int]);
            assert(x@.skip(i as int).drop_first() =~= x@.skip(i + 1));
            assert(y@.skip(i as int).drop_first() =~= y@.skip(i + 1));
        }
        if c != d {
            return if c == '/' {
                true
            } else if d == '/' {
                false
            } else {
                c < d
            };
        }
        i = i + 1;
    }
    y.len() > i
}

impl Ordered for String {
    open spec fn less(&self, other: &Self) -> bool {
        path_less(self@, other@)
    }

    fn exec_less(&self, other: &Self) -> (r: bool) {
        paths_less(self.as_str(), other.as_str())
    }

    proof fn lemma_strict_weak_order(a: &Self, b: &Self, c: &Self) {
        lemma_path_less(a@, b@, c@);
        lemma_path_less(b@, c@, a@);
        lemma_path_less(c@, a@, b@);
        lemma_path_less(a@, c@, b@);
        lemma_path_less(c@, b@, a@);
    }
}

/// Sorts paths component by component.
pub fn sort_paths(paths: Vec<String>) -> (r: Vec<String>)
    ensures
        sorted(r@),
        r@.to_multiset() == paths@.to_multiset(),
{
    sort_stable(paths)
}

} // verus!
