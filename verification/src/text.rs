use vstd::prelude::*;
use vstd::utf8::*;
use vstd::string::*;
use vstd::std_specs::iter::IteratorSpec;

verus! {

broadcast use vstd::utf8::encode_utf8_decode_utf8;

/// Two strings are equal exactly when their UTF-8 encodings are.
pub proof fn lemma_bytes_eq_iff_chars_eq(a: Seq<char>, b: Seq<char>)
    ensures
        (encode_utf8(a) == encode_utf8(b)) <==> (a == b),
{
    if encode_utf8(a) == encode_utf8(b) {
        assert(decode_utf8(encode_utf8(a)) == a);
        assert(decode_utf8(encode_utf8(b)) == b);
    }
}

/// Compares two strings for equality.
pub fn str_eq(a: &str, b: &str) -> (r: bool)
    ensures
        r == (a@ == b@),
{
    let x = a.as_bytes();
    let y = b.as_bytes();
    proof { lemma_bytes_eq_iff_chars_eq(a@, b@); }
    if x.len() != y.len() {
        return false;
    }
    let mut i: usize = 0;
    while i < x.len()
        invariant
            x@ == a.spec_bytes(),
            y@ == b.spec_bytes(),
            x@.len() == y@.len(),
            i <= x@.len(),
            forall|j: int| 0 <= j < i ==> x@[j] == y@[j],
        decreases x@.len() - i,
    {
        if x[i] != y[i] {
            return false;
        }
        i = i + 1;
    }
    assert(x@ =~= y@);
    true
}

} // verus!

verus! {

/// The characters of each string.
pub open spec fn strings_view(strings: Seq<String>) -> Seq<Seq<char>> {
    strings.map_values(|s: String| s@)
}

/// Number of bytes in the UTF-8 encoding of `s`.
pub open spec fn byte_len(s: Seq<char>) -> nat {
    encode_utf8(s).len()
}

/// Number of bytes in the UTF-8 encoding of `c`.
pub open spec fn char_byte_len(c: char) -> nat {
    encode_scalar(c as u32).len()
}

/// The encoding of a concatenation is the concatenation of the encodings.
pub proof fn lemma_encode_concat(a: Seq<char>, b: Seq<char>)
    ensures
        encode_utf8(a + b) == encode_utf8(a) + encode_utf8(b),
    decreases a.len(),
{
    if a.len() == 0 {
        assert(a + b =~= b);
        assert(encode_utf8(a) =~= Seq::<u8>::empty());
        assert(encode_utf8(a) + encode_utf8(b) =~= encode_utf8(b));
    } else {
        assert((a + b).drop_first() =~= a.drop_first() + b);
        lemma_encode_concat(a.drop_first(), b);
        assert(encode_utf8(a + b) =~= encode_scalar(a[0] as u32) + encode_utf8(a.drop_first() + b));
        assert(encode_utf8(a) =~= encode_scalar(a[0] as u32) + encode_utf8(a.drop_first()));
    }
}

/// The byte length of a single character sequence.
pub proof fn lemma_byte_len_single(c: char)
    ensures
        byte_len(seq![c]) == char_byte_len(c),
{
    assert(seq![c].drop_first() =~= Seq::<char>::empty());
    assert(encode_utf8(seq![c]) =~= encode_scalar(c as u32) + encode_utf8(Seq::<char>::empty()));
}

/// Byte length is additive.
pub proof fn lemma_byte_len_concat(a: Seq<char>, b: Seq<char>)
    ensures
        byte_len(a + b) == byte_len(a) + byte_len(b),
{
    lemma_encode_concat(a, b);
}

/// Appending a character adds its width.
pub proof fn lemma_byte_len_push(a: Seq<char>, c: char)
    ensures
        byte_len(a.push(c)) == byte_len(a) + char_byte_len(c),
{
    lemma_encode_concat(a, seq![c]);
    lemma_byte_len_single(c);
    assert(a.push(c) =~= a + seq![c]);
}

/// A string has at least as many bytes as characters.
pub proof fn lemma_byte_len_ge_len(a: Seq<char>)
    ensures
        byte_len(a) >= a.len(),
    decreases a.len(),
{
    if a.len() > 0 {
        lemma_byte_len_ge_len(a.drop_first());
        lemma_encode_concat(seq![a[0]], a.drop_first());
        lemma_byte_len_single(a[0]);
        assert(seq![a[0]] + a.drop_first() =~= a);
    }
}

/// Byte length grows with the prefix taken.
pub proof fn lemma_byte_len_take_mono(a: Seq<char>, i: int, j: int)
    requires
        0 <= i <= j <= a.len(),
    ensures
        byte_len(a.take(i)) <= byte_len(a.take(j)),
        byte_len(a.take(j)) <= byte_len(a),
{
    lemma_byte_len_concat(a.take(i), a.subrange(i, j));
    assert(a.take(i) + a.subrange(i, j) =~= a.take(j));
    lemma_byte_len_concat(a.take(j), a.subrange(j, a.len() as int));
    assert(a.take(j) + a.subrange(j, a.len() as int) =~= a);
}

/// Width of a character in its UTF-8 encoding.
pub fn char_len_utf8(c: char) -> (r: usize)
    ensures
        r == char_byte_len(c),
        1 <= r <= 4,
{
    let v = c as u32;
    proof { vstd::utf8::char_is_scalar(c); }
    if v <= 0x7F {
        1
    } else if v <= 0x7FF {
        2
    } else if v <= 0xFFFF {
        3
    } else {
        4
    }
}

/// Appends `c` to `s`, as `String::push` does.
#[verifier::external_body]
pub fn push_char(s: &mut String, c: char)
    ensures
        final(s)@ == old(s)@.push(c),
{
    s.push(c)
}

/// The characters of `s` in order.
pub fn to_chars(s: &str) -> (v: Vec<char>)
    ensures
        v@ == s@,
{
    let ghost whole = s@;
    let mut it = s.chars();
    let mut v: Vec<char> = Vec::new();
    loop
        invariant
            v@.len() <= whole.len(),
            it.remaining() == whole.skip(v@.len() as int),
            v@ == whole.take(v@.len() as int),
        ensures
            v@ == whole,
        decreases whole.len() - v@.len(),
    {
        let ghost i = v@.len() as int;
        match it.next() {
            Some(c) => {
                proof { assert(whole.skip(i)[0] == whole[i]); }
                v.push(c);
                assert(it.remaining() =~= whole.skip(i + 1));
                assert(v@ =~= whole.take(i + 1));
            },
            None => {
                assert(v@ =~= whole);
                break;
            },
        }
    }
    v
}

/// A string holding the characters `v[start..end]`.
pub fn from_chars(v: &[char], start: usize, end: usize) -> (s: String)
    requires
        start <= end <= v@.len(),
    ensures
        s@ == v@.subrange(start as int, end as int),
{
    let mut s = String::new();
    let mut i = start;
    while i < end
        invariant
            start <= i <= end <= v@.len(),
            s@ == v@.subrange(start as int, i as int),
        decreases end - i,
    {
        push_char(&mut s, v[i]);
        assert(s@ =~= v@.subrange(start as int, i + 1));
        i = i + 1;
    }
    s
}

/// Appends `t` to `s`.
pub fn push_str(s: &mut String, t: &str)
    ensures
        final(s)@ == old(s)@ + t@,
{
    s.append(t);
}

/// Number of bytes of the UTF-8 encoding of `v[start..end]`.
pub fn utf8_len(v: &[char], start: usize, end: usize) -> (n: usize)
    requires
        start <= end <= v@.len(),
        byte_len(v@.subrange(start as int, end as int)) <= usize::MAX,
    ensures
        n == byte_len(v@.subrange(start as int, end as int)),
{
    let mut n: usize = 0;
    let mut i = start;
    while i < end
        invariant
            start <= i <= end <= v@.len(),
            n == byte_len(v@.subrange(start as int, i as int)),
            byte_len(v@.subrange(start as int, end as int)) <= usize::MAX,
        decreases end - i,
    {
        proof {
            lemma_byte_len_push(v@.subrange(start as int, i as int), v@[i as int]);
            assert(v@.subrange(start as int, i as int).push(v@[i as int]) =~= v@.subrange(start as int, i + 1));
            let s = v@.subrange(start as int, end as int);
            lemma_byte_len_take_mono(s, i - start + 1, end - start);
            assert(s.take(i - start + 1) =~= v@.subrange(start as int, i + 1));
            assert(s.take(end - start) =~= s);
        }
        n = n + char_len_utf8(v[i]);
        i = i + 1;
    }
    n
}

} // verus!

verus! {

/// The decimal digit for `d` (`d` below ten).
pub open spec fn digit_char(d: nat) -> char {
    if d == 0 { '0' }
    else if d == 1 { '1' }
    else if d == 2 { '2' }
    else if d == 3 { '3' }
    else if d == 4 { '4' }
    else if d == 5 { '5' }
    else if d == 6 { '6' }
    else if d == 7 { '7' }
    else if d == 8 { '8' }
    else { '9' }
}

/// The decimal notation of `n`, without leading zeros.
pub open spec fn decimal(n: nat) -> Seq<char>
    decreases n,
{
    if n < 10 {
        seq![digit_char(n)]
    } else {
        decimal(n / 10).push(digit_char(n % 10))
    }
}

fn digit(d: usize) -> (c: char)
    requires
        d < 10,
    ensures
        c == digit_char(d as nat),
{
    match d {
        0 => '0',
        1 => '1',
        2 => '2',
        3 => '3',
        4 => '4',
        5 => '5',
        6 => '6',
        7 => '7',
        8 => '8',
        _ => '9',
    }
}

/// Writes `n` in decimal.
pub fn decimal_string(n: usize) -> (s: String)
    ensures
        s@ == decimal(n as nat),
    decreases n,
{
    if n < 10 {
        let mut s = String::new();
        push_char(&mut s, digit(n));
        assert(s@ =~= seq![digit_char(n as nat)]);
        s
    } else {
        let mut s = decimal_string(n / 10);
        push_char(&mut s, digit(n % 10));
        s
    }
}

} // verus!

verus! {

/// A non-empty valid encoding starts with a leading byte.
pub proof fn lemma_first_byte_leads(bytes: Seq<u8>)
    requires
        valid_utf8(bytes),
        bytes.len() > 0,
    ensures
        !is_continuation_byte(bytes[0]),
{
}

/// A character boundary of `x` is one of `x + y`.
pub proof fn lemma_boundary_left(x: Seq<u8>, y: Seq<u8>, i: int)
    requires
        valid_utf8(x),
        valid_utf8(y),
        0 <= i <= x.len(),
        is_char_boundary(x, i),
    ensures
        valid_utf8(x + y),
        is_char_boundary(x + y, i),
{
    valid_utf8_concat(x, y);
    let xy = x + y;
    if i < x.len() {
        is_char_boundary_iff_not_is_continuation_byte(x, i);
        is_char_boundary_iff_not_is_continuation_byte(xy, i);
        assert(xy[i] == x[i]);
    } else if y.len() == 0 {
        assert(xy =~= x);
    } else {
        lemma_first_byte_leads(y);
        is_char_boundary_iff_not_is_continuation_byte(xy, i);
        assert(xy[i] == y[0]);
    }
}

/// A character boundary of `y` is one of `x + y`, after the bytes of `x`.
pub proof fn lemma_boundary_right(x: Seq<u8>, y: Seq<u8>, j: int)
    requires
        valid_utf8(x),
        valid_utf8(y),
        0 <= j <= y.len(),
        is_char_boundary(y, j),
    ensures
        valid_utf8(x + y),
        is_char_boundary(x + y, x.len() + j),
{
    valid_utf8_concat(x, y);
    let xy = x + y;
    if j < y.len() {
        is_char_boundary_iff_not_is_continuation_byte(y, j);
        is_char_boundary_iff_not_is_continuation_byte(xy, x.len() + j);
        assert(xy[x.len() + j] == y[j]);
    } else {
        is_char_boundary_start_end_of_seq(xy);
    }
}

/// The bytes between two boundaries are valid, and the boundaries between
/// them are boundaries of that part.
pub proof fn lemma_boundary_inside(bytes: Seq<u8>, lo: int, hi: int, i: int)
    requires
        valid_utf8(bytes),
        0 <= lo <= i <= hi <= bytes.len(),
        is_char_boundary(bytes, lo),
        is_char_boundary(bytes, hi),
        is_char_boundary(bytes, i),
    ensures
        valid_utf8(bytes.subrange(lo, hi)),
        is_char_boundary(bytes.subrange(lo, hi), i - lo),
{
    let suffix = bytes.subrange(lo, bytes.len() as int);
    valid_utf8_split(bytes, lo);
    let part = bytes.subrange(lo, hi);
    if hi < bytes.len() {
        is_char_boundary_iff_not_is_continuation_byte(bytes, hi);
        is_char_boundary_iff_not_is_continuation_byte(suffix, hi - lo);
        assert(suffix[hi - lo] == bytes[hi]);
    } else {
        is_char_boundary_start_end_of_seq(suffix);
    }
    valid_utf8_split(suffix, hi - lo);
    assert(suffix.subrange(0, hi - lo) =~= part);
    if i < hi {
        is_char_boundary_iff_not_is_continuation_byte(bytes, i);
        is_char_boundary_iff_not_is_continuation_byte(part, i - lo);
        assert(part[i - lo] == bytes[i]);
    } else {
        is_char_boundary_start_end_of_seq(part);
    }
}

/// Where a valid text ends, the rest of a valid text that starts with it
/// begins on a character boundary.
pub proof fn lemma_boundary_after_prefix(x: Seq<u8>, y: Seq<u8>)
    requires
        valid_utf8(x),
        valid_utf8(x + y),
    ensures
        is_char_boundary(x + y, x.len() as int),
        valid_utf8(y),
    decreases x.len(),
{
    let xy = x + y;
    if x.len() == 0 {
        assert(xy =~= y);
    } else {
        let k = length_of_first_scalar(x);
        assert(xy[0] == x[0]);
        assert(length_of_first_scalar(xy) == k);
        assert(forall|t: int| 0 <= t < k ==> #[trigger] xy[t] == x[t]);
        assert(valid_first_scalar(xy) == valid_first_scalar(x));
        assert(pop_first_scalar(xy) =~= pop_first_scalar(x) + y);
        lemma_boundary_after_prefix(pop_first_scalar(x), y);
    }
}

/// Where a valid text begins, the text before it ends on a boundary.
pub proof fn lemma_boundary_before_suffix(x: Seq<u8>, y: Seq<u8>)
    requires
        valid_utf8(y),
        valid_utf8(x + y),
    ensures
        is_char_boundary(x + y, x.len() as int),
{
    let xy = x + y;
    if y.len() == 0 {
        assert(xy =~= x);
        is_char_boundary_start_end_of_seq(xy);
    } else {
        lemma_first_byte_leads(y);
        is_char_boundary_iff_not_is_continuation_byte(xy, x.len() as int);
        assert(xy[x.len() as int] == y[0]);
    }
}

/// Number of bytes of the UTF-8 encoding of `s`.
pub fn byte_count(s: &str) -> (n: usize)
    ensures
        n == s.spec_bytes().len(),
{
    s.as_bytes().len()
}

/// The part of `text` between the byte positions `lo` and `hi`.
pub fn substr(text: &str, lo: usize, hi: usize) -> (r: &str)
    requires
        lo <= hi <= text.spec_bytes().len(),
        is_char_boundary(text.spec_bytes(), lo as int),
        is_char_boundary(text.spec_bytes(), hi as int),
    ensures
        r.spec_bytes() == text.spec_bytes().subrange(lo as int, hi as int),
{
    let ghost bytes = text.spec_bytes();
    proof {
        encode_utf8_valid_utf8(text@);
        is_char_boundary_start_end_of_seq(bytes);
        lemma_boundary_inside(bytes, 0, hi as int, lo as int);
    }
    let (head, _) = text.split_at(hi);
    proof {
        assert(head.spec_bytes() =~= bytes.subrange(0, hi as int));
    }
    let (_, part) = head.split_at(lo);
    proof {
        assert(part.spec_bytes() =~= bytes.subrange(lo as int, hi as int));
    }
    part
}

/// The parts joined by `separator`.
pub open spec fn joined(parts: Seq<Seq<char>>, separator: Seq<char>) -> Seq<char>
    decreases parts.len(),
{
    if parts.len() == 0 {
        Seq::empty()
    } else if parts.len() == 1 {
        parts[0]
    } else {
        joined(parts.drop_last(), separator) + separator + parts.last()
    }
}

/// Joins the parts with `separator` between them.
pub fn join_strings(parts: &[String], separator: &str) -> (r: String)
    ensures
        r@ == joined(strings_view(parts@), separator@),
{
    let mut out = String::new();
    let mut i: usize = 0;
    while i < parts.len()
        invariant
            i <= parts@.len(),
            out@ == joined(strings_view(parts@).take(i as int), separator@),
        decreases parts@.len() - i,
    {
        let ghost before = strings_view(parts@).take(i as int);
        if i > 0 {
            push_str(&mut out, separator);
        }
        push_str(&mut out, parts[i].as_str());
        proof {
            let now = strings_view(parts@).take(i + 1);
            assert(now.drop_last() =~= before);
            assert(now.last() == parts@[i as int]@);
            if i == 0 {
                assert(out@ =~= parts@[0]@);
            }
        }
        i = i + 1;
    }
    proof { assert(strings_view(parts@).take(parts@.len() as int) =~= strings_view(parts@)); }
    out
}

} // verus!
