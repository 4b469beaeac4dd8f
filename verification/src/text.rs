//! Character-level string helpers: conversion between strings and character
//! vectors, Unicode whitespace trimming and the code-point order of strings.

use vstd::prelude::*;

verus! {

/// The characters of a string, in order.
pub fn chars_of(s: &str) -> (v: Vec<char>)
    ensures
        v@ == s@,
{
    broadcast use vstd::string::group_string_axioms;

    let mut v: Vec<char> = Vec::new();
    for c in it: s.chars()
        invariant
            it.seq() == s@,
            v@ == it.seq().take(it.index()),
    {
        assert(it.seq().take(it.index() + 1) =~= it.seq().take(it.index()).push(c));
        v.push(c);
    }
    assert(v@ =~= s@);
    v
}

/// `String::push` from std.
///
/// Trusted: the character is appended at the end of the string and nothing
/// else changes, as the documentation of `String::push` says.
#[verifier::external_body]
fn push_char(s: &mut String, c: char)
    ensures
        final(s)@ == old(s)@.push(c),
{
    s.push(c);
}

/// The string made of the characters `v[from..to]`.
pub fn string_of(v: &Vec<char>, from: usize, to: usize) -> (s: String)
    requires
        from <= to <= v.len(),
    ensures
        s@ == v@.subrange(from as int, to as int),
{
    let mut s = String::new();
    let mut i = from;
    while i < to
        invariant
            from <= i <= to <= v.len(),
            s@ == v@.subrange(from as int, i as int),
        decreases to - i,
    {
        push_char(&mut s, v[i]);
        assert(v@.subrange(from as int, i + 1) =~= v@.subrange(from as int, i as int).push(v@[i as int]));
        i = i + 1;
    }
    s
}

/// Whether a character carries the Unicode `White_Space` property, the
/// whitespace that `str::trim` removes.
pub open spec fn is_white_space(c: char) -> bool {
    let x = c as u32;
    ||| 0x09 <= x <= 0x0d
    ||| x == 0x20
    ||| x == 0x85
    ||| x == 0xa0
    ||| x == 0x1680
    ||| 0x2000 <= x <= 0x200a
    ||| x == 0x2028
    ||| x == 0x2029
    ||| x == 0x202f
    ||| x == 0x205f
    ||| x == 0x3000
}

fn white_space(c: char) -> (b: bool)
    ensures
        b == is_white_space(c),
{
    let x = c as u32;
    (0x09 <= x && x <= 0x0d) || x == 0x20 || x == 0x85 || x == 0xa0 || x == 0x1680 || (0x2000
        <= x && x <= 0x200a) || x == 0x2028 || x == 0x2029 || x == 0x202f || x == 0x205f || x
        == 0x3000
}

/// `s` without its leading whitespace.
pub open spec fn trim_start(s: Seq<char>) -> Seq<char>
    decreases s.len(),
{
    if s.len() > 0 && is_white_space(s[0]) {
        trim_start(s.drop_first())
    } else {
        s
    }
}

/// `s` without its trailing whitespace.
pub open spec fn trim_end(s: Seq<char>) -> Seq<char>
    decreases s.len(),
{
    if s.len() > 0 && is_white_space(s.last()) {
        trim_end(s.drop_last())
    } else {
        s
    }
}

/// `s` without leading and trailing whitespace, as `str::trim` gives it.
pub open spec fn trim(s: Seq<char>) -> Seq<char> {
    trim_end(trim_start(s))
}

proof fn lemma_trim_start_skip(s: Seq<char>, i: int)
    requires
        0 <= i <= s.len(),
        forall|k: int| 0 <= k < i ==> is_white_space(#[trigger] s[k]),
    ensures
        trim_start(s) == trim_start(s.skip(i)),
    decreases i,
{
    if i > 0 {
        assert(s.drop_first().skip(i - 1) =~= s.skip(i));
        lemma_trim_start_skip(s.drop_first(), i - 1);
    } else {
        assert(s.skip(0) =~= s);
    }
}

proof fn lemma_trim_end_take(s: Seq<char>, j: int)
    requires
        0 <= j <= s.len(),
        forall|k: int| j <= k < s.len() ==> is_white_space(#[trigger] s[k]),
    ensures
        trim_end(s) == trim_end(s.take(j)),
    decreases s.len() - j,
{
    if j < s.len() {
        assert(s.drop_last().take(j) =~= s.take(j));
        lemma_trim_end_take(s.drop_last(), j);
    } else {
        assert(s.take(j) =~= s);
    }
}

/// What `trim_end` leaves is a prefix of the string.
proof fn lemma_trim_end_prefix(s: Seq<char>)
    ensures
        trim_end(s).len() <= s.len(),
        trim_end(s) == s.take(trim_end(s).len() as int),
    decreases s.len(),
{
    if s.len() > 0 && is_white_space(s.last()) {
        lemma_trim_end_prefix(s.drop_last());
        let t = trim_end(s.drop_last());
        assert(s.drop_last().take(t.len() as int) =~= s.take(t.len() as int));
    } else {
        assert(s.take(s.len() as int) =~= s);
    }
}

proof fn lemma_trim_start_first(s: Seq<char>)
    ensures
        trim_start(s).len() > 0 ==> !is_white_space(trim_start(s)[0]),
    decreases s.len(),
{
    if s.len() > 0 && is_white_space(s[0]) {
        lemma_trim_start_first(s.drop_first());
    }
}

proof fn lemma_trim_end_last(s: Seq<char>)
    ensures
        trim_end(s).len() > 0 ==> !is_white_space(trim_end(s).last()),
    decreases s.len(),
{
    if s.len() > 0 && is_white_space(s.last()) {
        lemma_trim_end_last(s.drop_last());
    }
}

proof fn lemma_trim_start_suffix(s: Seq<char>)
    ensures
        trim_start(s).len() <= s.len(),
        trim_start(s) == s.skip(s.len() - trim_start(s).len()),
    decreases s.len(),
{
    if s.len() > 0 && is_white_space(s[0]) {
        lemma_trim_start_suffix(s.drop_first());
        let t = trim_start(s.drop_first());
        assert(s.drop_first().skip(s.len() - 1 - t.len()) =~= s.skip(s.len() - t.len()));
    } else {
        assert(s.skip(0) =~= s);
    }
}

/// What trimming leaves is a contiguous part of the string.
pub proof fn lemma_trim_is_a_slice(s: Seq<char>) -> (d: int)
    ensures
        0 <= d,
        d + trim(s).len() <= s.len(),
        trim(s) == s.subrange(d, d + trim(s).len()),
{
    let u = trim_start(s);
    lemma_trim_start_suffix(s);
    lemma_trim_end_prefix(u);
    let d = s.len() - u.len();
    let t = trim(s);
    assert(t =~= s.subrange(d, d + t.len()));
    d
}

/// Trimming twice trims no more than trimming once.
pub proof fn lemma_trim_idempotent(s: Seq<char>)
    ensures
        trim(trim(s)) == trim(s),
{
    let u = trim_start(s);
    let t = trim_end(u);
    lemma_trim_end_prefix(u);
    lemma_trim_start_first(s);
    lemma_trim_end_last(u);
    if t.len() > 0 {
        assert(t[0] == u[0]);
        assert(trim_start(t) == t);
        assert(trim_end(t) == t);
    } else {
        assert(trim_start(t) == t);
        assert(trim_end(t) == t);
    }
}

/// Trims the characters `v[from..to]`: the bounds of what remains.
pub fn trim_bounds(v: &Vec<char>, from: usize, to: usize) -> (r: (usize, usize))
    requires
        from <= to <= v.len(),
    ensures
        from <= r.0 <= r.1 <= to,
        v@.subrange(r.0 as int, r.1 as int) == trim(v@.subrange(from as int, to as int)),
{
    let ghost s = v@.subrange(from as int, to as int);
    let mut a = from;
    while a < to && white_space(v[a])
        invariant
            from <= a <= to <= v.len(),
            forall|k: int| from <= k < a ==> is_white_space(#[trigger] v@[k]),
        decreases to - a,
    {
        a = a + 1;
    }
    let ghost t = v@.subrange(a as int, to as int);
    proof {
        assert forall|k: int| 0 <= k < a - from implies is_white_space(#[trigger] s[k]) by {
            assert(s[k] == v@[from + k]);
        }
        lemma_trim_start_skip(s, a - from);
        assert(s.skip(a - from) =~= t);
        if a < to {
            assert(t[0] == v@[a as int]);
            assert(trim_start(t) == t);
        } else {
            assert(t.len() == 0);
        }
    }
    let mut b = to;
    while b > a && white_space(v[b - 1])
        invariant
            from <= a <= b <= to <= v.len(),
            forall|k: int| b <= k < to ==> is_white_space(#[trigger] v@[k]),
        decreases b - a,
    {
        b = b - 1;
    }
    proof {
        assert forall|k: int| b - a <= k < t.len() implies is_white_space(#[trigger] t[k]) by {
            assert(t[k] == v@[a + k]);
        }
        lemma_trim_end_take(t, b - a);
        assert(t.take(b - a) =~= v@.subrange(a as int, b as int));
        let u = v@.subrange(a as int, b as int);
        if b > a {
            assert(u.last() == v@[b - 1]);
        }
        assert(trim_end(u) == u);
    }
    (a, b)
}

/// Strict order of strings by code point, the order of SQLite's `BINARY`
/// collation on UTF-8 text.
pub open spec fn str_less(a: Seq<char>, b: Seq<char>) -> bool
    decreases a.len(),
{
    if a.len() == 0 {
        b.len() > 0
    } else if b.len() == 0 {
        false
    } else if a[0] == b[0] {
        str_less(a.drop_first(), b.drop_first())
    } else {
        (a[0] as u32) < (b[0] as u32)
    }
}

/// No string precedes itself.
pub proof fn lemma_str_less_irreflexive(a: Seq<char>)
    ensures
        !str_less(a, a),
    decreases a.len(),
{
    if a.len() > 0 {
        lemma_str_less_irreflexive(a.drop_first());
    }
}

/// Of two different strings, one precedes the other.
pub proof fn lemma_str_less_total(a: Seq<char>, b: Seq<char>)
    ensures
        a == b || str_less(a, b) || str_less(b, a),
    decreases a.len(),
{
    if a.len() > 0 && b.len() > 0 {
        lemma_str_less_total(a.drop_first(), b.drop_first());
        if a[0] == b[0] && a.drop_first() == b.drop_first() {
            assert(a =~= seq![a[0]] + a.drop_first());
            assert(b =~= seq![b[0]] + b.drop_first());
        }
        if a[0] != b[0] {
            vstd::utf8::char_u32_cast(a[0], a[0] as u32);
            vstd::utf8::char_u32_cast(b[0], b[0] as u32);
        }
    } else if a.len() == 0 && b.len() == 0 {
        assert(a =~= b);
    }
}

/// The order of strings is transitive.
pub proof fn lemma_str_less_transitive(a: Seq<char>, b: Seq<char>, c: Seq<char>)
    requires
        str_less(a, b),
        str_less(b, c),
    ensures
        str_less(a, c),
    decreases a.len(),
{
    if a.len() > 0 && b.len() > 0 && c.len() > 0 {
        if a[0] == b[0] && b[0] == c[0] {
            lemma_str_less_transitive(a.drop_first(), b.drop_first(), c.drop_first());
        }
    }
}

/// Where two strings first part: they agree on their first `k` characters,
/// and `a` either ends there while `b` goes on, or has the smaller code point
/// there.
pub open spec fn parts_below(a: Seq<char>, b: Seq<char>, k: int) -> bool {
    &&& 0 <= k <= a.len()
    &&& k <= b.len()
    &&& a.take(k) == b.take(k)
    &&& ((k == a.len() && k < b.len()) || (k < a.len() && k < b.len() && (a[k] as u32) < (
    b[k] as u32)))
}

/// The order of strings is the lexicographic order of their code points, in
/// which a proper prefix comes first: `a` precedes `b` exactly when, after
/// the prefix they share, `a` ends while `b` goes on or `a`'s next character
/// has the smaller code point.
pub proof fn str_less_is_code_point_order(a: Seq<char>, b: Seq<char>)
    ensures
        str_less(a, b) <==> exists|k: int| #[trigger] parts_below(a, b, k),
    decreases a.len(),
{
    if a.len() == 0 {
        if b.len() > 0 {
            assert(a.take(0) =~= b.take(0));
            assert(parts_below(a, b, 0));
        }
    } else if b.len() == 0 {
    } else if a[0] == b[0] {
        let (ta, tb) = (a.drop_first(), b.drop_first());
        str_less_is_code_point_order(ta, tb);
        if str_less(a, b) {
            let k = choose|k: int| parts_below(ta, tb, k);
            assert(a.take(k + 1) =~= seq![a[0]] + ta.take(k));
            assert(b.take(k + 1) =~= seq![b[0]] + tb.take(k));
            if k < ta.len() {
                assert(a[k + 1] == ta[k]);
            }
            if k < tb.len() {
                assert(b[k + 1] == tb[k]);
            }
            assert(parts_below(a, b, k + 1));
        }
        if exists|k: int| parts_below(a, b, k) {
            let k = choose|k: int| parts_below(a, b, k);
            if k == 0 {
                assert(a[0] == b[0]);
            } else {
                assert(ta.take(k - 1) =~= a.take(k).drop_first());
                assert(tb.take(k - 1) =~= b.take(k).drop_first());
                if k < a.len() {
                    assert(ta[k - 1] == a[k]);
                }
                if k < b.len() {
                    assert(tb[k - 1] == b[k]);
                }
                assert(parts_below(ta, tb, k - 1));
            }
        }
    } else {
        if str_less(a, b) {
            assert(a.take(0) =~= b.take(0));
            assert(parts_below(a, b, 0));
        }
        if exists|k: int| parts_below(a, b, k) {
            let k = choose|k: int| parts_below(a, b, k);
            if k > 0 {
                assert(a.take(k)[0] == b.take(k)[0]);
            }
        }
    }
}

/// A string precedes every longer string that begins with it; in particular
/// the empty string precedes every other string.
pub proof fn a_prefix_comes_first(a: Seq<char>, b: Seq<char>)
    requires
        b.len() > 0,
    ensures
        str_less(a, a + b),
{
    str_less_is_code_point_order(a, a + b);
    assert((a + b).take(a.len() as int) =~= a);
    assert(a.take(a.len() as int) =~= a);
    assert(parts_below(a, a + b, a.len() as int));
}

/// Whether `a` precedes `b` by code point.
pub fn less_than(a: &Vec<char>, b: &Vec<char>) -> (r: bool)
    ensures
        r == str_less(a@, b@),
{
    let mut i: usize = 0;
    assert(a@.skip(0) =~= a@ && b@.skip(0) =~= b@);
    while i < a.len() && i < b.len() && a[i] == b[i]
        invariant
            i <= a.len(),
            i <= b.len(),
            str_less(a@, b@) == str_less(a@.skip(i as int), b@.skip(i as int)),
        decreases a.len() - i,
    {
        proof {
            let sa = a@.skip(i as int);
            let sb = b@.skip(i as int);
            assert(sa.drop_first() =~= a@.skip(i + 1));
            assert(sb.drop_first() =~= b@.skip(i + 1));
        }
        i = i + 1;
    }
    if i == a.len() {
        i < b.len()
    } else if i == b.len() {
        false
    } else {
        let x = a[i];
        let y = b[i];
        proof {
            assert(a@.skip(i as int)[0] == x && b@.skip(i as int)[0] == y);
        }
        (x as u32) < (y as u32)
    }
}

/// Whether two character sequences are equal.
pub fn chars_equal(a: &Vec<char>, b: &Vec<char>) -> (r: bool)
    ensures
        r == (a@ == b@),
{
    if a.len() != b.len() {
        return false;
    }
    let mut i: usize = 0;
    while i < a.len()
        invariant
            i <= a.len() == b.len(),
            forall|k: int| 0 <= k < i ==> a@[k] == b@[k],
        decreases a.len() - i,
    {
        if a[i] != b[i] {
            return false;
        }
        i = i + 1;
    }
    assert(a@ =~= b@);
    true
}

} // verus!
