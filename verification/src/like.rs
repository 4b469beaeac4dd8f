//! SQL `LIKE` pattern matching, as SQLite evaluates it without an `ESCAPE`
//! clause: `%` matches any run of characters (also none), `_` matches exactly
//! one character, and every other character matches itself with ASCII
//! letters compared case-insensitively.

use vstd::prelude::*;

verus! {

/// The code of a character with ASCII upper case folded to lower case.
pub open spec fn fold_case(c: char) -> u32 {
    let x = c as u32;
    if 0x41 <= x <= 0x5a {
        (x + 0x20) as u32
    } else {
        x
    }
}

/// Whether `s` matches the `LIKE` pattern `p`.
pub open spec fn like_match(p: Seq<char>, s: Seq<char>) -> bool
    decreases p.len() + s.len(),
{
    if p.len() == 0 {
        s.len() == 0
    } else if p[0] == '%' {
        like_match(p.drop_first(), s) || (s.len() > 0 && like_match(p, s.drop_first()))
    } else if p[0] == '_' {
        s.len() > 0 && like_match(p.drop_first(), s.drop_first())
    } else {
        s.len() > 0 && fold_case(p[0]) == fold_case(s[0]) && like_match(
            p.drop_first(),
            s.drop_first(),
        )
    }
}

/// The pattern `%needle%`: the cell contains `needle`, in the sense of `LIKE`.
pub open spec fn contains_pattern(needle: Seq<char>) -> Seq<char> {
    seq!['%'] + needle + seq!['%']
}

/// Whether `cell LIKE '%needle%'` holds.
pub open spec fn like_contains(cell: Seq<char>, needle: Seq<char>) -> bool {
    like_match(contains_pattern(needle), cell)
}

fn fold(c: char) -> (r: u32)
    ensures
        r == fold_case(c),
{
    let x = c as u32;
    if 0x41 <= x && x <= 0x5a {
        x + 0x20
    } else {
        x
    }
}

proof fn lemma_like_step(p: Seq<char>, s: Seq<char>, i: int, j: int)
    requires
        0 <= i < p.len(),
        0 <= j <= s.len(),
    ensures
        like_match(p.skip(i), s.skip(j)) == (if p[i] == '%' {
            like_match(p.skip(i + 1), s.skip(j)) || (j < s.len() && like_match(
                p.skip(i),
                s.skip(j + 1),
            ))
        } else if p[i] == '_' {
            j < s.len() && like_match(p.skip(i + 1), s.skip(j + 1))
        } else {
            j < s.len() && fold_case(p[i]) == fold_case(s[j]) && like_match(
                p.skip(i + 1),
                s.skip(j + 1),
            )
        }),
{
    assert(p.skip(i).drop_first() =~= p.skip(i + 1));
    assert(p.skip(i)[0] == p[i]);
    if j < s.len() {
        assert(s.skip(j).drop_first() =~= s.skip(j + 1));
        assert(s.skip(j)[0] == s[j]);
    }
}

/// Whether `s` matches the `LIKE` pattern `p`.
pub fn like(p: &Vec<char>, s: &Vec<char>) -> (r: bool)
    ensures
        r == like_match(p@, s@),
{
    let n = p.len();
    let m = s.len();
    // Row `i` of the table holds, for every `j`, whether `s[j..]` matches
    // `p[i..]`; the column `j == m` is kept apart in `next_end`.
    let mut next: Vec<bool> = Vec::new();
    let mut j: usize = 0;
    while j < m
        invariant
            j <= m == s.len(),
            next.len() == j,
            forall|k: int| 0 <= k < j ==> !#[trigger] next@[k],
        decreases m - j,
    {
        next.push(false);
        j = j + 1;
    }
    let mut next_end = true;
    proof {
        assert forall|k: int| 0 <= k <= m implies like_match(p@.skip(n as int), s@.skip(k)) == (k
            == m) by {
            assert(p@.skip(n as int).len() == 0);
        }
    }
    let mut i = n;
    while i > 0
        invariant
            i <= n == p.len(),
            m == s.len(),
            next.len() == m,
            forall|k: int| 0 <= k < m ==> #[trigger] next@[k] == like_match(p@.skip(i as int), s@.skip(k)),
            next_end == like_match(p@.skip(i as int), s@.skip(m as int)),
        decreases i,
    {
        i = i - 1;
        let c = p[i];
        proof {
            lemma_like_step(p@, s@, i as int, m as int);
        }
        let cur_end = c == '%' && next_end;
        let mut cur: Vec<bool> = Vec::new();
        let mut k: usize = 0;
        while k < m
            invariant
                k <= m,
                cur.len() == k,
            decreases m - k,
        {
            cur.push(false);
            k = k + 1;
        }
        let mut j = m;
        while j > 0
            invariant
                j <= m == s.len(),
                i < n == p.len(),
                c == p@[i as int],
                cur.len() == m,
                next.len() == m,
                forall|k: int| 0 <= k < m ==> #[trigger] next@[k] == like_match(p@.skip(i + 1), s@.skip(k)),
                next_end == like_match(p@.skip(i + 1), s@.skip(m as int)),
                cur_end == like_match(p@.skip(i as int), s@.skip(m as int)),
                forall|k: int| j <= k < m ==> #[trigger] cur@[k] == like_match(p@.skip(i as int), s@.skip(k)),
            decreases j,
        {
            j = j - 1;
            proof {
                lemma_like_step(p@, s@, i as int, j as int);
            }
            let after_next = if j + 1 < m {
                next[j + 1]
            } else {
                next_end
            };
            let after_cur = if j + 1 < m {
                cur[j + 1]
            } else {
                cur_end
            };
            let v = if c == '%' {
                next[j] || after_cur
            } else if c == '_' {
                after_next
            } else {
                fold(c) == fold(s[j]) && after_next
            };
            cur.set(j, v);
        }
        next = cur;
        next_end = cur_end;
    }
    assert(p@.skip(0) =~= p@ && s@.skip(0) =~= s@);
    if m == 0 {
        next_end
    } else {
        next[0]
    }
}

/// The characters of the pattern `%needle%`.
pub fn contains_pattern_of(needle: &Vec<char>) -> (p: Vec<char>)
    ensures
        p@ == contains_pattern(needle@),
{
    let mut p: Vec<char> = Vec::new();
    p.push('%');
    let mut i: usize = 0;
    while i < needle.len()
        invariant
            i <= needle.len(),
            p@ == seq!['%'] + needle@.take(i as int),
        decreases needle.len() - i,
    {
        p.push(needle[i]);
        assert(needle@.take(i + 1) =~= needle@.take(i as int).push(needle@[i as int]));
        i = i + 1;
    }
    p.push('%');
    assert(needle@.take(needle.len() as int) =~= needle@);
    assert(p@ =~= contains_pattern(needle@));
    p
}

proof fn lemma_self_then_percent(s: Seq<char>)
    ensures
        like_match(s + seq!['%'], s),
    decreases s.len(),
{
    let p = s + seq!['%'];
    if s.len() == 0 {
        assert(p.drop_first() =~= Seq::<char>::empty());
        assert(p[0] == '%');
        assert(like_match(p.drop_first(), s));
    } else {
        let rest = s.drop_first();
        lemma_self_then_percent(rest);
        assert(p[0] == s[0]);
        assert(p.drop_first() =~= rest + seq!['%']);
        if s[0] == '%' {
            assert(like_match(p, rest));
        }
    }
}

/// Every string contains itself: `s LIKE '%s%'`.
pub proof fn lemma_contains_itself(s: Seq<char>)
    ensures
        like_contains(s, s),
{
    lemma_self_then_percent(s);
    let q = contains_pattern(s);
    assert(q[0] == '%');
    assert(q.drop_first() =~= s + seq!['%']);
}

/// A pattern followed by `%` matches its own text followed by anything.
proof fn lemma_self_then_anything(w: Seq<char>, y: Seq<char>)
    ensures
        like_match(w + seq!['%'], w + y),
    decreases w.len(),
{
    let p = w + seq!['%'];
    let s = w + y;
    if w.len() == 0 {
        assert(p =~= seq!['%']);
        assert(s =~= y);
        lemma_percent_matches_everything(p, s);
    } else {
        lemma_self_then_anything(w.drop_first(), y);
        assert(p.drop_first() =~= w.drop_first() + seq!['%']);
        assert(s.drop_first() =~= w.drop_first() + y);
        assert(p[0] == w[0] && s[0] == w[0]);
        if w[0] == '%' {
            assert(like_match(p.drop_first(), s.drop_first()));
            assert(like_match(p, s.drop_first()));
        }
    }
}

/// A leading `%` skips any text before a match of the rest of the pattern.
proof fn lemma_percent_skips(q: Seq<char>, x: Seq<char>, t: Seq<char>)
    requires
        like_match(q, t),
    ensures
        like_match(seq!['%'] + q, x + t),
    decreases x.len(),
{
    let p = seq!['%'] + q;
    assert(p.drop_first() =~= q);
    if x.len() == 0 {
        assert(x + t =~= t);
    } else {
        lemma_percent_skips(q, x.drop_first(), t);
        assert((x + t).drop_first() =~= x.drop_first() + t);
    }
}

/// A text found anywhere in a cell, at its start, its end or in between, is
/// contained in it in the sense of `LIKE '%text%'`.
pub proof fn lemma_contains_occurrence(x: Seq<char>, w: Seq<char>, y: Seq<char>)
    ensures
        like_contains(x + w + y, w),
{
    lemma_self_then_anything(w, y);
    lemma_percent_skips(w + seq!['%'], x, w + y);
    assert(contains_pattern(w) =~= seq!['%'] + (w + seq!['%']));
    assert(x + w + y =~= x + (w + y));
}

/// Whether two characters are the same up to the case of an ASCII letter.
pub open spec fn same_up_to_ascii_case(a: char, b: char) -> bool {
    ||| a == b
    ||| 0x41 <= (a as u32) <= 0x5a && (b as u32) == (a as u32) + 0x20
    ||| 0x41 <= (b as u32) <= 0x5a && (a as u32) == (b as u32) + 0x20
}

/// Whether `b` is the character `a`, which is no wildcard, in either case.
pub open spec fn literal_char(a: char, b: char) -> bool {
    a != '%' && a != '_' && same_up_to_ascii_case(a, b)
}

/// Whether `u` is the text `w`, without wildcards, with any ASCII letters in
/// either case.
pub open spec fn literal_in_any_case(w: Seq<char>, u: Seq<char>) -> bool {
    &&& w.len() == u.len()
    &&& forall|k: int| 0 <= k < w.len() ==> #[trigger] literal_char(w[k], u[k])
}

/// A text without wildcards followed by `%` matches the same text, its ASCII
/// letters in either case, followed by anything.
proof fn lemma_literal_then_anything(w: Seq<char>, u: Seq<char>, y: Seq<char>)
    requires
        literal_in_any_case(w, u),
    ensures
        like_match(w + seq!['%'], u + y),
    decreases w.len(),
{
    let p = w + seq!['%'];
    let s = u + y;
    if w.len() == 0 {
        assert(p =~= seq!['%']);
        lemma_percent_matches_everything(p, s);
    } else {
        assert(literal_char(w[0], u[0]));
        assert forall|k: int| 0 <= k < w.drop_first().len() implies #[trigger] literal_char(
            w.drop_first()[k],
            u.drop_first()[k],
        ) by {
            assert(literal_char(w[k + 1], u[k + 1]));
            assert(w.drop_first()[k] == w[k + 1] && u.drop_first()[k] == u[k + 1]);
        }
        lemma_literal_then_anything(w.drop_first(), u.drop_first(), y);
        assert(p.drop_first() =~= w.drop_first() + seq!['%']);
        assert(s.drop_first() =~= u.drop_first() + y);
        assert(p[0] == w[0] && s[0] == u[0]);
        assert(fold_case(w[0]) == fold_case(u[0]));
    }
}

/// `LIKE` ignores the case of ASCII letters: a text without wildcards found
/// anywhere in a cell with its ASCII letters in either case is contained in
/// the cell in the sense of `LIKE '%text%'`.
pub proof fn lemma_contains_occurrence_in_any_case(
    x: Seq<char>,
    w: Seq<char>,
    u: Seq<char>,
    y: Seq<char>,
)
    requires
        literal_in_any_case(w, u),
    ensures
        like_contains(x + u + y, w),
{
    lemma_literal_then_anything(w, u, y);
    lemma_percent_skips(w + seq!['%'], x, u + y);
    assert(contains_pattern(w) =~= seq!['%'] + (w + seq!['%']));
    assert(x + u + y =~= x + (u + y));
}

/// A pattern made of `%` alone matches every string.
pub proof fn lemma_percent_matches_everything(p: Seq<char>, s: Seq<char>)
    requires
        p.len() > 0,
        forall|k: int| 0 <= k < p.len() ==> #[trigger] p[k] == '%',
    ensures
        like_match(p, s),
    decreases p.len() + s.len(),
{
    assert(p[0] == '%');
    if s.len() > 0 {
        lemma_percent_matches_everything(p, s.drop_first());
        assert(like_match(p, s.drop_first()));
    } else if p.len() > 1 {
        assert forall|k: int| 0 <= k < p.drop_first().len() implies #[trigger] p.drop_first()[k]
            == '%' by {
            assert(p.drop_first()[k] == p[k + 1]);
        }
        lemma_percent_matches_everything(p.drop_first(), s);
        assert(like_match(p.drop_first(), s));
    } else {
        assert(p.drop_first().len() == 0);
        assert(like_match(p.drop_first(), s));
    }
}

} // verus!
