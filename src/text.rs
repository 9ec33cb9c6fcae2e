//! Character-level helpers: white space, trimming, searching and splitting,
//! stated over `Seq<char>` and carried out over vectors of characters.

use vstd::prelude::*;

verus! {

/// The characters that `str::trim` removes (the Unicode `White_Space` set).
pub open spec fn is_ws(c: char) -> bool {
    let u = c as u32;
    (0x9 <= u && u <= 0xd) || u == 0x20 || u == 0x85 || u == 0xa0 || u == 0x1680 || (0x2000 <= u
        && u <= 0x200a) || u == 0x2028 || u == 0x2029 || u == 0x202f || u == 0x205f || u == 0x3000
}

pub open spec fn trim_left(s: Seq<char>) -> Seq<char>
    decreases s.len(),
{
    if s.len() > 0 && is_ws(s[0]) {
        trim_left(s.drop_first())
    } else {
        s
    }
}

pub open spec fn trim_right(s: Seq<char>) -> Seq<char>
    decreases s.len(),
{
    if s.len() > 0 && is_ws(s.last()) {
        trim_right(s.drop_last())
    } else {
        s
    }
}

/// White space removed from both ends.
pub open spec fn trim(s: Seq<char>) -> Seq<char> {
    trim_right(trim_left(s))
}

/// `p` stands in `s` at position `i`.
pub open spec fn occurs_at(s: Seq<char>, p: Seq<char>, i: int) -> bool {
    0 <= i && i + p.len() <= s.len() && s.subrange(i, i + p.len()) == p
}

pub open spec fn contains(s: Seq<char>, p: Seq<char>) -> bool {
    exists|i: int| occurs_at(s, p, i)
}

/// The first position at or after `i` where the non-empty `p` occurs, or -1.
pub open spec fn find_from(s: Seq<char>, p: Seq<char>, i: int) -> int
    decreases s.len() - i,
{
    if i < 0 || p.len() == 0 || i + p.len() > s.len() {
        -1
    } else if occurs_at(s, p, i) {
        i
    } else {
        find_from(s, p, i + 1)
    }
}

/// The pieces of `s` from `i` on, cut at each non-overlapping occurrence of `p`
/// found from left to right.
pub open spec fn split_from(s: Seq<char>, p: Seq<char>, i: int) -> Seq<Seq<char>>
    decreases s.len() - i,
{
    if p.len() == 0 || i < 0 || i > s.len() {
        seq![]
    } else {
        let k = find_from(s, p, i);
        if k < i || k + p.len() > s.len() {
            seq![s.subrange(i, s.len() as int)]
        } else {
            seq![s.subrange(i, k)] + split_from(s, p, k + p.len())
        }
    }
}

/// `s` cut at every occurrence of the non-empty `p`, as `str::split` does.
pub open spec fn split(s: Seq<char>, p: Seq<char>) -> Seq<Seq<char>> {
    split_from(s, p, 0)
}

/// The text that the ranges `rs` pick out of `s`.
pub open spec fn range_views(s: Seq<char>, rs: Seq<(usize, usize)>) -> Seq<Seq<char>> {
    rs.map_values(|r: (usize, usize)| s.subrange(r.0 as int, r.1 as int))
}

pub open spec fn ranges_within(rs: Seq<(usize, usize)>, n: int) -> bool {
    forall|k: int| 0 <= k < rs.len() ==> rs[k].0 <= rs[k].1 && rs[k].1 <= n
}

pub fn is_ws_char(c: char) -> (r: bool)
    ensures
        r == is_ws(c),
{
    let u = c as u32;
    (0x9 <= u && u <= 0xd) || u == 0x20 || u == 0x85 || u == 0xa0 || u == 0x1680 || (0x2000 <= u
        && u <= 0x200a) || u == 0x2028 || u == 0x2029 || u == 0x202f || u == 0x205f || u == 0x3000
}

/// The characters of `s`, in order.
pub fn chars_of(s: &str) -> (r: Vec<char>)
    ensures
        r@ == s@,
{
    let n = s.unicode_len();
    let mut r: Vec<char> = Vec::new();
    let mut i: usize = 0;
    while i < n
        invariant
            n == s@.len(),
            i <= n,
            r@ == s@.subrange(0, i as int),
        decreases n - i,
    {
        r.push(s.get_char(i));
        i = i + 1;
        assert(r@ =~= s@.subrange(0, i as int));
    }
    assert(r@ =~= s@);
    r
}

/// Whether the range `[a, b)` of `s` holds exactly `w`.
pub fn range_is(s: &Vec<char>, a: usize, b: usize, w: &Vec<char>) -> (r: bool)
    requires
        a <= b <= s.len(),
    ensures
        r == (s@.subrange(a as int, b as int) == w@),
{
    if b - a != w.len() {
        return false;
    }
    let mut t: usize = 0;
    while t < w.len()
        invariant
            b - a == w.len(),
            a <= b <= s.len(),
            t <= w.len(),
            forall|u: int| 0 <= u < t ==> s@[a + u] == w@[u],
        decreases w.len() - t,
    {
        if s[a + t] != w[t] {
            assert(s@.subrange(a as int, b as int)[t as int] != w@[t as int]);
            return false;
        }
        t = t + 1;
    }
    assert(s@.subrange(a as int, b as int) =~= w@);
    true
}

/// Whether `p` occurs in `s` at position `i`.
pub fn occurs_at_exec(s: &Vec<char>, p: &Vec<char>, i: usize) -> (r: bool)
    requires
        i <= s.len(),
    ensures
        r == occurs_at(s@, p@, i as int),
{
    if p.len() > s.len() - i {
        return false;
    }
    range_is(s, i, i + p.len(), p)
}

/// The first occurrence of the non-empty `p` in `s` at or after `i`.
pub fn find_from_exec(s: &Vec<char>, p: &Vec<char>, i: usize) -> (r: Option<usize>)
    requires
        p.len() > 0,
        i <= s.len(),
    ensures
        match r {
            Some(k) => k == find_from(s@, p@, i as int) && k + p.len() <= s.len(),
            None => find_from(s@, p@, i as int) == -1,
        },
{
    let mut j: usize = i;
    while j <= s.len() && p.len() <= s.len() - j
        invariant
            p.len() > 0,
            i <= j,
            find_from(s@, p@, i as int) == find_from(s@, p@, j as int),
        decreases s.len() - j,
    {
        if occurs_at_exec(s, p, j) {
            return Some(j);
        }
        j = j + 1;
    }
    None
}

/// Whether the non-empty `p` occurs anywhere in `s`.
pub fn contains_exec(s: &Vec<char>, p: &Vec<char>) -> (r: bool)
    requires
        p.len() > 0,
    ensures
        r == contains(s@, p@),
{
    let f = find_from_exec(s, p, 0);
    proof {
        lemma_find_from_first(s@, p@, 0);
    }
    f.is_some()
}

/// `find_from` gives the first occurrence at or after `i`, and -1 only when
/// there is none.
pub proof fn lemma_find_from_first(s: Seq<char>, p: Seq<char>, i: int)
    requires
        0 <= i,
        p.len() > 0,
    ensures
        find_from(s, p, i) == -1 || (i <= find_from(s, p, i) && occurs_at(s, p, find_from(s, p, i))),
        forall|j: int|
            i <= j && (find_from(s, p, i) == -1 || j < find_from(s, p, i)) ==> !occurs_at(s, p, j),
    decreases s.len() - i,
{
    if i + p.len() > s.len() {
    } else if occurs_at(s, p, i) {
    } else {
        lemma_find_from_first(s, p, i + 1);
        assert forall|j: int|
            i <= j && (find_from(s, p, i) == -1 || j < find_from(s, p, i)) implies !occurs_at(
            s,
            p,
            j,
        ) by {
            if j > i {
            }
        }
    }
}

/// The ranges of `s` that `str::split` with the non-empty `p` gives.
pub fn split_ranges(s: &Vec<char>, p: &Vec<char>) -> (r: Vec<(usize, usize)>)
    requires
        p.len() > 0,
    ensures
        range_views(s@, r@) == split(s@, p@),
        ranges_within(r@, s@.len() as int),
{
    let mut r: Vec<(usize, usize)> = Vec::new();
    let mut start: usize = 0;
    loop
        invariant
            p.len() > 0,
            start <= s.len(),
            range_views(s@, r@) + split_from(s@, p@, start as int) == split(s@, p@),
            ranges_within(r@, s@.len() as int),
        decreases s.len() - start,
    {
        let f = find_from_exec(s, p, start);
        proof {
            lemma_find_from_first(s@, p@, start as int);
        }
        match f {
            Some(k) => {
                let ghost old_r = r@;
                r.push((start, k));
                assert(range_views(s@, r@) =~= range_views(s@, old_r).push(
                    s@.subrange(start as int, k as int),
                ));
                assert(split_from(s@, p@, start as int) == seq![
                    s@.subrange(start as int, k as int),
                ] + split_from(s@, p@, (k + p.len()) as int));
                assert(range_views(s@, r@) + split_from(s@, p@, (k + p.len()) as int)
                    =~= range_views(s@, old_r) + split_from(s@, p@, start as int));
                start = k + p.len();
            },
            None => {
                let ghost old_r = r@;
                r.push((start, s.len()));
                assert(range_views(s@, r@) =~= range_views(s@, old_r).push(
                    s@.subrange(start as int, s@.len() as int),
                ));
                assert(range_views(s@, r@) =~= range_views(s@, old_r) + split_from(
                    s@,
                    p@,
                    start as int,
                ));
                return r;
            },
        }
    }
}

/// Narrows the range `[a, b)` of `s` to its text with white space removed
/// from both ends.
pub fn trim_range(s: &Vec<char>, a: usize, b: usize) -> (r: (usize, usize))
    requires
        a <= b <= s.len(),
    ensures
        a <= r.0 <= r.1 <= b,
        s@.subrange(r.0 as int, r.1 as int) == trim(s@.subrange(a as int, b as int)),
{
    let mut x: usize = a;
    while x < b && is_ws_char(s[x])
        invariant
            a <= x <= b <= s.len(),
            trim_left(s@.subrange(a as int, b as int)) == trim_left(
                s@.subrange(x as int, b as int),
            ),
        decreases b - x,
    {
        assert(s@.subrange(x as int, b as int).drop_first() =~= s@.subrange(
            x + 1,
            b as int,
        ));
        x = x + 1;
    }
    assert(trim_left(s@.subrange(x as int, b as int)) == s@.subrange(x as int, b as int));
    let mut y: usize = b;
    while y > x && is_ws_char(s[y - 1])
        invariant
            a <= x <= y <= b <= s.len(),
            trim(s@.subrange(a as int, b as int)) == trim_right(s@.subrange(x as int, y as int)),
        decreases y - x,
    {
        assert(s@.subrange(x as int, y as int).drop_last() =~= s@.subrange(
            x as int,
            y - 1,
        ));
        y = y - 1;
    }
    (x, y)
}

} // verus!
