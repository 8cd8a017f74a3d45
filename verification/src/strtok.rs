//! `strtok`: split the next token off a string slice, C style.

use vstd::prelude::*;
use vstd::string::StrSliceExecFns;

verus! {

/// The index of the first character of `s` that occurs in `d`, or -1.
pub open spec fn first_delim(s: Seq<char>, d: Seq<char>) -> int
    decreases s.len(),
{
    if s.len() == 0 {
        -1
    } else if d.contains(s[0]) {
        0
    } else {
        let r = first_delim(s.drop_first(), d);
        if r < 0 {
            -1
        } else {
            r + 1
        }
    }
}

/// `i` is the index of the first character of `s` that occurs in `d`.
pub open spec fn is_first_delim(s: Seq<char>, d: Seq<char>, i: int) -> bool {
    &&& 0 <= i < s.len()
    &&& d.contains(s[i])
    &&& forall|k: int| 0 <= k < i ==> !d.contains(#[trigger] s[k])
}

pub open spec fn no_delim(s: Seq<char>, d: Seq<char>) -> bool {
    forall|k: int| 0 <= k < s.len() ==> !d.contains(#[trigger] s[k])
}

/// The token and the rest that `strtok` gives for `s` and the delimiters `d`:
/// leading delimiters are skipped, the token runs up to the next delimiter,
/// which is dropped; without one the token is all that is left.
pub open spec fn spec_strtok(s: Seq<char>, d: Seq<char>) -> (Seq<char>, Seq<char>)
    decreases s.len(),
{
    let i = first_delim(s, d);
    if i == 0 && s.len() > 0 {
        spec_strtok(s.drop_first(), d)
    } else if 0 < i {
        (s.take(i), s.skip(i + 1))
    } else {
        (s, Seq::empty())
    }
}

/// How many leading delimiters `strtok` skips.
pub open spec fn strtok_skipped(s: Seq<char>, d: Seq<char>) -> int
    decreases s.len(),
{
    if first_delim(s, d) == 0 && s.len() > 0 {
        strtok_skipped(s.drop_first(), d) + 1
    } else {
        0
    }
}

pub proof fn lemma_first_delim(s: Seq<char>, d: Seq<char>)
    ensures
        first_delim(s, d) >= 0 ==> is_first_delim(s, d, first_delim(s, d)),
        first_delim(s, d) < 0 ==> first_delim(s, d) == -1 && no_delim(s, d),
    decreases s.len(),
{
    if s.len() > 0 && !d.contains(s[0]) {
        let t = s.drop_first();
        lemma_first_delim(t, d);
        assert forall|k: int| 1 <= k < s.len() implies s[k] == #[trigger] t[k - 1] by {}
        if first_delim(t, d) >= 0 {
            assert forall|k: int| 0 <= k < first_delim(s, d) implies !d.contains(#[trigger] s[k]) by {
                if k > 0 {
                    assert(s[k] == t[k - 1]);
                }
            }
        } else {
            assert forall|k: int| 0 <= k < s.len() implies !d.contains(#[trigger] s[k]) by {
                if k > 0 {
                    assert(s[k] == t[k - 1]);
                }
            }
        }
    }
}

/// What `strtok` gives back is made of the input: after the skipped
/// delimiters comes the token, which holds no delimiter; then either the
/// input ends (and nothing is left), or one delimiter follows and the rest
/// is all that comes after it. An empty token leaves nothing behind.
pub proof fn lemma_strtok_parts(s: Seq<char>, d: Seq<char>)
    ensures
        ({
            let (t, r) = spec_strtok(s, d);
            let l = strtok_skipped(s, d);
            &&& 0 <= l <= s.len()
            &&& forall|k: int| 0 <= k < l ==> d.contains(#[trigger] s[k])
            &&& l + t.len() <= s.len()
            &&& t == s.subrange(l, l + t.len())
            &&& no_delim(t, d)
            &&& if l + t.len() < s.len() {
                &&& d.contains(s[l + t.len()])
                &&& r == s.skip(l + t.len() + 1)
            } else {
                r.len() == 0
            }
            &&& t.len() == 0 ==> r.len() == 0
        }),
    decreases s.len(),
{
    lemma_first_delim(s, d);
    let i = first_delim(s, d);
    if i == 0 && s.len() > 0 {
        let u = s.drop_first();
        lemma_strtok_parts(u, d);
        let (t, r) = spec_strtok(u, d);
        let l = strtok_skipped(u, d);
        assert forall|k: int| 0 <= k < l + 1 implies d.contains(#[trigger] s[k]) by {
            if k > 0 {
                assert(s[k] == u[k - 1]);
            }
        }
        assert(t =~= s.subrange(l + 1, l + 1 + t.len()));
        if l + t.len() < u.len() {
            assert(s[l + 1 + t.len()] == u[l + t.len()]);
            assert(r =~= s.skip(l + 1 + t.len() + 1));
        }
    } else if 0 < i {
        assert(s.take(i) =~= s.subrange(0, i));
        assert forall|k: int| 0 <= k < i implies !d.contains(#[trigger] s.take(i)[k]) by {
            assert(s.take(i)[k] == s[k]);
        }
    } else {
        assert(s =~= s.subrange(0, s.len() as int));
    }
}

/// The index of the first `c` in `s`, counted in characters.
pub fn find_char(s: &str, c: char) -> (r: Option<usize>)
    ensures
        match r {
            Some(i) => i < s@.len() && s@[i as int] == c && forall|k: int| 0 <= k < i ==> s@[k] != c,
            None => forall|k: int| 0 <= k < s@.len() ==> s@[k] != c,
        },
{
    let n = s.unicode_len();
    let mut i: usize = 0;
    while i < n
        invariant
            n == s@.len(),
            i <= n,
            forall|k: int| 0 <= k < i ==> s@[k] != c,
        decreases n - i,
    {
        if s.get_char(i) == c {
            return Some(i);
        }
        i = i + 1;
    }
    None
}

/// Splits the next token off `*s`: skips leading characters that occur in
/// `delimiters`, returns what follows up to the next such character, and
/// leaves `*s` just after that character (or empty, when there is none).
pub fn strtok<'a>(s: &mut &'a str, delimiters: &str) -> (tok: &'a str)
    ensures
        (tok@, final(s)@) == spec_strtok(old(s)@, delimiters@),
    decreases old(s)@.len(),
{
    let cur: &'a str = *s;
    let n = cur.unicode_len();
    let m = delimiters.unicode_len();
    let ghost d = delimiters@;
    let mut idx: usize = usize::MAX;
    let mut j: usize = 0;
    while j < m
        invariant
            d == delimiters@,
            m == d.len(),
            n == cur@.len(),
            j <= m,
            idx == usize::MAX ==> no_delim(cur@, d.take(j as int)),
            idx != usize::MAX ==> is_first_delim(cur@, d.take(j as int), idx as int),
        decreases m - j,
    {
        let c = delimiters.get_char(j);
        let ghost dj = d.take(j as int);
        let ghost dj1 = d.take(j + 1);
        proof {
            assert(dj1 =~= dj.push(c));
            assert forall|x: char| dj1.contains(x) <==> (dj.contains(x) || x == c) by {
                if dj1.contains(x) {
                    let k = choose|k: int| 0 <= k < dj1.len() && dj1[k] == x;
                    if k < j {
                        assert(dj[k] == x);
                    }
                }
                if dj.contains(x) {
                    let k = choose|k: int| 0 <= k < dj.len() && dj[k] == x;
                    assert(dj1[k] == x);
                }
                if x == c {
                    assert(dj1[j as int] == x);
                }
            }
        }
        if let Some(i) = find_char(cur, c) {
            if i < idx {
                idx = i;
            }
        }
        j = j + 1;
    }
    proof {
        assert(d.take(m as int) =~= d);
        lemma_first_delim(cur@, d);
        if idx != usize::MAX {
            let f = first_delim(cur@, d);
            if f >= 0 && f != idx {
                if f < idx {
                } else {
                    assert(!d.contains(cur@[idx as int]));
                }
            }
            if f < 0 {
                assert(!d.contains(cur@[idx as int]));
            }
        } else {
            if first_delim(cur@, d) >= 0 {
                let f = first_delim(cur@, d);
                assert(!d.contains(cur@[f]));
            }
        }
    }
    if idx == 0 {
        *s = cur.substring_char(1, n);
        proof {
            assert(cur@.subrange(1, n as int) =~= cur@.drop_first());
        }
        return strtok(s, delimiters);
    }
    if idx < n {
        let prefix = cur.substring_char(0, idx);
        *s = cur.substring_char(idx + 1, n);
        proof {
            assert(cur@.subrange(0, idx as int) =~= cur@.take(idx as int));
            assert(cur@.subrange(idx + 1, n as int) =~= cur@.skip(idx + 1));
        }
        prefix
    } else {
        *s = cur.substring_char(n, n);
        proof {
            assert(cur@.subrange(n as int, n as int) =~= Seq::<char>::empty());
        }
        cur
    }
}

} // verus!
