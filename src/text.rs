//! Character-level helpers on strings.
use vstd::prelude::*;

verus! {

/// Whether the two strings are equal.
pub fn str_eq(a: &str, b: &str) -> (r: bool)
    ensures
        r == (a@ == b@),
{
    let n = a.unicode_len();
    if n != b.unicode_len() {
        return false;
    }
    let mut i: usize = 0;
    while i < n
        invariant
            n == a@.len(),
            n == b@.len(),
            i <= n,
            forall|j: int| 0 <= j < i ==> a@[j] == b@[j],
        decreases n - i,
    {
        if a.get_char(i) != b.get_char(i) {
            return false;
        }
        i = i + 1;
    }
    assert(a@ =~= b@);
    true
}

/// Relies on `String::push`: appends one character.
#[verifier::external_body]
pub(crate) fn push_char(s: &mut String, c: char)
    ensures
        final(s)@ == old(s)@.push(c),
{
    s.push(c)
}

/// The characters of `s`.
pub fn chars_vec(s: &str) -> (r: Vec<char>)
    ensures
        r@ == s@,
{
    let mut out: Vec<char> = Vec::new();
    for c in it: s.chars()
        invariant
            out@ == it.seq().take(it.index() as int),
    {
        out.push(c);
    }
    out
}

/// The string of the characters `v[lo..hi]`.
pub fn string_of(v: &Vec<char>, lo: usize, hi: usize) -> (r: String)
    requires
        lo <= hi <= v@.len(),
    ensures
        r@ == v@.subrange(lo as int, hi as int),
{
    let mut out = String::new();
    let mut i: usize = lo;
    while i < hi
        invariant
            lo <= i <= hi <= v@.len(),
            out@ == v@.subrange(lo as int, i as int),
        decreases hi - i,
    {
        push_char(&mut out, v[i]);
        i = i + 1;
        proof {
            assert(out@ =~= v@.subrange(lo as int, i as int));
        }
    }
    out
}

/// The position of the first `c` in `s`, or -1.
pub open spec fn index_of(s: Seq<char>, c: char) -> int
    decreases s.len(),
{
    if s.len() == 0 {
        -1
    } else {
        let p = index_of(s.drop_last(), c);
        if p >= 0 {
            p
        } else if s.last() == c {
            s.len() - 1
        } else {
            -1
        }
    }
}

/// The position is -1 or that of a `c`.
pub proof fn lemma_index_of_range(s: Seq<char>, c: char)
    ensures
        -1 <= index_of(s, c) < s.len(),
        index_of(s, c) >= 0 ==> s[index_of(s, c)] == c,
    decreases s.len(),
{
    if s.len() > 0 {
        lemma_index_of_range(s.drop_last(), c);
        let p = index_of(s.drop_last(), c);
        if p >= 0 {
            assert(s.drop_last()[p] == s[p]);
        }
    }
}

/// A first occurrence stays the first when more follows.
pub proof fn lemma_index_of_extends(t: Seq<char>, u: Seq<char>, c: char)
    requires
        index_of(t, c) >= 0,
    ensures
        index_of(t + u, c) == index_of(t, c),
    decreases u.len(),
{
    if u.len() > 0 {
        lemma_index_of_extends(t, u.drop_last(), c);
        assert((t + u).drop_last() =~= t + u.drop_last());
    } else {
        assert(t + u =~= t);
    }
}

/// Where the first `c` is in `v[lo..hi]`, counted from `lo`; -1 if there is none.
pub fn find_char(v: &Vec<char>, lo: usize, hi: usize, c: char) -> (r: i64)
    requires
        lo <= hi <= v@.len(),
        hi <= i64::MAX,
    ensures
        r == index_of(v@.subrange(lo as int, hi as int), c),
        -1 <= r < hi - lo,
{
    proof {
        lemma_index_of_range(v@.subrange(lo as int, hi as int), c);
    }
    let ghost s = v@.subrange(lo as int, hi as int);
    let mut i: usize = lo;
    while i < hi
        invariant
            lo <= i <= hi <= v@.len(),
            hi <= i64::MAX,
            s == v@.subrange(lo as int, hi as int),
            index_of(s.take(i - lo), c) == -1,
        decreases hi - i,
    {
        let ghost k = i - lo;
        proof {
            assert(s.take(k + 1).drop_last() =~= s.take(k));
            assert(s.take(k + 1).last() == v@[i as int]);
        }
        if v[i] == c {
            proof {
                assert(index_of(s.take(k + 1), c) == k);
                lemma_index_of_extends(s.take(k + 1), s.skip(k + 1), c);
                assert(s.take(k + 1) + s.skip(k + 1) =~= s);
            }
            return (i - lo) as i64;
        }
        i = i + 1;
    }
    proof {
        assert(s.take(hi - lo) =~= s);
    }
    -1
}

} // verus!
