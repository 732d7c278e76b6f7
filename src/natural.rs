//! Natural, case-insensitive ordering of team addresses (`10.0.9.1` before
//! `10.0.10.1`), and a stable insertion sort by `(primary key, name)`.
use core::cmp::Ordering;
use vstd::prelude::*;
use vstd::seq_lib::*;

verus! {

/// What `lexical_sort::natural_lexical_cmp` returns for two strings.
pub uninterp spec fn natural_order(a: Seq<char>, b: Seq<char>) -> Ordering;

/// `c` is an ASCII digit.
pub open spec fn is_digit(c: char) -> bool {
    '0' <= c <= '9'
}

/// The length of the run of digits that ends `s`.
pub open spec fn trailing_digits(s: Seq<char>) -> nat
    decreases s.len(),
{
    if s.len() > 0 && is_digit(s.last()) {
        trailing_digits(s.drop_last()) + 1
    } else {
        0
    }
}

/// The length of the longest run of digits in `s`.
pub open spec fn longest_digit_run(s: Seq<char>) -> nat
    decreases s.len(),
{
    if s.len() == 0 {
        0
    } else {
        let prev = longest_digit_run(s.drop_last());
        let here = trailing_digits(s);
        if here > prev {
            here
        } else {
            prev
        }
    }
}

/// `s` can be compared naturally: it is ASCII, so it is compared as written, and no
/// run of digits is long enough to overflow the comparison's 64-bit accumulator.
pub open spec fn natural_comparable(s: Seq<char>) -> bool {
    &&& forall|i: int| 0 <= i < s.len() ==> (#[trigger] s[i] as u32) < 128
    &&& longest_digit_run(s) < 20
}

/// Whether `s` can be compared naturally.
pub fn comparable(s: &str) -> (r: bool)
    ensures
        r == natural_comparable(s@),
{
    let v = crate::text::chars_vec(s);
    let mut run: u64 = 0;
    let mut longest: u64 = 0;
    let mut i: usize = 0;
    while i < v.len()
        invariant
            i <= v@.len(),
            v@ == s@,
            run == trailing_digits(v@.take(i as int)),
            longest == longest_digit_run(v@.take(i as int)),
            run <= longest <= i,
            forall|j: int| 0 <= j < i ==> (#[trigger] v@[j] as u32) < 128,
        decreases v@.len() - i,
    {
        let c = v[i];
        if c as u32 >= 128 {
            proof {
                assert(s@[i as int] == c);
            }
            return false;
        }
        proof {
            assert(v@.take(i + 1).drop_last() =~= v@.take(i as int));
            assert(v@.take(i + 1).last() == c);
        }
        if '0' <= c && c <= '9' {
            run = run + 1;
        } else {
            run = 0;
        }
        if run > longest {
            longest = run;
        }
        i = i + 1;
    }
    proof {
        assert(v@.take(v@.len() as int) =~= v@);
    }
    longest < 20
}

/// Relies on `lexical_sort::natural_lexical_cmp`: its result is a function of the two
/// strings, and swapping the arguments swaps `Less` and `Greater` (the comparison walks
/// both strings in step and ends in `str::cmp`). On ASCII strings without a run of 20
/// digits its digit accumulator cannot overflow.
#[verifier::external_body]
pub(crate) fn natural_cmp(a: &str, b: &str) -> (r: Ordering)
    requires
        natural_comparable(a@),
        natural_comparable(b@),
    ensures
        r == natural_order(a@, b@),
        (r == Ordering::Less) == (natural_order(b@, a@) == Ordering::Greater),
{
    lexical_sort::natural_lexical_cmp(a, b)
}

/// What an item is ordered by: a primary key, then a name compared naturally.
pub trait NaturalKey: Sized {
    spec fn primary_key(&self) -> int;

    spec fn name_key(&self) -> Seq<char>;

    fn primary(&self) -> (r: i64)
        ensures
            r == self.primary_key(),
    ;

    fn name(&self) -> (r: &str)
        ensures
            r@ == self.name_key(),
    ;
}

/// `a` must come strictly before `b`. Names that cannot be compared naturally leave
/// items with equal primary keys unordered.
pub open spec fn key_before<T: NaturalKey>(a: T, b: T) -> bool {
    ||| a.primary_key() < b.primary_key()
    ||| (a.primary_key() == b.primary_key() && natural_comparable(a.name_key())
        && natural_comparable(b.name_key()) && natural_order(a.name_key(), b.name_key())
        == Ordering::Less)
}

/// No item comes strictly before the one in front of it.
pub open spec fn sorted_by_key<T: NaturalKey>(s: Seq<T>) -> bool {
    forall|i: int| 0 <= i < s.len() - 1 ==> !key_before(#[trigger] s[i + 1], s[i])
}

/// Whether `a` must come strictly before `b`.
fn before<T: NaturalKey>(a: &T, b: &T) -> (r: bool)
    ensures
        r == key_before(*a, *b),
        r ==> !key_before(*b, *a),
{
    let pa = a.primary();
    let pb = b.primary();
    if pa < pb {
        true
    } else if pa > pb {
        false
    } else {
        let na = a.name();
        let nb = b.name();
        if !comparable(na) || !comparable(nb) {
            return false;
        }
        match natural_cmp(na, nb) {
            Ordering::Less => true,
            _ => false,
        }
    }
}

/// Sorts by primary key, then naturally by name.
pub fn sort_by_natural_key<T: NaturalKey>(keys: Vec<T>) -> (r: Vec<T>)
    ensures
        r@.to_multiset() == keys@.to_multiset(),
        sorted_by_key(r@),
{
    broadcast use group_to_multiset_ensures;

    let mut out: Vec<T> = Vec::new();
    let mut rest = keys;
    let ghost all = rest@;
    let ghost n = all.len() as int;
    proof {
        assert(all.skip(n) =~= Seq::<T>::empty());
        assert(rest@ =~= all.take(n));
    }
    while rest.len() > 0
        invariant
            n == all.len(),
            rest@.len() <= n,
            rest@ == all.take(rest@.len() as int),
            out@.to_multiset() == all.skip(rest@.len() as int).to_multiset(),
            sorted_by_key(out@),
        decreases rest.len(),
    {
        let x = rest.pop().unwrap();
        let ghost m = rest@.len() as int;
        proof {
            assert(x == all[m]);
            assert(rest@ =~= all.take(m));
        }
        let mut j: usize = out.len();
        while j > 0 && before(&x, &out[j - 1])
            invariant
                j <= out.len(),
                sorted_by_key(out@),
                forall|k: int|
                    j <= k < out.len() ==> key_before(x, #[trigger] out@[k]) && !key_before(
                        out@[k],
                        x,
                    ),
            decreases j,
        {
            j = j - 1;
        }
        proof {
            let s = out@;
            let t = s.insert(j as int, x);
            s.insert_ensures(j as int, x);
            assert forall|k: int| 0 <= k < t.len() - 1 implies !key_before(
                #[trigger] t[k + 1],
                t[k],
            ) by {
                if k + 1 < j {
                    assert(t[k + 1] == s[k + 1] && t[k] == s[k]);
                } else if k + 1 == j {
                    assert(t[k + 1] == x && t[k] == s[k]);
                } else if k == j {
                    assert(t[k] == x && t[k + 1] == s[k]);
                } else {
                    assert(t[k + 1] == s[k] && t[k] == s[k - 1]);
                }
            }
            to_multiset_insert(s, j as int, x);
            let tail = all.skip(m + 1);
            assert(all.skip(m) =~= tail.insert(0, x));
            to_multiset_insert(tail, 0, x);
        }
        out.insert(j, x);
    }
    proof {
        assert(all.skip(0) =~= all);
    }
    out
}

} // verus!
