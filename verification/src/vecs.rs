//! Small verified helpers on vectors of plain values: copying,
//! concatenation, membership and sorting of absolute index lists.

use vstd::prelude::*;

verus! {

/// The sequence is in non-decreasing order.
pub open spec fn sorted_seq(s: Seq<u64>) -> bool {
    forall|i: int, j: int| 0 <= i < j < s.len() ==> s[i] <= s[j]
}

/// Copy the elements of `v` into a fresh vector.
pub fn copy_vec<T: Copy>(v: &Vec<T>) -> (r: Vec<T>)
    ensures
        r@ == v@,
{
    let mut r: Vec<T> = Vec::new();
    for i in 0..v.len()
        invariant
            r@ == v@.take(i as int),
    {
        r.push(v[i]);
        assert(v@.take(i + 1) == v@.take(i as int).push(v@[i as int]));
    }
    assert(v@.take(v.len() as int) == v@);
    r
}

/// Append a copy of every element of `src` to `dst`.
pub fn extend_copy<T: Copy>(dst: &mut Vec<T>, src: &Vec<T>)
    ensures
        final(dst)@ == old(dst)@ + src@,
{
    let ghost dst0 = dst@;
    for i in 0..src.len()
        invariant
            dst@ == dst0 + src@.take(i as int),
    {
        dst.push(src[i]);
        assert(src@.take(i + 1) == src@.take(i as int).push(src@[i as int]));
        assert(dst0 + src@.take(i as int).push(src@[i as int]) == (dst0 + src@.take(
            i as int,
        )).push(src@[i as int]));
    }
    assert(dst0 + src@.take(src.len() as int) == dst0 + src@);
}

/// Whether `v` holds the value `x`.
pub fn contains_u64(v: &Vec<u64>, x: u64) -> (b: bool)
    ensures
        b == v@.contains(x),
{
    for i in 0..v.len()
        invariant
            forall|k: int| 0 <= k < i ==> v@[k] != x,
    {
        if v[i] == x {
            return true;
        }
    }
    false
}

/// Sort the indices of `v` into non-decreasing order, keeping exactly
/// the same elements with the same multiplicities.
pub fn sort_indices(v: Vec<u64>) -> (r: Vec<u64>)
    ensures
        sorted_seq(r@),
        r@.to_multiset() == v@.to_multiset(),
        r@.len() == v@.len(),
{
    broadcast use vstd::seq_lib::group_to_multiset_ensures;

    let mut r: Vec<u64> = Vec::new();
    for i in 0..v.len()
        invariant
            sorted_seq(r@),
            r@.to_multiset() == v@.take(i as int).to_multiset(),
            r@.len() == i,
    {
        let x = v[i];
        let mut p: usize = 0;
        while p < r.len() && r[p] <= x
            invariant
                p <= r.len(),
                forall|k: int| 0 <= k < p ==> r@[k] <= x,
            decreases r.len() - p,
        {
            p += 1;
        }
        let ghost rold = r@;
        r.insert(p, x);
        proof {
            rold.insert_ensures(p as int, x);
            vstd::seq_lib::to_multiset_insert(rold, p as int, x);
            vstd::seq_lib::to_multiset_build(v@.take(i as int), x);
            assert(v@.take(i + 1) == v@.take(i as int).push(x));
            assert(r@.to_multiset() == v@.take(i + 1).to_multiset());
            assert forall|a: int, b: int| 0 <= a < b < r@.len() implies r@[a] <= r@[b] by {
                if b < p {
                    assert(r@[a] == rold[a] && r@[b] == rold[b]);
                } else if a > p {
                    assert(r@[a] == rold[a - 1] && r@[b] == rold[b - 1]);
                } else if a == p {
                    assert(r@[a] == x && r@[b] == rold[b - 1]);
                    assert(p < rold.len() && rold[p as int] > x);
                    assert(rold[b - 1] >= rold[p as int]);
                } else if b == p {
                    assert(r@[a] == rold[a] && r@[b] == x);
                } else {
                    assert(r@[a] == rold[a] && r@[b] == rold[b - 1]);
                    assert(p < rold.len() && rold[p as int] > x);
                    assert(rold[b - 1] >= rold[p as int]);
                }
            }
        }
    }
    assert(v@.take(v.len() as int) == v@);
    r
}

/// Concatenating two duplicate-free sequences over disjoint value sets
/// yields a duplicate-free sequence.
pub proof fn lemma_concat_no_dup(a: Seq<u64>, b: Seq<u64>)
    requires
        a.no_duplicates(),
        b.no_duplicates(),
        a.to_set().disjoint(b.to_set()),
    ensures
        (a + b).no_duplicates(),
{
    assert forall|i: int, j: int|
        0 <= i < (a + b).len() && 0 <= j < (a + b).len() && i != j implies (a + b)[i] != (a
        + b)[j] by {
        if i < a.len() && j >= a.len() {
            assert(a.to_set().contains(a[i]));
            assert(b.to_set().contains(b[j - a.len()]));
        } else if j < a.len() && i >= a.len() {
            assert(a.to_set().contains(a[j]));
            assert(b.to_set().contains(b[i - a.len()]));
        }
    }
}

/// Filtering keeps a duplicate-free sequence duplicate-free.
pub proof fn lemma_filter_no_dup<A>(s: Seq<A>, pred: spec_fn(A) -> bool)
    requires
        s.no_duplicates(),
    ensures
        s.filter(pred).no_duplicates(),
    decreases s.len(),
{
    reveal(Seq::filter);
    if s.len() > 0 {
        let rest = s.drop_last();
        lemma_filter_no_dup(rest, pred);
        if pred(s.last()) {
            assert(!rest.contains(s.last()));
            if rest.filter(pred).contains(s.last()) {
                rest.lemma_filter_contains_rev(pred, s.last());
            }
            assert forall|i: int, j: int|
                0 <= i < s.filter(pred).len() && 0 <= j < s.filter(pred).len() && i
                    != j implies s.filter(pred)[i] != s.filter(pred)[j] by {
                let f = rest.filter(pred);
                assert(s.filter(pred) == f.push(s.last()));
                if i < f.len() && j < f.len() {
                } else if i == f.len() {
                    assert(f.contains(f[j]));
                } else {
                    assert(f.contains(f[i]));
                }
            }
        }
    }
}

/// When a duplicate-free selection taken from a duplicate-free sequence
/// leaves at least one element unselected, the remainder after filtering
/// the selection away is non-empty.
pub proof fn lemma_filter_remainder_nonempty(s: Seq<u64>, sel: Seq<u64>)
    requires
        s.no_duplicates(),
        sel.no_duplicates(),
        forall|k: int| 0 <= k < sel.len() ==> s.contains(#[trigger] sel[k]),
        sel.len() < s.len(),
    ensures
        s.filter(|x: u64| !sel.contains(x)).len() > 0,
{
    let pred = |x: u64| !sel.contains(x);
    if s.filter(pred).len() == 0 {
        assert forall|i: int| 0 <= i < s.len() implies sel.contains(#[trigger] s[i]) by {
            if !sel.contains(s[i]) {
                s.lemma_filter_contains(pred, i);
            }
        }
        assert(s.to_set().subset_of(sel.to_set()));
        s.unique_seq_to_set();
        sel.unique_seq_to_set();
        vstd::set_lib::lemma_len_subset(s.to_set(), sel.to_set());
    }
}

/// The value set of a concatenation is the union of the value sets.
pub proof fn lemma_concat_to_set(a: Seq<u64>, b: Seq<u64>)
    ensures
        (a + b).to_set() == a.to_set() + b.to_set(),
{
    let ab = a + b;
    assert forall|x: u64| ab.contains(x) implies (a.to_set() + b.to_set()).contains(x) by {
        let i = choose|i: int| 0 <= i < ab.len() && ab[i] == x;
        if i < a.len() {
            assert(a[i] == x);
        } else {
            assert(b[i - a.len()] == x);
        }
    }
    assert forall|x: u64| (a.to_set() + b.to_set()).contains(x) implies ab.contains(x) by {
        if a.contains(x) {
            let i = choose|i: int| 0 <= i < a.len() && a[i] == x;
            assert(ab[i] == x);
        } else {
            let i = choose|i: int| 0 <= i < b.len() && b[i] == x;
            assert(ab[a.len() + i] == x);
        }
    }
    assert(ab.to_set() =~= a.to_set() + b.to_set());
}

/// Filtering preserves sorted order: the result is a subsequence.
pub proof fn lemma_filter_sorted(s: Seq<u64>, pred: spec_fn(u64) -> bool)
    requires
        sorted_seq(s),
    ensures
        sorted_seq(s.filter(pred)),
    decreases s.len(),
{
    reveal(Seq::filter);
    if s.len() > 0 {
        let rest = s.drop_last();
        lemma_filter_sorted(rest, pred);
        if pred(s.last()) {
            let f = rest.filter(pred);
            assert(s.filter(pred) == f.push(s.last()));
            let sf = s.filter(pred);
            assert forall|i: int, j: int| 0 <= i < j < sf.len() implies sf[i] <= sf[j] by {
                if j == f.len() {
                    assert(f.contains(f[i]));
                    rest.lemma_filter_contains_rev(pred, f[i]);
                    let k = choose|k: int| 0 <= k < rest.len() && rest[k] == f[i];
                    assert(s[k] == rest[k]);
                    assert(s[k] <= s.last());
                }
            }
        }
    }
}

/// Filtering with a predicate every element satisfies keeps the
/// sequence unchanged.
pub proof fn lemma_filter_keep_all<A>(s: Seq<A>, pred: spec_fn(A) -> bool)
    requires
        forall|i: int| 0 <= i < s.len() ==> pred(#[trigger] s[i]),
    ensures
        s.filter(pred) == s,
    decreases s.len(),
{
    reveal(Seq::filter);
    if s.len() > 0 {
        lemma_filter_keep_all(s.drop_last(), pred);
        assert(s.filter(pred) =~= s);
    }
}

/// Two sequences with the same multiset hold the same value set, and one
/// being duplicate-free carries over to the other.
pub proof fn lemma_multiset_eq_transfers(s1: Seq<u64>, s2: Seq<u64>)
    requires
        s1.to_multiset() == s2.to_multiset(),
        s1.no_duplicates(),
    ensures
        s2.no_duplicates(),
        s1.to_set() == s2.to_set(),
{
    broadcast use vstd::seq_lib::group_to_multiset_ensures;

    s1.lemma_multiset_has_no_duplicates();
    s2.lemma_multiset_has_no_duplicates_conv();
    assert forall|x: u64| s1.contains(x) <==> s2.contains(x) by {
        assert(s1.contains(x) <==> s1.to_multiset().count(x) > 0);
        assert(s2.contains(x) <==> s2.to_multiset().count(x) > 0);
    }
    assert(s1.to_set() =~= s2.to_set());
}

} // verus!
