//! Sorting of integer samples.

use vstd::prelude::*;

verus! {

/// The order samples are sorted in.
pub open spec fn at_most() -> spec_fn(u64, u64) -> bool {
    |a: u64, b: u64| a <= b
}

/// The same samples in ascending order.
pub open spec fn ascending(s: Seq<u64>) -> Seq<u64> {
    s.sort_by(at_most())
}

/// What ascending order means element by element.
pub open spec fn is_ascending(s: Seq<u64>) -> bool {
    forall|i: int, j: int| 0 <= i <= j < s.len() ==> s[i] <= s[j]
}

/// Sorting keeps every sample with its multiplicity and yields ascending order.
pub proof fn lemma_ascending(s: Seq<u64>)
    ensures
        is_ascending(ascending(s)),
        ascending(s).to_multiset() == s.to_multiset(),
        ascending(s).len() == s.len(),
        forall|x: u64| ascending(s).contains(x) <==> s.contains(x),
{
    broadcast use vstd::seq_lib::group_to_multiset_ensures;

    assert(vstd::relations::total_ordering(at_most()));
    s.lemma_sort_by_ensures(at_most());
    let t = ascending(s);
    assert forall|i: int, j: int| 0 <= i <= j < t.len() implies t[i] <= t[j] by {
        if i < j {
            assert(at_most()(t[i], t[j]));
        }
    }
    assert(t.len() == t.to_multiset().len());
    assert(s.len() == s.to_multiset().len());
    assert forall|x: u64| t.contains(x) <==> s.contains(x) by {
        assert(t.contains(x) <==> t.to_multiset().count(x) > 0);
        assert(s.contains(x) <==> s.to_multiset().count(x) > 0);
    }
}

/// An ascending rearrangement of the samples is the sorted sequence.
pub proof fn lemma_ascending_unique(t: Seq<u64>, s: Seq<u64>)
    requires
        is_ascending(t),
        t.to_multiset() == s.to_multiset(),
    ensures
        t == ascending(s),
{
    lemma_ascending(s);
    assert(vstd::relations::total_ordering(at_most()));
    assert(vstd::relations::sorted_by(t, at_most()));
    assert(vstd::relations::sorted_by(ascending(s), at_most())) by {
        s.lemma_sort_by_ensures(at_most());
    }
    vstd::seq_lib::lemma_sorted_unique(t, ascending(s), at_most());
}

/// Merge two ascending vectors.
fn merge(a: &Vec<u64>, b: &Vec<u64>) -> (r: Vec<u64>)
    requires
        is_ascending(a@),
        is_ascending(b@),
    ensures
        is_ascending(r@),
        r@.to_multiset() == a@.to_multiset().add(b@.to_multiset()),
{
    broadcast use vstd::seq_lib::group_to_multiset_ensures;
    broadcast use vstd::multiset::group_multiset_axioms;

    let mut r: Vec<u64> = Vec::new();
    let mut i: usize = 0;
    let mut j: usize = 0;
    assert(a@.take(0) =~= Seq::<u64>::empty());
    assert(b@.take(0) =~= Seq::<u64>::empty());
    assert(r@.to_multiset() =~= a@.take(0).to_multiset().add(b@.take(0).to_multiset()));
    while i < a.len() || j < b.len()
        invariant
            i <= a@.len(),
            j <= b@.len(),
            is_ascending(a@),
            is_ascending(b@),
            is_ascending(r@),
            forall|k: int| 0 <= k < r@.len() && i < a@.len() ==> r@[k] <= a@[i as int],
            forall|k: int| 0 <= k < r@.len() && j < b@.len() ==> r@[k] <= b@[j as int],
            r@.to_multiset() == a@.take(i as int).to_multiset().add(
                b@.take(j as int).to_multiset(),
            ),
        decreases a@.len() - i + b@.len() - j,
    {
        broadcast use vstd::seq_lib::group_to_multiset_ensures;
        broadcast use vstd::multiset::group_multiset_axioms;

        let from_a: bool = i < a.len() && (j >= b.len() || a[i] <= b[j]);
        if from_a {
            proof {
                let x = a@[i as int];
                assert(a@.take(i + 1) =~= a@.take(i as int).push(x));
                assert(a@.take(i as int).push(x).to_multiset() =~= a@.take(
                    i as int,
                ).to_multiset().insert(x));
                assert(r@.push(x).to_multiset() =~= r@.to_multiset().insert(x));
            }
            r.push(a[i]);
            i = i + 1;
        } else {
            proof {
                let x = b@[j as int];
                assert(b@.take(j + 1) =~= b@.take(j as int).push(x));
                assert(b@.take(j as int).push(x).to_multiset() =~= b@.take(
                    j as int,
                ).to_multiset().insert(x));
                assert(r@.push(x).to_multiset() =~= r@.to_multiset().insert(x));
            }
            r.push(b[j]);
            j = j + 1;
        }
        assert(r@.to_multiset() =~= a@.take(i as int).to_multiset().add(
            b@.take(j as int).to_multiset(),
        ));
    }
    assert(a@.take(i as int) =~= a@);
    assert(b@.take(j as int) =~= b@);
    r
}

fn sort_range(v: &Vec<u64>, from: usize, to: usize) -> (r: Vec<u64>)
    requires
        from <= to <= v@.len(),
    ensures
        is_ascending(r@),
        r@.to_multiset() == v@.subrange(from as int, to as int).to_multiset(),
    decreases to - from,
{
    if to - from <= 1 {
        let mut r: Vec<u64> = Vec::new();
        if from < to {
            r.push(v[from]);
        }
        assert(r@ =~= v@.subrange(from as int, to as int));
        r
    } else {
        let mid: usize = from + (to - from) / 2;
        let a = sort_range(v, from, mid);
        let b = sort_range(v, mid, to);
        proof {
            let left = v@.subrange(from as int, mid as int);
            let right = v@.subrange(mid as int, to as int);
            assert(v@.subrange(from as int, to as int) =~= left + right);
            vstd::seq_lib::lemma_multiset_commutative(left, right);
        }
        merge(&a, &b)
    }
}

/// The samples of a vector in ascending order.
pub fn sort_ascending(v: &Vec<u64>) -> (r: Vec<u64>)
    ensures
        r@ == ascending(v@),
{
    let r = sort_range(v, 0, v.len());
    proof {
        assert(v@.subrange(0, v@.len() as int) =~= v@);
        lemma_ascending_unique(r@, v@);
    }
    r
}

} // verus!
