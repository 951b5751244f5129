use vstd::prelude::*;

pub mod insertion_sort;
pub mod quick_sort;

verus! {

/// Every element is at most each element after it.
pub open spec fn sorted(s: Seq<u32>) -> bool {
    forall|a: int, b: int| 0 <= a < b < s.len() ==> s[a] <= s[b]
}

/// `t` is `s` with the elements at `i` and `k` either kept or exchanged.
pub open spec fn exchanged(s: Seq<u32>, t: Seq<u32>, i: int, k: int) -> bool {
    &&& 0 <= i < s.len()
    &&& 0 <= k < s.len()
    &&& i != k
    &&& t == s.update(i, t[i]).update(k, t[k])
    &&& (t[i] == s[i] && t[k] == s[k]) || (t[i] == s[k] && t[k] == s[i])
}

/// Keeping or exchanging two elements keeps the multiset.
pub proof fn lemma_exchange_multiset(s: Seq<u32>, t: Seq<u32>, i: int, k: int)
    requires
        exchanged(s, t, i, k),
    ensures
        t.to_multiset() == s.to_multiset(),
{
    broadcast use vstd::multiset::group_multiset_axioms;

    let s1 = s.update(i, t[i]);
    vstd::seq_lib::to_multiset_update(s, i, t[i]);
    vstd::seq_lib::to_multiset_update(s1, k, t[k]);
    if t[i] == s[i] && t[k] == s[k] {
        assert(t =~= s);
    } else {
        vstd::seq_lib::to_multiset_contains(s, s[i]);
        assert(s.contains(s[i]));
        assert(s1[k] == s[k]);
        assert(t.to_multiset() =~= s.to_multiset());
    }
}

/// Exchanging two elements inside `[lo, hi)` keeps the multiset of that window.
pub proof fn lemma_exchange_window(s: Seq<u32>, t: Seq<u32>, i: int, k: int, lo: int, hi: int)
    requires
        exchanged(s, t, i, k),
        0 <= lo <= i < hi <= s.len(),
        lo <= k < hi,
    ensures
        t.subrange(lo, hi).to_multiset() == s.subrange(lo, hi).to_multiset(),
        forall|x: int| 0 <= x < s.len() && (x < lo || x >= hi) ==> t[x] == s[x],
{
    let ws = s.subrange(lo, hi);
    let wt = t.subrange(lo, hi);
    assert(wt =~= ws.update(i - lo, wt[i - lo]).update(k - lo, wt[k - lo]));
    lemma_exchange_multiset(ws, wt, i - lo, k - lo);
}

/// Sequences with one multiset share every bound on their elements.
pub proof fn lemma_bounds_follow_multiset(a: Seq<u32>, b: Seq<u32>, v: u32)
    requires
        a.to_multiset() == b.to_multiset(),
    ensures
        (forall|i: int| 0 <= i < a.len() ==> a[i] <= v) ==> (forall|j: int|
            0 <= j < b.len() ==> b[j] <= v),
        (forall|i: int| 0 <= i < a.len() ==> a[i] >= v) ==> (forall|j: int|
            0 <= j < b.len() ==> b[j] >= v),
{
    assert forall|j: int| 0 <= j < b.len() implies a.contains(b[j]) by {
        vstd::seq_lib::to_multiset_contains(b, b[j]);
        vstd::seq_lib::to_multiset_contains(a, b[j]);
        assert(b.contains(b[j]));
    }
}

/// A multiset has one ascending arrangement: two sorted sequences with the same
/// elements are equal. So both sorts give the same result on every input, and
/// on short regions quicksort, which hands them to insertion sort, cannot be told apart from it.
pub proof fn lemma_sorted_permutation_unique(a: Seq<u32>, b: Seq<u32>)
    requires
        sorted(a),
        sorted(b),
        a.to_multiset() == b.to_multiset(),
    ensures
        a == b,
    decreases a.len(),
{
    broadcast use vstd::multiset::group_multiset_axioms;

    vstd::seq_lib::to_multiset_len(a);
    vstd::seq_lib::to_multiset_len(b);
    if a.len() == 0 {
        assert(a =~= b);
    } else {
        vstd::seq_lib::to_multiset_contains(a, b[0]);
        vstd::seq_lib::to_multiset_contains(b, a[0]);
        vstd::seq_lib::to_multiset_contains(b, b[0]);
        vstd::seq_lib::to_multiset_contains(a, a[0]);
        assert(a.contains(a[0]));
        assert(b.contains(b[0]));
        let i = choose|i: int| 0 <= i < b.len() && b[i] == a[0];
        let k = choose|k: int| 0 <= k < a.len() && a[k] == b[0];
        assert(a[0] <= a[k]);
        assert(b[0] <= b[i]);
        assert(a[0] == b[0]);
        vstd::seq_lib::to_multiset_remove(a, 0);
        vstd::seq_lib::to_multiset_remove(b, 0);
        assert(a.remove(0) =~= a.drop_first());
        assert(b.remove(0) =~= b.drop_first());
        lemma_sorted_permutation_unique(a.drop_first(), b.drop_first());
        assert(a =~= seq![a[0]] + a.drop_first());
        assert(b =~= seq![b[0]] + b.drop_first());
    }
}

} // verus!
