use crate::algorithm::insertion_sort;
use crate::algorithm::{lemma_bounds_follow_multiset, lemma_exchange_window, sorted};
use crate::slice::Slice;
use vstd::prelude::*;

verus! {

/// Below this length a region is handed to insertion sort.
pub const QSORT_THRESHOLD: usize = 16;

/// Move the larger of two elements to the right; the flag says they were exchanged.
fn swap_on_rev(left: u32, right: u32) -> (r: (u32, u32, bool))
    ensures
        left > right ==> r == (right, left, true),
        left <= right ==> r == (left, right, false),
{
    if left > right {
        (right, left, true)
    } else {
        (left, right, false)
    }
}

/// `t` equals `s` outside `[lo, hi)`.
pub open spec fn same_outside(s: Seq<u32>, t: Seq<u32>, lo: int, hi: int) -> bool {
    &&& t.len() == s.len()
    &&& forall|x: int| 0 <= x < s.len() && (x < lo || x >= hi) ==> t[x] == s[x]
}

/// Widening a window: changing only `[mid, hi)` and keeping its multiset keeps
/// the multiset of `[lo, hi)`, and of `[mid, hi2)` for any `hi2` past it.
proof fn lemma_window_widen(a: Seq<u32>, b: Seq<u32>, lo: int, mid: int, hi: int, hi2: int)
    requires
        0 <= lo <= mid <= hi <= hi2 <= a.len(),
        same_outside(a, b, mid, hi),
        b.subrange(mid, hi).to_multiset() == a.subrange(mid, hi).to_multiset(),
    ensures
        b.subrange(lo, hi2).to_multiset() == a.subrange(lo, hi2).to_multiset(),
{
    assert(a.subrange(lo, hi2) =~= a.subrange(lo, mid) + a.subrange(mid, hi) + a.subrange(hi, hi2));
    assert(b.subrange(lo, hi2) =~= b.subrange(lo, mid) + b.subrange(mid, hi) + b.subrange(hi, hi2));
    assert(a.subrange(lo, mid) =~= b.subrange(lo, mid));
    assert(a.subrange(hi, hi2) =~= b.subrange(hi, hi2));
    vstd::seq_lib::lemma_multiset_commutative(a.subrange(lo, mid) + a.subrange(mid, hi), a.subrange(hi, hi2));
    vstd::seq_lib::lemma_multiset_commutative(a.subrange(lo, mid), a.subrange(mid, hi));
    vstd::seq_lib::lemma_multiset_commutative(b.subrange(lo, mid) + b.subrange(mid, hi), b.subrange(hi, hi2));
    vstd::seq_lib::lemma_multiset_commutative(b.subrange(lo, mid), b.subrange(mid, hi));
}

/// Place the last element `v` of the window `[lo, hi)` at its final position `p`:
/// scan forward against it; at the first larger element exchange the two and
/// hand the rest of the window, which now starts with `v`, to `part_right`.
fn part_left(slice: &mut Slice<u32>, lo: usize, hi: usize) -> (p: usize)
    requires
        old(slice).wf(),
        lo < hi <= old(slice)@.len(),
    ensures
        final(slice).wf(),
        final(slice).id() == old(slice).id(),
        final(slice).ancestry() == old(slice).ancestry(),
        lo <= p < hi,
        final(slice)@[p as int] == old(slice)@[hi - 1],
        same_outside(old(slice)@, final(slice)@, lo as int, hi as int),
        final(slice)@.subrange(lo as int, hi as int).to_multiset() == old(slice)@.subrange(
            lo as int,
            hi as int,
        ).to_multiset(),
        forall|x: int| lo <= x < p ==> final(slice)@[x] <= final(slice)@[p as int],
        forall|x: int| p < x < hi ==> final(slice)@[x] >= final(slice)@[p as int],
        (forall|x: int| lo <= x < hi ==> #[trigger] old(slice)@[x] <= old(slice)@[hi - 1]) ==> p == hi - 1
            && final(slice)@ == old(slice)@,
    decreases hi - lo, if old(slice)@[lo as int] > old(slice)@[hi - 1] { 1int } else { 0int },
{
    let ghost orig = slice@;
    let ghost orig_id = slice.id();
    let ghost orig_link = slice.ancestry();
    let last = hi - 1;
    let pivot = slice.index_of(last);
    let mut k: usize = lo;
    let mut found = false;
    while k < last && !found
        invariant
            lo <= k <= last < hi <= slice@.len(),
            slice.wf(),
            slice.id() == orig_id,
            slice.ancestry() == orig_link,
            pivot.pos() == last,
            slice.owns(pivot),
            forall|x: int| lo <= x < k ==> orig[x] <= orig[last as int],
            !found ==> slice@ == orig,
            found ==> k < last && orig[k as int] > orig[last as int] && slice@ == orig.update(
                k as int,
                orig[last as int],
            ).update(last as int, orig[k as int]),
        decreases last - k + if found { 0int } else { 1int },
    {
        let idx = slice.index_of(k);
        let cmp = slice.apply(idx, pivot, swap_on_rev);
        if cmp == Some(true) {
            found = true;
        } else {
            proof {
                assert(slice@ =~= orig);
            }
            k = k + 1;
        }
    }
    if found {
        let ghost swapped = slice@;
        proof {
            lemma_exchange_window(orig, swapped, k as int, last as int, lo as int, hi as int);
        }
        let p = part_right(slice, k, hi);
        proof {
            lemma_window_widen(swapped, slice@, lo as int, k as int, hi as int, hi as int);
        }
        p
    } else {
        last
    }
}

/// The mirror of `part_left`: place the first element `v` of `[lo, hi)`,
/// scanning backward against it; at the first smaller element exchange the two
/// and hand the front of the window, which now ends with `v`, to `part_left`.
fn part_right(slice: &mut Slice<u32>, lo: usize, hi: usize) -> (p: usize)
    requires
        old(slice).wf(),
        lo < hi <= old(slice)@.len(),
    ensures
        final(slice).wf(),
        final(slice).id() == old(slice).id(),
        final(slice).ancestry() == old(slice).ancestry(),
        lo <= p < hi,
        final(slice)@[p as int] == old(slice)@[lo as int],
        same_outside(old(slice)@, final(slice)@, lo as int, hi as int),
        final(slice)@.subrange(lo as int, hi as int).to_multiset() == old(slice)@.subrange(
            lo as int,
            hi as int,
        ).to_multiset(),
        forall|x: int| lo <= x < p ==> final(slice)@[x] <= final(slice)@[p as int],
        forall|x: int| p < x < hi ==> final(slice)@[x] >= final(slice)@[p as int],
        (forall|x: int| lo <= x < hi ==> #[trigger] old(slice)@[x] >= old(slice)@[lo as int]) ==> p == lo
            && final(slice)@ == old(slice)@,
    decreases hi - lo, if old(slice)@[lo as int] > old(slice)@[hi - 1] { 1int } else { 0int },
{
    let ghost orig = slice@;
    let ghost orig_id = slice.id();
    let ghost orig_link = slice.ancestry();
    let pivot = slice.index_of(lo);
    let mut k: usize = hi;
    let mut found = false;
    while k > lo + 1 && !found
        invariant
            lo + 1 <= k <= hi <= slice@.len(),
            slice.wf(),
            slice.id() == orig_id,
            slice.ancestry() == orig_link,
            pivot.pos() == lo,
            slice.owns(pivot),
            forall|x: int| k <= x < hi ==> orig[x] >= orig[lo as int],
            !found ==> slice@ == orig,
            found ==> orig[lo as int] > orig[k - 1] && slice@ == orig.update(
                lo as int,
                orig[k - 1],
            ).update(k - 1, orig[lo as int]),
        decreases k + if found { 0int } else { 1int },
    {
        let idx = slice.index_of(k - 1);
        let cmp = slice.apply(pivot, idx, swap_on_rev);
        if cmp == Some(true) {
            found = true;
        } else {
            proof {
                assert(slice@ =~= orig);
            }
            k = k - 1;
        }
    }
    if found {
        let ghost swapped = slice@;
        proof {
            lemma_exchange_window(orig, swapped, lo as int, k - 1, lo as int, hi as int);
        }
        let p = part_left(slice, lo, k);
        proof {
            lemma_window_widen(swapped, slice@, lo as int, lo as int, k as int, hi as int);
        }
        p
    } else {
        lo
    }
}

/// Sort the region in place, ascending. Regions shorter than the threshold go
/// to insertion sort. Longer ones are partitioned around their last element;
/// the region is split three ways at the pivot's place, each side is sorted in
/// turn, and the parts are joined back.
pub fn sort(slice: &mut Slice<u32>)
    requires
        old(slice).wf(),
    ensures
        final(slice).wf(),
        final(slice).id() == old(slice).id(),
        final(slice).ancestry() == old(slice).ancestry(),
        sorted(final(slice)@),
        final(slice)@.to_multiset() == old(slice)@.to_multiset(),
    decreases old(slice)@.len(),
{
    let n = slice.len();
    if n < QSORT_THRESHOLD {
        insertion_sort::sort(slice);
        return;
    }
    let ghost orig = slice@;
    let sep = part_left(slice, 0, n);
    proof {
        assert(orig.subrange(0, n as int) =~= orig);
        assert(slice@.subrange(0, n as int) =~= slice@);
    }
    let mut whole = match Slice::new(vec![0u32]) {
        Some(spare) => spare,
        None => {
            return;
        },
    };
    std::mem::swap(slice, &mut whole);
    let ghost parted = whole@;
    let ghost v = parted[sep as int];
    let point = whole.index_of(sep);
    proof {
        let anc = whole.ancestry();
        assert(whole.under(0).drop_last() =~= anc);
        assert(whole.under(sep + 1).drop_last() =~= anc);
    }
    let (left, mid, right) = whole.split_tri(point);
    let ghost l0 = Slice::seq_of(left);
    let ghost r0 = Slice::seq_of(right);
    let left = match left {
        Some(mut part) => {
            sort(&mut part);
            Some(part)
        },
        None => None,
    };
    let right = match right {
        Some(mut part) => {
            sort(&mut part);
            Some(part)
        },
        None => None,
    };
    let ghost l1 = Slice::seq_of(left);
    let ghost r1 = Slice::seq_of(right);
    proof {
        vstd::seq_lib::to_multiset_len(l0);
        vstd::seq_lib::to_multiset_len(l1);
        vstd::seq_lib::to_multiset_len(r0);
        vstd::seq_lib::to_multiset_len(r1);
    }
    let joined = Slice::join_tri(left, mid, right);
    *slice = joined;
    proof {
        assert(l0 =~= parted.subrange(0, sep as int));
        assert(r0 =~= parted.subrange(sep + 1, n as int));
        assert(forall|x: int| 0 <= x < l0.len() ==> l0[x] == parted[x]);
        assert(forall|x: int| 0 <= x < r0.len() ==> r0[x] == parted[x + sep + 1]);
        lemma_bounds_follow_multiset(l0, l1, v);
        lemma_bounds_follow_multiset(r0, r1, v);
        let w = slice@;
        assert(w =~= l1.push(v) + r1);
        assert forall|a: int, b: int| 0 <= a < b < w.len() implies w[a] <= w[b] by {
            if b < sep {
                assert(l1[a] <= l1[b]);
            } else if a > sep {
                assert(r1[a - sep - 1] <= r1[b - sep - 1]);
            }
        }
        assert(parted =~= l0.push(v) + r0);
        vstd::seq_lib::lemma_multiset_commutative(l0.push(v), r0);
        vstd::seq_lib::lemma_multiset_commutative(l1.push(v), r1);
        vstd::seq_lib::lemma_multiset_commutative(l0, seq![v]);
        vstd::seq_lib::lemma_multiset_commutative(l1, seq![v]);
        assert(l0.push(v) =~= l0 + seq![v]);
        assert(l1.push(v) =~= l1 + seq![v]);
    }
}

} // verus!
