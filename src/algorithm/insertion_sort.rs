use crate::algorithm::{lemma_exchange_multiset, sorted};
use crate::index::Index;
use crate::slice::Slice;
use itertools::Itertools;
use vstd::prelude::*;

verus! {

/// Relies on itertools' `tuple_windows`: every pair of neighbours of `v`, in order.
#[verifier::external_body]
fn adjacent_pairs(v: &Vec<Index>) -> (r: Vec<(Index, Index)>)
    ensures
        v@.len() == 0 ==> r@.len() == 0,
        v@.len() > 0 ==> r@.len() == v@.len() - 1,
        forall|u: int| 0 <= u < r@.len() ==> r@[u] == (v@[u], v@[u + 1]),
{
    v.iter().copied().tuple_windows::<(Index, Index)>().collect()
}

/// Put `right` before `left` when it is smaller; the flag says the pair was already in order.
fn keep_or_swap(right: u32, left: u32) -> (r: (u32, u32, bool))
    ensures
        right < left ==> r == (left, right, false),
        right >= left ==> r == (right, left, true),
{
    if right < left {
        (left, right, false)
    } else {
        (right, left, true)
    }
}

/// The tokens of `head` from last to first.
fn tokens_down(head: &Slice<u32>) -> (r: Vec<Index>)
    requires
        head.wf(),
    ensures
        r@.len() == head@.len(),
        forall|u: int|
            0 <= u < r@.len() ==> r@[u].pos() == head@.len() - 1 - u && head.owns(#[trigger] r@[u]),
{
    let m = head.len();
    let mut back = head.iter_rev();
    let mut order: Vec<Index> = Vec::new();
    while order.len() < m
        invariant
            m == head@.len(),
            order@.len() <= m,
            back.front() == m - order@.len(),
            back.length() == m,
            back.reversed(),
            back.origin() == head.id(),
            forall|u: int|
                0 <= u < order@.len() ==> order@[u].pos() == m - 1 - u && head.owns(
                    #[trigger] order@[u],
                ),
        decreases m - order@.len(),
    {
        match back.next() {
            Some(t) => order.push(t),
            None => {},
        }
    }
    order
}

/// Move the last element of `head` left past every larger one, the rest being sorted.
fn insert_last(head: Slice<u32>) -> (r: Slice<u32>)
    requires
        head.wf(),
        forall|a: int, b: int| 0 <= a < b < head@.len() - 1 ==> head@[a] <= head@[b],
    ensures
        r.wf(),
        r.id() == head.id(),
        r.ancestry() == head.ancestry(),
        sorted(r@),
        r@.to_multiset() == head@.to_multiset(),
{
    let mut head = head;
    let ghost orig = head@;
    let ghost id = head.id();
    let ghost anc = head.ancestry();
    let m = head.len();
    let i = m - 1;
    let pairs = adjacent_pairs(&tokens_down(&head));
    let mut w: usize = 0;
    let mut j: usize = i;
    let mut stop = false;
    while w < pairs.len() && !stop
        invariant
            pairs@.len() == i,
            forall|u: int|
                0 <= u < i ==> (#[trigger] pairs@[u]).0.pos() == i - u && pairs@[u].1.pos() == i
                    - u - 1 && pairs@[u].0.origin() == id && pairs@[u].1.origin() == id,
            w <= i,
            j == i - w,
            stop ==> w < i,
            i + 1 == m,
            m == head@.len(),
            head.wf(),
            head.id() == id,
            head.ancestry() == anc,
            forall|a: int, b: int| 0 <= a < b <= i && a != j && b != j ==> head@[a] <= head@[b],
            forall|b: int| j < b <= i ==> head@[j as int] <= head@[b],
            stop ==> j > 0 && head@[j - 1] <= head@[j as int],
            head@.to_multiset() == orig.to_multiset(),
        decreases i - w + if stop { 0int } else { 1int },
    {
        let (right, left) = pairs[w];
        let ghost before = head@;
        let done = head.apply(right, left, keep_or_swap);
        proof {
            assert(head@ == before.update(j as int, head@[j as int]).update(j - 1, head@[j - 1]));
            lemma_exchange_multiset(before, head@, j as int, j - 1);
        }
        match done {
            Some(true) => {
                stop = true;
            },
            _ => {
                j = j - 1;
                w = w + 1;
            },
        }
    }
    head
}

/// Sort the region in place, ascending. For each position in turn the region
/// is split after it, the new element is moved left past every larger one in
/// the front part, and the parts are joined back. Equal elements are never
/// exchanged.
pub fn sort(slice: &mut Slice<u32>)
    requires
        old(slice).wf(),
    ensures
        final(slice).wf(),
        final(slice).id() == old(slice).id(),
        final(slice).ancestry() == old(slice).ancestry(),
        sorted(final(slice)@),
        final(slice)@.to_multiset() == old(slice)@.to_multiset(),
{
    let ghost orig = slice@;
    let ghost id = slice.id();
    let ghost anc = slice.ancestry();
    let n = slice.len();
    let mut region = match Slice::new(vec![0u32]) {
        Some(spare) => spare,
        None => {
            return;
        },
    };
    std::mem::swap(slice, &mut region);
    let mut walk = region.iter();
    let mut i: usize = 0;
    while i < n
        invariant
            i <= n,
            n == region@.len(),
            region.wf(),
            region.id() == id,
            region.ancestry() == anc,
            walk.front() == i,
            walk.length() == n,
            !walk.reversed(),
            walk.origin() == id,
            forall|a: int, b: int| 0 <= a < b < i ==> region@[a] <= region@[b],
            region@.to_multiset() == orig.to_multiset(),
        decreases n - i,
    {
        match walk.next() {
            Some(idx) => {
                let ghost before = region@;
                proof {
                    assert(region.under(0).drop_last() =~= anc);
                    assert(region.under(idx.pos() + 1).drop_last() =~= anc);
                }
                let (head, tail) = region.split_left(idx);
                let ghost h0 = head@;
                let head = insert_last(head);
                let ghost h1 = head@;
                proof {
                    vstd::seq_lib::to_multiset_len(h0);
                    vstd::seq_lib::to_multiset_len(h1);
                }
                region = match tail {
                    Some(t) => {
                        let ghost t0 = t@;
                        let joined = Slice::join(head, t);
                        proof {
                            assert(before =~= h0 + t0);
                            vstd::seq_lib::lemma_multiset_commutative(h0, t0);
                            vstd::seq_lib::lemma_multiset_commutative(h1, t0);
                        }
                        joined
                    },
                    None => {
                        proof {
                            assert(before =~= h0);
                        }
                        head.into_parent()
                    },
                };
                proof {
                    assert forall|a: int, b: int| 0 <= a < b < i + 1 implies region@[a]
                        <= region@[b] by {
                        assert(region@[a] == h1[a]);
                        assert(region@[b] == h1[b]);
                    }
                }
            },
            None => {},
        }
        i = i + 1;
    }
    std::mem::swap(slice, &mut region);
}

} // verus!
