use crate::index::{Index, Iter};
use snowflake::ProcessUniqueId;
use vstd::prelude::*;

verus! {

/// One step up the lineage of a region: where the region sits in its parent,
/// and the parent's tag and length.
#[derive(Clone, Copy)]
struct Parent {
    offset: usize,
    tag: ProcessUniqueId,
    len: usize,
}

/// Relies on snowflake's `ProcessUniqueId::new`, which never hands out a value
/// twice in a process: the new tag differs from every tag made before it,
/// those in `seen` among them.
#[verifier::external_body]
fn fresh_tag(seen: &Vec<ProcessUniqueId>) -> (r: ProcessUniqueId)
    ensures
        forall|i: int| 0 <= i < seen@.len() ==> r != seen@[i],
{
    ProcessUniqueId::new()
}

/// The offsets of the steps of `a` from `from` to its end, added up.
pub open spec fn offset_sum(a: Seq<(int, ProcessUniqueId, int)>, from: int) -> int
    decreases a.len() - from,
{
    if from < 0 || from >= a.len() {
        0
    } else {
        a[from].0 + offset_sum(a, from + 1)
    }
}

/// Each step of `lineage` holds a region of the length that the next step
/// (or, for the last step, `len`) gives, starting at its offset.
spec fn chain_ok(lineage: Seq<Parent>, len: int) -> bool {
    forall|k: int|
        0 <= k < lineage.len() ==> #[trigger] lineage[k].offset + (if k + 1 < lineage.len() {
            lineage[k + 1].len as int
        } else {
            len
        }) <= lineage[k].len
}

spec fn steps(lineage: Seq<Parent>) -> Seq<(int, ProcessUniqueId, int)> {
    lineage.map_values(|p: Parent| (p.offset as int, p.tag, p.len as int))
}

fn copy_lineage(v: &Vec<Parent>) -> (r: Vec<Parent>)
    ensures
        r@ == v@,
{
    let mut r: Vec<Parent> = Vec::new();
    let mut i: usize = 0;
    while i < v.len()
        invariant
            i <= v@.len(),
            r@ == v@.subrange(0, i as int),
        decreases v@.len() - i,
    {
        r.push(v[i]);
        i = i + 1;
    }
    proof {
        assert(r@ =~= v@);
    }
    r
}

/// An exclusive, non-empty run of elements that can be split into sub-regions
/// and joined back into the region they came from.
pub struct Slice<T> {
    value: Vec<T>,
    lineage: Vec<Parent>,
    tag: ProcessUniqueId,
}

impl<T> View for Slice<T> {
    type V = Seq<T>;

    closed spec fn view(&self) -> Seq<T> {
        self.value@
    }
}

impl<T> Slice<T> {
    /// The tag that tokens minted by this region carry.
    pub closed spec fn id(&self) -> ProcessUniqueId {
        self.tag
    }

    /// The ancestors of this region, outermost first: for each, the offset of
    /// the next region inside it, its tag and its length.
    pub closed spec fn ancestry(&self) -> Seq<(int, ProcessUniqueId, int)> {
        steps(self.lineage@)
    }

    /// The offset of this region in its parent and the parent's tag, if any.
    pub open spec fn link(&self) -> Option<(int, ProcessUniqueId)> {
        if self.ancestry().len() > 0 {
            Some((self.ancestry().last().0, self.ancestry().last().1))
        } else {
            None
        }
    }

    /// A region is never empty, and each region of its lineage lies inside its parent.
    pub closed spec fn wf(&self) -> bool {
        &&& self.value@.len() > 0
        &&& chain_ok(self.lineage@, self.value@.len() as int)
    }

    /// A token of this region for the given offset.
    pub open spec fn owns(&self, idx: Index) -> bool {
        idx.origin() == self.id() && idx.pos() < self@.len()
    }

    /// A new region over `value`, or `None` when `value` is empty.
    pub fn new(value: Vec<T>) -> (r: Option<Self>)
        ensures
            value@.len() == 0 <==> r is None,
            r matches Some(s) ==> s.wf() && s@ == value@ && s.ancestry().len() == 0,
    {
        if value.len() == 0 {
            None
        } else {
            let lineage: Vec<Parent> = Vec::new();
            let tag = fresh_tag(&Vec::new());
            proof {
                assert(steps(lineage@) =~= Seq::empty());
            }
            Some(Slice { value, lineage, tag })
        }
    }

    /// A sub-region at `offset` of a region with lineage `lineage`, tag `tag`
    /// and length `plen`, with a tag other than `tag` and `other`.
    fn child(
        value: Vec<T>,
        offset: usize,
        lineage: Vec<Parent>,
        tag: ProcessUniqueId,
        plen: usize,
        other: ProcessUniqueId,
    ) -> (r: Self)
        requires
            value@.len() > 0,
            offset + value@.len() <= plen,
            chain_ok(lineage@, plen as int),
        ensures
            r.wf(),
            r@ == value@,
            r.ancestry() == steps(lineage@).push((offset as int, tag, plen as int)),
            r.id() != tag,
            r.id() != other,
    {
        let mut lineage = lineage;
        let ghost old_lineage = lineage@;
        lineage.push(Parent { offset, tag, len: plen });
        let seen = vec![tag, other];
        let fresh = fresh_tag(&seen);
        proof {
            assert(seen@[0] == tag && seen@[1] == other);
            assert(steps(lineage@) =~= steps(old_lineage).push((offset as int, tag, plen as int)));
            assert forall|k: int| 0 <= k < lineage@.len() implies #[trigger] lineage@[k].offset + (
            if k + 1 < lineage@.len() {
                lineage@[k + 1].len as int
            } else {
                value@.len() as int
            }) <= lineage@[k].len by {
                if k + 1 < lineage@.len() {
                    assert(old_lineage[k] == lineage@[k]);
                }
            }
        }
        Slice { value, lineage, tag: fresh }
    }

    pub(crate) fn index_of(&self, value: usize) -> (r: Index)
        requires
            value < self@.len(),
        ensures
            self.owns(r),
            r.pos() == value,
    {
        Index::at(value, self.tag)
    }

    /// The element at `idx`.
    pub fn index(&self, idx: Index) -> (r: &T)
        requires
            self.owns(idx),
        ensures
            *r == self@[idx.pos() as int],
    {
        &self.value[idx.offset()]
    }

    /// The element at `idx` when the token belongs to this region; `None` for
    /// a token minted by another region.
    pub fn get(&self, idx: Index) -> (r: Option<&T>)
        ensures
            self.owns(idx) <==> r is Some,
            r matches Some(x) ==> *x == self@[idx.pos()],
    {
        if idx.tag_of() == self.tag && idx.offset() < self.value.len() {
            Some(&self.value[idx.offset()])
        } else {
            None
        }
    }

    /// Mutable access to the element at `idx`.
    pub fn index_mut(&mut self, idx: Index) -> (r: &mut T)
        requires
            old(self).owns(idx),
        ensures
            *r == old(self)@[idx.pos() as int],
            final(self)@ == old(self)@.update(idx.pos() as int, *final(r)),
            final(self).id() == old(self).id(),
            final(self).ancestry() == old(self).ancestry(),
            old(self).wf() ==> final(self).wf(),
    {
        &mut self.value[idx.offset()]
    }

    /// Translate a token of this region into one of its parent; identity without a parent.
    pub fn parent_idx(&self, idx: Index) -> (r: Index)
        requires
            self.wf(),
            self.owns(idx),
        ensures
            self.link() is None ==> r == idx,
            self.link() matches Some((off, tag)) ==> r.pos() == idx.pos() + off && r.origin()
                == tag,
    {
        let n = self.lineage.len();
        if n == 0 {
            idx
        } else {
            let parent = self.lineage[n - 1];
            proof {
                assert(self.lineage@[n - 1].offset + self.value@.len() <= self.lineage@[n - 1].len);
            }
            Index::at(idx.offset() + parent.offset, parent.tag)
        }
    }

    /// Translate a token of this region into one of the ancestor at `level`
    /// (0 is the outermost), adding the offset of every step in between: the
    /// same as applying `parent_idx` once per level.
    pub fn ancestor_idx(&self, idx: Index, level: usize) -> (r: Index)
        requires
            self.wf(),
            self.owns(idx),
            level < self.ancestry().len(),
        ensures
            r.origin() == self.ancestry()[level as int].1,
            r.pos() == idx.pos() + offset_sum(self.ancestry(), level as int),
            r.pos() < self.ancestry()[level as int].2,
    {
        let n = self.lineage.len();
        let mut k: usize = n;
        let mut cur: usize = idx.offset();
        while k > level
            invariant
                level <= k <= n,
                n == self.lineage@.len(),
                self.wf(),
                cur == idx.pos() + offset_sum(self.ancestry(), k as int),
                k == n ==> cur < self.value@.len(),
                k < n ==> cur < self.lineage@[k as int].len,
            decreases k,
        {
            let step = self.lineage[k - 1];
            proof {
                assert(self.lineage@[k - 1].offset + (if k < n {
                    self.lineage@[k as int].len as int
                } else {
                    self.value@.len() as int
                }) <= self.lineage@[k - 1].len);
                assert(self.ancestry()[k - 1].0 == step.offset);
            }
            cur = cur + step.offset;
            k = k - 1;
        }
        let top = self.lineage[level];
        Index::at(cur, top.tag)
    }

    pub fn len(&self) -> (r: usize)
        ensures
            r == self@.len(),
            self.wf() ==> r > 0,
    {
        self.value.len()
    }

    pub fn as_slice(&self) -> (r: &[T])
        ensures
            r@ == self@,
    {
        self.value.as_slice()
    }

    pub fn as_mut_slice(&mut self) -> (r: &mut [T])
        ensures
            r@ == old(self)@,
            final(self)@ == final(r)@,
            final(self).id() == old(self).id(),
            final(self).ancestry() == old(self).ancestry(),
    {
        self.value.as_mut_slice()
    }

    pub fn first_idx(&self) -> (r: Index)
        requires
            self.wf(),
        ensures
            self.owns(r),
            r.pos() == 0,
    {
        self.index_of(0)
    }

    pub fn last_idx(&self) -> (r: Index)
        requires
            self.wf(),
        ensures
            self.owns(r),
            r.pos() == self@.len() - 1,
    {
        self.index_of(self.len() - 1)
    }

    pub fn middle_idx(&self) -> (r: Index)
        requires
            self.wf(),
        ensures
            self.owns(r),
            r.pos() == self@.len() as int / 2,
    {
        self.index_of(self.len() / 2)
    }

    /// Positions from first to last.
    pub fn iter(&self) -> (r: Iter)
        ensures
            r.front() == 0,
            r.length() == self@.len(),
            !r.reversed(),
            r.origin() == self.id(),
    {
        Iter::new(self.len(), 0, false, self.tag)
    }

    /// Positions from last to first.
    pub fn iter_rev(&self) -> (r: Iter)
        ensures
            r.front() == self@.len(),
            r.length() == self@.len(),
            r.reversed(),
            r.origin() == self.id(),
    {
        Iter::new(self.len(), self.len(), true, self.tag)
    }

    pub fn first(&mut self) -> (r: &mut T)
        requires
            old(self).wf(),
        ensures
            *r == old(self)@[0],
            final(self)@ == old(self)@.update(0, *final(r)),
    {
        let idx = self.first_idx();
        self.index_mut(idx)
    }

    pub fn last(&mut self) -> (r: &mut T)
        requires
            old(self).wf(),
        ensures
            *r == old(self)@[old(self)@.len() - 1],
            final(self)@ == old(self)@.update(old(self)@.len() - 1, *final(r)),
    {
        let idx = self.last_idx();
        self.index_mut(idx)
    }

    pub fn middle(&mut self) -> (r: &mut T)
        requires
            old(self).wf(),
        ensures
            *r == old(self)@[old(self)@.len() as int / 2],
            final(self)@ == old(self)@.update(old(self)@.len() as int / 2, *final(r)),
    {
        let idx = self.middle_idx();
        self.index_mut(idx)
    }

    /// The one element of the region, consuming it.
    pub fn into_first(self) -> (r: T)
        requires
            self.wf(),
        ensures
            r == self@[0],
    {
        let mut value = self.value;
        value.swap_remove(0)
    }

    /// The ancestry that a part of this region starting at `offset` has.
    pub open spec fn under(&self, offset: int) -> Seq<(int, ProcessUniqueId, int)> {
        self.ancestry().push((offset, self.id(), self@.len() as int))
    }

    /// Split into `[0, point]` and, if anything is left, `(point, len)`.
    /// Each part gets a tag of its own, other than this region's and its sibling's.
    pub fn split_left(self, point: Index) -> (r: (Self, Option<Self>))
        requires
            self.wf(),
            self.owns(point),
        ensures
            r.0.wf(),
            r.0@ == self@.subrange(0, point.pos() + 1),
            r.0.ancestry() == self.under(0),
            r.0.id() != self.id(),
            point.pos() + 1 == self@.len() <==> r.1 is None,
            r.1 matches Some(t) ==> t.wf() && t@ == self@.subrange(point.pos() + 1, self@.len()
                as int) && t.ancestry() == self.under(point.pos() + 1) && t.id() != self.id()
                && t.id() != r.0.id(),
    {
        let tag = self.tag;
        let lineage = self.lineage;
        let second = copy_lineage(&lineage);
        let mut head = self.value;
        let n = head.len();
        let tail = head.split_off(point.offset() + 1);
        let left = Self::child(head, 0, lineage, tag, n, tag);
        if point.offset() + 1 == n {
            (left, None)
        } else {
            let other = left.tag;
            (left, Some(Self::child(tail, point.offset() + 1, second, tag, n, other)))
        }
    }

    /// Split into `[0, point)`, if `point > 0`, and `[point, len)`.
    /// Each part gets a tag of its own, other than this region's and its sibling's.
    pub fn split_right(self, point: Index) -> (r: (Option<Self>, Self))
        requires
            self.wf(),
            self.owns(point),
        ensures
            point.pos() == 0 <==> r.0 is None,
            r.0 matches Some(h) ==> h.wf() && h@ == self@.subrange(0, point.pos() as int)
                && h.ancestry() == self.under(0) && h.id() != self.id() && h.id() != r.1.id(),
            r.1.wf(),
            r.1@ == self@.subrange(point.pos() as int, self@.len() as int),
            r.1.ancestry() == self.under(point.pos()),
            r.1.id() != self.id(),
    {
        let tag = self.tag;
        let lineage = self.lineage;
        let second = copy_lineage(&lineage);
        let mut head = self.value;
        let n = head.len();
        let tail = head.split_off(point.offset());
        assert(tail@.len() == n - point.pos());
        let right = Self::child(tail, point.offset(), lineage, tag, n, tag);
        if point.offset() == 0 {
            (None, right)
        } else {
            let other = right.tag;
            (Some(Self::child(head, 0, second, tag, n, other)), right)
        }
    }

    /// Split into `[0, point)`, the element at `point`, and `(point, len)`.
    /// Each part gets a tag of its own, other than this region's and its sibling's.
    pub fn split_tri(self, point: Index) -> (r: (Option<Self>, T, Option<Self>))
        requires
            self.wf(),
            self.owns(point),
        ensures
            point.pos() == 0 <==> r.0 is None,
            r.0 matches Some(h) ==> h.wf() && h@ == self@.subrange(0, point.pos() as int)
                && h.ancestry() == self.under(0) && h.id() != self.id(),
            r.1 == self@[point.pos() as int],
            point.pos() + 1 == self@.len() <==> r.2 is None,
            r.2 matches Some(t) ==> t.wf() && t@ == self@.subrange(point.pos() + 1, self@.len()
                as int) && t.ancestry() == self.under(point.pos() + 1) && t.id() != self.id(),
            r.0 matches Some(h) ==> (r.2 matches Some(t) ==> h.id() != t.id()),
    {
        let tag = self.tag;
        let lineage = self.lineage;
        let second = copy_lineage(&lineage);
        let mut head = self.value;
        let n = head.len();
        let mut tail = head.split_off(point.offset());
        let rest = tail.split_off(1);
        let mid = tail.swap_remove(0);
        let left = if point.offset() == 0 {
            None
        } else {
            Some(Self::child(head, 0, lineage, tag, n, tag))
        };
        let other = match &left {
            Some(h) => h.tag,
            None => tag,
        };
        let right = if point.offset() + 1 == n {
            None
        } else {
            Some(Self::child(rest, point.offset() + 1, second, tag, n, other))
        };
        (left, mid, right)
    }

    /// Put back together two adjacent parts that one split made: the result has
    /// the elements of both, the parent's tag and the parent's own ancestry, so
    /// the parent's tokens work on it again.
    pub fn join(head: Self, tail: Self) -> (r: Self)
        requires
            head.wf(),
            tail.wf(),
            head.ancestry().len() > 0,
            Self::same_parent(tail.ancestry(), head.ancestry()),
            head.ancestry().last().0 == 0,
            tail.ancestry().last().0 == head@.len(),
            head@.len() + tail@.len() == head.ancestry().last().2,
        ensures
            r.wf(),
            r@ == head@ + tail@,
            r.id() == head.ancestry().last().1,
            r.ancestry() == head.ancestry().drop_last(),
    {
        let mut value = head.value;
        let mut rest = tail.value;
        value.append(&mut rest);
        Self::restore(value, head.lineage)
    }

    /// Give back the parent of a part that covers all of it (a split whose other
    /// part was empty).
    pub fn into_parent(self) -> (r: Self)
        requires
            self.wf(),
            self.ancestry().len() > 0,
            self.ancestry().last().0 == 0,
            self@.len() == self.ancestry().last().2,
        ensures
            r.wf(),
            r@ == self@,
            r.id() == self.ancestry().last().1,
            r.ancestry() == self.ancestry().drop_last(),
    {
        Self::restore(self.value, self.lineage)
    }

    /// Two ancestries that name one parent, whatever the offsets in it.
    pub open spec fn same_parent(
        a: Seq<(int, ProcessUniqueId, int)>,
        b: Seq<(int, ProcessUniqueId, int)>,
    ) -> bool {
        &&& a.len() == b.len()
        &&& a.len() > 0
        &&& a.drop_last() == b.drop_last()
        &&& a.last().1 == b.last().1
        &&& a.last().2 == b.last().2
    }

    /// The elements of an optional part; none for an absent one.
    pub open spec fn seq_of(part: Option<Self>) -> Seq<T> {
        match part {
            Some(s) => s@,
            None => Seq::empty(),
        }
    }

    /// The ancestry shared by the parts of a three-way split.
    pub open spec fn joint(left: Option<Self>, right: Option<Self>) -> Seq<
        (int, ProcessUniqueId, int),
    > {
        match left {
            Some(h) => h.ancestry(),
            None => match right {
                Some(t) => t.ancestry(),
                None => Seq::empty(),
            },
        }
    }

    /// Put back together what `split_tri` made, with the middle element
    /// between the two parts; at least one part must be present to name the parent.
    pub fn join_tri(left: Option<Self>, mid: T, right: Option<Self>) -> (r: Self)
        requires
            left is Some || right is Some,
            Self::joint(left, right).len() > 0,
            left matches Some(h) ==> h.wf() && h.ancestry().last().0 == 0,
            right matches Some(t) ==> t.wf() && Self::same_parent(t.ancestry(), Self::joint(left, right))
                && t.ancestry().last().0 == Self::seq_of(left).len() + 1,
            Self::seq_of(left).len() + 1 + Self::seq_of(right).len() == Self::joint(
                left,
                right,
            ).last().2,
        ensures
            r.wf(),
            r@ == Self::seq_of(left).push(mid) + Self::seq_of(right),
            r.id() == Self::joint(left, right).last().1,
            r.ancestry() == Self::joint(left, right).drop_last(),
    {
        let ghost lseq = Self::seq_of(left);
        let ghost rseq = Self::seq_of(right);
        let ghost joint = Self::joint(left, right);
        let (mut value, from_left) = match left {
            Some(h) => (h.value, Some(h.lineage)),
            None => (Vec::new(), None),
        };
        value.push(mid);
        let lineage = match right {
            Some(t) => {
                let mut rest = t.value;
                value.append(&mut rest);
                match from_left {
                    Some(l) => l,
                    None => t.lineage,
                }
            },
            None => match from_left {
                Some(l) => l,
                None => Vec::new(),
            },
        };
        proof {
            assert(value@ =~= lseq.push(mid) + rseq);
            assert(steps(lineage@) == joint);
            assert(lineage@.len() == joint.len());
            assert(lineage@.last().len == joint.last().2);
        }
        Self::restore(value, lineage)
    }

    fn restore(value: Vec<T>, lineage: Vec<Parent>) -> (r: Self)
        requires
            lineage@.len() > 0,
            value@.len() > 0,
            value@.len() == lineage@.last().len,
            forall|k: int|
                0 <= k < lineage@.len() - 1 ==> #[trigger] lineage@[k].offset + lineage@[k
                    + 1].len <= lineage@[k].len,
        ensures
            r.wf(),
            r@ == value@,
            r.id() == lineage@.last().tag,
            r.ancestry() == steps(lineage@).drop_last(),
    {
        let mut lineage = lineage;
        let ghost full = lineage@;
        let n = lineage.len();
        let last = lineage[n - 1];
        lineage.pop();
        proof {
            assert(lineage@ =~= full.drop_last());
            assert(steps(lineage@) =~= steps(full).drop_last());
            assert forall|k: int| 0 <= k < lineage@.len() implies #[trigger] lineage@[k].offset + (
            if k + 1 < lineage@.len() {
                lineage@[k + 1].len as int
            } else {
                value@.len() as int
            }) <= lineage@[k].len by {
                assert(full[k] == lineage@[k]);
                assert(full[k + 1].len == (if k + 1 < lineage@.len() {
                    lineage@[k + 1].len as int
                } else {
                    value@.len() as int
                }));
            }
        }
        Slice { value, lineage, tag: last.tag }
    }

    /// The first element and, if any, the region after it.
    pub fn split_first(self) -> (r: (T, Option<Self>))
        requires
            self.wf(),
        ensures
            r.0 == self@[0],
            self@.len() == 1 <==> r.1 is None,
            r.1 matches Some(t) ==> t.wf() && t@ == self@.subrange(1, self@.len() as int)
                && t.ancestry() == self.under(1),
    {
        let idx = self.first_idx();
        let (head, tail) = self.split_left(idx);
        (head.into_first(), tail)
    }

    /// The region before the last element, if any, and the last element.
    pub fn split_last(self) -> (r: (Option<Self>, T))
        requires
            self.wf(),
        ensures
            self@.len() == 1 <==> r.0 is None,
            r.0 matches Some(h) ==> h.wf() && h@ == self@.subrange(0, self@.len() - 1) && h.ancestry()
                == self.under(0),
            r.1 == self@[self@.len() - 1],
    {
        let idx = self.last_idx();
        let (head, tail) = self.split_right(idx);
        (head, tail.into_first())
    }
}

impl<T: Copy> Slice<T> {
    /// Hand the elements at `left` and `right` to `f` and store what it gives back.
    /// The same position twice gives `None` and changes nothing.
    pub fn apply<F, U>(&mut self, left: Index, right: Index, f: F) -> (r: Option<U>) where
        F: FnOnce(T, T) -> (T, T, U),
        requires
            old(self).owns(left),
            old(self).owns(right),
            left.pos() != right.pos() ==> f.requires(
                (old(self)@[left.pos() as int], old(self)@[right.pos() as int]),
            ),
        ensures
            final(self).id() == old(self).id(),
            final(self).ancestry() == old(self).ancestry(),
            old(self).wf() ==> final(self).wf(),
            left.pos() == right.pos() <==> r is None,
            r is None ==> final(self)@ == old(self)@,
            r matches Some(u) ==> f.ensures(
                (old(self)@[left.pos() as int], old(self)@[right.pos() as int]),
                (final(self)@[left.pos() as int], final(self)@[right.pos() as int], u),
            ) && final(self)@ == old(self)@.update(
                left.pos() as int,
                final(self)@[left.pos() as int],
            ).update(right.pos() as int, final(self)@[right.pos() as int]),
    {
        if left.offset() == right.offset() {
            None
        } else {
            let a = self.value[left.offset()];
            let b = self.value[right.offset()];
            let (a2, b2, u) = f(a, b);
            self.value.set(left.offset(), a2);
            self.value.set(right.offset(), b2);
            Some(u)
        }
    }
}

/// A position `i` of a sub-region that was split off at `off` designates the
/// same element as position `i + off` of its parent.
pub proof fn lemma_translate_same_element<T>(parent: Seq<T>, child: Seq<T>, off: int, i: int)
    requires
        0 <= off,
        off + child.len() <= parent.len(),
        child == parent.subrange(off, off + child.len()),
        0 <= i < child.len(),
    ensures
        0 <= i + off < parent.len(),
        child[i] == parent[i + off],
{
}

/// Splits nest: a sub-region at `inner` of a sub-region at `outer` is the
/// sub-region at `inner + outer` of the ancestor, so translating once per level
/// adds up the offsets of the whole chain.
pub proof fn lemma_translate_chain<T>(top: Seq<T>, mid: Seq<T>, low: Seq<T>, outer: int, inner: int)
    requires
        0 <= outer,
        0 <= inner,
        outer + mid.len() <= top.len(),
        inner + low.len() <= mid.len(),
        mid == top.subrange(outer, outer + mid.len()),
        low == mid.subrange(inner, inner + low.len()),
    ensures
        low == top.subrange(inner + outer, inner + outer + low.len()),
{
    assert(low =~= top.subrange(inner + outer, inner + outer + low.len()));
}

} // verus!
