use snowflake::ProcessUniqueId;
use vstd::prelude::*;

verus! {

/// The identifier type of snowflake, used as the provenance tag of a region.
#[verifier::external_type_specification]
#[verifier::external_body]
pub struct ExProcessUniqueId(ProcessUniqueId);

/// Relies on the `PartialEq` that snowflake derives for `ProcessUniqueId`:
/// two tags compare equal exactly when all their fields are equal.
pub assume_specification[ <ProcessUniqueId as PartialEq>::eq ](
    a: &ProcessUniqueId,
    b: &ProcessUniqueId,
) -> (r: bool)
    ensures
        r == (*a == *b),
;

/// A position inside one region, tagged with the region that minted it.
#[derive(Clone, Copy)]
pub struct Index {
    pub(crate) value: usize,
    pub(crate) tag: ProcessUniqueId,
}

impl Index {
    /// The offset this token designates.
    pub closed spec fn pos(&self) -> int {
        self.value as int
    }

    /// The tag of the region that minted this token.
    pub closed spec fn origin(&self) -> ProcessUniqueId {
        self.tag
    }

    pub(crate) fn at(value: usize, tag: ProcessUniqueId) -> (r: Self)
        ensures
            r.pos() == value,
            r.origin() == tag,
    {
        Index { value, tag }
    }

    pub(crate) fn tag_of(&self) -> (r: ProcessUniqueId)
        ensures
            r == self.origin(),
    {
        self.tag
    }

    pub fn offset(&self) -> (r: usize)
        ensures
            r == self.pos(),
    {
        self.value
    }
}

/// An offset is never negative.
pub broadcast proof fn lemma_pos_natural(i: Index)
    ensures
        #[trigger] i.pos() >= 0,
{
}

/// Tokens compare by offset alone: they are compared only within one region.
impl PartialEq for Index {
    fn eq(&self, rhs: &Index) -> (r: bool) {
        self.value == rhs.value
    }
}

impl vstd::std_specs::cmp::PartialEqSpecImpl for Index {
    open spec fn obeys_eq_spec() -> bool {
        true
    }

    open spec fn eq_spec(&self, rhs: &Index) -> bool {
        self.pos() == rhs.pos()
    }
}

/// Enumerates the positions `0..length` of one region; a reversed one hands
/// them out from the back when asked for the next.
pub struct Iter {
    length: usize,
    current: usize,
    reversed: bool,
    tag: ProcessUniqueId,
}

/// `r` is the position just after `old`'s cursor, which moved up past it.
pub open spec fn stepped_up(old: Iter, new: Iter, r: Option<Index>) -> bool {
    &&& old.front() == old.length() ==> r is None && new.front() == old.front()
    &&& old.front() < old.length() ==> (r matches Some(i) && i.pos() == old.front() && i.origin()
        == old.origin() && new.front() == old.front() + 1)
}

/// `r` is the position just before `old`'s cursor, which moved down onto it.
pub open spec fn stepped_down(old: Iter, new: Iter, r: Option<Index>) -> bool {
    &&& old.front() == 0 ==> r is None && new.front() == 0
    &&& old.front() > 0 ==> (r matches Some(i) && i.pos() == old.front() - 1 && i.origin()
        == old.origin() && new.front() == old.front() - 1)
}

impl Iter {
    /// The cursor: positions below it come from the back, those from it on from the front.
    pub closed spec fn front(&self) -> int {
        self.current as int
    }

    pub closed spec fn length(&self) -> int {
        self.length as int
    }

    pub closed spec fn reversed(&self) -> bool {
        self.reversed
    }

    pub closed spec fn origin(&self) -> ProcessUniqueId {
        self.tag
    }

    pub(crate) fn new(length: usize, current: usize, reversed: bool, tag: ProcessUniqueId) -> (r:
        Self)
        requires
            current <= length,
        ensures
            r.front() == current,
            r.length() == length,
            r.reversed() == reversed,
            r.origin() == tag,
    {
        Iter { length, current, reversed, tag }
    }

    fn up(&mut self) -> (r: Option<Index>)
        requires
            old(self).front() <= old(self).length(),
        ensures
            final(self).length() == old(self).length(),
            final(self).origin() == old(self).origin(),
            final(self).reversed() == old(self).reversed(),
            final(self).front() <= final(self).length(),
            stepped_up(*old(self), *final(self), r),
    {
        if self.current == self.length {
            None
        } else {
            let value = self.current;
            self.current = self.current + 1;
            Some(Index { value, tag: self.tag })
        }
    }

    fn down(&mut self) -> (r: Option<Index>)
        requires
            old(self).front() <= old(self).length(),
        ensures
            final(self).length() == old(self).length(),
            final(self).origin() == old(self).origin(),
            final(self).reversed() == old(self).reversed(),
            final(self).front() <= final(self).length(),
            stepped_down(*old(self), *final(self), r),
    {
        if self.current == 0 {
            None
        } else {
            self.current = self.current - 1;
            Some(Index { value: self.current, tag: self.tag })
        }
    }

    /// The next position: increasing order, or decreasing for a reversed enumerator.
    pub fn next(&mut self) -> (r: Option<Index>)
        requires
            old(self).front() <= old(self).length(),
        ensures
            final(self).length() == old(self).length(),
            final(self).origin() == old(self).origin(),
            final(self).reversed() == old(self).reversed(),
            final(self).front() <= final(self).length(),
            !old(self).reversed() ==> stepped_up(*old(self), *final(self), r),
            old(self).reversed() ==> stepped_down(*old(self), *final(self), r),
    {
        if self.reversed {
            self.down()
        } else {
            self.up()
        }
    }

    /// The next position from the other end.
    pub fn next_back(&mut self) -> (r: Option<Index>)
        requires
            old(self).front() <= old(self).length(),
        ensures
            final(self).length() == old(self).length(),
            final(self).origin() == old(self).origin(),
            final(self).reversed() == old(self).reversed(),
            final(self).front() <= final(self).length(),
            !old(self).reversed() ==> stepped_down(*old(self), *final(self), r),
            old(self).reversed() ==> stepped_up(*old(self), *final(self), r),
    {
        if self.reversed {
            self.up()
        } else {
            self.down()
        }
    }
}

} // verus!
