//! What the index types have in common, and ranges of them.

use vstd::prelude::*;

verus! {

/// A type that addresses the entries of a table by their position.
pub trait IndexRef: Copy + Eq {
    /// The position that the index addresses.
    spec fn position(self) -> nat;

    /// The largest position that an index of this type can address.
    spec fn last_position() -> nat;

    /// The position that the index addresses.
    fn index(&self) -> (i: usize)
        ensures
            i == self.position(),
    ;

    /// The index that addresses position `input`.
    fn new(input: usize) -> (r: Self)
        requires
            input <= Self::last_position(),
        ensures
            r.position() == input,
    ;
}

/// The indices from `start` up to, but not including, `end`.
#[derive(Debug, Copy, Clone)]
pub struct IndexRange<I> where I: IndexRef + PartialOrd {
    start: I,
    end: I,
}

impl<I> IndexRange<I> where I: IndexRef + PartialOrd {
    /// The first index of the range.
    pub closed spec fn first(self) -> I {
        self.start
    }

    /// The index right behind the range.
    pub closed spec fn bound(self) -> I {
        self.end
    }

    pub fn new(start: I, end: I) -> (range: Self)
        ensures
            range.first() == start,
            range.bound() == end,
    {
        IndexRange { start, end }
    }

    pub fn start(&self) -> (i: I)
        ensures
            i == self.first(),
    {
        self.start
    }

    pub fn end(&self) -> (i: I)
        ensures
            i == self.bound(),
    {
        self.end
    }
}

} // verus!
