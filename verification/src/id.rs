//! The allocator of fresh ids.

use vstd::prelude::*;

verus! {

/// Hands out the ids 1, 2, 3, ... in this order; 0 is never handed out.
#[derive(Debug, Clone, PartialEq, Eq)]
pub struct Id {
    last: u64,
}

impl Id {
    /// The id handed out last; 0 before any.
    pub closed spec fn issued(&self) -> nat {
        self.last as nat
    }

    /// An allocator that has handed out no id yet.
    pub fn new() -> (r: Id)
        ensures
            r.issued() == 0,
    {
        Id { last: 0 }
    }

    /// The next id: one more than the one handed out last.
    pub fn next(&mut self) -> (r: u64)
        requires
            old(self).issued() < u64::MAX,
        ensures
            r == old(self).issued() + 1,
            final(self).issued() == r,
    {
        self.last = self.last + 1;
        self.last
    }

    /// How many more ids can be handed out.
    pub fn remaining(&self) -> (r: u64)
        ensures
            r == u64::MAX - self.issued(),
    {
        u64::MAX - self.last
    }
}

} // verus!
