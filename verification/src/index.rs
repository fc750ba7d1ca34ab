use vstd::prelude::*;

verus! {

/// Issues handles that are never reused: each call hands out the next integer.
pub struct IndexDriver {
    current_index: usize,
}

impl IndexDriver {
    /// The handle that the next call of `next_id` returns.
    pub closed spec fn next(&self) -> nat {
        self.current_index as nat
    }

    pub fn new() -> (driver: IndexDriver)
        ensures
            driver.next() == 0,
    {
        IndexDriver { current_index: 0 }
    }

    /// The handle that the next call of `next_id` returns.
    pub fn peek(&self) -> (id: usize)
        ensures
            id == self.next(),
    {
        self.current_index
    }

    /// Hands out the current handle and moves on by one.
    pub fn next_id(&mut self) -> (id: usize)
        requires
            old(self).next() < usize::MAX,
        ensures
            id == old(self).next(),
            final(self).next() == old(self).next() + 1,
    {
        let idx: usize = self.current_index;
        self.current_index = self.current_index + 1;
        idx
    }
}

} // verus!
