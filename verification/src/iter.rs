//! An iteration cursor that yields the items of an arena container only
//! while the arena is alive, and nothing once it is dead.

use vstd::prelude::*;

verus! {

/// A cursor over a container's items that short-circuits when the arena
/// was no longer alive at its creation.
pub struct EmptyIfDeadIter<'a, T> {
    /// Whether the arena was alive when the cursor was made.
    pub is_alive: bool,
    /// The container's items.
    pub items: &'a Vec<T>,
    /// Position of the next item to yield.
    pub index: usize,
}

impl<'a, T> EmptyIfDeadIter<'a, T> {
    /// Items this cursor will still yield.
    pub open spec fn remaining(&self) -> Seq<T> {
        if self.is_alive && self.index <= self.items@.len() {
            self.items@.subrange(self.index as int, self.items@.len() as int)
        } else {
            Seq::empty()
        }
    }

    /// How many items are left to yield.
    pub fn len(&self) -> (r: usize)
        requires
            self.index <= self.items@.len(),
        ensures
            r == self.remaining().len(),
    {
        if self.is_alive {
            self.items.len() - self.index
        } else {
            0
        }
    }

    /// The next item, or `None` when the cursor is exhausted or the arena
    /// was dead.
    pub fn next(&mut self) -> (r: Option<&'a T>)
        requires
            old(self).index <= old(self).items@.len(),
        ensures
            final(self).items == old(self).items,
            final(self).is_alive == old(self).is_alive,
            final(self).index <= final(self).items@.len(),
            match r {
                Option::Some(v) => {
                    &&& old(self).remaining().len() > 0
                    &&& *v == old(self).remaining()[0]
                    &&& final(self).remaining() == old(self).remaining().subrange(
                        1,
                        old(self).remaining().len() as int,
                    )
                },
                Option::None => {
                    &&& old(self).remaining().len() == 0
                    &&& final(self).remaining() == old(self).remaining()
                },
            },
    {
        if self.is_alive && self.index < self.items.len() {
            let items: &'a Vec<T> = self.items;
            let v = &items[self.index];
            self.index = self.index + 1;
            proof {
                assert(self.remaining() =~= old(self).remaining().subrange(
                    1,
                    old(self).remaining().len() as int,
                ));
            }
            Some(v)
        } else {
            None
        }
    }
}

} // verus!
