//! Two iterators side by side.
use vstd::prelude::*;

use super::MyIterator;

verus! {

/// Gives pairs of items of two iterators, as long as both have one.
pub struct Zip<I> {
    iter1: I,
    iter2: I,
}

impl<I> Zip<I> {
    /// The iterator of the first items of the pairs.
    pub closed spec fn first(&self) -> I {
        self.iter1
    }

    /// The iterator of the second items of the pairs.
    pub closed spec fn second(&self) -> I {
        self.iter2
    }

    pub fn new(iter1: I, iter2: I) -> (r: Self)
        ensures
            r.first() == iter1,
            r.second() == iter2,
    {
        Self { iter1, iter2 }
    }
}

impl<I: MyIterator> MyIterator for Zip<I> {
    type Item = (I::Item, I::Item);

    open spec fn rest(&self) -> Seq<(I::Item, I::Item)> {
        Seq::new(
            vstd::math::min(self.first().rest().len() as int, self.second().rest().len() as int) as nat,
            |i: int| (self.first().rest()[i], self.second().rest()[i]),
        )
    }

    open spec fn wf(&self) -> bool {
        self.first().wf() && self.second().wf()
    }

    fn next(&mut self) -> (r: Option<(I::Item, I::Item)>) {
        if let Some(value1) = self.iter1.next() {
            if let Some(value2) = self.iter2.next() {
                assert(self.rest() =~= old(self).rest().drop_first());
                return Some((value1, value2));
            }
        }
        assert(self.rest() =~= old(self).rest());
        None
    }
}

} // verus!
