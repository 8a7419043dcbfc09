//! Two iterators one after the other.
use vstd::prelude::*;

use super::MyIterator;

verus! {

/// Gives the items of a first iterator, then those of a second.
pub struct Chain<I> {
    iter1: I,
    iter2: I,
}

impl<I> Chain<I> {
    /// The iterator that goes first.
    pub closed spec fn first(&self) -> I {
        self.iter1
    }

    /// The iterator that goes second.
    pub closed spec fn second(&self) -> I {
        self.iter2
    }

    pub fn new(iter1: I, iter2: I) -> (r: Self)
        ensures
            r.first() == iter1,
            r.second() == iter2,
    {
        Chain { iter1, iter2 }
    }
}

impl<I: MyIterator> MyIterator for Chain<I> {
    type Item = I::Item;

    open spec fn rest(&self) -> Seq<I::Item> {
        self.first().rest() + self.second().rest()
    }

    open spec fn wf(&self) -> bool {
        self.first().wf() && self.second().wf()
    }

    fn next(&mut self) -> (r: Option<I::Item>) {
        if let Some(value) = self.iter1.next() {
            assert(self.rest() =~= old(self).rest().drop_first());
            return Some(value);
        }
        let r = self.iter2.next();
        proof {
            if old(self).rest().len() > 0 {
                assert(self.rest() =~= old(self).rest().drop_first());
            } else {
                assert(self.rest() =~= old(self).rest());
            }
        }
        r
    }
}

} // verus!
