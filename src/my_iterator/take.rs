//! The first items of an iterator.
use vstd::prelude::*;

use super::MyIterator;

verus! {

/// Gives at most `n` items of the iterator it wraps.
pub struct Take<I> {
    iter: I,
    n: usize,
    counter: usize,
}

impl<I> Take<I> {
    /// The wrapped iterator.
    pub closed spec fn inner(&self) -> I {
        self.iter
    }

    /// How many items may still be given.
    pub closed spec fn limit(&self) -> int {
        self.n - self.counter
    }

    pub fn new(iter: I, n: usize) -> (r: Self)
        ensures
            r.inner() == iter,
            r.limit() == n,
    {
        Self { iter, n, counter: 0 }
    }
}

impl<I: MyIterator> MyIterator for Take<I> {
    type Item = I::Item;

    open spec fn rest(&self) -> Seq<I::Item> {
        self.inner().rest().take(vstd::math::min(self.limit(), self.inner().rest().len() as int))
    }

    open spec fn wf(&self) -> bool {
        self.inner().wf() && self.limit() >= 0
    }

    fn next(&mut self) -> (r: Option<I::Item>) {
        if self.counter == self.n {
            return None;
        }
        self.counter = self.counter + 1;
        let r = self.iter.next();
        proof {
            if old(self).rest().len() > 0 {
                assert(self.rest() =~= old(self).rest().drop_first());
            } else {
                assert(self.rest() =~= old(self).rest());
            }
        }
        r
    }
}

} // verus!
