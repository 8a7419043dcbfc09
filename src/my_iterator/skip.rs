//! An iterator without its first items.
use vstd::prelude::*;

use super::MyIterator;

verus! {

/// Gives the items of the iterator it wraps after the first `n`, which are
/// consumed when it is made.
pub struct Skip<I> {
    iter: I,
}

impl<I> Skip<I> {
    /// The wrapped iterator.
    pub closed spec fn inner(&self) -> I {
        self.iter
    }

    /// Wraps an iterator whose first items have been consumed already.
    pub(crate) fn wrap(iter: I) -> (r: Self)
        ensures
            r.inner() == iter,
    {
        Skip { iter }
    }
}

impl<I: MyIterator> Skip<I> {
    pub fn new(iter: I, n: usize) -> (r: Self)
        requires
            iter.wf(),
        ensures
            r.inner().wf(),
            r.inner().rest() == iter.rest().skip(vstd::math::min(n as int, iter.rest().len() as int)),
    {
        iter.skip(n)
    }
}

impl<I: MyIterator> MyIterator for Skip<I> {
    type Item = I::Item;

    open spec fn rest(&self) -> Seq<I::Item> {
        self.inner().rest()
    }

    open spec fn wf(&self) -> bool {
        self.inner().wf()
    }

    fn next(&mut self) -> (r: Option<I::Item>) {
        self.iter.next()
    }
}

} // verus!
