//! The items of an iterator with their indices.
use vstd::prelude::*;

use super::MyIterator;

verus! {

/// Gives each item of the iterator it wraps with its index, from 0.
pub struct Enumerate<I> {
    iter: I,
    index: usize,
}

impl<I> Enumerate<I> {
    /// The wrapped iterator.
    pub closed spec fn inner(&self) -> I {
        self.iter
    }

    /// The index of the next item.
    pub closed spec fn count(&self) -> int {
        self.index as int
    }

    pub fn new(iter: I) -> (r: Self)
        ensures
            r.inner() == iter,
            r.count() == 0,
    {
        Self { iter, index: 0 }
    }
}

impl<I: MyIterator> MyIterator for Enumerate<I> {
    type Item = (usize, I::Item);

    open spec fn rest(&self) -> Seq<(usize, I::Item)> {
        Seq::new(
            self.inner().rest().len(),
            |i: int| ((self.count() + i) as usize, self.inner().rest()[i]),
        )
    }

    /// The indices must fit in a `usize`.
    open spec fn wf(&self) -> bool {
        self.inner().wf() && 0 <= self.count() && self.count() + self.inner().rest().len() <= usize::MAX
    }

    fn next(&mut self) -> (r: Option<(usize, I::Item)>) {
        if let Some(value) = self.iter.next() {
            let idx = self.index;
            self.index = self.index + 1;
            assert(self.rest() =~= old(self).rest().drop_first());
            return Some((idx, value));
        }
        None
    }
}

} // verus!
