//! The items of an iterator, each turned by a function.
use vstd::prelude::*;

use super::MyIterator;

verus! {

/// Gives `f(x)` for each item `x` of the iterator it wraps.
pub struct MapIter<I, F> {
    iter: I,
    f: F,
}

impl<I, F> MapIter<I, F> {
    /// The wrapped iterator.
    pub closed spec fn inner(&self) -> I {
        self.iter
    }

    /// The function applied to each item.
    pub closed spec fn func(&self) -> F {
        self.f
    }

    pub fn new(iter: I, f: F) -> (r: Self)
        ensures
            r.inner() == iter,
            r.func() == f,
    {
        Self { iter, f }
    }
}

impl<B, I: MyIterator, F: Fn(I::Item) -> B> MyIterator for MapIter<I, F> {
    type Item = B;

    open spec fn rest(&self) -> Seq<B> {
        self.inner().rest().map_values(|x: I::Item| choose|y: B| call_ensures(self.func(), (x,), y))
    }

    /// The function accepts every item and gives one result for each.
    open spec fn wf(&self) -> bool {
        &&& self.inner().wf()
        &&& forall|x: I::Item| call_requires(self.func(), (x,))
        &&& forall|x: I::Item, y1: B, y2: B|
            call_ensures(self.func(), (x,), y1) && call_ensures(self.func(), (x,), y2) ==> y1 == y2
    }

    fn next(&mut self) -> (r: Option<B>) {
        let value = self.iter.next();
        assert(self.func() == old(self).func());
        match value {
            None => None,
            Some(x) => {
                assert(call_requires(old(self).func(), (x,)));
                let y = (self.f)(x);
                assert(self.rest() =~= old(self).rest().drop_first());
                Some(y)
            },
        }
    }
}

} // verus!
