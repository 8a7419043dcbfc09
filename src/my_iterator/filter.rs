//! The items of an iterator on which a predicate holds.
use vstd::prelude::*;

use super::MyIterator;

verus! {

/// Gives the items `x` of the iterator it wraps for which `f(&x)` is true.
pub struct Filter<I, F> {
    iter: I,
    f: F,
}

impl<I, F> Filter<I, F> {
    /// The wrapped iterator.
    pub closed spec fn inner(&self) -> I {
        self.iter
    }

    /// The predicate.
    pub closed spec fn func(&self) -> F {
        self.f
    }

    pub fn new(iter: I, f: F) -> (r: Self)
        ensures
            r.inner() == iter,
            r.func() == f,
    {
        Self { iter, f }
    }
}

impl<I: MyIterator, F: Fn(&I::Item) -> bool> MyIterator for Filter<I, F> {
    type Item = I::Item;

    open spec fn rest(&self) -> Seq<I::Item> {
        self.inner().rest().filter(|x: I::Item| call_ensures(self.func(), (&x,), true))
    }

    /// The predicate accepts every item and gives one answer for each.
    open spec fn wf(&self) -> bool {
        &&& self.inner().wf()
        &&& forall|x: I::Item| call_requires(self.func(), (&x,))
        &&& forall|x: I::Item, b1: bool, b2: bool|
            call_ensures(self.func(), (&x,), b1) && call_ensures(self.func(), (&x,), b2) ==> b1 == b2
    }

    fn next(&mut self) -> (r: Option<I::Item>) {
        let ghost keep = |x: I::Item| call_ensures(self.func(), (&x,), true);
        loop
            invariant
                self.wf(),
                self.func() == old(self).func(),
                keep == (|x: I::Item| call_ensures(self.func(), (&x,), true)),
                self.inner().rest().filter(keep) == old(self).rest(),
            decreases self.inner().rest().len(),
        {
            let ghost before = self.inner().rest();
            proof {
                if before.len() > 0 {
                    assert(before =~= seq![before[0]] + before.drop_first());
                    before.drop_first().lemma_filter_prepend(before[0], keep);
                }
            }
            if let Some(value) = self.iter.next() {
                if (self.f)(&value) {
                    return Some(value);
                }
            } else {
                proof {
                    reveal(Seq::filter);
                }
                return None;
            }
        }
    }
}

} // verus!
