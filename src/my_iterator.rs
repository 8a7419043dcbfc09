//! A small iterator library: a pull-based iterator trait, adaptors that
//! transform one iterator into another, and an iterator over a `Vec`.
use vstd::prelude::*;

pub mod chain;
pub mod enumerate;
pub mod filter;
pub mod map;
pub mod my_iter;
pub mod skip;
pub mod take;
pub mod zip;

use self::chain::Chain;
use self::enumerate::Enumerate;
use self::filter::Filter;
use self::map::MapIter;
use self::skip::Skip;
use self::take::Take;
use self::zip::Zip;

verus! {

/// Whether `accs` are the accumulators of a fold of `items` with `f`: each
/// one is what `f` gives on the one before and the item at its place.
pub open spec fn fold_steps<A, T, F: Fn(A, T) -> A>(f: F, accs: Seq<A>, items: Seq<T>) -> bool {
    &&& accs.len() == items.len() + 1
    &&& forall|i: int| 0 <= i < items.len() ==> call_ensures(f, (accs[i], items[i]), #[trigger] accs[i + 1])
}

pub trait MyIterator: Sized {
    type Item;

    /// The items that the iterator has still to give, in order.
    spec fn rest(&self) -> Seq<Self::Item>;

    /// Whether the iterator is in a state that its methods accept.
    spec fn wf(&self) -> bool;

    /// The next item, or `None` once all have been given.
    fn next(&mut self) -> (r: Option<Self::Item>)
        requires
            old(self).wf(),
        ensures
            final(self).wf(),
            old(self).rest().len() == 0 ==> r is None && final(self).rest() == old(self).rest(),
            old(self).rest().len() > 0 ==> r == Some(old(self).rest()[0]) && final(self).rest()
                == old(self).rest().drop_first(),
    ;

    /// The items, each turned by `f`.
    fn map<F, B>(self, f: F) -> (r: MapIter<Self, F>) where F: Fn(Self::Item) -> B
        ensures
            r.inner() == self,
            r.func() == f,
    {
        MapIter::new(self, f)
    }

    /// The items on which `f` holds.
    fn filter<F>(self, f: F) -> (r: Filter<Self, F>) where F: Fn(&Self::Item) -> bool
        ensures
            r.inner() == self,
            r.func() == f,
    {
        Filter::new(self, f)
    }

    /// Combines the items one by one into an accumulator that starts as `acc`.
    fn fold<F, A>(self, acc: A, f: F) -> (r: A) where F: Fn(A, Self::Item) -> A
        requires
            self.wf(),
            forall|a: A, x: Self::Item| call_requires(f, (a, x)),
        ensures
            exists|accs: Seq<A>| fold_steps(f, accs, self.rest()) && accs[0] == acc && accs.last() == r,
    {
        let mut iter = self;
        let mut accum = acc;
        let ghost all = self.rest();
        let ghost done: Seq<Self::Item> = Seq::empty();
        let ghost accs: Seq<A> = seq![acc];
        loop
            invariant
                iter.wf(),
                forall|a: A, x: Self::Item| call_requires(f, (a, x)),
                all == self.rest(),
                all == done + iter.rest(),
                fold_steps(f, accs, done),
                accs[0] == acc,
                accs.last() == accum,
            decreases iter.rest().len(),
        {
            let ghost before = iter.rest();
            match iter.next() {
                Some(value) => {
                    let ghost prev = accum;
                    accum = f(accum, value);
                    proof {
                        let d2 = done.push(value);
                        assert(d2.drop_last() =~= done);
                        let a2 = accs.push(accum);
                        assert forall|i: int| 0 <= i < d2.len() implies call_ensures(
                            f,
                            (a2[i], d2[i]),
                            #[trigger] a2[i + 1],
                        ) by {
                            if i < done.len() {
                                assert(a2[i] == accs[i] && d2[i] == done[i] && a2[i + 1] == accs[i + 1]);
                            }
                        }
                        accs = a2;
                        assert(all =~= d2 + iter.rest());
                        done = d2;
                    }
                },
                None => {
                    assert(done =~= all);
                    assert(fold_steps(f, accs, self.rest()) && accs[0] == acc && accs.last() == accum);
                    return accum;
                },
            }
        }
    }

    /// The first `n` items.
    fn take(self, n: usize) -> (r: Take<Self>)
        ensures
            r.inner() == self,
            r.limit() == n,
    {
        Take::new(self, n)
    }

    /// The items after the first `n`; those are consumed at once.
    fn skip(self, n: usize) -> (r: Skip<Self>)
        requires
            self.wf(),
        ensures
            r.inner().wf(),
            r.inner().rest() == self.rest().skip(vstd::math::min(n as int, self.rest().len() as int)),
    {
        let mut iter = self;
        let ghost all = iter.rest();
        let mut acc: usize = 0;
        while acc != n
            invariant
                iter.wf(),
                all == self.rest(),
                acc <= n,
                acc <= all.len(),
                iter.rest() == all.skip(acc as int),
            ensures
                iter.wf(),
                acc <= n,
                iter.rest() == all.skip(acc as int),
                acc < n ==> iter.rest().len() == 0,
            decreases n - acc,
        {
            if let None = iter.next() {
                break;
            }
            acc = acc + 1;
            assert(iter.rest() =~= all.skip(acc as int));
        }
        Skip::wrap(iter)
    }

    /// The items of `self`, then those of `iter`.
    fn chain(self, iter: Self) -> (r: Chain<Self>)
        ensures
            r.first() == self,
            r.second() == iter,
    {
        Chain::new(self, iter)
    }

    /// Pairs of items of `self` and `iter`, as long as both have one.
    fn zip(self, iter: Self) -> (r: Zip<Self>)
        ensures
            r.first() == self,
            r.second() == iter,
    {
        Zip::new(self, iter)
    }

    /// The items with their indices, from 0.
    fn enumerate(self) -> (r: Enumerate<Self>)
        ensures
            r.inner() == self,
            r.count() == 0,
    {
        Enumerate::new(self)
    }

    /// Whether `f` holds on some item; stops at the first such item.
    fn any<F>(self, f: F) -> (r: bool) where F: Fn(Self::Item) -> bool
        requires
            self.wf(),
            forall|x: Self::Item| call_requires(f, (x,)),
        ensures
            r ==> exists|i: int| 0 <= i < self.rest().len() && call_ensures(f, (self.rest()[i],), true),
            !r ==> forall|i: int| 0 <= i < self.rest().len() ==> call_ensures(f, (self.rest()[i],), false),
    {
        let mut iter = self;
        let ghost all = self.rest();
        let ghost k: int = 0;
        loop
            invariant
                iter.wf(),
                forall|x: Self::Item| call_requires(f, (x,)),
                all == self.rest(),
                0 <= k <= all.len(),
                iter.rest() == all.subrange(k, all.len() as int),
                forall|i: int| 0 <= i < k ==> call_ensures(f, (all[i],), false),
            decreases iter.rest().len(),
        {
            match iter.next() {
                Some(value) => {
                    assert(value == all[k]);
                    if f(value) {
                        return true;
                    }
                    proof {
                        assert(iter.rest() =~= all.subrange(k + 1, all.len() as int));
                        k = k + 1;
                    }
                },
                None => {
                    return false;
                },
            }
        }
    }

    /// Whether `f` holds on every item; stops at the first item where it fails.
    fn all<F>(self, f: F) -> (r: bool) where F: Fn(Self::Item) -> bool
        requires
            self.wf(),
            forall|x: Self::Item| call_requires(f, (x,)),
        ensures
            r ==> forall|i: int| 0 <= i < self.rest().len() ==> call_ensures(f, (self.rest()[i],), true),
            !r ==> exists|i: int| 0 <= i < self.rest().len() && call_ensures(f, (self.rest()[i],), false),
    {
        let mut iter = self;
        let ghost all = self.rest();
        let ghost k: int = 0;
        loop
            invariant
                iter.wf(),
                forall|x: Self::Item| call_requires(f, (x,)),
                all == self.rest(),
                0 <= k <= all.len(),
                iter.rest() == all.subrange(k, all.len() as int),
                forall|i: int| 0 <= i < k ==> call_ensures(f, (all[i],), true),
            decreases iter.rest().len(),
        {
            match iter.next() {
                Some(value) => {
                    assert(value == all[k]);
                    if !f(value) {
                        return false;
                    }
                    proof {
                        assert(iter.rest() =~= all.subrange(k + 1, all.len() as int));
                        k = k + 1;
                    }
                },
                None => {
                    return true;
                },
            }
        }
    }
}

} // verus!
