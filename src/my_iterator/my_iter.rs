//! An iterator over the elements of a slice, and conversions between `Vec`
//! and iterators.
use vstd::prelude::*;

use super::MyIterator;

verus! {

/// Gives references to the first `size` elements of a slice, from a current
/// index on.
pub struct MyIter<'a, T> {
    size: usize,
    current: usize,
    data: &'a [T],
}

impl<'a, T> MyIter<'a, T> {
    /// The elements of the slice.
    pub closed spec fn items(&self) -> Seq<T> {
        self.data@
    }

    /// The index after the last element given.
    pub closed spec fn end(&self) -> int {
        self.size as int
    }

    /// The index of the next element.
    pub closed spec fn index(&self) -> int {
        self.current as int
    }

    pub fn new(size: usize, data: &'a [T]) -> (r: Self)
        requires
            size <= data@.len(),
        ensures
            r.items() == data@,
            r.end() == size,
            r.index() == 0,
    {
        Self { size, data, current: 0 }
    }
}

impl<'a, T> MyIterator for MyIter<'a, T> {
    type Item = &'a T;

    open spec fn rest(&self) -> Seq<&'a T> {
        Seq::new((self.end() - self.index()) as nat, |i: int| &self.items()[self.index() + i])
    }

    open spec fn wf(&self) -> bool {
        0 <= self.index() <= self.end() <= self.items().len()
    }

    fn next(&mut self) -> (r: Option<&'a T>) {
        if self.current >= self.size {
            return None;
        }
        let value = Some(&self.data[self.current]);
        self.current = self.current + 1;
        assert(self.rest() =~= old(self).rest().drop_first());
        value
    }
}

/// A collection that gives a [`MyIter`] over its elements.
pub trait ToMyIterator {
    type Item;

    fn my_iter(&self) -> (r: MyIter<'_, Self::Item>)
        ensures
            r.wf(),
    ;
}

impl<T> ToMyIterator for Vec<T> {
    type Item = T;

    fn my_iter(&self) -> (r: MyIter<'_, T>)
        ensures
            r.wf(),
            r.rest().len() == self@.len(),
            forall|i: int| 0 <= i < self@.len() ==> *r.rest()[i] == self@[i],
    {
        MyIter::new(self.len(), self.as_slice())
    }
}

/// A collection that can be built from the items of an iterator.
pub trait FromMyIterator<T>: Sized {
    fn from_my_iter<I: MyIterator<Item = T>>(iter: I) -> Self
        requires
            iter.wf(),
    ;
}

impl<T> FromMyIterator<T> for Vec<T> {
    fn from_my_iter<I: MyIterator<Item = T>>(iter: I) -> (r: Vec<T>)
        ensures
            r@ == iter.rest(),
    {
        let mut it = iter;
        let ghost all = it.rest();
        let mut vec: Vec<T> = Vec::new();
        loop
            invariant
                it.wf(),
                all == iter.rest(),
                all == vec@ + it.rest(),
            decreases it.rest().len(),
        {
            match it.next() {
                Some(value) => {
                    vec.push(value);
                    assert(all =~= vec@ + it.rest());
                },
                None => {
                    assert(all =~= vec@);
                    return vec;
                },
            }
        }
    }
}

} // verus!
