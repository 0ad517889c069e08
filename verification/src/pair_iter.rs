//! An iterator of two or fewer elements, yielded by move, without heap
//! allocation: for reduction steps that emit a variable number of outputs.

use vstd::prelude::*;

verus! {

/// Holds zero, one or two values and yields them by move, in order. Once
/// every contained value has been yielded, every further `next` returns
/// nothing: exhaustion is permanent, the iterator cannot be restarted.
pub struct PairIter<T> {
    first: Option<T>,
    second: Option<T>,
}

impl<T> View for PairIter<T> {
    type V = Seq<T>;

    /// The values still to be yielded, in order.
    closed spec fn view(&self) -> Seq<T> {
        match (self.first, self.second) {
            (Some(a), Some(b)) => seq![a, b],
            (Some(a), None) => seq![a],
            (None, Some(b)) => seq![b],
            (None, None) => Seq::empty(),
        }
    }
}

impl<T> PairIter<T> {
    /// An iterator over no values.
    pub fn empty() -> (r: PairIter<T>)
        ensures
            r@ == Seq::<T>::empty(),
    {
        PairIter { first: None, second: None }
    }

    /// An iterator over one value.
    pub fn of_one(value: T) -> (r: PairIter<T>)
        ensures
            r@ == seq![value],
    {
        PairIter { first: Some(value), second: None }
    }

    /// An iterator over two values, yielded first then second.
    pub fn of_two(first: T, second: T) -> (r: PairIter<T>)
        ensures
            r@ == seq![first, second],
    {
        PairIter { first: Some(first), second: Some(second) }
    }

    /// Move the next value out, or nothing once all values are spent.
    pub fn next(&mut self) -> (r: Option<T>)
        ensures
            old(self)@.len() == 0 ==> r is None && final(self)@ == old(self)@,
            old(self)@.len() > 0 ==> r == Some(old(self)@[0]) && final(self)@ == old(self)@.skip(
                1,
            ),
    {
        let r = match self.first.take() {
            Some(x) => Some(x),
            None => self.second.take(),
        };
        proof {
            if old(self)@.len() > 0 {
                assert(self@ =~= old(self)@.skip(1));
            }
        }
        r
    }

    /// Borrow the `i`-th value among those still to be yielded.
    pub fn get(&self, i: usize) -> (r: Option<&T>)
        ensures
            match r {
                Some(v) => i < self@.len() && *v == self@[i as int],
                None => i >= self@.len(),
            },
    {
        if i == 0 {
            match &self.first {
                Some(v) => Some(v),
                None => match &self.second {
                    Some(v) => Some(v),
                    None => None,
                },
            }
        } else if i == 1 {
            match &self.first {
                Some(_) => match &self.second {
                    Some(v) => Some(v),
                    None => None,
                },
                None => None,
            }
        } else {
            None
        }
    }
}

} // verus!
