use vstd::prelude::*;

verus! {

/// A pull-based sequence: a value that yields its elements one at a time,
/// front first, and signals exhaustion by returning `None`.
///
/// `rem` is the mathematical model of such a value: the sequence of elements
/// it has yet to yield. Every pull either pops the front of `rem` or, once
/// `rem` is empty, keeps returning `None` without changing `rem`.
pub trait PullSequence: Sized {
    /// The type of the elements the sequence yields.
    type Item;

    /// The elements this sequence has yet to yield, in order.
    spec fn rem(&self) -> Seq<Self::Item>;

    /// Yield the next element: the front of `rem`, or `None` once nothing is
    /// left. Pulling past exhaustion keeps signalling exhaustion.
    fn next(&mut self) -> (r: Option<Self::Item>)
        ensures
            old(self).rem().len() == 0 ==> r is None && final(self).rem() == old(self).rem(),
            old(self).rem().len() > 0 ==> r == Some(old(self).rem().first())
                && final(self).rem() == old(self).rem().drop_first(),
    ;
}

/// A pull-based sequence over the elements of a vector, front first.
pub struct VecSequence<T> {
    items: Vec<T>,
}

impl<T> VecSequence<T> {
    /// Wrap a vector; the result yields exactly the vector's elements, in order.
    pub fn new(items: Vec<T>) -> (r: VecSequence<T>)
        ensures
            r.rem() == items@,
    {
        VecSequence { items }
    }
}

impl<T> PullSequence for VecSequence<T> {
    type Item = T;

    closed spec fn rem(&self) -> Seq<T> {
        self.items@
    }

    fn next(&mut self) -> (r: Option<T>) {
        if self.items.len() == 0 {
            None
        } else {
            let x = self.items.remove(0);
            proof {
                assert(self.items@ =~= old(self).items@.drop_first());
            }
            Some(x)
        }
    }
}

} // verus!
