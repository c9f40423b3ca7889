//! A first-in-first-out queue over a growable vector.

use vstd::prelude::*;

verus! {

/// A FIFO queue: pushes go to the back, pops come from the front.
pub struct Queue<T> {
    /// The queue as a vector, front first.
    pub vec: Vec<T>,
}

impl<T> View for Queue<T> {
    type V = Seq<T>;

    open spec fn view(&self) -> Seq<T> {
        self.vec@
    }
}

impl<T> Queue<T> {
    /// Create a new, empty queue.
    pub fn new() -> (r: Self)
        ensures
            r@ == Seq::<T>::empty(),
    {
        Queue { vec: Vec::new() }
    }

    /// Push an element onto the back of the queue.
    pub fn push(&mut self, value: T)
        ensures
            final(self)@ == old(self)@.push(value),
    {
        self.vec.push(value);
    }

    /// Pop the element at the front of the queue, if any.
    pub fn pop(&mut self) -> (r: Option<T>)
        ensures
            old(self)@.len() == 0 ==> r is None && final(self)@ == old(self)@,
            old(self)@.len() > 0 ==> r == Some(old(self)@[0]) && final(self)@ == old(
                self,
            )@.drop_first(),
    {
        if self.vec.len() == 0 {
            Option::None
        } else {
            let v = self.vec.remove(0);
            proof {
                assert(final(self)@ =~= old(self)@.drop_first());
            }
            Option::Some(v)
        }
    }

    /// The number of queued elements.
    pub fn len(&self) -> (r: usize)
        ensures
            r == self@.len(),
    {
        self.vec.len()
    }
}

} // verus!
