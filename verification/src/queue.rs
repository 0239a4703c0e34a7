//! A first-in-first-out queue with a fixed maximum length.  It never waits: `push`
//! hands the value back where the queue is full and `pop` gives nothing where it is
//! empty, so that a caller can wait on whatever it has for waiting and try again.

use std::collections::VecDeque;
use vstd::prelude::*;

verus! {

/// A queue of at most `capacity` items, delivered in the order of their arrival.
pub struct BoundedQueue<T> {
    capacity: usize,
    items: VecDeque<T>,
}

impl<T> View for BoundedQueue<T> {
    type V = Seq<T>;

    /// The items in the queue, the one that leaves next first.
    closed spec fn view(&self) -> Seq<T> {
        self.items@
    }
}

impl<T> BoundedQueue<T> {
    /// The most items that the queue holds.
    pub closed spec fn spec_capacity(&self) -> usize {
        self.capacity
    }

    /// Whether the queue holds no more than its capacity, as every queue does that
    /// `new` made.
    pub open spec fn within_capacity(&self) -> bool {
        self@.len() <= self.capacity()
    }

    /// An empty queue that holds at most `capacity` items.
    pub fn new(capacity: usize) -> (q: Self)
        ensures
            q@ == Seq::<T>::empty(),
            q.capacity() == capacity,
            q.within_capacity(),
    {
        BoundedQueue { capacity, items: VecDeque::new() }
    }

    /// The most items that the queue holds.
    #[verifier::when_used_as_spec(spec_capacity)]
    pub fn capacity(&self) -> (n: usize)
        ensures
            n == self.spec_capacity(),
    {
        self.capacity
    }

    /// Number of items in the queue.
    pub fn len(&self) -> (n: usize)
        ensures
            n == self@.len(),
    {
        self.items.len()
    }

    /// Whether `pop` would give nothing.
    pub fn is_empty(&self) -> (empty: bool)
        ensures
            empty == (self@.len() == 0),
    {
        self.items.len() == 0
    }

    /// Whether `push` would hand its value back.
    pub fn is_full(&self) -> (full: bool)
        ensures
            full == (self@.len() >= self.capacity()),
    {
        self.items.len() >= self.capacity
    }

    /// Puts `val` at the back of the queue, or hands it back where the queue is full.
    pub fn push(&mut self, val: T) -> (r: Result<(), T>)
        ensures
            final(self).capacity() == old(self).capacity(),
            old(self).within_capacity() ==> final(self).within_capacity(),
            old(self)@.len() < old(self).capacity() ==> r is Ok && final(self)@ == old(self)@.push(
                val,
            ),
            old(self)@.len() >= old(self).capacity() ==> r == Err::<(), T>(val) && final(self)@
                == old(self)@,
    {
        if self.items.len() >= self.capacity {
            return Err(val);
        }
        self.items.push_back(val);
        Ok(())
    }

    /// Takes the item at the front of the queue, if there is one.
    pub fn pop(&mut self) -> (r: Option<T>)
        ensures
            final(self).capacity() == old(self).capacity(),
            old(self).within_capacity() ==> final(self).within_capacity(),
            old(self)@.len() == 0 ==> r is None && final(self)@ == old(self)@,
            old(self)@.len() > 0 ==> r == Some(old(self)@[0]) && final(self)@ == old(self)@.skip(1),
    {
        self.items.pop_front()
    }
}

} // verus!
