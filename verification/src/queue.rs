//! The request queue: a bounded buffer that hands requests out in the order
//! in which they came in.

use std::collections::VecDeque;
use vstd::prelude::*;

verus! {

/// A request that found the queue full, handed back to whoever brought it.
#[derive(Debug, PartialEq, Eq)]
pub struct QueueFull<R>(pub R);

/// A bounded first-in-first-out buffer of pending requests.
///
/// Its view is the sequence of the requests it holds, oldest first.
pub struct RequestQueue<R> {
    items: VecDeque<R>,
    capacity: usize,
}

impl<R> View for RequestQueue<R> {
    type V = Seq<R>;

    closed spec fn view(&self) -> Seq<R> {
        self.items@
    }
}

/// How many requests a batch takes from a queue of `pending` requests when
/// it may hold `max_size` at most.
pub open spec fn batch_len(pending: nat, max_size: nat) -> nat {
    if pending <= max_size {
        pending
    } else {
        max_size
    }
}

impl<R> RequestQueue<R> {
    /// The most requests the queue can hold.
    pub closed spec fn spec_capacity(&self) -> nat {
        self.capacity as nat
    }

    /// The queue never holds more than its capacity.
    pub open spec fn wf(&self) -> bool {
        self@.len() <= self.spec_capacity()
    }

    /// An empty queue with room for `capacity` requests.
    pub fn new(capacity: usize) -> (queue: Self)
        ensures
            queue.wf(),
            queue@ == Seq::<R>::empty(),
            queue.spec_capacity() == capacity,
    {
        RequestQueue { items: VecDeque::new(), capacity }
    }

    /// The most requests the queue can hold.
    pub fn capacity(&self) -> (capacity: usize)
        ensures
            capacity == self.spec_capacity(),
    {
        self.capacity
    }

    /// The number of requests waiting.
    pub fn len(&self) -> (len: usize)
        ensures
            len == self@.len(),
    {
        self.items.len()
    }

    /// Whether no request is waiting.
    pub fn is_empty(&self) -> (empty: bool)
        ensures
            empty == (self@.len() == 0),
    {
        self.items.len() == 0
    }

    /// Whether the next `enqueue` would be refused.
    pub fn is_full(&self) -> (full: bool)
        ensures
            full == (self@.len() >= self.spec_capacity()),
    {
        self.items.len() >= self.capacity
    }

    /// Appends `request` behind all that are waiting, or hands it back when
    /// the queue is at capacity. A refused request leaves the queue as it was.
    pub fn enqueue(&mut self, request: R) -> (outcome: Result<(), QueueFull<R>>)
        requires
            old(self).wf(),
        ensures
            final(self).wf(),
            final(self).spec_capacity() == old(self).spec_capacity(),
            old(self)@.len() < old(self).spec_capacity() ==> outcome is Ok && final(self)@
                == old(self)@.push(request),
            old(self)@.len() >= old(self).spec_capacity() ==> outcome == Err::<(), QueueFull<R>>(
                QueueFull(request),
            ) && final(self)@ == old(self)@,
    {
        if self.items.len() >= self.capacity {
            Err(QueueFull(request))
        } else {
            self.items.push_back(request);
            Ok(())
        }
    }

    /// Takes the oldest requests off the queue, up to `max_size` of them, and
    /// returns them oldest first. The rest keep their order. The result is
    /// empty when nothing is waiting or `max_size` is zero.
    pub fn dequeue_batch(&mut self, max_size: usize) -> (batch: Vec<R>)
        requires
            old(self).wf(),
        ensures
            final(self).wf(),
            final(self).spec_capacity() == old(self).spec_capacity(),
            batch@ == old(self)@.take(batch_len(old(self)@.len(), max_size as nat) as int),
            final(self)@ == old(self)@.skip(batch_len(old(self)@.len(), max_size as nat) as int),
    {
        let mut batch: Vec<R> = Vec::new();
        let pending: usize = self.items.len();
        let count: usize = if pending <= max_size {
            pending
        } else {
            max_size
        };
        let mut taken: usize = 0;
        while taken < count
            invariant
                taken <= count,
                count <= old(self)@.len(),
                self.capacity == old(self).capacity,
                batch@ == old(self)@.take(taken as int),
                self.items@ == old(self)@.skip(taken as int),
            decreases count - taken,
        {
            let front = self.items.pop_front();
            match front {
                Some(request) => {
                    batch.push(request);
                },
                None => {},
            }
            taken = taken + 1;
        }
        batch
    }
}

} // verus!
