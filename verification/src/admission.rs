//! The admission controller: a fixed pool of permits, and the line of those
//! who came while none was free.

use std::collections::VecDeque;
use vstd::prelude::*;

verus! {

/// One unit of the controller's capacity, held by one request from its
/// admission until its result is delivered.
///
/// A permit cannot be copied or made outside this module: it comes from
/// [`AdmissionController::acquire`] or is handed over by
/// [`AdmissionController::release`], and it ends in `release`.
pub struct Permit {
    token: (),
}

/// What an [`AdmissionController`] is, as plain values.
pub ghost struct AdmissionView<W> {
    /// The number of permits in the pool, fixed at construction.
    pub capacity: nat,
    /// The permits acquired and not yet released.
    pub outstanding: nat,
    /// Those waiting for a permit, the one who came first in front.
    pub waiting: Seq<W>,
}

/// A bounded pool of permits with a first-come-first-served waiting line.
///
/// `W` is whatever a waiting caller leaves behind to be resumed with.
pub struct AdmissionController<W> {
    capacity: usize,
    outstanding: usize,
    waiting: VecDeque<W>,
}

impl<W> View for AdmissionController<W> {
    type V = AdmissionView<W>;

    closed spec fn view(&self) -> AdmissionView<W> {
        AdmissionView {
            capacity: self.capacity as nat,
            outstanding: self.outstanding as nat,
            waiting: self.waiting@,
        }
    }
}

impl<W> AdmissionController<W> {
    /// Never more permits out than the pool holds, and nobody waits while a
    /// permit is free.
    pub open spec fn wf(&self) -> bool {
        &&& self@.outstanding <= self@.capacity
        &&& self@.waiting.len() > 0 ==> self@.outstanding == self@.capacity
    }

    /// A controller with `capacity` permits, all of them free.
    pub fn new(capacity: usize) -> (controller: Self)
        ensures
            controller.wf(),
            controller@ == (AdmissionView::<W> {
                capacity: capacity as nat,
                outstanding: 0,
                waiting: Seq::empty(),
            }),
    {
        AdmissionController { capacity, outstanding: 0, waiting: VecDeque::new() }
    }

    /// The number of permits in the pool.
    pub fn capacity(&self) -> (capacity: usize)
        ensures
            capacity == self@.capacity,
    {
        self.capacity
    }

    /// The permits acquired and not yet released.
    pub fn outstanding(&self) -> (outstanding: usize)
        ensures
            outstanding == self@.outstanding,
    {
        self.outstanding
    }

    /// The permits that can be acquired without waiting.
    pub fn available(&self) -> (available: usize)
        requires
            self.wf(),
        ensures
            available == self@.capacity - self@.outstanding,
    {
        self.capacity - self.outstanding
    }

    /// How many are waiting for a permit.
    pub fn waiting(&self) -> (waiting: usize)
        ensures
            waiting == self@.waiting.len(),
    {
        self.waiting.len()
    }

    /// Asks for a permit on behalf of `who`.
    ///
    /// While a permit is free, `who` comes straight back with it. When the
    /// pool is exhausted, `who` joins the end of the waiting line and nothing
    /// comes back: `who` is resumed by a later [`release`](Self::release).
    pub fn acquire(&mut self, who: W) -> (granted: Option<(W, Permit)>)
        requires
            old(self).wf(),
        ensures
            final(self).wf(),
            old(self)@.outstanding < old(self)@.capacity ==> {
                &&& granted matches Some(pair)
                &&& pair.0 == who
                &&& final(self)@ == (AdmissionView {
                    outstanding: old(self)@.outstanding + 1,
                    ..old(self)@
                })
            },
            old(self)@.outstanding >= old(self)@.capacity ==> {
                &&& granted is None
                &&& final(self)@ == (AdmissionView {
                    waiting: old(self)@.waiting.push(who),
                    ..old(self)@
                })
            },
    {
        if self.outstanding < self.capacity {
            self.outstanding = self.outstanding + 1;
            Some((who, Permit { token: () }))
        } else {
            self.waiting.push_back(who);
            None
        }
    }

    /// Gives a permit back.
    ///
    /// If anyone is waiting, the one who has waited longest is returned
    /// together with the permit, which thereby stays outstanding. Otherwise
    /// the permit goes back to the pool.
    pub fn release(&mut self, permit: Permit) -> (resumed: Option<(W, Permit)>)
        requires
            old(self).wf(),
            old(self)@.outstanding > 0,
        ensures
            final(self).wf(),
            old(self)@.waiting.len() > 0 ==> {
                &&& resumed matches Some(pair)
                &&& pair.0 == old(self)@.waiting[0]
                &&& final(self)@ == (AdmissionView {
                    waiting: old(self)@.waiting.skip(1),
                    ..old(self)@
                })
            },
            old(self)@.waiting.len() == 0 ==> {
                &&& resumed is None
                &&& final(self)@ == (AdmissionView {
                    outstanding: (old(self)@.outstanding - 1) as nat,
                    ..old(self)@
                })
            },
    {
        match self.waiting.pop_front() {
            Some(who) => Some((who, permit)),
            None => {
                self.outstanding = self.outstanding - 1;
                None
            },
        }
    }
}

} // verus!
