//! The engine: admission controller, request queue and batch scheduler put
//! together as one state machine.
//!
//! A request is submitted once and is from then on in exactly one place:
//! waiting for a permit, queued with a permit, or in flight with a permit as
//! part of the one batch the model is working on. It leaves the engine in
//! exactly one delivery. The engine never waits: whoever drives it submits
//! requests as they come, asks for the next batch when the model is free, and
//! reports what the model returned.

use crate::admission::{AdmissionController, Permit};
use crate::error::RequestError;
use crate::queue::{batch_len, QueueFull, RequestQueue};
use crate::request::{inputs_of, refusals, slots_of, Delivery, Request};
use crate::scheduler::{delivered, distribute};
use vstd::prelude::*;

verus! {

/// The three bounds an engine is built with.
pub struct EngineConfig {
    /// The number of permits: how many requests may be queued or in flight.
    pub max_concurrent_requests: usize,
    /// The number of requests the queue has room for.
    pub queue_capacity: usize,
    /// The most requests one forward pass takes.
    pub max_batch_size: usize,
}

/// What became of a request on submission.
#[derive(Debug, PartialEq, Eq)]
pub enum Submitted<S> {
    /// It got a permit and a place in the queue.
    Queued,
    /// No permit was free; it waits in line for one.
    Parked,
    /// It got a permit, found the queue full and gave the permit back. The
    /// slot comes back with the failure to deliver to it.
    Rejected { slot: S, error: RequestError },
}

/// The state of an [`Engine`], as plain values.
pub ghost struct EngineView<S, T> {
    pub max_concurrent: nat,
    pub queue_capacity: nat,
    pub max_batch_size: nat,
    /// The requests waiting for a permit, the one who came first in front.
    pub waiting: Seq<Request<S, T>>,
    /// The requests in the queue, oldest first. Each holds a permit.
    pub queued: Seq<Request<S, T>>,
    /// The requests of the batch that the model is working on, in batch
    /// order. Each holds a permit.
    pub in_flight: Seq<Request<S, T>>,
}

/// The least of three numbers.
pub open spec fn least(a: nat, b: nat, c: nat) -> nat {
    if a <= b && a <= c {
        a
    } else if b <= c {
        b
    } else {
        c
    }
}

impl<S, T> EngineView<S, T> {
    /// The permits acquired and not yet released.
    pub open spec fn outstanding(self) -> nat {
        self.queued.len() + self.in_flight.len()
    }

    /// Whether the engine holds no request at all.
    pub open spec fn idle(self) -> bool {
        self.waiting.len() == 0 && self.queued.len() == 0 && self.in_flight.len() == 0
    }

    /// The bounds are positive and kept, and nobody waits while a permit is
    /// free.
    pub open spec fn wf(self) -> bool {
        &&& self.max_concurrent >= 1
        &&& self.queue_capacity >= 1
        &&& self.max_batch_size >= 1
        &&& self.outstanding() <= self.max_concurrent
        &&& self.queued.len() <= self.queue_capacity
        &&& self.in_flight.len() <= self.max_batch_size
        &&& self.waiting.len() > 0 ==> self.outstanding() == self.max_concurrent
    }

    /// What `submit` answers for a request.
    pub open spec fn submit_outcome(self, request: Request<S, T>) -> Submitted<S> {
        if self.outstanding() >= self.max_concurrent {
            Submitted::Parked
        } else if self.queued.len() >= self.queue_capacity {
            Submitted::Rejected { slot: request.slot, error: RequestError::QueueFull }
        } else {
            Submitted::Queued
        }
    }

    /// The state after `request` was submitted.
    pub open spec fn after_submit(self, request: Request<S, T>) -> Self {
        if self.outstanding() >= self.max_concurrent {
            EngineView { waiting: self.waiting.push(request), ..self }
        } else if self.queued.len() >= self.queue_capacity {
            self
        } else {
            EngineView { queued: self.queued.push(request), ..self }
        }
    }

    /// How many requests the next batch takes: none while a batch is in
    /// flight, else as many as are queued, up to the largest batch.
    pub open spec fn batch_size(self) -> nat {
        if self.in_flight.len() > 0 {
            0
        } else {
            batch_len(self.queued.len(), self.max_batch_size)
        }
    }

    /// The inputs of the next batch, in batch order.
    pub open spec fn batch_inputs(self) -> Seq<T> {
        inputs_of(self.queued.take(self.batch_size() as int))
    }

    /// The state after the next batch was taken.
    pub open spec fn after_next_batch(self) -> Self {
        EngineView {
            queued: self.queued.skip(self.batch_size() as int),
            in_flight: self.in_flight + self.queued.take(self.batch_size() as int),
            ..self
        }
    }

    /// The places left in the queue.
    pub open spec fn room(self) -> nat {
        (self.queue_capacity - self.queued.len()) as nat
    }

    /// How many of those waiting move into the queue when `freed` permits
    /// come back: one for each permit, while anyone waits and the queue has
    /// room.
    pub open spec fn resumed(self, freed: nat) -> nat {
        least(freed, self.waiting.len(), self.room())
    }

    /// Whether, with `freed` permits back, a permit is free and someone
    /// waits, but the queue is full. Then all who still wait are turned
    /// away: each gets the free permit, finds the queue full and gives the
    /// permit back.
    pub open spec fn overflows(self, freed: nat) -> bool {
        self.resumed(freed) < freed && self.resumed(freed) < self.waiting.len()
    }

    /// Those turned away when `freed` permits come back.
    pub open spec fn turned_away(self, freed: nat) -> Seq<Request<S, T>> {
        if self.overflows(freed) {
            self.waiting.skip(self.resumed(freed) as int)
        } else {
            Seq::empty()
        }
    }

    /// Those still waiting after `freed` permits came back.
    pub open spec fn waiting_after(self, freed: nat) -> Seq<Request<S, T>> {
        if self.overflows(freed) {
            Seq::empty()
        } else {
            self.waiting.skip(self.resumed(freed) as int)
        }
    }

    /// The queue after `freed` permits came back.
    pub open spec fn queued_after(self, freed: nat) -> Seq<Request<S, T>> {
        self.queued + self.waiting.take(self.resumed(freed) as int)
    }

    /// The state after the batch in flight was completed: its permits came
    /// back, and those waiting moved up.
    pub open spec fn after_complete(self) -> Self {
        EngineView {
            waiting: self.waiting_after(self.in_flight.len()),
            queued: self.queued_after(self.in_flight.len()),
            in_flight: Seq::empty(),
            ..self
        }
    }

    /// The deliveries made when the batch in flight is completed with
    /// `outcome`: one for each request of the batch, in batch order, then
    /// one refusal for each request turned away.
    pub open spec fn completion<V>(self, outcome: Result<Vec<V>, String>) -> Seq<Delivery<S, V>> {
        delivered(slots_of(self.in_flight), outcome) + refusals(
            self.turned_away(self.in_flight.len()),
        )
    }
}

/// A request in the queue, with the permit it holds.
struct Admitted<S, T> {
    request: Request<S, T>,
    permit: Permit,
}

/// The requests of queue entries, in order.
spec fn requests_of<S, T>(entries: Seq<Admitted<S, T>>) -> Seq<Request<S, T>> {
    entries.map_values(|entry: Admitted<S, T>| entry.request)
}

/// The batching engine. `S` is the type of the callers' result slots, `T`
/// that of a tokenized input.
pub struct Engine<S, T> {
    admission: AdmissionController<Request<S, T>>,
    queue: RequestQueue<Admitted<S, T>>,
    /// The slots of the batch in flight, in batch order.
    slots_in_flight: Vec<S>,
    /// The permits of the batch in flight, one for each of its requests.
    permits_in_flight: Vec<Permit>,
    /// The inputs of the batch in flight, which the model has.
    inputs_in_flight: Ghost<Seq<T>>,
    max_batch_size: usize,
}

impl<S, T> View for Engine<S, T> {
    type V = EngineView<S, T>;

    closed spec fn view(&self) -> EngineView<S, T> {
        EngineView {
            max_concurrent: self.admission@.capacity,
            queue_capacity: self.queue.spec_capacity(),
            max_batch_size: self.max_batch_size as nat,
            waiting: self.admission@.waiting,
            queued: requests_of(self.queue@),
            in_flight: Seq::new(
                self.slots_in_flight@.len(),
                |i: int| Request { slot: self.slots_in_flight@[i], input: self.inputs_in_flight@[i] },
            ),
        }
    }
}

/// Gives one permit back: to the first of those waiting who finds room in
/// the queue, else to the pool. Whoever gets the permit and finds the queue
/// full is refused and passes the permit on.
fn hand_over<S, T, V>(
    admission: &mut AdmissionController<Request<S, T>>,
    queue: &mut RequestQueue<Admitted<S, T>>,
    permit: Permit,
    deliveries: &mut Vec<Delivery<S, V>>,
)
    requires
        old(admission).wf(),
        old(queue).wf(),
        old(admission)@.outstanding > 0,
    ensures
        final(admission).wf(),
        final(queue).wf(),
        final(admission)@.capacity == old(admission)@.capacity,
        final(queue).spec_capacity() == old(queue).spec_capacity(),
        old(admission)@.waiting.len() == 0 ==> {
            &&& final(admission)@.waiting == old(admission)@.waiting
            &&& final(admission)@.outstanding == old(admission)@.outstanding - 1
            &&& final(queue)@ == old(queue)@
            &&& final(deliveries)@ == old(deliveries)@
        },
        old(admission)@.waiting.len() > 0 && old(queue)@.len() < old(queue).spec_capacity() ==> {
            &&& final(admission)@.waiting == old(admission)@.waiting.skip(1)
            &&& final(admission)@.outstanding == old(admission)@.outstanding
            &&& final(queue)@.len() == old(queue)@.len() + 1
            &&& requests_of(final(queue)@) == requests_of(old(queue)@).push(
                old(admission)@.waiting[0],
            )
            &&& final(deliveries)@ == old(deliveries)@
        },
        old(admission)@.waiting.len() > 0 && old(queue)@.len() >= old(queue).spec_capacity() ==> {
            &&& final(admission)@.waiting == Seq::<Request<S, T>>::empty()
            &&& final(admission)@.outstanding == old(admission)@.outstanding - 1
            &&& final(queue)@ == old(queue)@
            &&& final(deliveries)@ == old(deliveries)@ + refusals(old(admission)@.waiting)
        },
{
    let ghost line = admission@.waiting;
    let ghost before = deliveries@;
    let mut next = admission.release(permit);
    let ghost mut refused: int = 0;
    loop
        invariant_except_break
            admission.wf(),
            queue.wf(),
            admission@.capacity == old(admission)@.capacity,
            queue.spec_capacity() == old(queue).spec_capacity(),
            queue@ == old(queue)@,
            line == old(admission)@.waiting,
            before == old(deliveries)@,
            old(admission)@.outstanding > 0,
            0 <= refused <= line.len(),
            refused > 0 ==> queue@.len() >= queue.spec_capacity(),
            deliveries@ == before + refusals::<S, T, V>(line.take(refused as int)),
            match next {
                Some(pair) => {
                    &&& refused < line.len()
                    &&& pair.0 == line[refused as int]
                    &&& admission@.waiting == line.skip(refused + 1)
                    &&& admission@.outstanding == old(admission)@.outstanding
                },
                None => {
                    &&& refused == line.len()
                    &&& admission@.waiting == Seq::<Request<S, T>>::empty()
                    &&& admission@.outstanding == old(admission)@.outstanding - 1
                },
            },
        ensures
            admission.wf(),
            queue.wf(),
            admission@.capacity == old(admission)@.capacity,
            queue.spec_capacity() == old(queue).spec_capacity(),
            line.len() == 0 ==> {
                &&& admission@.waiting == line
                &&& admission@.outstanding == old(admission)@.outstanding - 1
                &&& queue@ == old(queue)@
                &&& deliveries@ == before
            },
            line.len() > 0 && old(queue)@.len() < old(queue).spec_capacity() ==> {
                &&& admission@.waiting == line.skip(1)
                &&& admission@.outstanding == old(admission)@.outstanding
                &&& queue@.len() == old(queue)@.len() + 1
                &&& requests_of(queue@) == requests_of(old(queue)@).push(line[0])
                &&& deliveries@ == before
            },
            line.len() > 0 && old(queue)@.len() >= old(queue).spec_capacity() ==> {
                &&& admission@.waiting == Seq::<Request<S, T>>::empty()
                &&& admission@.outstanding == old(admission)@.outstanding - 1
                &&& queue@ == old(queue)@
                &&& deliveries@ == before + refusals::<S, T, V>(line)
            },
        decreases line.len() - refused,
    {
        match next {
            None => {
                break ;
            },
            Some((request, permit)) => {
                match queue.enqueue(Admitted { request, permit }) {
                    Ok(()) => {
                        next = None;
                        break ;
                    },
                    Err(QueueFull(entry)) => {
                        deliveries.push(
                            Delivery { slot: entry.request.slot, result: Err(RequestError::QueueFull) },
                        );
                        next = admission.release(entry.permit);
                        proof {
                            refused = refused + 1;
                        }
                    },
                }
            },
        }
    }
}

impl<S, T> Engine<S, T> {
    /// What holds between the parts of the engine beyond what its view shows:
    /// each part is sound, and the permits out are those of the requests
    /// queued and in flight.
    pub closed spec fn consistent(&self) -> bool {
        &&& self.admission.wf()
        &&& self.queue.wf()
        &&& self.admission@.outstanding == self.queue@.len() + self.slots_in_flight@.len()
        &&& self.permits_in_flight@.len() == self.slots_in_flight@.len()
        &&& self.inputs_in_flight@.len() == self.slots_in_flight@.len()
    }

    /// The engine is sound.
    pub open spec fn wf(&self) -> bool {
        self.consistent() && self@.wf()
    }

    /// An idle engine with the bounds of `config`, or nothing if one of the
    /// bounds is zero: such an engine could never serve a request.
    pub fn new(config: EngineConfig) -> (engine: Option<Self>)
        ensures
            config.max_concurrent_requests == 0 || config.queue_capacity == 0
                || config.max_batch_size == 0 ==> engine is None,
            config.max_concurrent_requests > 0 && config.queue_capacity > 0 && config.max_batch_size
                > 0 ==> {
                &&& engine matches Some(engine)
                &&& engine.wf()
                &&& engine@ == (EngineView::<S, T> {
                    max_concurrent: config.max_concurrent_requests as nat,
                    queue_capacity: config.queue_capacity as nat,
                    max_batch_size: config.max_batch_size as nat,
                    waiting: Seq::empty(),
                    queued: Seq::empty(),
                    in_flight: Seq::empty(),
                })
            },
    {
        if config.max_concurrent_requests == 0 || config.queue_capacity == 0
            || config.max_batch_size == 0 {
            return None;
        }
        let engine = Engine {
            admission: AdmissionController::new(config.max_concurrent_requests),
            queue: RequestQueue::new(config.queue_capacity),
            slots_in_flight: Vec::new(),
            permits_in_flight: Vec::new(),
            inputs_in_flight: Ghost(Seq::empty()),
            max_batch_size: config.max_batch_size,
        };
        assert(engine@.queued =~= Seq::empty());
        assert(engine@.in_flight =~= Seq::empty());
        Some(engine)
    }

    /// The permits acquired and not yet released.
    pub fn outstanding_permits(&self) -> (outstanding: usize)
        requires
            self.wf(),
        ensures
            outstanding == self@.outstanding(),
            outstanding <= self@.max_concurrent,
    {
        self.admission.outstanding()
    }

    /// The number of requests waiting for a permit.
    pub fn waiting(&self) -> (waiting: usize)
        ensures
            waiting == self@.waiting.len(),
    {
        self.admission.waiting()
    }

    /// The number of requests in the queue.
    pub fn queued(&self) -> (queued: usize)
        ensures
            queued == self@.queued.len(),
    {
        self.queue.len()
    }

    /// The number of requests in the batch the model is working on.
    pub fn in_flight(&self) -> (in_flight: usize)
        ensures
            in_flight == self@.in_flight.len(),
    {
        self.slots_in_flight.len()
    }

    /// Whether the engine holds no request at all.
    pub fn is_idle(&self) -> (idle: bool)
        ensures
            idle == self@.idle(),
    {
        self.admission.waiting() == 0 && self.queue.len() == 0 && self.slots_in_flight.len() == 0
    }

    /// Takes a request in.
    ///
    /// With a permit free and room in the queue the request is queued behind
    /// all that came before. With no permit free it waits in line and is
    /// queued, or turned away, when a later batch completes. With a permit
    /// free and the queue full it is rejected on the spot, and the engine is
    /// as it was.
    pub fn submit(&mut self, request: Request<S, T>) -> (outcome: Submitted<S>)
        requires
            old(self).wf(),
        ensures
            final(self).wf(),
            final(self)@ == old(self)@.after_submit(request),
            outcome == old(self)@.submit_outcome(request),
    {
        match self.admission.acquire(request) {
            None => Submitted::Parked,
            Some((request, permit)) => {
                match self.queue.enqueue(Admitted { request, permit }) {
                    Ok(()) => {
                        assert(self@.queued == old(self)@.queued.push(request));
                        Submitted::Queued
                    },
                    Err(QueueFull(entry)) => {
                        // Nobody waits while a permit is free, so the permit
                        // goes back to the pool.
                        self.admission.release(entry.permit);
                        Submitted::Rejected {
                            slot: entry.request.slot,
                            error: RequestError::QueueFull,
                        }
                    },
                }
            },
        }
    }

    /// Takes the next batch off the queue and returns its inputs for the
    /// forward pass, in batch order.
    ///
    /// The batch is the oldest queued requests, as many as there are up to
    /// the largest batch. It is empty, and the engine unchanged, when nothing
    /// is queued or when the batch before has not been completed: the model
    /// works on one batch at a time.
    pub fn next_batch(&mut self) -> (inputs: Vec<T>)
        requires
            old(self).wf(),
        ensures
            final(self).wf(),
            final(self)@ == old(self)@.after_next_batch(),
            inputs@ == old(self)@.batch_inputs(),
    {
        let mut inputs: Vec<T> = Vec::new();
        if self.slots_in_flight.len() > 0 {
            assert(old(self)@.queued.skip(0) == old(self)@.queued);
            return inputs;
        }
        let batch = self.queue.dequeue_batch(self.max_batch_size);
        let ghost entries = batch@;
        let ghost size = old(self)@.batch_size() as int;
        assert(requests_of(self.queue@) == old(self)@.queued.skip(size));
        for entry in it: batch
            invariant
                it.seq() == entries,
                self.admission == old(self).admission,
                self.queue@ == old(self).queue@.skip(size),
                self.queue.spec_capacity() == old(self).queue.spec_capacity(),
                self.queue.wf(),
                self.max_batch_size == old(self).max_batch_size,
                inputs@ == inputs_of(requests_of(entries.take(it.index() as int))),
                self.slots_in_flight@ == slots_of(requests_of(entries.take(it.index() as int))),
                self.permits_in_flight@.len() == it.index(),
        {
            inputs.push(entry.request.input);
            self.slots_in_flight.push(entry.request.slot);
            self.permits_in_flight.push(entry.permit);
        }
        self.inputs_in_flight = Ghost(inputs@);
        assert(self@.in_flight == old(self)@.queued.take(size));
        inputs
    }

    /// Completes the batch in flight with the outcome of its forward pass.
    ///
    /// Each request of the batch is delivered its vector, or the failure of
    /// the pass, and gives its permit back. For each permit the first in
    /// line moves into the queue; once the queue is full, all who still wait
    /// with a permit free are refused. The deliveries come back for the
    /// caller to put into their slots: first those of the batch, in batch
    /// order, then the refusals.
    ///
    /// With no batch in flight nothing happens and nothing is returned.
    pub fn complete<V>(&mut self, outcome: Result<Vec<V>, String>) -> (deliveries: Vec<
        Delivery<S, V>,
    >)
        requires
            old(self).wf(),
        ensures
            final(self).wf(),
            final(self)@ == old(self)@.after_complete(),
            deliveries@ == old(self)@.completion(outcome),
    {
        let ghost before = self@;
        let mut slots: Vec<S> = Vec::new();
        let mut permits: Vec<Permit> = Vec::new();
        std::mem::swap(&mut self.slots_in_flight, &mut slots);
        std::mem::swap(&mut self.permits_in_flight, &mut permits);
        self.inputs_in_flight = Ghost(Seq::empty());
        let mut deliveries = distribute(slots, outcome);
        let ghost answers = deliveries@;
        let ghost total = before.in_flight.len();
        let ghost handed = permits@;
        for permit in it: permits
            invariant
                it.seq() == handed,
                handed.len() == total,
                before == old(self)@,
                before.wf(),
                before.in_flight.len() == total,
                self.admission.wf(),
                self.queue.wf(),
                self.slots_in_flight@.len() == 0,
                self.permits_in_flight@.len() == 0,
                self.inputs_in_flight@.len() == 0,
                self.max_batch_size == old(self).max_batch_size,
                self.admission@.capacity == before.max_concurrent,
                self.queue.spec_capacity() == before.queue_capacity,
                self.admission@.waiting == before.waiting_after(it.index() as nat),
                requests_of(self.queue@) == before.queued_after(it.index() as nat),
                self.admission@.outstanding == self.queue@.len() + total - it.index(),
                deliveries@ == answers + refusals::<S, T, V>(
                    before.turned_away(it.index() as nat),
                ),
        {
            hand_over(&mut self.admission, &mut self.queue, permit, &mut deliveries);
        }
        assert(self@.in_flight == Seq::<Request<S, T>>::empty());
        deliveries
    }
}

} // verus!
