//! Runs of the engine, and what holds of every one of them.
//!
//! Many callers and one scheduler drive the engine at once, but each of
//! them acts on it in one step at a time: a request is submitted, the next
//! batch is taken, a batch is completed. A run is any sequence of such
//! steps, in any interleaving. The theorems below are stated for all runs.

use crate::engine::{EngineView, Submitted};
use crate::error::RequestError;
use crate::request::{inputs_of, slots_of, Delivery, Request};
use vstd::multiset::Multiset;
use vstd::prelude::*;
use vstd::seq_lib::{lemma_multiset_commutative, to_multiset_contains};

verus! {

/// One step anybody takes on the engine.
pub ghost enum Event<S, T, V> {
    /// A caller submits a request.
    Submit(Request<S, T>),
    /// The scheduler takes the next batch.
    NextBatch,
    /// The scheduler completes the batch in flight with the outcome of its
    /// forward pass.
    Complete(Result<Vec<V>, String>),
}

/// The state after one step.
pub open spec fn step<S, T, V>(state: EngineView<S, T>, event: Event<S, T, V>) -> EngineView<S, T> {
    match event {
        Event::Submit(request) => state.after_submit(request),
        Event::NextBatch => state.after_next_batch(),
        Event::Complete(_) => state.after_complete(),
    }
}

/// The deliveries one step makes.
pub open spec fn emitted<S, T, V>(state: EngineView<S, T>, event: Event<S, T, V>) -> Seq<
    Delivery<S, V>,
> {
    match event {
        Event::Submit(request) => match state.submit_outcome(request) {
            Submitted::Rejected { slot, error } => seq![Delivery { slot, result: Err(error) }],
            _ => Seq::empty(),
        },
        Event::NextBatch => Seq::empty(),
        Event::Complete(outcome) => state.completion(outcome),
    }
}

/// The state after a run that started in `state`.
pub open spec fn run<S, T, V>(state: EngineView<S, T>, events: Seq<Event<S, T, V>>) -> EngineView<
    S,
    T,
>
    decreases events.len(),
{
    if events.len() == 0 {
        state
    } else {
        step(run(state, events.drop_last()), events.last())
    }
}

/// All deliveries of a run that started in `state`, in the order in which
/// they were made.
pub open spec fn output<S, T, V>(state: EngineView<S, T>, events: Seq<Event<S, T, V>>) -> Seq<
    Delivery<S, V>,
>
    decreases events.len(),
{
    if events.len() == 0 {
        Seq::empty()
    } else {
        output(state, events.drop_last()) + emitted(
            run(state, events.drop_last()),
            events.last(),
        )
    }
}

/// Every step leaves a sound engine sound and its bounds as they were.
pub proof fn lemma_step_keeps_wf<S, T, V>(state: EngineView<S, T>, event: Event<S, T, V>)
    requires
        state.wf(),
    ensures
        step(state, event).wf(),
        step(state, event).max_concurrent == state.max_concurrent,
        step(state, event).queue_capacity == state.queue_capacity,
        step(state, event).max_batch_size == state.max_batch_size,
{
}

/// Every run leaves a sound engine sound and its bounds as they were.
pub proof fn lemma_run_keeps_wf<S, T, V>(state: EngineView<S, T>, events: Seq<Event<S, T, V>>)
    requires
        state.wf(),
    ensures
        run(state, events).wf(),
        run(state, events).max_concurrent == state.max_concurrent,
        run(state, events).queue_capacity == state.queue_capacity,
        run(state, events).max_batch_size == state.max_batch_size,
    decreases events.len(),
{
    if events.len() > 0 {
        lemma_run_keeps_wf(state, events.drop_last());
        lemma_step_keeps_wf(run(state, events.drop_last()), events.last());
    }
}

/// At no point of any run are more permits out than the engine was built
/// with: after each step of the run, the requests that hold a permit, those
/// queued and those in flight, number at most `max_concurrent`.
pub proof fn theorem_permits_never_exceed_capacity<S, T, V>(
    state: EngineView<S, T>,
    events: Seq<Event<S, T, V>>,
)
    requires
        state.wf(),
    ensures
        forall|steps: int|
            0 <= steps <= events.len() ==> (#[trigger] run(state, events.take(steps))).outstanding()
                <= state.max_concurrent,
{
    assert forall|steps: int| 0 <= steps <= events.len() implies (#[trigger] run(
        state,
        events.take(steps),
    )).outstanding() <= state.max_concurrent by {
        lemma_run_keeps_wf(state, events.take(steps));
    }
}

/// The slots of the requests the engine holds, each as often as it occurs.
pub open spec fn held<S, T>(state: EngineView<S, T>) -> Multiset<S> {
    slots_of(state.waiting).to_multiset().add(slots_of(state.queued).to_multiset()).add(
        slots_of(state.in_flight).to_multiset(),
    )
}

/// The slots of the requests submitted in a run, each as often as it occurs.
pub open spec fn submitted<S, T, V>(events: Seq<Event<S, T, V>>) -> Multiset<S>
    decreases events.len(),
{
    if events.len() == 0 {
        Multiset::empty()
    } else {
        match events.last() {
            Event::Submit(request) => submitted(events.drop_last()).insert(request.slot),
            _ => submitted(events.drop_last()),
        }
    }
}

/// The slots that deliveries were made to, in the order of the deliveries.
pub open spec fn slots_answered<S, V>(deliveries: Seq<Delivery<S, V>>) -> Seq<S> {
    deliveries.map_values(|delivery: Delivery<S, V>| delivery.slot)
}

/// The slots that deliveries were made to, each as often as it occurs.
pub open spec fn answered<S, V>(deliveries: Seq<Delivery<S, V>>) -> Multiset<S> {
    slots_answered(deliveries).to_multiset()
}

/// No slots, counted, are no slots.
pub proof fn lemma_no_slots<S>()
    ensures
        Seq::<S>::empty().to_multiset() == Multiset::<S>::empty(),
{
    let none = Seq::<S>::empty().to_multiset();
    assert forall|slot: S| none.count(slot) == 0 by {
        to_multiset_contains(Seq::<S>::empty(), slot);
    }
}

proof fn lemma_slots_split<S, T>(requests: Seq<Request<S, T>>, at: int)
    requires
        0 <= at <= requests.len(),
    ensures
        slots_of(requests).to_multiset() == slots_of(requests.take(at)).to_multiset().add(
            slots_of(requests.skip(at)).to_multiset(),
        ),
{
    assert(slots_of(requests) == slots_of(requests.take(at)) + slots_of(requests.skip(at)));
    lemma_multiset_commutative(slots_of(requests.take(at)), slots_of(requests.skip(at)));
}

proof fn lemma_slots_joined<S, T>(first: Seq<Request<S, T>>, second: Seq<Request<S, T>>)
    ensures
        slots_of(first + second).to_multiset() == slots_of(first).to_multiset().add(
            slots_of(second).to_multiset(),
        ),
{
    assert(slots_of(first + second) == slots_of(first) + slots_of(second));
    lemma_multiset_commutative(slots_of(first), slots_of(second));
}

proof fn lemma_slots_pushed<S, T>(requests: Seq<Request<S, T>>, request: Request<S, T>)
    ensures
        slots_of(requests.push(request)).to_multiset() == slots_of(requests).to_multiset().insert(
            request.slot,
        ),
{
    assert(slots_of(requests.push(request)) == slots_of(requests).push(request.slot));
    broadcast use vstd::seq_lib::to_multiset_build;

}

proof fn lemma_step_accounts<S, T, V>(state: EngineView<S, T>, event: Event<S, T, V>)
    requires
        state.wf(),
    ensures
        held(step(state, event)).add(answered(emitted(state, event))) == (match event {
            Event::Submit(request) => held(state).insert(request.slot),
            _ => held(state),
        }),
{
    let made = emitted(state, event);
    match event {
        Event::Submit(request) => {
            lemma_slots_pushed(state.waiting, request);
            lemma_slots_pushed(state.queued, request);
            match state.submit_outcome(request) {
                Submitted::Rejected { slot, error } => {
                    let one = seq![Delivery::<S, V> { slot, result: Err(error) }];
                    assert(slots_answered(one) == Seq::<S>::empty().push(slot));
                    broadcast use vstd::seq_lib::to_multiset_build;

                    lemma_no_slots::<S>();
                },
                _ => {
                    assert(slots_answered(made) == Seq::<S>::empty());
                    lemma_no_slots::<S>();
                },
            }
        },
        Event::NextBatch => {
            let size = state.batch_size() as int;
            lemma_slots_split(state.queued, size);
            lemma_slots_joined(state.in_flight, state.queued.take(size));
            assert(slots_answered(made) == Seq::<S>::empty());
            lemma_no_slots::<S>();
        },
        Event::Complete(outcome) => {
            let freed = state.in_flight.len();
            let moved = state.resumed(freed) as int;
            let away = state.turned_away(freed);
            lemma_slots_split(state.waiting, moved);
            lemma_slots_joined(state.queued, state.waiting.take(moved));
            assert(slots_answered(made) == slots_of(state.in_flight) + slots_of(away));
            lemma_multiset_commutative(slots_of(state.in_flight), slots_of(away));
            assert(slots_of(Seq::<Request<S, T>>::empty()) == Seq::<S>::empty());
            lemma_no_slots::<S>();
        },
    }
}

/// No request is lost and none is answered twice: in every run, the slots
/// the engine held at the start and those submitted since are exactly the
/// slots it holds at the end and those it has made a delivery to, each
/// counted as often as it occurs.
pub proof fn theorem_every_request_is_accounted_for<S, T, V>(
    state: EngineView<S, T>,
    events: Seq<Event<S, T, V>>,
)
    requires
        state.wf(),
    ensures
        held(state).add(submitted(events)) == held(run(state, events)).add(
            answered(output(state, events)),
        ),
    decreases events.len(),
{
    if events.len() == 0 {
        assert(slots_answered(output(state, events)) == Seq::<S>::empty());
        lemma_no_slots::<S>();
    } else {
        let before = events.drop_last();
        let reached = run(state, before);
        theorem_every_request_is_accounted_for(state, before);
        lemma_run_keeps_wf(state, before);
        lemma_step_accounts(reached, events.last());
        let earlier = output(state, before);
        let made = emitted(reached, events.last());
        assert(slots_answered(earlier + made) == slots_answered(earlier) + slots_answered(made));
        lemma_multiset_commutative(slots_answered(earlier), slots_answered(made));
        broadcast use vstd::multiset::group_multiset_axioms;

        let at_start = held(state).add(submitted(events));
        let at_end = held(run(state, events)).add(answered(output(state, events)));
        assert forall|slot: S| at_start.count(slot) == at_end.count(slot) by {
            assert(held(state).add(submitted(before)).count(slot) == held(reached).add(
                answered(earlier),
            ).count(slot));
            match events.last() {
                Event::Submit(request) => {
                    assert(held(run(state, events)).add(answered(made)).count(slot) == held(
                        reached,
                    ).insert(request.slot).count(slot));
                },
                _ => {},
            }
        }
    }
}

/// The requests submitted in a run, in the order of their submission.
pub open spec fn requests_submitted<S, T, V>(events: Seq<Event<S, T, V>>) -> Seq<Request<S, T>>
    decreases events.len(),
{
    if events.len() == 0 {
        Seq::empty()
    } else {
        match events.last() {
            Event::Submit(request) => requests_submitted(events.drop_last()).push(request),
            _ => requests_submitted(events.drop_last()),
        }
    }
}

/// The requests the engine holds: those waiting, those queued and those in
/// flight.
pub open spec fn requests_held<S, T>(state: EngineView<S, T>) -> Seq<Request<S, T>> {
    state.waiting + state.queued + state.in_flight
}

/// Whether every forward pass of a run succeeded and returned, for each
/// input of its batch and in the order of the batch, the vector that
/// `vector_of` gives for that input.
pub open spec fn backend_never_errs<S, T, V>(
    state: EngineView<S, T>,
    events: Seq<Event<S, T, V>>,
    vector_of: spec_fn(T) -> V,
) -> bool
    decreases events.len(),
{
    events.len() == 0 || {
        &&& backend_never_errs(state, events.drop_last(), vector_of)
        &&& events.last() matches Event::Complete(outcome) ==> {
            &&& outcome matches Ok(vectors)
            &&& vectors@ == inputs_of(run(state, events.drop_last()).in_flight).map_values(
                vector_of,
            )
        }
    }
}

/// Whether `delivery` brings one of `requests` the vector of its own input.
pub open spec fn serves<S, T, V>(
    delivery: Delivery<S, V>,
    requests: Seq<Request<S, T>>,
    vector_of: spec_fn(T) -> V,
) -> bool {
    exists|request: Request<S, T>|
        {
            &&& #[trigger] requests.contains(request)
            &&& delivery.slot == request.slot
            &&& delivery.result == Ok::<V, RequestError>(vector_of(request.input))
        }
}

/// Whether `delivery` tells one of `requests` that the queue was full.
pub open spec fn turns_away<S, T, V>(
    delivery: Delivery<S, V>,
    requests: Seq<Request<S, T>>,
) -> bool {
    exists|request: Request<S, T>|
        {
            &&& #[trigger] requests.contains(request)
            &&& delivery.slot == request.slot
            &&& delivery.result == Err::<V, RequestError>(RequestError::QueueFull)
        }
}

/// While the queue has room for as many requests as there are permits, no
/// request is ever refused for want of room.
pub proof fn lemma_roomy_queue_refuses_nobody<S, T>(state: EngineView<S, T>)
    requires
        state.wf(),
        state.queue_capacity >= state.max_concurrent,
    ensures
        forall|request: Request<S, T>| !(#[trigger] state.submit_outcome(request) is Rejected),
        state.turned_away(state.in_flight.len()) == Seq::<Request<S, T>>::empty(),
{
}

proof fn lemma_run_serves<S, T, V>(
    state: EngineView<S, T>,
    events: Seq<Event<S, T, V>>,
    vector_of: spec_fn(T) -> V,
)
    requires
        state.wf(),
        backend_never_errs(state, events, vector_of),
    ensures
        forall|i: int|
            0 <= i < requests_held(run(state, events)).len() ==> (requests_held(state)
                + requests_submitted(events)).contains(
                #[trigger] requests_held(run(state, events))[i],
            ),
        forall|i: int|
            0 <= i < output(state, events).len() ==> {
                ||| serves(
                    #[trigger] output(state, events)[i],
                    requests_held(state) + requests_submitted(events),
                    vector_of,
                )
                ||| state.queue_capacity < state.max_concurrent && turns_away(
                    output(state, events)[i],
                    requests_held(state) + requests_submitted(events),
                )
            },
    decreases events.len(),
{
    let known = requests_held(state) + requests_submitted(events);
    if events.len() > 0 {
        let before = events.drop_last();
        let event = events.last();
        let reached = run(state, before);
        let next = run(state, events);
        let known_before = requests_held(state) + requests_submitted(before);
        let earlier = output(state, before);
        lemma_run_serves(state, before, vector_of);
        lemma_run_keeps_wf(state, before);
        // What was known stays known.
        assert forall|request: Request<S, T>| known_before.contains(request) implies known.contains(
            request,
        ) by {
            let at = choose|at: int| 0 <= at < known_before.len() && known_before[at] == request;
            assert(known[at] == request);
        }
        // A request submitted in this step is known from now on.
        if let Event::Submit(request) = event {
            assert(known[known.len() - 1] == request);
        }
        // Whatever the engine holds now, it held before or was just given.
        assert forall|i: int| 0 <= i < requests_held(next).len() implies known.contains(
            #[trigger] requests_held(next)[i],
        ) by {
            match event {
                Event::Submit(given) => {
                    if requests_held(next)[i] != given {
                        lemma_held_after_submit(reached, given, i);
                    }
                },
                Event::NextBatch => {
                    lemma_held_after_next_batch(reached, i);
                },
                Event::Complete(_) => {
                    lemma_held_after_complete(reached, i);
                },
            }
        }
        // A delivery made earlier serves whom it served; one made in this
        // step serves a request that the engine held.
        assert forall|i: int| 0 <= i < output(state, events).len() implies {
            ||| serves(#[trigger] output(state, events)[i], known, vector_of)
            ||| state.queue_capacity < state.max_concurrent && turns_away(
                output(state, events)[i],
                known,
            )
        } by {
            if i >= earlier.len() {
                let j = i - earlier.len();
                if state.queue_capacity >= state.max_concurrent {
                    lemma_roomy_queue_refuses_nobody(reached);
                }
                match event {
                    Event::Submit(given) => {
                        assert(known.contains(given));
                    },
                    Event::NextBatch => {},
                    Event::Complete(_) => {
                        let batch = reached.in_flight;
                        if j < batch.len() {
                            assert(requests_held(reached)[reached.waiting.len()
                                + reached.queued.len() + j] == batch[j]);
                        } else {
                            let moved = reached.resumed(batch.len()) as int;
                            assert(requests_held(reached)[moved + j - batch.len()]
                                == reached.turned_away(batch.len())[j - batch.len()]);
                        }
                    },
                }
            }
        }
    }
}

proof fn lemma_held_after_submit<S, T>(state: EngineView<S, T>, given: Request<S, T>, i: int)
    requires
        0 <= i < requests_held(state.after_submit(given)).len(),
        requests_held(state.after_submit(given))[i] != given,
    ensures
        requests_held(state).contains(requests_held(state.after_submit(given))[i]),
{
    let next = state.after_submit(given);
    let request = requests_held(next)[i];
    if state.outstanding() >= state.max_concurrent {
        if i < state.waiting.len() {
            assert(requests_held(state)[i] == request);
        } else {
            assert(requests_held(state)[i - 1] == request);
        }
    } else if state.queued.len() >= state.queue_capacity {
    } else {
        if i < state.waiting.len() + state.queued.len() {
            assert(requests_held(state)[i] == request);
        } else {
            assert(requests_held(state)[i - 1] == request);
        }
    }
}

proof fn lemma_held_after_next_batch<S, T>(state: EngineView<S, T>, i: int)
    requires
        0 <= i < requests_held(state.after_next_batch()).len(),
    ensures
        requests_held(state).contains(requests_held(state.after_next_batch())[i]),
{
    let next = state.after_next_batch();
    let request = requests_held(next)[i];
    let size = state.batch_size() as int;
    let w = state.waiting.len() as int;
    let q = state.queued.len() as int;
    let f = state.in_flight.len() as int;
    if i < w {
        assert(requests_held(state)[i] == request);
    } else if i < w + q - size {
        assert(requests_held(state)[i + size] == request);
    } else if i < w + q - size + f {
        assert(requests_held(state)[i + size] == request);
    } else {
        assert(requests_held(state)[w + (i - (w + q - size + f))] == request);
    }
}

proof fn lemma_held_after_complete<S, T>(state: EngineView<S, T>, i: int)
    requires
        0 <= i < requests_held(state.after_complete()).len(),
    ensures
        requests_held(state).contains(requests_held(state.after_complete())[i]),
{
    let next = state.after_complete();
    let request = requests_held(next)[i];
    let moved = state.resumed(state.in_flight.len()) as int;
    let w = state.waiting.len() as int;
    let q = state.queued.len() as int;
    let left = next.waiting.len() as int;
    if i < left {
        assert(requests_held(state)[i + moved] == request);
    } else if i < left + q {
        assert(requests_held(state)[w + (i - left)] == request);
    } else {
        assert(requests_held(state)[i - left - q] == request);
    }
}

/// Every request gets the vector of its own input, however the requests of
/// different callers are interleaved and batched: in a run in which no
/// forward pass fails, every delivery goes to the slot of a request that the
/// engine held or was given, and brings the vector of that request's input,
/// or, where the queue is smaller than the pool of permits, the word that
/// the queue was full.
pub proof fn theorem_each_request_gets_its_own_vector<S, T, V>(
    state: EngineView<S, T>,
    events: Seq<Event<S, T, V>>,
    vector_of: spec_fn(T) -> V,
)
    requires
        state.wf(),
        backend_never_errs(state, events, vector_of),
    ensures
        forall|i: int|
            0 <= i < output(state, events).len() ==> {
                ||| serves(
                    #[trigger] output(state, events)[i],
                    requests_held(state) + requests_submitted(events),
                    vector_of,
                )
                ||| state.queue_capacity < state.max_concurrent && turns_away(
                    output(state, events)[i],
                    requests_held(state) + requests_submitted(events),
                )
            },
{
    lemma_run_serves(state, events, vector_of);
}

proof fn lemma_outcome_does_not_steer<S, T, V>(
    state: EngineView<S, T>,
    events: Seq<Event<S, T, V>>,
    others: Seq<Event<S, T, V>>,
    at: int,
    steps: int,
)
    requires
        0 <= at < events.len(),
        events[at] is Complete,
        others.len() == events.len(),
        others[at] is Complete,
        forall|k: int| 0 <= k < events.len() && k != at ==> others[k] == events[k],
        0 <= steps <= events.len(),
    ensures
        run(state, others.take(steps)) == run(state, events.take(steps)),
    decreases steps,
{
    if steps > 0 {
        lemma_outcome_does_not_steer(state, events, others, at, steps - 1);
        assert(events.take(steps).drop_last() == events.take(steps - 1));
        assert(others.take(steps).drop_last() == others.take(steps - 1));
    }
}

/// A failed forward pass fails its own batch and nothing else.
///
/// Take any run and let the pass completed in step `at` fail with `cause`
/// instead. Then every request of that batch is delivered that failure;
/// the refusals made in that step, the deliveries of every other step, and
/// the state of the engine after each step are what they were.
pub proof fn theorem_failure_stays_in_its_batch<S, T, V>(
    state: EngineView<S, T>,
    events: Seq<Event<S, T, V>>,
    at: int,
    cause: String,
)
    requires
        0 <= at < events.len(),
        events[at] is Complete,
    ensures
        ({
            let failing = events.update(at, Event::Complete(Err(cause)));
            let batch = run(state, events.take(at)).in_flight;
            let made = emitted(run(state, failing.take(at)), failing[at]);
            let made_before = emitted(run(state, events.take(at)), events[at]);
            &&& made.len() == made_before.len()
            &&& forall|i: int|
                0 <= i < batch.len() ==> #[trigger] made[i] == (Delivery {
                    slot: batch[i].slot,
                    result: Err::<V, RequestError>(RequestError::BackendFailure(cause)),
                })
            &&& forall|i: int| batch.len() <= i < made.len() ==> #[trigger] made[i] == made_before[i]
            &&& forall|steps: int|
                0 <= steps <= events.len() ==> #[trigger] run(state, failing.take(steps)) == run(
                    state,
                    events.take(steps),
                )
            &&& forall|k: int|
                0 <= k < events.len() && k != at ==> #[trigger] emitted(
                    run(state, failing.take(k)),
                    failing[k],
                ) == emitted(run(state, events.take(k)), events[k])
        }),
{
    let failing = events.update(at, Event::Complete(Err(cause)));
    assert forall|steps: int| 0 <= steps <= events.len() implies #[trigger] run(
        state,
        failing.take(steps),
    ) == run(state, events.take(steps)) by {
        lemma_outcome_does_not_steer(state, events, failing, at, steps);
    }
    assert forall|k: int| 0 <= k < events.len() && k != at implies #[trigger] emitted(
        run(state, failing.take(k)),
        failing[k],
    ) == emitted(run(state, events.take(k)), events[k]) by {
        lemma_outcome_does_not_steer(state, events, failing, at, k);
    }
    lemma_outcome_does_not_steer(state, events, failing, at, at);
}

/// The steps in which each of `requests` is submitted, one after the other.
pub open spec fn burst<S, T, V>(requests: Seq<Request<S, T>>) -> Seq<Event<S, T, V>> {
    requests.map_values(|request: Request<S, T>| Event::Submit(request))
}

proof fn lemma_burst_is_queued<S, T, V>(state: EngineView<S, T>, requests: Seq<Request<S, T>>)
    requires
        state.wf(),
        state.idle(),
        requests.len() <= state.max_concurrent,
        requests.len() <= state.queue_capacity,
    ensures
        run(state, burst::<S, T, V>(requests)) == (EngineView { queued: requests, ..state }),
        output(state, burst::<S, T, V>(requests)) == Seq::<Delivery<S, V>>::empty(),
    decreases requests.len(),
{
    if requests.len() == 0 {
        assert(state.queued == requests);
    } else {
        lemma_burst_is_queued::<S, T, V>(state, requests.drop_last());
        assert(burst::<S, T, V>(requests).drop_last() == burst::<S, T, V>(requests.drop_last()));
        assert(requests.drop_last().push(requests.last()) == requests);
    }
}

/// Requests that arrive together travel together: when no more requests
/// than fit one batch, and no more than there are permits and places in the
/// queue, are submitted to an idle engine before the scheduler takes a
/// batch, the next batch holds all of them in the order of their
/// submission. One forward pass serves them all, and completing it leaves
/// the engine idle.
pub proof fn theorem_burst_travels_in_one_batch<S, T, V>(
    state: EngineView<S, T>,
    requests: Seq<Request<S, T>>,
)
    requires
        state.wf(),
        state.idle(),
        requests.len() <= state.max_batch_size,
        requests.len() <= state.max_concurrent,
        requests.len() <= state.queue_capacity,
    ensures
        ({
            let arrived = run(state, burst::<S, T, V>(requests));
            &&& arrived.batch_inputs() == inputs_of(requests)
            &&& arrived.after_next_batch().in_flight == requests
            &&& arrived.after_next_batch().queued.len() == 0
            &&& arrived.after_next_batch().after_complete().idle()
        }),
{
    lemma_burst_is_queued::<S, T, V>(state, requests);
}

/// The number of requests the engine holds.
pub open spec fn load<S, T>(state: EngineView<S, T>) -> nat {
    state.waiting.len() + state.queued.len() + state.in_flight.len()
}

/// The scheduler never turns in vain: whenever the engine holds a request,
/// taking the next batch and completing it leaves the engine with fewer
/// requests than before, and the request that was first in the queue is
/// among those served. So the engine drains, and no request is passed over.
pub proof fn theorem_each_round_serves_someone<S, T>(state: EngineView<S, T>)
    requires
        state.wf(),
        !state.idle(),
    ensures
        load(state.after_next_batch().after_complete()) < load(state),
        state.after_next_batch().in_flight.len() > 0,
        state.in_flight.len() == 0 ==> state.after_next_batch().in_flight[0] == state.queued[0],
{
}

/// The requests the engine holds in the order in which they are served:
/// those in flight, then those queued, then those waiting.
pub open spec fn line_of<S, T>(state: EngineView<S, T>) -> Seq<Request<S, T>> {
    state.in_flight + state.queued + state.waiting
}

proof fn lemma_step_keeps_the_line<S, T, V>(state: EngineView<S, T>, event: Event<S, T, V>)
    requires
        state.wf(),
        state.queue_capacity >= state.max_concurrent,
    ensures
        slots_answered(emitted(state, event)) + slots_of(line_of(step(state, event))) == (
        match event {
            Event::Submit(request) => slots_of(line_of(state)).push(request.slot),
            _ => slots_of(line_of(state)),
        }),
{
    lemma_roomy_queue_refuses_nobody(state);
}

/// First come, first served: while the queue has room for as many requests
/// as there are permits, the deliveries of any run are made in the order in
/// which the requests came. The slots delivered to, followed by those of
/// the requests still in the engine in the order of their turn, are the
/// slots of the requests the engine began with, followed by those
/// submitted, in the order of submission.
pub proof fn theorem_requests_are_served_in_order_of_arrival<S, T, V>(
    state: EngineView<S, T>,
    events: Seq<Event<S, T, V>>,
)
    requires
        state.wf(),
        state.queue_capacity >= state.max_concurrent,
    ensures
        slots_answered(output(state, events)) + slots_of(line_of(run(state, events))) == slots_of(
            line_of(state),
        ) + slots_of(requests_submitted(events)),
    decreases events.len(),
{
    if events.len() > 0 {
        let before = events.drop_last();
        theorem_requests_are_served_in_order_of_arrival(state, before);
        lemma_run_keeps_wf(state, before);
        lemma_step_keeps_the_line(run(state, before), events.last());
        if let Event::Submit(request) = events.last() {
            let start = slots_of(line_of(state));
            let given = slots_of(requests_submitted(before));
            assert((start + given).push(request.slot) == start + given.push(request.slot));
        }
    }
}

} // verus!
