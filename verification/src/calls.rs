//! Calls that share the engine.
//!
//! A call embeds a list of texts. It submits one request for each text; the
//! slot of a request names the call and the position of the text within it.
//! The requests of all calls go through the same queue and travel in the
//! same batches. Each call records the deliveries made to its own slots and
//! answers once it has them all.

use crate::engine::EngineView;
use crate::error::RequestError;
use crate::facade::{complete, recorded, results_of};
use crate::request::{slots_of, Delivery, Request};
use crate::trace::{
    answered, backend_never_errs, held, lemma_no_slots, output, requests_held, requests_submitted,
    run, serves, slots_answered, submitted, theorem_each_request_gets_its_own_vector,
    theorem_every_request_is_accounted_for, Event,
};
use vstd::multiset::Multiset;
use vstd::prelude::*;
use vstd::seq_lib::to_multiset_contains;

verus! {

/// The requests of the call `call` for `inputs`: one for each text, its slot
/// the call and the position of the text.
pub open spec fn call_requests<T>(call: usize, inputs: Seq<T>) -> Seq<Request<(usize, usize), T>> {
    Seq::new(inputs.len(), |i: int| Request { slot: (call, i as usize), input: inputs[i] })
}

/// What the call `call` of `texts` texts has on record after `deliveries`
/// were made, in that order, to the slots of all calls.
pub open spec fn record_of<V>(
    call: usize,
    texts: nat,
    deliveries: Seq<Delivery<(usize, usize), V>>,
) -> Seq<Option<Result<V, RequestError>>>
    decreases deliveries.len(),
{
    if deliveries.len() == 0 {
        Seq::new(texts, |i: int| None)
    } else {
        let earlier = record_of(call, texts, deliveries.drop_last());
        let delivery = deliveries.last();
        if delivery.slot.0 == call {
            recorded(earlier, delivery.slot.1 as int, delivery.result)
        } else {
            earlier
        }
    }
}

/// Whether a slot names one request: any two of `requests` with the same
/// slot are the same request.
pub open spec fn slots_name_requests<S, T>(requests: Seq<Request<S, T>>) -> bool {
    forall|j: int, k: int|
        0 <= j < requests.len() && 0 <= k < requests.len() && (#[trigger] requests[j]).slot == (
        #[trigger] requests[k]).slot ==> requests[j] == requests[k]
}

proof fn lemma_record_holds_what_was_delivered<V>(
    call: usize,
    texts: nat,
    deliveries: Seq<Delivery<(usize, usize), V>>,
    position: int,
    result: Result<V, RequestError>,
)
    requires
        0 <= position < texts,
        texts <= usize::MAX,
        forall|k: int|
            0 <= k < deliveries.len() && (#[trigger] deliveries[k]).slot == (
                call,
                position as usize,
            ) ==> deliveries[k].result == result,
    ensures
        record_of(call, texts, deliveries).len() == texts,
        record_of(call, texts, deliveries)[position] is None || record_of(
            call,
            texts,
            deliveries,
        )[position] == Some(result),
        (exists|k: int|
            0 <= k < deliveries.len() && (#[trigger] deliveries[k]).slot == (
                call,
                position as usize,
            )) ==> record_of(call, texts, deliveries)[position] == Some(result),
    decreases deliveries.len(),
{
    if deliveries.len() > 0 {
        let before = deliveries.drop_last();
        lemma_record_holds_what_was_delivered(call, texts, before, position, result);
        if exists|k: int|
            0 <= k < deliveries.len() && (#[trigger] deliveries[k]).slot == (
                call,
                position as usize,
            ) {
            let k = choose|k: int|
                0 <= k < deliveries.len() && (#[trigger] deliveries[k]).slot == (
                    call,
                    position as usize,
                );
            if k < before.len() {
                assert(before[k].slot == (call, position as usize));
            }
        }
    }
}

proof fn lemma_submitted_slots<S, T, V>(events: Seq<Event<S, T, V>>)
    ensures
        submitted(events) == slots_of(requests_submitted(events)).to_multiset(),
    decreases events.len(),
{
    if events.len() == 0 {
        assert(slots_of(requests_submitted(events)) == Seq::<S>::empty());
        lemma_no_slots::<S>();
    } else {
        lemma_submitted_slots(events.drop_last());
        match events.last() {
            Event::Submit(request) => {
                let earlier = requests_submitted(events.drop_last());
                assert(slots_of(earlier.push(request)) == slots_of(earlier).push(request.slot));
                broadcast use vstd::seq_lib::to_multiset_build;

            },
            _ => {},
        }
    }
}

proof fn lemma_no_slots_held<S, T>(state: EngineView<S, T>)
    requires
        state.idle(),
    ensures
        held(state) == Multiset::<S>::empty(),
        requests_held(state) == Seq::<Request<S, T>>::empty(),
{
    assert(state.waiting == Seq::<Request<S, T>>::empty());
    assert(state.queued == Seq::<Request<S, T>>::empty());
    assert(state.in_flight == Seq::<Request<S, T>>::empty());
    assert(slots_of(Seq::<Request<S, T>>::empty()) == Seq::<S>::empty());
    lemma_no_slots::<S>();
}

/// Concurrent calls each get their own vectors, in the order of their own
/// texts, however their requests are interleaved and batched.
///
/// Take any run of an engine that starts and ends idle, whose queue has
/// room for as many requests as there are permits, in which no forward pass
/// fails and no slot is given to two different requests. Then a call whose
/// requests were all submitted in the run has, at the end, a result on
/// record for each of its texts, and the result for each text is the vector
/// of that text: as many vectors as texts, in the order of the texts.
pub proof fn theorem_concurrent_calls_answer_in_order<T, V>(
    state: EngineView<(usize, usize), T>,
    events: Seq<Event<(usize, usize), T, V>>,
    vector_of: spec_fn(T) -> V,
    call: usize,
    inputs: Seq<T>,
)
    requires
        state.wf(),
        state.idle(),
        state.queue_capacity >= state.max_concurrent,
        backend_never_errs(state, events, vector_of),
        run(state, events).idle(),
        slots_name_requests(requests_submitted(events)),
        inputs.len() <= usize::MAX,
        forall|i: int|
            0 <= i < inputs.len() ==> requests_submitted(events).contains(
                #[trigger] call_requests(call, inputs)[i],
            ),
    ensures
        complete(record_of(call, inputs.len(), output(state, events))),
        results_of(record_of(call, inputs.len(), output(state, events))) == inputs.map_values(
            |input: T| Ok::<V, RequestError>(vector_of(input)),
        ),
{
    let deliveries = output(state, events);
    let given = requests_submitted(events);
    let record = record_of(call, inputs.len(), deliveries);
    theorem_every_request_is_accounted_for(state, events);
    theorem_each_request_gets_its_own_vector(state, events, vector_of);
    lemma_submitted_slots(events);
    lemma_no_slots_held(state);
    lemma_no_slots_held(run(state, events));
    assert(submitted(events) =~= answered(deliveries)) by {
        broadcast use vstd::multiset::group_multiset_axioms;

        assert(Multiset::<(usize, usize)>::empty().add(answered(deliveries)) =~= answered(
            deliveries,
        ));
    }
    let delivered_to = slots_answered(deliveries);
    assert forall|i: int| 0 <= i < inputs.len() implies (#[trigger] record[i]) == Some(
        Ok::<V, RequestError>(vector_of(inputs[i])),
    ) && record.len() == inputs.len() by {
        let mine = call_requests(call, inputs)[i];
        let slot = (call, i as usize);
        let result = Ok::<V, RequestError>(vector_of(inputs[i]));
        // The slot was submitted, so a delivery was made to it.
        let at = choose|at: int| 0 <= at < given.len() && given[at] == mine;
        assert(slots_of(given)[at] == slot);
        to_multiset_contains(slots_of(given), slot);
        to_multiset_contains(delivered_to, slot);
        let to = choose|to: int| 0 <= to < delivered_to.len() && delivered_to[to] == slot;
        assert(deliveries[to].slot == slot);
        // Every delivery to the slot serves a request with that slot, and
        // this is the only one.
        assert forall|k: int|
            0 <= k < deliveries.len() && (#[trigger] deliveries[k]).slot == slot implies deliveries[k].result
            == result by {
            assert(serves(deliveries[k], given, vector_of));
        }
        lemma_record_holds_what_was_delivered(call, inputs.len(), deliveries, i, result);
    }
    lemma_record_has_a_place_for_each_text::<V>(call, inputs.len(), deliveries);
}

proof fn lemma_record_has_a_place_for_each_text<V>(
    call: usize,
    texts: nat,
    deliveries: Seq<Delivery<(usize, usize), V>>,
)
    ensures
        record_of(call, texts, deliveries).len() == texts,
    decreases deliveries.len(),
{
    if deliveries.len() > 0 {
        lemma_record_has_a_place_for_each_text(call, texts, deliveries.drop_last());
    }
}

} // verus!
