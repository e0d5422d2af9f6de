//! The scheduler's step after a forward pass: handing what the model
//! returned back to each request of the batch.

use crate::error::RequestError;
use crate::request::Delivery;
use vstd::prelude::*;

verus! {

/// What the request at `position` of a batch of `batch_len` inputs gets when
/// the forward pass over the batch ended in `outcome`.
///
/// A successful pass gives each request the vector at its own position. A
/// failed pass gives every request the same failure. A pass that returns
/// another number of vectors than it was given inputs cannot be matched to
/// the requests and counts as failed for all of them.
pub open spec fn result_at<V>(
    outcome: Result<Vec<V>, String>,
    batch_len: nat,
    position: int,
) -> Result<V, RequestError> {
    match outcome {
        Ok(vectors) => if vectors@.len() == batch_len {
            Ok(vectors@[position])
        } else {
            Err(
                RequestError::BackendMiscount {
                    inputs: batch_len as usize,
                    vectors: vectors@.len() as usize,
                },
            )
        },
        Err(cause) => Err(RequestError::BackendFailure(cause)),
    }
}

/// The deliveries for a batch whose requests had `slots`, in batch order.
pub open spec fn delivered<S, V>(slots: Seq<S>, outcome: Result<Vec<V>, String>) -> Seq<
    Delivery<S, V>,
> {
    Seq::new(
        slots.len(),
        |position: int|
            Delivery { slot: slots[position], result: result_at(outcome, slots.len(), position) },
    )
}

/// The same items, last first.
fn reversed<A>(items: Vec<A>) -> (backwards: Vec<A>)
    ensures
        backwards@ == items@.reverse(),
{
    let ghost forwards = items@;
    let mut items = items;
    let mut backwards: Vec<A> = Vec::new();
    while items.len() > 0
        invariant
            items@ == forwards.take(items@.len() as int),
            backwards@.len() + items@.len() == forwards.len(),
            forall|i: int|
                0 <= i < backwards@.len() ==> backwards@[i] == forwards[forwards.len() - 1 - i],
        decreases items@.len(),
    {
        match items.pop() {
            Some(item) => {
                backwards.push(item);
            },
            None => {},
        }
    }
    backwards
}

/// Hands the outcome of a forward pass to the requests of its batch.
///
/// `slots` are the slots of the batch in batch order. Every slot comes back
/// exactly once, in the same order, each with its own vector or with the
/// failure of the whole pass.
pub fn distribute<S, V>(slots: Vec<S>, outcome: Result<Vec<V>, String>) -> (deliveries: Vec<
    Delivery<S, V>,
>)
    ensures
        deliveries@ == delivered(slots@, outcome),
{
    let ghost all = slots@;
    let mut deliveries: Vec<Delivery<S, V>> = Vec::new();
    match outcome {
        Ok(vectors) => {
            if vectors.len() == slots.len() {
                let ghost forwards = vectors@;
                let mut rest = reversed(vectors);
                for slot in it: slots
                    invariant
                        it.seq() == all,
                        forwards.len() == all.len(),
                        rest@ == forwards.reverse().take(all.len() - it.index()),
                        deliveries@.len() == it.index(),
                        forall|i: int|
                            0 <= i < it.index() ==> deliveries@[i] == (Delivery {
                                slot: all[i],
                                result: Ok::<V, RequestError>(forwards[i]),
                            }),
                {
                    match rest.pop() {
                        Some(vector) => {
                            deliveries.push(Delivery { slot, result: Ok(vector) });
                        },
                        None => {},
                    }
                }
            } else {
                let inputs: usize = slots.len();
                let returned: usize = vectors.len();
                for slot in it: slots
                    invariant
                        it.seq() == all,
                        inputs == all.len(),
                        returned == vectors@.len(),
                        deliveries@.len() == it.index(),
                        forall|i: int|
                            0 <= i < it.index() ==> deliveries@[i] == (Delivery {
                                slot: all[i],
                                result: Err::<V, RequestError>(
                                    RequestError::BackendMiscount { inputs, vectors: returned },
                                ),
                            }),
                {
                    deliveries.push(
                        Delivery {
                            slot,
                            result: Err(RequestError::BackendMiscount { inputs, vectors: returned }),
                        },
                    );
                }
            }
        },
        Err(cause) => {
            for slot in it: slots
                invariant
                    it.seq() == all,
                    deliveries@.len() == it.index(),
                    forall|i: int|
                        0 <= i < it.index() ==> deliveries@[i] == (Delivery {
                            slot: all[i],
                            result: Err::<V, RequestError>(RequestError::BackendFailure(cause)),
                        }),
            {
                deliveries.push(
                    Delivery { slot, result: Err(RequestError::BackendFailure(cause.clone())) },
                );
            }
        },
    }
    deliveries
}

} // verus!
