//! What goes into the engine and what comes out of it.

use crate::error::RequestError;
use vstd::prelude::*;

verus! {

/// One text to embed, as the engine sees it.
///
/// `slot` is the caller's one-shot place for the result; the engine never
/// looks inside it and hands it back, exactly once, with the result.
/// `input` is the tokenized text.
#[derive(Debug, PartialEq, Eq)]
pub struct Request<S, T> {
    pub slot: S,
    pub input: T,
}

/// The result of one request, on its way to the slot it belongs in.
#[derive(Debug, PartialEq)]
pub struct Delivery<S, V> {
    pub slot: S,
    pub result: Result<V, RequestError>,
}

/// The slots of `requests`, in order.
pub open spec fn slots_of<S, T>(requests: Seq<Request<S, T>>) -> Seq<S> {
    requests.map_values(|request: Request<S, T>| request.slot)
}

/// The inputs of `requests`, in order.
pub open spec fn inputs_of<S, T>(requests: Seq<Request<S, T>>) -> Seq<T> {
    requests.map_values(|request: Request<S, T>| request.input)
}

/// The refusal of each of `requests` for want of room in the queue.
pub open spec fn refusals<S, T, V>(requests: Seq<Request<S, T>>) -> Seq<Delivery<S, V>> {
    requests.map_values(
        |request: Request<S, T>|
            Delivery { slot: request.slot, result: Err(RequestError::QueueFull) },
    )
}

} // verus!
