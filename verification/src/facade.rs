//! The last step of a call: the results of its texts, gathered in the order
//! of the call into one answer.

use crate::error::{EmbedError, RequestError};
use vstd::prelude::*;

verus! {

/// Whether every result is a vector.
pub open spec fn all_ok<V>(results: Seq<Result<V, RequestError>>) -> bool {
    forall|i: int| 0 <= i < results.len() ==> (#[trigger] results[i]) is Ok
}

/// Whether `position` holds the first failure among `results`.
pub open spec fn first_failure_at<V>(results: Seq<Result<V, RequestError>>, position: int) -> bool {
    &&& 0 <= position < results.len()
    &&& results[position] is Err
    &&& all_ok(results.take(position))
}

/// The vectors of results that are all vectors, in order.
pub open spec fn vectors_of<V>(results: Seq<Result<V, RequestError>>) -> Seq<V> {
    results.map_values(|result: Result<V, RequestError>| result->Ok_0)
}

/// Whether `answer` is what a call answers whose texts ended in `results`.
///
/// If every text got its vector, the answer is the vectors in the order of
/// the texts, one for each. Otherwise it is the failure of the first text
/// that has one.
pub open spec fn gathers<V>(
    results: Seq<Result<V, RequestError>>,
    answer: Result<Vec<V>, EmbedError>,
) -> bool {
    &&& all_ok(results) ==> {
        &&& answer matches Ok(vectors)
        &&& vectors@ == vectors_of(results)
    }
    &&& forall|position: int|
        first_failure_at(results, position) ==> answer == Err::<Vec<V>, EmbedError>(
            EmbedError::AggregateFailure(results[position]->Err_0),
        )
    &&& answer is Ok ==> all_ok(results)
    &&& answer is Err ==> exists|position: int| first_failure_at(results, position)
}

/// Gathers the results of one call, given in the order of its texts.
///
/// If every text got its vector, the answer is the vectors in that same
/// order, one for each text. Otherwise the whole call fails with the failure
/// of the first text that has one; the vectors and any later failures are
/// dropped.
pub fn gather<V>(results: Vec<Result<V, RequestError>>) -> (answer: Result<Vec<V>, EmbedError>)
    ensures
        gathers(results@, answer),
{
    let ghost all = results@;
    let mut vectors: Vec<V> = Vec::new();
    for result in it: results
        invariant
            it.seq() == all,
            all_ok(all.take(it.index() as int)),
            vectors@ == vectors_of(all.take(it.index() as int)),
    {
        match result {
            Ok(vector) => {
                vectors.push(vector);
            },
            Err(failure) => {
                proof {
                    let here = it.index();
                    assert(first_failure_at(all, here));
                    assert forall|position: int| first_failure_at(all, position) implies position
                        == here by {
                        if position < here {
                            assert(all.take(here)[position] == all[position]);
                        } else if position > here {
                            assert(all.take(position)[here] == all[here]);
                        }
                    }
                }
                return Err(EmbedError::AggregateFailure(failure));
            },
        }
    }
    assert(all.take(all.len() as int) == all);
    Ok(vectors)
}

/// A call returns as many vectors as it was given texts, each in the place
/// of its text: when every text of a call got the vector of its own input,
/// the answer of the call is those vectors in the order of the texts.
pub proof fn theorem_call_answers_in_order<T, V>(
    inputs: Seq<T>,
    vector_of: spec_fn(T) -> V,
    results: Seq<Result<V, RequestError>>,
    answer: Result<Vec<V>, EmbedError>,
)
    requires
        results.len() == inputs.len(),
        forall|i: int|
            0 <= i < inputs.len() ==> #[trigger] results[i] == Ok::<V, RequestError>(
                vector_of(inputs[i]),
            ),
        gathers(results, answer),
    ensures
        ({
            &&& answer matches Ok(vectors)
            &&& vectors@ == inputs.map_values(vector_of)
        }),
{
}

/// The results of one call as they come in.
///
/// Requests of one call complete in any order, and in batches shared with
/// other calls. Each result is recorded at the position of its text, so the
/// answer is in the order of the texts whatever the order of completion.
pub struct Call<V> {
    results: Vec<Option<Result<V, RequestError>>>,
}

impl<V> View for Call<V> {
    type V = Seq<Option<Result<V, RequestError>>>;

    closed spec fn view(&self) -> Seq<Option<Result<V, RequestError>>> {
        self.results@
    }
}

/// What is on record after `result` came in for `position`: the first
/// result for a position of the call is kept, any other changes nothing.
pub open spec fn recorded<V>(
    record: Seq<Option<Result<V, RequestError>>>,
    position: int,
    result: Result<V, RequestError>,
) -> Seq<Option<Result<V, RequestError>>> {
    if 0 <= position < record.len() && record[position] is None {
        record.update(position, Some(result))
    } else {
        record
    }
}

/// Whether a result is on record for every text.
pub open spec fn complete<V>(record: Seq<Option<Result<V, RequestError>>>) -> bool {
    forall|i: int| 0 <= i < record.len() ==> (#[trigger] record[i]) is Some
}

/// The results on a complete record, in the order of the texts.
pub open spec fn results_of<V>(record: Seq<Option<Result<V, RequestError>>>) -> Seq<
    Result<V, RequestError>,
> {
    record.map_values(|entry: Option<Result<V, RequestError>>| entry->Some_0)
}

impl<V> Call<V> {
    /// A call of `texts` texts, with no result yet.
    pub fn new(texts: usize) -> (call: Self)
        ensures
            call@ == Seq::new(texts as nat, |i: int| None::<Result<V, RequestError>>),
    {
        let mut results: Vec<Option<Result<V, RequestError>>> = Vec::new();
        let mut made: usize = 0;
        while made < texts
            invariant
                made <= texts,
                results@ == Seq::new(made as nat, |i: int| None::<Result<V, RequestError>>),
            decreases texts - made,
        {
            results.push(None);
            made = made + 1;
        }
        Call { results }
    }

    /// Records the result of the text at `position`. Tells whether it was
    /// taken: a result for a position the call does not have, or has a
    /// result for already, is dropped.
    pub fn record(&mut self, position: usize, result: Result<V, RequestError>) -> (taken: bool)
        ensures
            taken == (position < old(self)@.len() && old(self)@[position as int] is None),
            final(self)@ == recorded(old(self)@, position as int, result),
    {
        if position < self.results.len() {
            if self.results[position].is_none() {
                self.results[position] = Some(result);
                return true;
            }
        }
        false
    }

    /// Whether a result is on record for every text.
    pub fn is_complete(&self) -> (done: bool)
        ensures
            done == complete(self@),
    {
        let mut position: usize = 0;
        while position < self.results.len()
            invariant
                position <= self.results@.len(),
                forall|i: int| 0 <= i < position ==> (#[trigger] self.results@[i]) is Some,
            decreases self.results@.len() - position,
        {
            if self.results[position].is_none() {
                return false;
            }
            position = position + 1;
        }
        true
    }

    /// Ends the call. Once a result is on record for every text, the answer
    /// is gathered from them in the order of the texts. Before that there is
    /// no answer.
    pub fn finish(self) -> (answer: Option<Result<Vec<V>, EmbedError>>)
        ensures
            complete(self@) ==> {
                &&& answer matches Some(gathered)
                &&& gathers(results_of(self@), gathered)
            },
            !complete(self@) ==> answer is None,
    {
        let ghost record = self.results@;
        let mut results: Vec<Result<V, RequestError>> = Vec::new();
        for entry in it: self.results
            invariant
                it.seq() == record,
                complete(record.take(it.index() as int)),
                results@ == results_of(record.take(it.index() as int)),
        {
            match entry {
                Some(result) => {
                    results.push(result);
                },
                None => {
                    return None;
                },
            }
        }
        assert(record.take(record.len() as int) == record);
        Some(gather(results))
    }
}

/// The order in which the results of a call come in does not matter: two
/// results for different texts leave the same record whichever comes first.
pub proof fn theorem_completion_order_is_immaterial<V>(
    record: Seq<Option<Result<V, RequestError>>>,
    first: int,
    first_result: Result<V, RequestError>,
    second: int,
    second_result: Result<V, RequestError>,
)
    requires
        first != second,
    ensures
        recorded(recorded(record, first, first_result), second, second_result) == recorded(
            recorded(record, second, second_result),
            first,
            first_result,
        ),
{
}

} // verus!
