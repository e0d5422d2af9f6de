//! The failures a request or a whole call can end in.

use vstd::prelude::*;
use vstd::string::*;

verus! {

/// Why one request did not get its vector.
#[derive(Debug, PartialEq, Eq)]
pub enum RequestError {
    /// The request queue had no room left when the request arrived.
    QueueFull,
    /// The forward pass over the batch that held the request failed.
    BackendFailure(String),
    /// The forward pass returned another number of vectors than the batch
    /// had inputs, so that none of them can be matched to a request.
    BackendMiscount { inputs: usize, vectors: usize },
    /// The text could not be turned into tokens.
    TokenizationFailure(String),
    /// The text has more tokens than the model accepts.
    InputTooLong { tokens: usize, limit: usize },
}

/// Why a call to embed a list of texts failed as a whole.
#[derive(Debug, PartialEq, Eq)]
pub enum EmbedError {
    /// The model could not be loaded; the cause is the one recorded then.
    ModelUnavailable(String),
    /// At least one text of the call failed; this is the failure of the
    /// first such text, in the order of the call.
    AggregateFailure(RequestError),
}

impl RequestError {
    /// The text shown for this failure.
    pub open spec fn message_spec(self) -> Seq<char> {
        match self {
            RequestError::QueueFull => "Model is overloaded"@,
            RequestError::BackendFailure(cause) => "Backend error: "@ + cause@,
            RequestError::BackendMiscount { .. } => "Backend error: wrong number of embeddings"@,
            RequestError::TokenizationFailure(cause) => "Tokenizer error: "@ + cause@,
            RequestError::InputTooLong { .. } => "Input validation error: too many tokens"@,
        }
    }

    /// A copy of this failure, for each request of a failed batch.
    pub fn duplicate(&self) -> (copy: RequestError)
        ensures
            copy == *self,
    {
        match self {
            RequestError::QueueFull => RequestError::QueueFull,
            RequestError::BackendFailure(cause) => RequestError::BackendFailure(cause.clone()),
            RequestError::BackendMiscount { inputs, vectors } => RequestError::BackendMiscount {
                inputs: *inputs,
                vectors: *vectors,
            },
            RequestError::TokenizationFailure(cause) => RequestError::TokenizationFailure(
                cause.clone(),
            ),
            RequestError::InputTooLong { tokens, limit } => RequestError::InputTooLong {
                tokens: *tokens,
                limit: *limit,
            },
        }
    }

    /// Renders the failure as text.
    pub fn message(&self) -> (text: String)
        ensures
            text@ == self.message_spec(),
    {
        match self {
            RequestError::QueueFull => String::from_str("Model is overloaded"),
            RequestError::BackendFailure(cause) => {
                String::from_str("Backend error: ").concat(cause.as_str())
            },
            RequestError::BackendMiscount { .. } => String::from_str(
                "Backend error: wrong number of embeddings",
            ),
            RequestError::TokenizationFailure(cause) => {
                String::from_str("Tokenizer error: ").concat(cause.as_str())
            },
            RequestError::InputTooLong { .. } => String::from_str(
                "Input validation error: too many tokens",
            ),
        }
    }
}

impl EmbedError {
    /// The text shown for this failure.
    pub open spec fn message_spec(self) -> Seq<char> {
        match self {
            EmbedError::ModelUnavailable(cause) => "Model unavailable: "@ + cause@,
            EmbedError::AggregateFailure(first) => "Errored embedding: "@ + first.message_spec(),
        }
    }

    /// Renders the failure as text.
    pub fn message(&self) -> (text: String)
        ensures
            text@ == self.message_spec(),
    {
        match self {
            EmbedError::ModelUnavailable(cause) => {
                String::from_str("Model unavailable: ").concat(cause.as_str())
            },
            EmbedError::AggregateFailure(first) => {
                let inner = first.message();
                String::from_str("Errored embedding: ").concat(inner.as_str())
            },
        }
    }
}

} // verus!
