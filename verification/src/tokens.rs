//! Tokenized text, as the engine takes it from the tokenizer.

use crate::error::RequestError;
use vstd::prelude::*;

verus! {

/// The token ids of one text, no more of them than the model accepts.
///
/// A text with more tokens than the limit is refused, not cut short: what
/// the model embeds is always the whole text.
#[derive(Debug, PartialEq, Eq)]
pub struct TokenSequence {
    ids: Vec<u32>,
}

impl View for TokenSequence {
    type V = Seq<u32>;

    closed spec fn view(&self) -> Seq<u32> {
        self.ids@
    }
}

impl TokenSequence {
    /// Takes the ids of a text if there are at most `max_length` of them.
    pub fn from_ids(ids: Vec<u32>, max_length: usize) -> (sequence: Result<
        TokenSequence,
        RequestError,
    >)
        ensures
            ids@.len() <= max_length ==> {
                &&& sequence matches Ok(tokens)
                &&& tokens@ == ids@
            },
            ids@.len() > max_length ==> sequence == Err::<TokenSequence, RequestError>(
                RequestError::InputTooLong { tokens: ids@.len() as usize, limit: max_length },
            ),
    {
        if ids.len() > max_length {
            Err(RequestError::InputTooLong { tokens: ids.len(), limit: max_length })
        } else {
            Ok(TokenSequence { ids })
        }
    }

    /// Takes what the tokenizer made of a text: its ids, or the reason why
    /// it could not tokenize the text. A failure of the tokenizer becomes
    /// the failure of the request; ids are held to the limit as in
    /// [`from_ids`](Self::from_ids).
    pub fn from_encoding(encoding: Result<Vec<u32>, String>, max_length: usize) -> (sequence:
        Result<TokenSequence, RequestError>)
        ensures
            match encoding {
                Ok(ids) => {
                    &&& ids@.len() <= max_length ==> {
                        &&& sequence matches Ok(tokens)
                        &&& tokens@ == ids@
                    }
                    &&& ids@.len() > max_length ==> sequence == Err::<TokenSequence, RequestError>(
                        RequestError::InputTooLong {
                            tokens: ids@.len() as usize,
                            limit: max_length,
                        },
                    )
                },
                Err(cause) => sequence == Err::<TokenSequence, RequestError>(
                    RequestError::TokenizationFailure(cause),
                ),
            },
    {
        match encoding {
            Ok(ids) => TokenSequence::from_ids(ids, max_length),
            Err(cause) => Err(RequestError::TokenizationFailure(cause)),
        }
    }

    /// The number of tokens.
    pub fn len(&self) -> (len: usize)
        ensures
            len == self@.len(),
    {
        self.ids.len()
    }

    /// Whether the text has no token at all.
    pub fn is_empty(&self) -> (empty: bool)
        ensures
            empty == (self@.len() == 0),
    {
        self.ids.len() == 0
    }

    /// The token ids.
    pub fn ids(&self) -> (ids: &Vec<u32>)
        ensures
            ids@ == self@,
    {
        &self.ids
    }

    /// The token ids, for the model.
    pub fn into_ids(self) -> (ids: Vec<u32>)
        ensures
            ids@ == self@,
    {
        self.ids
    }
}

} // verus!
