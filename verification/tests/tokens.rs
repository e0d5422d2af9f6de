use embedanything::error::RequestError;
use embedanything::tokens::TokenSequence;

#[test]
fn ids_within_the_limit_are_taken_whole() {
    let tokens = TokenSequence::from_ids(vec![5, 6, 7], 3).expect("three fit in three");
    assert_eq!(tokens.len(), 3);
    assert!(!tokens.is_empty());
    assert_eq!(tokens.into_ids(), vec![5, 6, 7]);
}

#[test]
fn ids_over_the_limit_are_refused_not_cut() {
    assert_eq!(
        TokenSequence::from_ids(vec![5, 6, 7, 8], 3),
        Err(RequestError::InputTooLong { tokens: 4, limit: 3 })
    );
}

#[test]
fn no_ids_fit_any_limit() {
    let tokens = TokenSequence::from_ids(Vec::new(), 0).expect("nothing fits in nothing");
    assert!(tokens.is_empty());
    assert_eq!(tokens.len(), 0);
}

#[test]
fn tokenizer_failure_becomes_the_failure_of_the_request() {
    assert_eq!(
        TokenSequence::from_encoding(Err(String::from("unknown token")), 8),
        Err(RequestError::TokenizationFailure(String::from("unknown token")))
    );
}

#[test]
fn encoding_is_held_to_the_limit() {
    assert_eq!(
        TokenSequence::from_encoding(Ok(vec![1, 2, 3]), 2),
        Err(RequestError::InputTooLong { tokens: 3, limit: 2 })
    );
    let tokens = TokenSequence::from_encoding(Ok(vec![1, 2]), 2).expect("two fit in two");
    assert_eq!(tokens.into_ids(), vec![1, 2]);
}
