use embedanything::error::EmbedError;
use embedanything::lifecycle::{InitStep, ModelState};

#[test]
fn first_caller_constructs_the_others_wait() {
    let mut state: ModelState<u32> = ModelState::new();
    assert_eq!(state, ModelState::Uninitialized);
    assert_eq!(state.begin_initialize(), InitStep::Construct);
    assert_eq!(state, ModelState::Initializing);
    assert_eq!(state.begin_initialize(), InitStep::Wait);
    assert_eq!(state.begin_initialize(), InitStep::Wait);
    state.finish_initialize(Ok(42));
    assert_eq!(state, ModelState::Ready(42));
    assert_eq!(state.begin_initialize(), InitStep::Ready);
    assert_eq!(state.handle(), Ok(&42));
}

#[test]
fn many_callers_lead_to_one_construction() {
    let mut state: ModelState<u32> = ModelState::new();
    let mut constructions = 0;
    for caller in 0..16 {
        if state.begin_initialize() == InitStep::Construct {
            constructions += 1;
        }
        if caller == 7 {
            state.finish_initialize(Ok(1));
        }
    }
    assert_eq!(constructions, 1);
    assert_eq!(state, ModelState::Ready(1));
}

#[test]
fn failed_initialization_is_replayed_not_retried() {
    let mut state: ModelState<u32> = ModelState::new();
    assert_eq!(state.begin_initialize(), InitStep::Construct);
    state.finish_initialize(Err(String::from("weights not found")));
    for _ in 0..3 {
        assert_eq!(state.begin_initialize(), InitStep::Unavailable(EmbedError::ModelUnavailable(String::from("weights not found"))));
    }
    assert_eq!(state.handle(), Err(Some(EmbedError::ModelUnavailable(String::from("weights not found")))));
    state.finish_initialize(Ok(5));
    assert_eq!(state, ModelState::Failed(String::from("weights not found")));
}

#[test]
fn model_is_never_replaced_once_ready() {
    let mut state: ModelState<u32> = ModelState::new();
    assert_eq!(state.begin_initialize(), InitStep::Construct);
    state.finish_initialize(Ok(1));
    state.finish_initialize(Ok(2));
    state.finish_initialize(Err(String::from("late failure")));
    assert_eq!(state, ModelState::Ready(1));
}

#[test]
fn report_without_construction_changes_nothing() {
    let mut state: ModelState<u32> = ModelState::new();
    state.finish_initialize(Ok(1));
    assert_eq!(state, ModelState::Uninitialized);
    assert_eq!(state.handle(), Err(None));
    assert_eq!(state.begin_initialize(), InitStep::Construct);
    assert_eq!(state.handle(), Err(None));
}
