use embedanything::engine::{Engine, EngineConfig, Submitted};
use embedanything::error::RequestError;
use embedanything::request::{Delivery, Request};

fn engine_with(permits: usize, queue: usize, batch: usize) -> Engine<u32, u32> {
    Engine::new(EngineConfig {
        max_concurrent_requests: permits,
        queue_capacity: queue,
        max_batch_size: batch,
    })
    .expect("all bounds are positive")
}

fn request(slot: u32) -> Request<u32, u32> {
    Request { slot, input: slot * 10 }
}

#[test]
fn engine_needs_positive_bounds() {
    let zero_permits: Option<Engine<u32, u32>> = Engine::new(EngineConfig {
        max_concurrent_requests: 0,
        queue_capacity: 4,
        max_batch_size: 4,
    });
    assert!(zero_permits.is_none());
    let zero_queue: Option<Engine<u32, u32>> = Engine::new(EngineConfig {
        max_concurrent_requests: 4,
        queue_capacity: 0,
        max_batch_size: 4,
    });
    assert!(zero_queue.is_none());
    let zero_batch: Option<Engine<u32, u32>> = Engine::new(EngineConfig {
        max_concurrent_requests: 4,
        queue_capacity: 4,
        max_batch_size: 0,
    });
    assert!(zero_batch.is_none());
}

#[test]
fn new_engine_is_idle() {
    let engine = engine_with(2, 2, 2);
    assert!(engine.is_idle());
    assert_eq!(engine.outstanding_permits(), 0);
    assert_eq!(engine.waiting(), 0);
    assert_eq!(engine.queued(), 0);
    assert_eq!(engine.in_flight(), 0);
}

#[test]
fn submit_queues_while_permits_and_room_last() {
    let mut engine = engine_with(2, 4, 4);
    assert_eq!(engine.submit(request(1)), Submitted::Queued);
    assert_eq!(engine.submit(request(2)), Submitted::Queued);
    assert_eq!(engine.outstanding_permits(), 2);
    assert_eq!(engine.submit(request(3)), Submitted::Parked);
    assert_eq!(engine.outstanding_permits(), 2);
    assert_eq!(engine.queued(), 2);
    assert_eq!(engine.waiting(), 1);
    assert!(!engine.is_idle());
}

#[test]
fn submit_is_rejected_when_the_queue_is_full() {
    let mut engine = engine_with(4, 2, 4);
    assert_eq!(engine.submit(request(1)), Submitted::Queued);
    assert_eq!(engine.submit(request(2)), Submitted::Queued);
    assert_eq!(
        engine.submit(request(3)),
        Submitted::Rejected { slot: 3, error: RequestError::QueueFull }
    );
    assert_eq!(engine.outstanding_permits(), 2);
    assert_eq!(engine.queued(), 2);
    assert_eq!(engine.waiting(), 0);
}

#[test]
fn next_batch_takes_the_oldest_up_to_the_largest_batch() {
    let mut engine = engine_with(8, 8, 3);
    for slot in 1..=5 {
        assert_eq!(engine.submit(request(slot)), Submitted::Queued);
    }
    assert_eq!(engine.next_batch(), vec![10, 20, 30]);
    assert_eq!(engine.in_flight(), 3);
    assert_eq!(engine.queued(), 2);
    assert_eq!(engine.outstanding_permits(), 5);
}

#[test]
fn one_batch_at_a_time() {
    let mut engine = engine_with(8, 8, 2);
    for slot in 1..=4 {
        assert_eq!(engine.submit(request(slot)), Submitted::Queued);
    }
    assert_eq!(engine.next_batch(), vec![10, 20]);
    assert_eq!(engine.next_batch(), Vec::<u32>::new());
    assert_eq!(engine.in_flight(), 2);
    assert_eq!(engine.queued(), 2);
    let deliveries = engine.complete(Ok(vec![100u64, 200]));
    assert_eq!(
        deliveries,
        vec![Delivery { slot: 1, result: Ok(100) }, Delivery { slot: 2, result: Ok(200) }]
    );
    assert_eq!(engine.next_batch(), vec![30, 40]);
}

#[test]
fn next_batch_of_an_idle_engine_is_empty() {
    let mut engine = engine_with(2, 2, 2);
    assert_eq!(engine.next_batch(), Vec::<u32>::new());
    assert!(engine.is_idle());
}

#[test]
fn complete_without_a_batch_does_nothing() {
    let mut engine = engine_with(2, 2, 2);
    assert_eq!(engine.submit(request(1)), Submitted::Queued);
    let deliveries: Vec<Delivery<u32, u64>> = engine.complete(Ok(vec![1, 2, 3]));
    assert!(deliveries.is_empty());
    assert_eq!(engine.queued(), 1);
    assert_eq!(engine.outstanding_permits(), 1);
}

#[test]
fn completed_batch_gives_its_permits_to_those_waiting() {
    let mut engine = engine_with(2, 2, 1);
    assert_eq!(engine.submit(request(1)), Submitted::Queued);
    assert_eq!(engine.submit(request(2)), Submitted::Queued);
    assert_eq!(engine.submit(request(3)), Submitted::Parked);
    assert_eq!(engine.submit(request(4)), Submitted::Parked);
    assert_eq!(engine.submit(request(5)), Submitted::Parked);
    assert_eq!(engine.next_batch(), vec![10]);
    let deliveries = engine.complete(Ok(vec![1u64]));
    assert_eq!(deliveries, vec![Delivery { slot: 1, result: Ok(1) }]);
    assert_eq!(engine.queued(), 2);
    assert_eq!(engine.waiting(), 2);
    assert_eq!(engine.outstanding_permits(), 2);
    assert_eq!(engine.next_batch(), vec![20]);
    let deliveries = engine.complete(Ok(vec![2u64]));
    assert_eq!(deliveries, vec![Delivery { slot: 2, result: Ok(2) }]);
    assert_eq!(engine.next_batch(), vec![30]);
}

#[test]
fn waiting_requests_are_turned_away_when_the_queue_is_full() {
    let mut engine = engine_with(2, 1, 1);
    assert_eq!(engine.submit(request(1)), Submitted::Queued);
    assert_eq!(engine.next_batch(), vec![10]);
    assert_eq!(engine.submit(request(2)), Submitted::Queued);
    assert_eq!(engine.submit(request(3)), Submitted::Parked);
    assert_eq!(engine.submit(request(4)), Submitted::Parked);
    let deliveries = engine.complete(Ok(vec![1u64]));
    assert_eq!(
        deliveries,
        vec![
            Delivery { slot: 1, result: Ok(1) },
            Delivery { slot: 3, result: Err(RequestError::QueueFull) },
            Delivery { slot: 4, result: Err(RequestError::QueueFull) },
        ]
    );
    assert_eq!(engine.waiting(), 0);
    assert_eq!(engine.queued(), 1);
    assert_eq!(engine.outstanding_permits(), 1);
    assert_eq!(engine.next_batch(), vec![20]);
}

#[test]
fn failed_batch_releases_its_permits_too() {
    let mut engine = engine_with(2, 2, 2);
    assert_eq!(engine.submit(request(1)), Submitted::Queued);
    assert_eq!(engine.submit(request(2)), Submitted::Queued);
    assert_eq!(engine.submit(request(3)), Submitted::Parked);
    assert_eq!(engine.next_batch(), vec![10, 20]);
    let deliveries: Vec<Delivery<u32, u64>> = engine.complete(Err(String::from("boom")));
    assert_eq!(
        deliveries,
        vec![
            Delivery { slot: 1, result: Err(RequestError::BackendFailure(String::from("boom"))) },
            Delivery { slot: 2, result: Err(RequestError::BackendFailure(String::from("boom"))) },
        ]
    );
    assert_eq!(engine.outstanding_permits(), 1);
    assert_eq!(engine.queued(), 1);
    assert_eq!(engine.waiting(), 0);
    assert_eq!(engine.next_batch(), vec![30]);
    let deliveries = engine.complete(Ok(vec![3u64]));
    assert_eq!(deliveries, vec![Delivery { slot: 3, result: Ok(3) }]);
    assert!(engine.is_idle());
    assert_eq!(engine.outstanding_permits(), 0);
}

#[test]
fn miscounted_batch_fails_as_a_whole() {
    let mut engine = engine_with(4, 4, 4);
    assert_eq!(engine.submit(request(1)), Submitted::Queued);
    assert_eq!(engine.submit(request(2)), Submitted::Queued);
    assert_eq!(engine.next_batch(), vec![10, 20]);
    let deliveries = engine.complete(Ok(vec![1u64]));
    assert_eq!(
        deliveries,
        vec![
            Delivery { slot: 1, result: Err(RequestError::BackendMiscount { inputs: 2, vectors: 1 }) },
            Delivery { slot: 2, result: Err(RequestError::BackendMiscount { inputs: 2, vectors: 1 }) },
        ]
    );
    assert!(engine.is_idle());
}
