use embedanything::error::RequestError;
use embedanything::request::Delivery;
use embedanything::scheduler::distribute;

#[test]
fn each_request_gets_the_vector_at_its_position() {
    let deliveries = distribute(vec![7u32, 8, 9], Ok(vec![vec![0.5f32], vec![1.5], vec![2.5]]));
    assert_eq!(
        deliveries,
        vec![
            Delivery { slot: 7, result: Ok(vec![0.5f32]) },
            Delivery { slot: 8, result: Ok(vec![1.5]) },
            Delivery { slot: 9, result: Ok(vec![2.5]) },
        ]
    );
}

#[test]
fn failed_pass_fails_every_request_alike() {
    let deliveries: Vec<Delivery<u32, Vec<f32>>> =
        distribute(vec![1u32, 2, 3], Err(String::from("out of memory")));
    assert_eq!(deliveries.len(), 3);
    for (position, delivery) in deliveries.iter().enumerate() {
        assert_eq!(delivery.slot, position as u32 + 1);
        assert_eq!(
            delivery.result,
            Err(RequestError::BackendFailure(String::from("out of memory")))
        );
    }
}

#[test]
fn wrong_number_of_vectors_fails_every_request() {
    let deliveries = distribute(vec![1u32, 2, 3], Ok(vec![vec![0.5f32], vec![1.5]]));
    assert_eq!(deliveries.len(), 3);
    for (position, delivery) in deliveries.iter().enumerate() {
        assert_eq!(delivery.slot, position as u32 + 1);
        assert_eq!(
            delivery.result,
            Err(RequestError::BackendMiscount { inputs: 3, vectors: 2 })
        );
    }
}

#[test]
fn empty_batch_has_no_deliveries() {
    let deliveries: Vec<Delivery<u32, Vec<f32>>> = distribute(Vec::new(), Ok(Vec::new()));
    assert!(deliveries.is_empty());
    let deliveries: Vec<Delivery<u32, Vec<f32>>> =
        distribute(Vec::new(), Err(String::from("down")));
    assert!(deliveries.is_empty());
}
