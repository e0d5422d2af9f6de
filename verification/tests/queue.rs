use embedanything::queue::{QueueFull, RequestQueue};

#[test]
fn queue_hands_out_in_arrival_order() {
    let mut queue: RequestQueue<u32> = RequestQueue::new(4);
    assert!(queue.enqueue(1).is_ok());
    assert!(queue.enqueue(2).is_ok());
    assert!(queue.enqueue(3).is_ok());
    assert_eq!(queue.dequeue_batch(2), vec![1, 2]);
    assert_eq!(queue.len(), 1);
    assert_eq!(queue.dequeue_batch(2), vec![3]);
    assert!(queue.is_empty());
}

#[test]
fn queue_refuses_when_full() {
    let mut queue: RequestQueue<u32> = RequestQueue::new(1);
    assert!(!queue.is_full());
    assert!(queue.enqueue(1).is_ok());
    assert!(queue.is_full());
    assert_eq!(queue.enqueue(2), Err(QueueFull(2)));
    assert_eq!(queue.len(), 1);
    assert_eq!(queue.dequeue_batch(8), vec![1]);
}

#[test]
fn queue_has_room_again_after_a_batch() {
    let mut queue: RequestQueue<u32> = RequestQueue::new(2);
    assert!(queue.enqueue(1).is_ok());
    assert!(queue.enqueue(2).is_ok());
    assert_eq!(queue.enqueue(3), Err(QueueFull(3)));
    assert_eq!(queue.dequeue_batch(1), vec![1]);
    assert!(queue.enqueue(3).is_ok());
    assert_eq!(queue.dequeue_batch(2), vec![2, 3]);
}

#[test]
fn empty_queue_gives_an_empty_batch() {
    let mut queue: RequestQueue<u32> = RequestQueue::new(3);
    assert_eq!(queue.dequeue_batch(5), Vec::<u32>::new());
    assert_eq!(queue.capacity(), 3);
}

#[test]
fn batch_of_size_zero_takes_nothing() {
    let mut queue: RequestQueue<u32> = RequestQueue::new(3);
    assert!(queue.enqueue(9).is_ok());
    assert_eq!(queue.dequeue_batch(0), Vec::<u32>::new());
    assert_eq!(queue.len(), 1);
}

#[test]
fn queue_of_capacity_zero_takes_nothing() {
    let mut queue: RequestQueue<u32> = RequestQueue::new(0);
    assert!(queue.is_full());
    assert_eq!(queue.enqueue(1), Err(QueueFull(1)));
    assert!(queue.is_empty());
}
