use embedanything::admission::AdmissionController;

#[test]
fn permits_are_granted_up_to_capacity() {
    let mut controller: AdmissionController<&str> = AdmissionController::new(2);
    assert_eq!(controller.capacity(), 2);
    assert_eq!(controller.available(), 2);
    let first = controller.acquire("a");
    let second = controller.acquire("b");
    assert_eq!(first.as_ref().map(|pair| pair.0), Some("a"));
    assert_eq!(second.as_ref().map(|pair| pair.0), Some("b"));
    assert_eq!(controller.outstanding(), 2);
    assert_eq!(controller.available(), 0);
    assert!(controller.acquire("c").is_none());
    assert_eq!(controller.outstanding(), 2);
    assert_eq!(controller.waiting(), 1);
}

#[test]
fn released_permit_goes_to_the_longest_waiting() {
    let mut controller: AdmissionController<u32> = AdmissionController::new(1);
    let (_, permit) = controller.acquire(1).expect("a free permit");
    assert!(controller.acquire(2).is_none());
    assert!(controller.acquire(3).is_none());
    let (who, permit) = controller.release(permit).expect("someone waits");
    assert_eq!(who, 2);
    assert_eq!(controller.outstanding(), 1);
    assert_eq!(controller.waiting(), 1);
    let (who, permit) = controller.release(permit).expect("someone waits");
    assert_eq!(who, 3);
    assert_eq!(controller.outstanding(), 1);
    assert!(controller.release(permit).is_none());
    assert_eq!(controller.outstanding(), 0);
    assert_eq!(controller.available(), 1);
}

#[test]
fn released_permit_returns_to_the_pool_when_nobody_waits() {
    let mut controller: AdmissionController<u32> = AdmissionController::new(3);
    let (_, first) = controller.acquire(1).expect("a free permit");
    let (_, second) = controller.acquire(2).expect("a free permit");
    assert_eq!(controller.outstanding(), 2);
    assert!(controller.release(first).is_none());
    assert_eq!(controller.outstanding(), 1);
    assert!(controller.release(second).is_none());
    assert_eq!(controller.outstanding(), 0);
}

#[test]
fn controller_without_permits_parks_everyone() {
    let mut controller: AdmissionController<u32> = AdmissionController::new(0);
    assert!(controller.acquire(1).is_none());
    assert!(controller.acquire(2).is_none());
    assert_eq!(controller.outstanding(), 0);
    assert_eq!(controller.waiting(), 2);
}
