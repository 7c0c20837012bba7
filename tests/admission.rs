use upload_server::admission::{AdmissionController, Arrival};

#[test]
fn arrivals_beyond_permits_wait_then_shed() {
    let mut c = AdmissionController::new(2, 1);
    assert_eq!(c.arrive(), Arrival::Admitted);
    assert_eq!(c.arrive(), Arrival::Admitted);
    assert_eq!(c.arrive(), Arrival::Queued(0));
    assert_eq!(c.arrive(), Arrival::Shed);
    assert_eq!(c.in_flight(), 2);
    assert_eq!(c.waiting_count(), 1);
}

#[test]
fn release_hands_permit_to_oldest_waiter() {
    let mut c = AdmissionController::new(1, 3);
    assert_eq!(c.arrive(), Arrival::Admitted);
    assert_eq!(c.arrive(), Arrival::Queued(0));
    assert_eq!(c.arrive(), Arrival::Queued(1));
    assert_eq!(c.release(), Some(0));
    assert_eq!(c.release(), Some(1));
    assert_eq!(c.release(), None);
    assert_eq!(c.in_flight(), 0);
    assert_eq!(c.waiting_count(), 0);
}

#[test]
fn overload_within_queue_all_complete() {
    // K = 3 permits, M = 2 more requests, queue of 2: nothing is shed and
    // every request gets a permit in the end.
    let mut c = AdmissionController::new(3, 2);
    let mut outcomes = Vec::new();
    for _ in 0..5 {
        outcomes.push(c.arrive());
    }
    assert!(!outcomes.contains(&Arrival::Shed));
    let mut served = 0;
    for _ in 0..5 {
        if c.release().is_some() {
            served += 1;
        }
    }
    assert_eq!(served, 2);
    assert_eq!(c.in_flight(), 0);
    assert_eq!(c.waiting_count(), 0);
}

#[test]
fn abandoned_waiter_leaves_queue() {
    let mut c = AdmissionController::new(1, 2);
    assert_eq!(c.arrive(), Arrival::Admitted);
    assert_eq!(c.arrive(), Arrival::Queued(0));
    assert_eq!(c.arrive(), Arrival::Queued(1));
    assert!(c.abandon(0));
    assert!(!c.abandon(0));
    assert_eq!(c.release(), Some(1));
    assert!(!c.abandon(1));
}

#[test]
fn shutdown_sheds_waiters_and_new_arrivals() {
    let mut c = AdmissionController::new(1, 2);
    assert_eq!(c.arrive(), Arrival::Admitted);
    assert_eq!(c.arrive(), Arrival::Queued(0));
    assert_eq!(c.begin_shutdown(), vec![0]);
    assert_eq!(c.arrive(), Arrival::Shed);
    assert_eq!(c.release(), None);
    assert_eq!(c.in_flight(), 0);
}
