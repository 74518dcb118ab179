use verify_ovpn::gate::{AdmissionGate, DEFAULT_CEILING};

#[test]
fn admits_up_to_ceiling_then_queues() {
    let mut gate = AdmissionGate::new(3);
    let granted: Vec<bool> = (0..5).map(|id| gate.acquire(id)).collect();
    assert_eq!(granted, vec![true, true, true, false, false]);
    assert_eq!(gate.outstanding(), 3);
    assert_eq!(gate.waiting_count(), 2);
}

#[test]
fn release_frees_a_slot_and_wakes_waiters_in_order() {
    let mut gate = AdmissionGate::new(2);
    for id in 10..15 {
        gate.acquire(id);
    }
    assert_eq!(gate.release(), Some(12));
    assert_eq!(gate.outstanding(), 1);
    assert_eq!(gate.waiting_count(), 2);
    assert!(gate.acquire(12));
    assert_eq!(gate.outstanding(), 2);
    assert_eq!(gate.release(), Some(13));
    assert_eq!(gate.release(), Some(14));
    assert_eq!(gate.outstanding(), 0);
    assert!(gate.acquire(14));
    assert!(gate.acquire(13));
    assert_eq!(gate.outstanding(), 2);
    assert_eq!(gate.release(), None);
    assert_eq!(gate.release(), None);
    assert_eq!(gate.outstanding(), 0);
    assert_eq!(gate.waiting_count(), 0);
}

#[test]
fn freed_slot_goes_to_any_request() {
    let mut gate = AdmissionGate::new(1);
    assert!(gate.acquire(1));
    assert!(!gate.acquire(2));
    assert_eq!(gate.release(), Some(2));
    assert_eq!(gate.outstanding(), 0);
    assert_eq!(gate.waiting_count(), 0);
    // A newcomer is granted the free slot; the woken unit, asking again, waits.
    assert!(gate.acquire(3));
    assert!(!gate.acquire(2));
    assert_eq!(gate.release(), Some(2));
    assert!(gate.acquire(2));
    assert_eq!(gate.release(), None);
    assert!(gate.acquire(4));
}

#[test]
fn request_granted_whenever_below_ceiling() {
    let mut gate = AdmissionGate::new(2);
    assert!(gate.acquire(1));
    assert!(gate.acquire(2));
    assert!(!gate.acquire(3));
    assert!(!gate.acquire(4));
    assert_eq!(gate.release(), Some(3));
    assert_eq!(gate.outstanding(), 1);
    assert!(gate.acquire(5));
    assert_eq!(gate.outstanding(), 2);
    assert_eq!(gate.waiting_count(), 1);
}

#[test]
fn never_more_than_ceiling_run_and_all_complete() {
    // Units 0..n+k ask in turn; whenever the admission gate is full, the
    // oldest running unit finishes and the unit it wakes asks again. Count
    // the running units at every step.
    let n: u64 = 4;
    let k: u64 = 9;
    let mut gate = AdmissionGate::new(n);
    let mut running: Vec<u64> = Vec::new();
    let mut finished: Vec<u64> = Vec::new();
    for id in 0..n + k {
        if gate.acquire(id) {
            running.push(id);
        } else {
            let done = running.remove(0);
            finished.push(done);
            let woken = gate.release().expect("a waiter is woken");
            assert_eq!(woken, id);
            assert!(gate.acquire(woken));
            running.push(woken);
        }
        assert!(running.len() as u64 <= n);
        assert_eq!(gate.outstanding(), running.len() as u64);
    }
    while let Some(done) = running.pop() {
        finished.push(done);
        assert_eq!(gate.release(), None);
    }
    finished.sort();
    assert_eq!(finished, (0..n + k).collect::<Vec<u64>>());
    assert_eq!(gate.outstanding(), 0);
}

#[test]
fn default_ceiling_is_one_thousand() {
    let mut gate = AdmissionGate::new(DEFAULT_CEILING);
    for id in 0..1000 {
        assert!(gate.acquire(id));
    }
    assert!(!gate.acquire(1000));
    assert_eq!(gate.ceiling(), 1000);
}
