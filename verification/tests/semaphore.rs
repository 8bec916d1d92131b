use simple_semaphore::Permit;
use simple_semaphore::Semaphore;

#[test]
fn grants_exactly_the_limit_then_unavailable() {
    for n in 0..6 {
        let mut s = Semaphore::new(n);
        let mut held: Vec<Permit> = Vec::new();
        for _ in 0..n {
            let p = s.try_acquire();
            assert!(p.is_some());
            held.push(p.unwrap());
        }
        assert!(s.try_acquire().is_none());
        assert_eq!(s.available_permits(), 0);
    }
}

#[test]
fn round_trip_restores_capacity_exactly() {
    let mut s = Semaphore::new(3);
    let mut held: Vec<Permit> = Vec::new();
    for _ in 0..3 {
        held.push(s.try_acquire().unwrap());
    }
    assert_eq!(s.available_permits(), 0);
    while let Some(p) = held.pop() {
        s.release(p);
    }
    assert_eq!(s.available_permits(), 3);
}

#[test]
fn zero_permits_unavailable_immediately() {
    let mut s = Semaphore::new(0);
    assert!(s.try_acquire().is_none());
    assert_eq!(s.available_permits(), 0);
}

#[test]
fn available_permits_stays_within_limit() {
    let mut s = Semaphore::new(2);
    assert!(s.available_permits() <= 2);
    let p1 = s.try_acquire().unwrap();
    assert!(s.available_permits() <= 2);
    let p2 = s.try_acquire().unwrap();
    assert_eq!(s.available_permits(), 0);
    s.release(p1);
    assert!(s.available_permits() <= 2);
    s.release(p2);
    assert_eq!(s.available_permits(), 2);
}

#[test]
fn four_requests_against_two_permits() {
    let mut s = Semaphore::new(2);
    let mut granted = 0;
    let mut refused = 0;
    let mut held: Vec<Permit> = Vec::new();
    for _ in 0..4 {
        match s.try_acquire() {
            Some(p) => {
                granted += 1;
                held.push(p);
            }
            None => {
                refused += 1;
            }
        }
    }
    assert_eq!(granted, 2);
    assert_eq!(refused, 2);
}

#[test]
fn five_jobs_through_two_permits() {
    let mut s = Semaphore::new(2);
    let mut active: Vec<Permit> = Vec::new();
    let mut started = 0;
    let mut finished = 0;
    while finished < 5 {
        while started < 5 {
            match s.try_acquire() {
                Some(p) => {
                    active.push(p);
                    started += 1;
                }
                None => break,
            }
        }
        assert!(active.len() <= 2);
        let p = active.pop().unwrap();
        s.release(p);
        finished += 1;
    }
    assert_eq!(finished, 5);
    assert_eq!(s.available_permits(), 2);
}

#[test]
fn default_limit_is_the_processor_count() {
    let mut s = Semaphore::default();
    let limit = s.available_permits();
    assert!(limit >= 1);
    let p = s.try_acquire().unwrap();
    assert_eq!(s.available_permits(), limit - 1);
    s.release(p);
    assert_eq!(s.available_permits(), limit);
}

#[test]
fn release_makes_a_permit_available_again() {
    let mut s = Semaphore::new(1);
    let p = s.try_acquire().unwrap();
    assert!(s.try_acquire().is_none());
    s.release(p);
    let q = s.try_acquire();
    assert!(q.is_some());
    s.release(q.unwrap());
}
