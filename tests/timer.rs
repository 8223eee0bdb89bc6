use election::config::{ELECTION_TIMEOUT_MAX_MILLIS, ELECTION_TIMEOUT_MIN_MILLIS};
use election::timer::{random_election_timeout, Timer};

#[test]
fn test_timer() {
    let mut timer = Timer::new("test_timer");
    assert!(!timer.poll(0));
    timer.schedule(1000, 0);
    assert!(!timer.poll(999));
    assert!(timer.poll(1000));
    assert_eq!(timer.next_trigger, 2000);
    timer.reset(2000, 1500);
    assert_eq!(timer.last_reset_at, Some(1500));
    assert!(!timer.poll(2000));
    assert!(timer.poll(3500));
    timer.stop();
    assert!(!timer.poll(10_000));
    assert_eq!(timer.name, "test_timer");
}

#[test]
fn timer_deadline_saturates() {
    let mut timer = Timer::new("t");
    timer.schedule(u64::MAX, 5);
    assert_eq!(timer.next_trigger, u64::MAX);
}

#[test]
fn election_timeout_stays_in_range() {
    assert_eq!(random_election_timeout(0), ELECTION_TIMEOUT_MIN_MILLIS);
    assert_eq!(random_election_timeout(500), ELECTION_TIMEOUT_MAX_MILLIS);
    assert_eq!(random_election_timeout(501), ELECTION_TIMEOUT_MIN_MILLIS);
    assert_eq!(random_election_timeout(7), 1007);
}
