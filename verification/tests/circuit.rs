use corvus::circuit::{
    circuit_tripped, circuit_tripped_alert, record_revert, record_success, Breaker, REVERT_THRESHOLD,
    REVERT_THRESHOLD_JIT,
};

#[test]
fn breaker_trips_at_its_threshold() {
    let mut b = Breaker::new();
    for _ in 0..24 {
        record_revert(&mut b);
    }
    assert!(!circuit_tripped(&b, REVERT_THRESHOLD));
    assert!(circuit_tripped(&b, REVERT_THRESHOLD_JIT));
    record_revert(&mut b);
    assert!(circuit_tripped(&b, REVERT_THRESHOLD));
    assert_eq!(b.reverts(), 25);
}

#[test]
fn one_success_does_not_clear_the_failures() {
    let mut b = Breaker::new();
    for _ in 0..24 {
        record_revert(&mut b);
    }
    record_success(&mut b);
    record_revert(&mut b);
    assert!(circuit_tripped(&b, REVERT_THRESHOLD));
}

#[test]
fn three_successes_clear_the_failures() {
    let mut b = Breaker::new();
    for _ in 0..24 {
        record_revert(&mut b);
    }
    record_success(&mut b);
    record_success(&mut b);
    assert_eq!(b.reverts(), 24);
    record_success(&mut b);
    assert_eq!(b.reverts(), 0);
}

#[test]
fn a_failure_ends_the_streak() {
    let mut b = Breaker::new();
    record_revert(&mut b);
    record_success(&mut b);
    record_success(&mut b);
    record_revert(&mut b);
    record_success(&mut b);
    assert_eq!(b.reverts(), 2);
}

#[test]
fn the_alert_tells_the_strategy_and_the_count() {
    let mut b = Breaker::new();
    for _ in 0..25 {
        record_revert(&mut b);
    }
    assert_eq!(
        circuit_tripped_alert(&b, REVERT_THRESHOLD, "S3-Liq").as_deref(),
        Some("S3-Liq tripped after 25 consecutive reverts")
    );
    assert_eq!(circuit_tripped_alert(&b, 26, "S3-Liq"), None);
}
