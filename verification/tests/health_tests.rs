use quantum_crypto_engine::health::estimate_entropy;
use quantum_crypto_engine::HealthMonitor;
use quantum_crypto_engine::HealthStatus;

fn balanced_batch() -> Vec<u8> {
    // alternating bits: exactly half ones, scores one full bit per bit
    let mut v = Vec::new();
    for i in 0..256 {
        v.push((i % 2) as u8);
    }
    v
}

fn constant_batch() -> Vec<u8> {
    vec![1u8; 256]
}

#[test]
fn empty_monitor_is_initializing_and_healthy() {
    let monitor = HealthMonitor::new();
    assert_eq!(monitor.current_status(), HealthStatus::Initializing);
    assert!(monitor.is_healthy());
    assert_eq!(monitor.average_entropy(), 0);
}

#[test]
fn balanced_batch_scores_full_entropy() {
    let mut monitor = HealthMonitor::new();
    monitor.update_statistics(&balanced_batch());
    assert_eq!(monitor.average_entropy(), 1000000);
    assert_eq!(monitor.current_status(), HealthStatus::Excellent);
}

#[test]
fn constant_batch_scores_zero() {
    let mut monitor = HealthMonitor::new();
    monitor.update_statistics(&constant_batch());
    assert_eq!(monitor.average_entropy(), 0);
    assert_eq!(monitor.current_status(), HealthStatus::Failed);
    // still healthy: fewer than ten samples
    assert!(monitor.is_healthy());
}

#[test]
fn grace_period_ends_at_ten_samples() {
    let mut monitor = HealthMonitor::new();
    for _ in 0..9 {
        monitor.update_statistics(&constant_batch());
        assert!(monitor.is_healthy());
    }
    monitor.update_statistics(&constant_batch());
    assert!(!monitor.is_healthy());
}

#[test]
fn status_boundary_excellent_inclusive() {
    // 19 full scores and 1 zero score: average exactly 950000
    let mut monitor = HealthMonitor::new();
    for _ in 0..19 {
        monitor.update_statistics(&balanced_batch());
    }
    monitor.update_statistics(&constant_batch());
    assert_eq!(monitor.average_entropy(), 950000);
    assert_eq!(monitor.current_status(), HealthStatus::Excellent);
}

#[test]
fn status_boundary_good_inclusive() {
    // 17 full scores and 3 zero scores: average exactly 850000
    let mut monitor = HealthMonitor::new();
    for _ in 0..17 {
        monitor.update_statistics(&balanced_batch());
    }
    for _ in 0..3 {
        monitor.update_statistics(&constant_batch());
    }
    assert_eq!(monitor.average_entropy(), 850000);
    assert_eq!(monitor.current_status(), HealthStatus::Good);
    assert!(monitor.is_healthy());
}

#[test]
fn status_below_good_is_degraded() {
    // 16 full scores and 4 zero scores: average 800000
    let mut monitor = HealthMonitor::new();
    for _ in 0..16 {
        monitor.update_statistics(&balanced_batch());
    }
    for _ in 0..4 {
        monitor.update_statistics(&constant_batch());
    }
    assert_eq!(monitor.average_entropy(), 800000);
    assert_eq!(monitor.current_status(), HealthStatus::Degraded);
    assert!(!monitor.is_healthy());
}

#[test]
fn status_boundary_degraded_inclusive() {
    // 14 full scores and 6 zero scores: average exactly 700000
    let mut monitor = HealthMonitor::new();
    for _ in 0..14 {
        monitor.update_statistics(&balanced_batch());
    }
    for _ in 0..6 {
        monitor.update_statistics(&constant_batch());
    }
    assert_eq!(monitor.average_entropy(), 700000);
    assert_eq!(monitor.current_status(), HealthStatus::Degraded);
}

#[test]
fn status_below_degraded_is_failed() {
    // 13 full scores and 7 zero scores: average 650000
    let mut monitor = HealthMonitor::new();
    for _ in 0..13 {
        monitor.update_statistics(&balanced_batch());
    }
    for _ in 0..7 {
        monitor.update_statistics(&constant_batch());
    }
    assert_eq!(monitor.average_entropy(), 650000);
    assert_eq!(monitor.current_status(), HealthStatus::Failed);
}

#[test]
fn window_evicts_oldest_past_capacity() {
    // fill the window with zero scores, then push 100 full scores:
    // the zeros are evicted and the average recovers fully
    let mut monitor = HealthMonitor::new();
    for _ in 0..100 {
        monitor.update_statistics(&constant_batch());
    }
    assert_eq!(monitor.average_entropy(), 0);
    for _ in 0..100 {
        monitor.update_statistics(&balanced_batch());
    }
    assert_eq!(monitor.average_entropy(), 1000000);
    assert_eq!(monitor.current_status(), HealthStatus::Excellent);
}

#[test]
fn empty_batch_scores_zero() {
    let mut monitor = HealthMonitor::new();
    monitor.update_statistics(&[]);
    assert_eq!(monitor.average_entropy(), 0);
}

#[test]
fn skewed_batch_scores_between_zero_and_full() {
    // three ones in four bits: H(0.75) is about 0.811
    let mut monitor = HealthMonitor::new();
    monitor.update_statistics(&[1, 1, 1, 0]);
    let avg = monitor.average_entropy();
    assert!(avg > 780000 && avg < 830000);
}

#[test]
fn estimate_entropy_known_values() {
    assert_eq!(estimate_entropy(&[]), 0);
    assert_eq!(estimate_entropy(&[1, 1, 1, 1]), 0);
    assert_eq!(estimate_entropy(&[0, 0, 0, 0]), 0);
    assert_eq!(estimate_entropy(&[0, 1, 0, 1]), 1000000);
    // symmetric in the two bit values
    assert_eq!(estimate_entropy(&[1, 1, 1, 0]), estimate_entropy(&[0, 0, 0, 1]));
}
