use quantum_crypto_engine::BatchOutcome;
use quantum_crypto_engine::HealthStatus;
use quantum_crypto_engine::CollectorAction;
use quantum_crypto_engine::CryptoError;
use quantum_crypto_engine::QuantumCryptoEngine;

#[test]
fn engine_rejects_undersized_pool() {
    assert!(matches!(
        QuantumCryptoEngine::new(1023),
        Err(CryptoError::PoolTooSmall)
    ));
    assert!(QuantumCryptoEngine::new(1024).is_ok());
}

#[test]
fn start_fails_when_already_running() {
    let mut engine = QuantumCryptoEngine::new(1024).unwrap();
    assert!(engine.start_continuous_collection().is_ok());
    assert_eq!(
        engine.start_continuous_collection(),
        Err(CryptoError::AlreadyRunning)
    );
}

#[test]
fn stop_is_idempotent_and_allows_restart() {
    let mut engine = QuantumCryptoEngine::new(1024).unwrap();
    engine.stop_collection();
    engine.stop_collection();
    assert!(!engine.is_collecting());
    assert!(engine.start_continuous_collection().is_ok());
    assert!(engine.is_collecting());
    engine.stop_collection();
    assert!(!engine.is_collecting());
    assert!(engine.start_continuous_collection().is_ok());
}

#[test]
fn batches_admitted_during_grace_then_gated() {
    let mut engine = QuantumCryptoEngine::new(1024).unwrap();
    engine.start_continuous_collection().unwrap();
    // constant batches score zero, but the first nine fall in the grace
    // period; the tenth sample ends it and the batch is rejected
    for _ in 0..9 {
        let action = engine.process_batch(BatchOutcome::Batch(vec![1u8; 2048]));
        assert_eq!(action, CollectorAction::Admitted);
    }
    let action = engine.process_batch(BatchOutcome::Batch(vec![1u8; 2048]));
    assert_eq!(action, CollectorAction::Rejected);
    assert_eq!(engine.total_bits_collected(), 9 * 2048);
}

#[test]
fn circuit_breaker_halts_after_ten_failures() {
    let mut engine = QuantumCryptoEngine::new(1024).unwrap();
    engine.start_continuous_collection().unwrap();
    // fill the pool past its threshold before the source starts failing
    for _ in 0..4 {
        engine.process_batch(BatchOutcome::Batch(vec![1u8; 2048]));
    }
    assert_eq!(engine.total_bits_collected(), 8192);
    for _ in 0..9 {
        let action = engine.process_batch(BatchOutcome::Failure);
        assert_eq!(action, CollectorAction::BackOff);
        assert!(engine.is_collecting());
    }
    let action = engine.process_batch(BatchOutcome::Failure);
    assert_eq!(action, CollectorAction::Halted);
    assert!(!engine.is_collecting());
    // extraction is independent of collector liveness
    let key = engine.extract_key_material(32).unwrap();
    assert_eq!(key.len(), 32);
}

#[test]
fn success_resets_the_failure_count() {
    let mut engine = QuantumCryptoEngine::new(1024).unwrap();
    engine.start_continuous_collection().unwrap();
    for _ in 0..9 {
        assert_eq!(
            engine.process_batch(BatchOutcome::Failure),
            CollectorAction::BackOff
        );
    }
    assert_eq!(
        engine.process_batch(BatchOutcome::Batch(vec![1u8; 64])),
        CollectorAction::Admitted
    );
    // the counter starts over: nine more failures still back off
    for _ in 0..9 {
        assert_eq!(
            engine.process_batch(BatchOutcome::Failure),
            CollectorAction::BackOff
        );
    }
    assert_eq!(
        engine.process_batch(BatchOutcome::Failure),
        CollectorAction::Halted
    );
}

#[test]
fn extraction_requires_threshold_regardless_of_running() {
    let engine = QuantumCryptoEngine::new(1024).unwrap();
    assert_eq!(
        engine.extract_key_material(16),
        Err(CryptoError::InsufficientEntropy)
    );
    assert_eq!(
        engine.extract_key_material(65),
        Err(CryptoError::RequestTooLarge)
    );
}

#[test]
fn entropy_stats_snapshot_matches_state() {
    let mut engine = QuantumCryptoEngine::new(2048).unwrap();
    engine.start_continuous_collection().unwrap();
    let stats = engine.entropy_stats();
    assert_eq!(stats.available_bytes, 0);
    assert_eq!(stats.pool_capacity, 2048);
    assert_eq!(stats.health_status, HealthStatus::Initializing);
    assert_eq!(stats.average_entropy, 0);
    engine.process_batch(BatchOutcome::Batch(vec![1u8; 2048]));
    let stats = engine.entropy_stats();
    assert_eq!(stats.available_bytes, 256);
    assert_eq!(stats.health_status, HealthStatus::Failed);
}

#[test]
fn wipe_pool_clears_absorbed_material() {
    let mut engine = QuantumCryptoEngine::new(1024).unwrap();
    engine.start_continuous_collection().unwrap();
    engine.process_batch(BatchOutcome::Batch(vec![1u8; 2048]));
    assert!(engine.entropy_stats().available_bytes > 0);
    engine.stop_collection();
    engine.wipe_pool();
    assert_eq!(engine.entropy_stats().available_bytes, 0);
}
