use quantum_crypto_engine::CryptoError;
use quantum_crypto_engine::EntropyPool;

#[test]
fn new_pool_is_all_zero() {
    let pool = EntropyPool::new(1024);
    assert_eq!(pool.capacity(), 1024);
    assert_eq!(pool.available_entropy(), 0);
    assert_eq!(pool.total_bits_collected(), 0);
}

#[test]
fn absorbing_same_full_batch_twice_cancels() {
    // 8192 one-bits pack to exactly 1024 bytes of 0xFF: one full pass of
    // the ring, so a second identical pass XORs every cell back to zero
    let mut pool = EntropyPool::new(1024);
    let batch = vec![1u8; 8192];
    pool.add_entropy(&batch);
    assert_eq!(pool.available_entropy(), 1024);
    pool.add_entropy(&batch);
    assert_eq!(pool.available_entropy(), 0);
    assert_eq!(pool.total_bits_collected(), 16384);
}

#[test]
fn extract_refused_below_bit_threshold() {
    let mut pool = EntropyPool::new(1024);
    assert_eq!(pool.extract(10), Err(CryptoError::InsufficientEntropy));
    let almost = vec![1u8; 8191];
    pool.add_entropy(&almost);
    assert_eq!(pool.extract(10), Err(CryptoError::InsufficientEntropy));
    pool.add_entropy(&[1u8]);
    assert_eq!(pool.total_bits_collected(), 8192);
    assert!(pool.extract(10).is_ok());
}

#[test]
fn extract_boundaries_at_the_per_call_ceiling() {
    let mut pool = EntropyPool::new(8192);
    let batch = vec![1u8; 8192];
    pool.add_entropy(&batch);
    let ok = pool.extract(32).unwrap();
    assert_eq!(ok.len(), 32);
    assert_eq!(pool.extract(64).unwrap().len(), 64);
    assert_eq!(pool.extract(65), Err(CryptoError::RequestTooLarge));
}

#[test]
fn oversize_request_refused_even_below_threshold() {
    let pool = EntropyPool::new(1024);
    assert_eq!(pool.extract(65), Err(CryptoError::RequestTooLarge));
}

#[test]
fn extract_is_deterministic_on_unchanged_pool() {
    let mut pool = EntropyPool::new(1024);
    pool.add_entropy(&vec![1u8; 8192]);
    let a = pool.extract(48).unwrap();
    let b = pool.extract(48).unwrap();
    assert_eq!(a, b);
}

#[test]
fn extract_changes_after_more_entropy() {
    let mut pool = EntropyPool::new(1024);
    pool.add_entropy(&vec![1u8; 8192]);
    let a = pool.extract(32).unwrap();
    let mut mix = vec![0u8; 16];
    mix[0] = 1;
    pool.add_entropy(&mix);
    let b = pool.extract(32).unwrap();
    assert_ne!(a, b);
}

#[test]
fn extract_matches_known_digest() {
    // buffer of 1024 bytes 0xFF, cursor wrapped to zero, counter zero:
    // SHA3-512(buffer || 0u64 le || 0u64 le) truncated to 32 bytes
    let mut pool = EntropyPool::new(1024);
    pool.add_entropy(&vec![1u8; 8192]);
    let expected: [u8; 32] = [
        132, 51, 12, 39, 54, 144, 240, 190, 162, 254, 57, 0, 249, 142, 14, 205, 254, 32, 80,
        252, 151, 18, 86, 247, 111, 193, 221, 26, 163, 159, 199, 10,
    ];
    assert_eq!(pool.extract(32).unwrap(), expected.to_vec());
}

#[test]
fn wipe_clears_the_buffer() {
    let mut pool = EntropyPool::new(1024);
    pool.add_entropy(&vec![1u8; 8192]);
    assert_eq!(pool.available_entropy(), 1024);
    pool.wipe();
    assert_eq!(pool.available_entropy(), 0);
}
