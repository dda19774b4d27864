use quantum_crypto_engine::BatchOutcome;
use quantum_crypto_engine::CryptoError;
use quantum_crypto_engine::KeyDerivation;
use quantum_crypto_engine::PasswordCharset;
use quantum_crypto_engine::QuantumCryptoEngine;

fn filled_engine() -> QuantumCryptoEngine {
    let mut engine = QuantumCryptoEngine::new(1024).unwrap();
    engine.start_continuous_collection().unwrap();
    for _ in 0..4 {
        engine.process_batch(BatchOutcome::Batch(vec![1u8; 2048]));
    }
    engine.stop_collection();
    engine
}

#[test]
fn derive_subkey_is_deterministic_at_200_bytes() {
    let kdf = KeyDerivation::new();
    let a = kdf.derive_subkey(b"master", b"purpose", 200).unwrap();
    let b = kdf.derive_subkey(b"master", b"purpose", 200).unwrap();
    assert_eq!(a.len(), 200);
    assert_eq!(a, b);
}

#[test]
fn derive_subkey_differs_across_inputs() {
    let kdf = KeyDerivation::new();
    let a = kdf.derive_subkey(b"master", b"purpose", 32).unwrap();
    let b = kdf.derive_subkey(b"master", b"other", 32).unwrap();
    let c = kdf.derive_subkey(b"retsam", b"purpose", 32).unwrap();
    assert_ne!(a, b);
    assert_ne!(a, c);
}

#[test]
fn derive_subkey_matches_known_digest_short() {
    // SHA3-512("master secret" || "session" || 32u64 le), first 32 bytes
    let expected: [u8; 32] = [
        60, 181, 32, 13, 158, 45, 91, 180, 27, 116, 76, 155, 248, 238, 105, 83, 195, 221, 30,
        118, 8, 119, 94, 184, 238, 237, 190, 88, 162, 66, 64, 110,
    ];
    let kdf = KeyDerivation::new();
    let key = kdf.derive_subkey(b"master secret", b"session", 32).unwrap();
    assert_eq!(key, expected.to_vec());
}

#[test]
fn derive_subkey_matches_known_digest_expanded() {
    // counter blocks 0 and 1 concatenated and truncated to 100 bytes
    let expected: [u8; 100] = [
        73, 226, 109, 31, 102, 15, 149, 12, 164, 145, 160, 138, 110, 49, 120, 65, 224, 6, 75,
        185, 115, 255, 219, 176, 211, 230, 18, 232, 224, 140, 249, 109, 205, 35, 99, 61, 89,
        116, 20, 34, 253, 184, 130, 162, 227, 160, 170, 175, 167, 31, 18, 29, 213, 195, 203,
        253, 50, 35, 235, 123, 209, 112, 50, 84, 195, 215, 192, 21, 146, 194, 2, 108, 224, 32,
        97, 148, 144, 30, 225, 33, 212, 149, 198, 165, 73, 237, 25, 177, 88, 95, 223, 203, 179,
        214, 250, 10, 116, 23, 123, 195,
    ];
    let kdf = KeyDerivation::new();
    let key = kdf
        .derive_subkey(b"master secret", b"session", 100)
        .unwrap();
    assert_eq!(key, expected.to_vec());
}

#[test]
fn derive_key_needs_pool_entropy() {
    let engine = QuantumCryptoEngine::new(1024).unwrap();
    let kdf = KeyDerivation::new();
    assert_eq!(
        kdf.derive_key(&engine, b"purpose", 32),
        Err(CryptoError::InsufficientEntropy)
    );
}

#[test]
fn derive_key_agrees_with_subkey_of_extracted_material() {
    let engine = filled_engine();
    let kdf = KeyDerivation::new();
    let direct = kdf.derive_key(&engine, b"purpose", 48).unwrap();
    assert_eq!(direct.len(), 48);
    let material = engine.extract_key_material(32).unwrap();
    let via_subkey = kdf.derive_subkey(&material, b"purpose", 48).unwrap();
    assert_eq!(direct, via_subkey);
}

#[test]
fn derive_key_long_output_has_exact_length() {
    let engine = filled_engine();
    let kdf = KeyDerivation::new();
    let key = kdf.derive_key(&engine, b"stream", 1000).unwrap();
    assert_eq!(key.len(), 1000);
}

#[test]
fn hex_password_has_exact_length_and_alphabet() {
    let engine = filled_engine();
    let kdf = KeyDerivation::new();
    let password = kdf
        .generate_password(&engine, 16, PasswordCharset::Hex)
        .unwrap();
    assert_eq!(password.len(), 16);
    for c in password.chars() {
        assert!("0123456789abcdef".contains(c));
    }
}

#[test]
fn password_lengths_and_alphabets() {
    let engine = filled_engine();
    let kdf = KeyDerivation::new();
    let long = kdf
        .generate_password(&engine, 40, PasswordCharset::Alphanumeric)
        .unwrap();
    assert_eq!(long.chars().count(), 40);
    for c in long.chars() {
        assert!(c.is_ascii_alphanumeric());
    }
    let b64 = kdf
        .generate_password(&engine, 24, PasswordCharset::Base64)
        .unwrap();
    assert_eq!(b64.chars().count(), 24);
    for c in b64.chars() {
        assert!(c.is_ascii_alphanumeric() || c == '+' || c == '/');
    }
    let sym = kdf
        .generate_password(&engine, 24, PasswordCharset::AlphanumericSymbols)
        .unwrap();
    assert_eq!(sym.chars().count(), 24);
    let empty = kdf
        .generate_password(&engine, 0, PasswordCharset::Hex)
        .unwrap();
    assert_eq!(empty.len(), 0);
}

#[test]
fn password_needs_pool_entropy() {
    let engine = QuantumCryptoEngine::new(1024).unwrap();
    let kdf = KeyDerivation::new();
    assert_eq!(
        kdf.generate_password(&engine, 16, PasswordCharset::Hex),
        Err(CryptoError::InsufficientEntropy)
    );
}

#[test]
fn charsets_hold_the_documented_characters() {
    let hex: String = PasswordCharset::Hex.get_charset().into_iter().collect();
    assert_eq!(hex, "0123456789abcdef");
    let b64: String = PasswordCharset::Base64.get_charset().into_iter().collect();
    assert_eq!(
        b64,
        "ABCDEFGHIJKLMNOPQRSTUVWXYZabcdefghijklmnopqrstuvwxyz0123456789+/"
    );
    assert_eq!(PasswordCharset::Alphanumeric.get_charset().len(), 62);
    assert_eq!(PasswordCharset::AlphanumericSymbols.get_charset().len(), 88);
}
