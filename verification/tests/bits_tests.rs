use quantum_crypto_engine::utils::bits_to_bytes;
use quantum_crypto_engine::utils::bytes_to_bits;
use quantum_crypto_engine::utils::hash_randomness;
use quantum_crypto_engine::utils::xor_combine;

#[test]
fn bits_pack_least_significant_first() {
    assert_eq!(bits_to_bytes(&[1, 0, 0, 0, 0, 0, 0, 0]), vec![1u8]);
    assert_eq!(bits_to_bytes(&[0, 1, 0, 0, 0, 0, 0, 0]), vec![2u8]);
    assert_eq!(bits_to_bytes(&[1, 1, 1, 1, 1, 1, 1, 1]), vec![255u8]);
}

#[test]
fn bits_pack_pads_partial_byte_with_zeros() {
    assert_eq!(bits_to_bytes(&[1, 1, 1]), vec![7u8]);
    let nine_ones = [1u8; 9];
    assert_eq!(bits_to_bytes(&nine_ones), vec![255u8, 1u8]);
    assert_eq!(bits_to_bytes(&[]), Vec::<u8>::new());
}

#[test]
fn bits_treat_only_one_as_set() {
    // any value other than 1 counts as a zero bit
    assert_eq!(bits_to_bytes(&[2, 1, 0, 0, 0, 0, 0, 0]), vec![2u8]);
}

#[test]
fn bytes_unpack_least_significant_first() {
    assert_eq!(bytes_to_bits(&[5]), vec![1u8, 0, 1, 0, 0, 0, 0, 0]);
    assert_eq!(bytes_to_bits(&[]), Vec::<u8>::new());
    assert_eq!(bytes_to_bits(&[0, 255]).len(), 16);
}

#[test]
fn pack_then_unpack_round_trips_whole_bytes() {
    let bits: Vec<u8> = vec![1, 0, 1, 1, 0, 0, 1, 0, 0, 1, 1, 1, 0, 1, 0, 1];
    assert_eq!(bytes_to_bits(&bits_to_bytes(&bits)), bits);
}

#[test]
fn xor_combine_is_elementwise_to_shorter_length() {
    assert_eq!(xor_combine(&[1, 0, 1], &[1, 1, 0]), vec![0u8, 1, 1]);
    assert_eq!(xor_combine(&[1, 0, 1, 1], &[1, 1]), vec![0u8, 1]);
    assert_eq!(xor_combine(&[], &[1, 1]), Vec::<u8>::new());
}

#[test]
fn hash_randomness_empty_stays_empty() {
    assert_eq!(hash_randomness(&[]), Vec::<u8>::new());
}

#[test]
fn hash_randomness_matches_known_digest() {
    // one set bit packs to the byte 0x01; its SHA3-256 digest, unpacked
    let digest: [u8; 32] = [
        39, 103, 241, 92, 138, 242, 242, 199, 34, 93, 82, 115, 253, 214, 131, 237, 199, 20, 17,
        10, 152, 125, 16, 84, 105, 124, 52, 138, 237, 78, 108, 199,
    ];
    let out = hash_randomness(&[1]);
    assert_eq!(out.len(), 256);
    assert_eq!(out, bytes_to_bits(&digest));
}
