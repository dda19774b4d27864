use quantum_crypto_engine::utils::von_neumann_debias;

#[test]
fn debias_keeps_first_of_unequal_pairs() {
    // pairs: (0,1) -> 0, (1,0) -> 1, (1,1) dropped, (0,0) dropped
    let bits = [0u8, 1, 1, 0, 1, 1, 0, 0];
    assert_eq!(von_neumann_debias(&bits), vec![0u8, 1]);
}

#[test]
fn debias_short_input_passes_through() {
    assert_eq!(von_neumann_debias(&[]), Vec::<u8>::new());
    assert_eq!(von_neumann_debias(&[1u8]), vec![1u8]);
    assert_eq!(von_neumann_debias(&[0u8]), vec![0u8]);
}

#[test]
fn debias_emits_first_bit_when_all_pairs_discarded() {
    assert_eq!(von_neumann_debias(&[1u8, 1, 1, 1]), vec![1u8]);
    assert_eq!(von_neumann_debias(&[0u8, 0]), vec![0u8]);
}

#[test]
fn debias_ignores_trailing_unpaired_bit() {
    // pairs: (0,1) -> 0; the final 1 is unpaired and dropped
    assert_eq!(von_neumann_debias(&[0u8, 1, 1]), vec![0u8]);
}

#[test]
fn debias_output_at_most_half_and_from_input() {
    let bits = [0u8, 1, 0, 0, 1, 0, 1, 1, 0, 1, 1, 0, 0, 0, 1, 0];
    let out = von_neumann_debias(&bits);
    assert!(out.len() <= bits.len() / 2);
    for b in &out {
        assert!(bits.contains(b));
    }
}
