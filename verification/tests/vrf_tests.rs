use card_game::game::{apply_verification, commitment_of_draw, select_winner_from};
use card_game::vrf::{
    derive_card_value, generate_keypair, public_key_of, verify, vrf_sign, VrfVerificationError,
};

#[test]
fn card_value_of_all_zero_input() {
    assert_eq!(derive_card_value(&[0u8; 8]), 1);
}

#[test]
fn card_value_of_all_ones_input() {
    // u64::MAX mod 52 == 15, so the card is 16.
    assert_eq!(derive_card_value(&[0xffu8; 8]), 16);
}

#[test]
fn card_value_reads_first_eight_bytes_little_endian() {
    assert_eq!(derive_card_value(&[1, 0, 0, 0, 0, 0, 0, 0]), 2);
    assert_eq!(derive_card_value(&[53, 0, 0, 0, 0, 0, 0, 0]), 2, "53 mod 52 is 1");
    let mut long = vec![7u8; 32];
    long[0] = 0;
    for b in long.iter_mut().skip(8) {
        *b = 0xee;
    }
    let mut short = vec![7u8; 8];
    short[0] = 0;
    assert_eq!(
        derive_card_value(&long),
        derive_card_value(&short),
        "bytes beyond the eighth are ignored"
    );
}

#[test]
fn card_value_always_in_range() {
    for i in 0u8..=255u8 {
        let input = [i, i.wrapping_add(31), 0xc3, i, 0, 1, 2, i];
        let card = derive_card_value(&input);
        assert!((1..=52).contains(&card));
    }
}

#[test]
fn commitment_matches_known_sha256_vector() {
    // SHA-256 of 32 zero bytes.
    assert_eq!(
        hex::encode(commitment_of_draw(&[0u8; 32])),
        "66687aadf862bd776c8fc18b8e9f8e20089714856ee233b3902a591d0d5f2925"
    );
}

#[test]
fn proof_verifies_and_any_alteration_fails() {
    let key_pair = generate_keypair();
    let public_key = public_key_of(&key_pair);
    let ctx = b"Card Game";
    let input = [42u8; 32];
    let (output, proof) = vrf_sign(&key_pair, ctx, &input);

    assert_eq!(verify(&public_key, ctx, &input, &proof, &output), Ok(()));

    // Altered input bytes.
    let other_input = [43u8; 32];
    assert_eq!(
        verify(&public_key, ctx, &other_input, &proof, &output),
        Err(VrfVerificationError::InvalidProof)
    );

    // Altered context label.
    assert_eq!(
        verify(&public_key, b"Other Game", &input, &proof, &output),
        Err(VrfVerificationError::InvalidProof)
    );

    // Altered output bytes.
    let mut tampered_output = output;
    tampered_output[0] ^= 0x01;
    assert_eq!(
        verify(&public_key, ctx, &input, &proof, &tampered_output),
        Err(VrfVerificationError::InvalidProof)
    );

    // Another participant's public key.
    let other_public = public_key_of(&generate_keypair());
    assert_eq!(
        verify(&other_public, ctx, &input, &proof, &output),
        Err(VrfVerificationError::InvalidProof)
    );
}

#[test]
fn vrf_output_is_deterministic_per_key() {
    let key_pair = generate_keypair();
    let input = [9u8; 32];
    let (out1, _) = vrf_sign(&key_pair, b"Card Game", &input);
    let (out2, _) = vrf_sign(&key_pair, b"Card Game", &input);
    assert_eq!(out1, out2, "the VRF output depends only on key, context and input");
}

#[test]
fn verification_voids_exactly_the_refuted_values() {
    let cards = vec![10u64, 20u64, 30u64];
    let ok = vec![true, false, true];
    assert_eq!(
        apply_verification(&cards, &ok),
        vec![Some(10), None, Some(30)]
    );
}

#[test]
fn winner_is_highest_with_lowest_index_on_ties() {
    assert_eq!(select_winner_from(&vec![]), None);
    assert_eq!(select_winner_from(&vec![None, None]), None);
    assert_eq!(select_winner_from(&vec![Some(5u64)]), Some(0));
    assert_eq!(select_winner_from(&vec![Some(5u64), Some(9), Some(7)]), Some(1));
    assert_eq!(select_winner_from(&vec![Some(9u64), Some(9), Some(7)]), Some(0));
    assert_eq!(select_winner_from(&vec![Some(7u64), Some(9), Some(9)]), Some(1));
    assert_eq!(select_winner_from(&vec![None, Some(1u64)]), Some(1));
    assert_eq!(select_winner_from(&vec![Some(52u64), None, Some(52)]), Some(0));
}
