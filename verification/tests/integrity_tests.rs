use card_game::hashing::{hash_with, hash_with_blake, hash_with_twox, is_hash_preimage, HashAlgo};
use card_game::integrity::{add_integrity_check, verify_data_integrity, IntegrityError};

#[test]
fn round_trip_recovers_data() {
    let data = b"some payload worth protecting".to_vec();
    let wrapped = add_integrity_check(&data);
    assert_eq!(wrapped.len(), data.len() + 16);
    assert_eq!(verify_data_integrity(wrapped), Ok(data));
}

#[test]
fn round_trip_empty_payload() {
    let wrapped = add_integrity_check(&[]);
    assert_eq!(wrapped.len(), 16);
    assert_eq!(verify_data_integrity(wrapped), Ok(Vec::new()));
}

#[test]
fn every_single_bit_flip_in_hash_is_detected() {
    let data = b"tamper with me".to_vec();
    let wrapped = add_integrity_check(&data);
    let hash_start = wrapped.len() - 16;
    for byte in hash_start..wrapped.len() {
        for bit in 0..8 {
            let mut tampered = wrapped.clone();
            tampered[byte] ^= 1u8 << bit;
            assert_eq!(
                verify_data_integrity(tampered),
                Err(IntegrityError::Mismatch),
                "flip of bit {} in byte {} went undetected",
                bit,
                byte
            );
        }
    }
}

#[test]
fn tampered_payload_is_detected() {
    let data = b"original".to_vec();
    let mut wrapped = add_integrity_check(&data);
    wrapped[0] ^= 0x01;
    assert_eq!(verify_data_integrity(wrapped), Err(IntegrityError::Mismatch));
}

#[test]
fn short_input_is_rejected() {
    assert_eq!(
        verify_data_integrity(vec![0u8; 15]),
        Err(IntegrityError::TooShort)
    );
    assert_eq!(verify_data_integrity(Vec::new()), Err(IntegrityError::TooShort));
}

#[test]
fn twox_matches_known_vector() {
    // The well-known substrate storage prefix: twox_128("System").
    assert_eq!(
        hex::encode(hash_with_twox(b"System")),
        "26aa394eea5630e07c48ae0c9558cef7"
    );
}

#[test]
fn blake_is_not_the_identity_and_is_deterministic() {
    let x = [0u8; 16];
    assert_ne!(hash_with_blake(&x), x, "digest must transform its input");
    assert_eq!(hash_with_blake(b"abc"), hash_with_blake(b"abc"));
    assert_ne!(hash_with_blake(b"abc"), hash_with_blake(b"abd"));
    assert_ne!(hash_with_blake(b"abc"), hash_with_twox(b"abc"));
}

#[test]
fn hash_with_dispatches_on_algorithm() {
    let data = b"dispatch";
    assert_eq!(hash_with(data, HashAlgo::Blake2), hash_with_blake(data));
    assert_eq!(hash_with(data, HashAlgo::TwoX), hash_with_twox(data));
}

#[test]
fn preimage_check_accepts_and_rejects() {
    let data = b"preimage";
    let h = hash_with_blake(data);
    assert!(is_hash_preimage(h, data, HashAlgo::Blake2));
    assert!(!is_hash_preimage(h, b"other", HashAlgo::Blake2));
    assert!(!is_hash_preimage(h, data, HashAlgo::TwoX));
}
