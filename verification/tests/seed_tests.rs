use card_game::seed::fold_commitments_into_seed;

#[test]
fn seed_has_fixed_size() {
    assert_eq!(fold_commitments_into_seed(&Vec::new()).len(), 32);
    assert_eq!(fold_commitments_into_seed(&vec![vec![1u8; 40]]).len(), 32);
}

#[test]
fn empty_fold_is_all_zero() {
    assert_eq!(fold_commitments_into_seed(&Vec::new()), vec![0u8; 32]);
}

#[test]
fn fold_sums_bytes_position_wise() {
    let commitments = vec![vec![1u8, 2u8], vec![3u8]];
    let seed = fold_commitments_into_seed(&commitments);
    assert_eq!(seed[0], 4, "1 + 3 land on position 0");
    assert_eq!(seed[1], 2);
    for j in 2..32 {
        assert_eq!(seed[j], 0);
    }
}

#[test]
fn fold_wraps_on_overflow() {
    let commitments = vec![vec![200u8], vec![100u8]];
    let seed = fold_commitments_into_seed(&commitments);
    assert_eq!(seed[0], 44, "(200 + 100) mod 256");
}

#[test]
fn byte_index_wraps_modulo_32() {
    let mut long = vec![0u8; 33];
    long[32] = 7;
    let seed = fold_commitments_into_seed(&vec![long]);
    assert_eq!(seed[0], 7, "byte 32 lands back on position 0");
}

#[test]
fn seed_is_order_independent() {
    let a = vec![0xa5u8; 32];
    let b: Vec<u8> = (0u8..32u8).collect();
    let c = vec![9u8, 8u8, 7u8];
    let orders = vec![
        vec![a.clone(), b.clone(), c.clone()],
        vec![a.clone(), c.clone(), b.clone()],
        vec![b.clone(), a.clone(), c.clone()],
        vec![b.clone(), c.clone(), a.clone()],
        vec![c.clone(), a.clone(), b.clone()],
        vec![c.clone(), b.clone(), a.clone()],
    ];
    let reference = fold_commitments_into_seed(&orders[0]);
    for order in &orders {
        assert_eq!(
            fold_commitments_into_seed(order),
            reference,
            "permuting the commitments must not change the seed"
        );
    }
}

#[test]
fn seed_changes_when_a_commitment_changes() {
    let a = vec![1u8, 2u8, 3u8];
    let b = vec![4u8, 5u8];
    let mut b_altered = b.clone();
    b_altered[0] ^= 0x10;
    let seed = fold_commitments_into_seed(&vec![a.clone(), b]);
    let altered = fold_commitments_into_seed(&vec![a, b_altered]);
    assert_ne!(seed, altered);
}
