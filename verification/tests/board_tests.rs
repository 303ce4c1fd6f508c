use card_game::message_board::{hex_encode, PublicMessageBoard, RevealError};

#[test]
fn hex_encode_matches_known_values() {
    assert_eq!(hex_encode(&[]), "");
    assert_eq!(hex_encode(&[0x00, 0xab, 0xff]), "00abff");
    assert_eq!(hex_encode(&[0x12, 0x34]), "1234");
}

#[test]
fn same_message_twice_gets_two_different_salts() {
    let mut board = PublicMessageBoard::new(2023);
    let (salted1, commit1) = board.post_commitment("hello".to_string());
    let (salted2, commit2) = board.post_commitment("hello".to_string());
    assert_ne!(salted1, salted2, "each commitment must draw fresh salt");
    assert_ne!(commit1, commit2);
    assert_eq!(board.commitment_count(), 2);
}

#[test]
fn salted_message_extends_the_original() {
    let mut board = PublicMessageBoard::new(7);
    let msg = "a message".to_string();
    let (salted, commit) = board.post_commitment(msg.clone());
    assert_eq!(salted.len(), msg.len() + 8, "four salt bytes, hex-encoded");
    assert!(salted.starts_with(&msg));
    assert_eq!(PublicMessageBoard::reveal_to_commit(&salted), commit);
    assert_eq!(board.commitment_count(), 1);
}

#[test]
fn reveal_of_unknown_commitment_is_rejected() {
    let mut board = PublicMessageBoard::new(1);
    assert_eq!(
        board.post_reveal("never committed".to_string()),
        Err(RevealError::UnknownCommitment)
    );
    assert_eq!(board.commitment_count(), 0);
}

#[test]
fn reveal_succeeds_once_then_is_rejected() {
    let mut board = PublicMessageBoard::new(99);
    let (salted, commit) = board.post_commitment("secret".to_string());
    assert_eq!(board.post_reveal(salted.clone()), Ok(commit));
    assert_eq!(
        board.post_reveal(salted),
        Err(RevealError::AlreadyRevealed),
        "a commitment can be revealed exactly once"
    );
    assert_eq!(board.commitment_count(), 1);
}

#[test]
fn check_commitment_reports_reveal_status() {
    let mut board = PublicMessageBoard::new(5);
    let absent = [0u8; 16];
    assert_eq!(board.check_commitment(absent), Err(RevealError::UnknownCommitment));
    let (salted, commit) = board.post_commitment("observable".to_string());
    assert_eq!(board.check_commitment(commit), Ok(None));
    assert_eq!(board.post_reveal(salted.clone()), Ok(commit));
    assert_eq!(board.check_commitment(commit), Ok(Some(salted)));
}

#[test]
fn boards_with_equal_seeds_behave_identically() {
    let mut a = PublicMessageBoard::new(2023);
    let mut b = PublicMessageBoard::new(2023);
    let (salted_a, commit_a) = a.post_commitment("m".to_string());
    let (salted_b, commit_b) = b.post_commitment("m".to_string());
    assert_eq!(salted_a, salted_b, "the salt source is deterministically seeded");
    assert_eq!(commit_a, commit_b);
}
