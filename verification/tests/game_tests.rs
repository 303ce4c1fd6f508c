use card_game::game::{
    apply_verification, init_game, select_winner_from, signing_context_label, GameError, GameState,
};
use card_game::seed::fold_commitments_into_seed;
use card_game::vrf::verify;

#[test]
fn zero_players_is_a_configuration_error() {
    match init_game(0, 2023) {
        Err(e) => assert_eq!(e, GameError::InsufficientParticipants),
        Ok(_) => panic!("a round must not start without participants"),
    }
}

#[test]
fn players_join_with_sequential_ids() {
    let game = init_game(3, 2023).unwrap();
    assert_eq!(game.state(), GameState::PlayersJoined);
    assert_eq!(game.players_len(), 3);
    for (i, player) in game.players().iter().enumerate() {
        assert_eq!(player.player_id() as usize, i);
    }
    assert_eq!(game.message_board().commitment_count(), 0);
}

#[test]
fn end_to_end_round_with_three_players() {
    let mut game = init_game(3, 2023).unwrap();

    game.generate_commit_for_players();
    assert_eq!(game.commitments().len(), 3);
    for c in game.commitments().iter() {
        assert_eq!(c.len(), 32);
    }

    game.publish_commit_to_board_for_players();
    assert_eq!(game.state(), GameState::CommitmentsPosted);
    assert_eq!(
        game.message_board().commitment_count(),
        3,
        "exactly one ledger entry per participant"
    );

    let seed = game.get_vrf_input();
    assert_eq!(game.state(), GameState::SeedDerived);
    assert_eq!(seed.len(), 32);

    // The shared seed is reproducible from the commitments, in any order.
    let c = game.commitments().clone();
    assert_eq!(fold_commitments_into_seed(&c), seed);
    let permuted = vec![c[2].clone(), c[0].clone(), c[1].clone()];
    assert_eq!(
        fold_commitments_into_seed(&permuted),
        seed,
        "posting order must not matter"
    );

    game.generate_pseudorandom_output_for_players();
    let reveal_results = game.reveal_results_for_players();
    assert_eq!(game.state(), GameState::RevealsPosted);
    assert_eq!(reveal_results.len(), 3);
    for r in &reveal_results {
        assert!(r.is_ok(), "every retained salted message must reveal");
    }

    // After all reveals, every ledger entry holds its payload.
    for (i, r) in reveal_results.iter().enumerate() {
        let commitment = r.unwrap();
        let payload = game
            .message_board()
            .check_commitment(commitment)
            .expect("commitment must exist");
        assert_eq!(
            payload.as_deref(),
            Some(game.salted_messages()[i].as_str()),
            "the revealed payload is the retained salted message"
        );
    }

    game.verify_proofs_for_players();
    assert_eq!(game.state(), GameState::Verified);
    let verified = game.verified_values().clone();
    assert_eq!(verified.len(), 3);
    for (i, v) in verified.iter().enumerate() {
        let card = v.expect("honest participants must verify");
        assert!((1..=52).contains(&card));
        assert_eq!(card, game.reveals()[i].card());
    }

    let winner = game.select_winner();
    assert_eq!(game.state(), GameState::WinnerSelected);
    let w = winner.expect("with three valid values someone wins") as usize;
    let best = verified.iter().filter_map(|v| *v).max().unwrap();
    assert_eq!(verified[w], Some(best));
    for j in 0..w {
        assert_ne!(verified[j], Some(best), "ties break to the lowest id");
    }
}

#[test]
fn tampered_proof_voids_exactly_that_participant() {
    let mut game = init_game(3, 2023).unwrap();
    game.generate_commit_for_players();
    game.publish_commit_to_board_for_players();
    let seed = game.get_vrf_input();
    game.generate_pseudorandom_output_for_players();

    let label = signing_context_label();
    let mut cards: Vec<u64> = Vec::new();
    let mut ok: Vec<bool> = Vec::new();
    for i in 0..3usize {
        cards.push(game.reveals()[i].card());
        // Player 1 claims another player's output for its own proof.
        let claimed_output = if i == 1 { &game.outputs()[2] } else { &game.outputs()[i] };
        let result = verify(
            &game.players()[i].public_key(),
            label.as_bytes(),
            &seed,
            game.reveals()[i].vrf_proof(),
            claimed_output,
        );
        ok.push(result.is_ok());
    }
    assert_eq!(ok, vec![true, false, true], "only the cheater is flagged");

    let verified = apply_verification(&cards, &ok);
    assert_eq!(verified[0], Some(cards[0]));
    assert_eq!(verified[1], None, "the cheater's value is void");
    assert_eq!(verified[2], Some(cards[2]));

    // The voided participant never wins, even with the highest claim.
    let winner = select_winner_from(&verified).unwrap();
    assert!(winner == 0 || winner == 2);
}
