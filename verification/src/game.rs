//! Game coordinator: drives one round of the card game through its states.
//!
//! A round moves through commit, publish, derive-shared-seed,
//! reveal-and-verify, and winner selection.  Each transition is a method
//! whose contract pins the next state and what it owes: the shared seed is
//! exactly the commutative fold of all commitments, every card value is
//! exactly the VRF-output derivation, a failed proof voids only that
//! participant, and the winner is the highest verified card with ties broken
//! by the lowest participant id.

use vstd::prelude::*;

use rand::RngCore;

use crate::hashing::{hash_with_sha256, sha256_of, HASH_SIZE};
use crate::message_board::{
    commit_of, hex_encode, hex_of, lemma_hex_of_len, lemma_spec_post_all_take,
    lemma_spec_reveal_all_take, spec_post_all, spec_post_commitment, spec_reveal_all,
    spec_reveal_result, Ledger, PublicMessageBoard, RevealError,
};
use crate::seed::{fold_commitments_into_seed, shared_seed_of};
use crate::vrf::{
    derive_card_value, generate_keypair, public_key_of, spec_card_value, spec_public_key_of,
    verify, vrf_output_of, vrf_sign, vrf_valid_of,
};
use vstd::utf8::encode_utf8;

verus! {

/// The protocol's domain-separation label, as characters.
pub open spec fn spec_context_label() -> Seq<char> {
    "Card Game"@
}

/// The protocol's domain-separation label, as the UTF-8 bytes every VRF
/// transcript is built with.
pub open spec fn context_label_bytes() -> Seq<u8> {
    encode_utf8(spec_context_label())
}

/// Domain-separation label for every VRF transcript of this protocol, so a
/// signature cannot be reused across protocols.
pub fn signing_context_label() -> (r: &'static str)
    ensures
        r@ == spec_context_label(),
{
    proof {
        reveal_strlit("Card Game");
    }
    "Card Game"
}

/// Number of participants a default round is played with.
pub const NUM_PLAYERS: u8 = 3;

/// Configuration-level violations that abort a round before it starts.
#[derive(Clone, Copy, PartialEq, Eq, Debug, Structural)]
pub enum GameError {
    /// The round was started with fewer participants than required.
    InsufficientParticipants,
}

/// The states one round moves through, in order.
#[derive(Clone, Copy, PartialEq, Eq, Debug, Structural)]
pub enum GameState {
    /// No participants exist yet.
    NotStarted,
    /// Participants and their keypairs exist.
    PlayersJoined,
    /// Every participant's commitment sits on the message board.
    CommitmentsPosted,
    /// The shared seed is frozen; no commitment can influence it any more.
    SeedDerived,
    /// Every participant's salted message has been offered to the board as a
    /// reveal, and all VRF outputs exist.
    RevealsPosted,
    /// Every claimed output has been checked against its proof.
    Verified,
    /// A winner (or no winner) has been determined.
    WinnerSelected,
}

/// How far along a state is, for stating cumulative invariants.
pub open spec fn stage_of(s: GameState) -> int {
    match s {
        GameState::NotStarted => 0,
        GameState::PlayersJoined => 1,
        GameState::CommitmentsPosted => 2,
        GameState::SeedDerived => 3,
        GameState::RevealsPosted => 4,
        GameState::Verified => 5,
        GameState::WinnerSelected => 6,
    }
}

/// One participant: a small unique id and an exclusively owned VRF keypair.
pub struct Player {
    /// Index of this participant within the round, assigned at join time.
    pub id: u8,
    key_pair: schnorrkel::Keypair,
}

/// Create a participant with a freshly generated keypair.
pub fn create_player(player_number: u8) -> (r: Player)
    ensures
        r.spec_id() == player_number,
{
    Player { id: player_number, key_pair: generate_keypair() }
}

impl Player {
    /// Index of this participant within the round.
    pub closed spec fn spec_id(&self) -> u8 {
        self.id
    }

    /// This participant's keypair value (ghost only; the keypair itself is
    /// never shared).
    pub closed spec fn spec_key_pair(&self) -> schnorrkel::Keypair {
        self.key_pair
    }

    /// The public half of this participant's keypair.
    pub open spec fn spec_public_key(&self) -> schnorrkel::PublicKey {
        spec_public_key_of(self.spec_key_pair())
    }

    /// Index of this participant within the round.
    pub fn player_id(&self) -> (r: u8)
        ensures
            r == self.spec_id(),
    {
        self.id
    }

    /// The public half of this participant's keypair.
    pub fn public_key(&self) -> (r: schnorrkel::PublicKey)
        ensures
            r == self.spec_public_key(),
    {
        public_key_of(&self.key_pair)
    }
}

/// Draw a fresh 32-byte private random value for a participant.
///
/// Relies on `rand::rngs::OsRng::fill_bytes`: the operating system's
/// randomness source; nothing is assumed about the bytes that come back.
#[verifier::external_body]
pub fn generate_random_seed() -> [u8; 32] {
    let mut rng = rand::rngs::OsRng;
    let mut random_input: [u8; 32] = [0u8; 32];
    rng.fill_bytes(&mut random_input);
    random_input
}

/// A participant's published result: the claimed card value and the VRF
/// proof that binds it to the shared seed.
pub struct Reveal((u64, schnorrkel::vrf::VRFProof));

impl Reveal {
    /// The claimed card value.
    pub closed spec fn spec_card(&self) -> u64 {
        self.0.0
    }

    /// The proof carried with the claimed card value.
    pub closed spec fn spec_proof(&self) -> schnorrkel::vrf::VRFProof {
        self.0.1
    }

    /// The claimed card value.
    pub fn card(&self) -> (r: u64)
        ensures
            r == self.spec_card(),
    {
        self.0.0
    }

    /// The proof that the card value's VRF output was computed correctly.
    pub fn vrf_proof(&self) -> (r: &schnorrkel::vrf::VRFProof)
        ensures
            *r == self.spec_proof(),
    {
        &self.0.1
    }
}

/// The commitment a participant derives from its private 32-byte draw.
pub fn commitment_of_draw(draw: &[u8; 32]) -> (r: Vec<u8>)
    ensures
        r@ == sha256_of(draw@)@,
        r@.len() == 32,
{
    let digest = hash_with_sha256(draw.as_slice());
    let mut out: Vec<u8> = Vec::new();
    out.extend_from_slice(digest.as_slice());
    assert(out@ =~= digest@);
    out
}

/// Draw a participant's private randomness and hash it into a commitment.
/// The commitment binds the participant without revealing the draw.
pub fn generate_commit_for_player(_player: &Player) -> (r: Vec<u8>)
    ensures
        r@.len() == 32,
        exists|d: Seq<u8>| d.len() == 32 && r@ == sha256_of(d)@,
{
    let draw = generate_random_seed();
    let r = commitment_of_draw(&draw);
    assert(draw@.len() == 32 && r@ == sha256_of(draw@)@);
    r
}

/// Run the VRF for one participant over the shared seed: sign, then derive
/// the card value from the output bytes.  The output — and with it the card
/// value — is the deterministic VRF evaluation for this participant's
/// keypair, the protocol label and the input, and the returned proof
/// verifies against exactly that tuple.
pub fn generate_pseudorandom_output_for_player(player: &Player, shared_vrf_input: &[u8]) -> (r: (
    Reveal,
    [u8; 32],
))
    ensures
        r.1@ == vrf_output_of(player.spec_key_pair(), context_label_bytes(), shared_vrf_input@)@,
        vrf_valid_of(
            player.spec_public_key(),
            context_label_bytes(),
            shared_vrf_input@,
            r.0.spec_proof(),
            r.1@,
        ),
        r.0.spec_card() == spec_card_value(r.1@),
        1 <= r.0.spec_card() <= 52,
{
    let label = signing_context_label();
    let label_bytes = label.as_bytes();
    assert(label_bytes@ == context_label_bytes());
    let (output, proof) = vrf_sign(&player.key_pair, label_bytes, shared_vrf_input);
    let card_value = derive_card_value(output.as_slice());
    (Reveal((card_value, proof)), output)
}

/// Keep each verified card value and void each refuted one: position `i` of
/// the result holds the claimed card when its proof checked out, and nothing
/// when it did not.
pub fn apply_verification(cards: &Vec<u64>, proof_ok: &Vec<bool>) -> (r: Vec<Option<u64>>)
    requires
        cards@.len() == proof_ok@.len(),
    ensures
        r@.len() == cards@.len(),
        forall|i: int| 0 <= i < r@.len() ==> r@[i] == (if proof_ok@[i] {
            Some(cards@[i])
        } else {
            None::<u64>
        }),
{
    let mut out: Vec<Option<u64>> = Vec::new();
    let mut i: usize = 0;
    while i < cards.len()
        invariant
            i <= cards@.len(),
            cards@.len() == proof_ok@.len(),
            out@.len() == i,
            forall|j: int| 0 <= j < i ==> out@[j] == (if proof_ok@[j] {
                Some(cards@[j])
            } else {
                None::<u64>
            }),
        decreases cards@.len() - i,
    {
        if proof_ok[i] {
            out.push(Some(cards[i]));
        } else {
            out.push(None);
        }
        i += 1;
    }
    out
}

/// Pick the winner among verified card values: the highest card wins, ties
/// are broken by the lowest position, and voided (absent) values never win.
pub fn select_winner_from(values: &Vec<Option<u64>>) -> (r: Option<usize>)
    ensures
        match r {
            None => forall|i: int| 0 <= i < values@.len() ==> values@[i] is None,
            Some(w) => 0 <= w < values@.len() && values@[w as int] is Some && forall|j: int|
                0 <= j < values@.len() && values@[j] is Some ==> (values@[j]->0
                    < values@[w as int]->0 || (values@[j]->0 == values@[w as int]->0 && w <= j)),
        },
{
    let mut best: Option<usize> = None;
    let mut i: usize = 0;
    while i < values.len()
        invariant
            i <= values@.len(),
            match best {
                None => forall|j: int| 0 <= j < i ==> values@[j] is None,
                Some(w) => 0 <= w < i && values@[w as int] is Some && forall|j: int|
                    0 <= j < i && values@[j] is Some ==> (values@[j]->0 < values@[w as int]->0 || (
                    values@[j]->0 == values@[w as int]->0 && w <= j)),
            },
        decreases values@.len() - i,
    {
        match &values[i] {
            None => {},
            Some(v) => {
                match best {
                    None => {
                        best = Some(i);
                    },
                    Some(w) => {
                        let bv = match &values[w] {
                            Some(b) => *b,
                            None => 0,
                        };
                        if *v > bv {
                            best = Some(i);
                        }
                    },
                }
            },
        }
        i += 1;
    }
    best
}

/// One round of the card game: the shared message board, every
/// participant's commitments, salted messages, VRF results and verified
/// values, and the round's current state.
pub struct Game {
    message_board: PublicMessageBoard,
    commitments: Vec<Vec<u8>>,
    salted_messages: Vec<String>,
    reveals: Vec<Reveal>,
    outputs: Vec<[u8; 32]>,
    verified_values: Vec<Option<u64>>,
    players: Vec<Player>,
    shared_seed: Vec<u8>,
    state: GameState,
}

impl Game {
    /// The round's current state.
    pub closed spec fn spec_state(&self) -> GameState {
        self.state
    }

    /// How many participants play this round.
    pub closed spec fn num_players(&self) -> nat {
        self.players@.len()
    }

    /// Every participant's commitment bytes.
    pub closed spec fn commitments_view(&self) -> Seq<Seq<u8>> {
        self.commitments.deep_view()
    }

    /// Every participant's retained salted message.
    pub closed spec fn salted_view(&self) -> Seq<Seq<char>> {
        self.salted_messages.deep_view()
    }

    /// Every participant's VRF output bytes.
    pub closed spec fn outputs_view(&self) -> Seq<Seq<u8>> {
        self.outputs.deep_view()
    }

    /// Every participant's claimed card value.
    pub closed spec fn cards_view(&self) -> Seq<u64> {
        self.reveals@.map_values(|r: Reveal| r.spec_card())
    }

    /// Every participant's published proof.
    pub closed spec fn proofs_view(&self) -> Seq<schnorrkel::vrf::VRFProof> {
        self.reveals@.map_values(|r: Reveal| r.spec_proof())
    }

    /// The participants themselves, keypairs included (ghost only).
    pub closed spec fn players_seq(&self) -> Seq<Player> {
        self.players@
    }

    /// Every participant's public key.
    pub closed spec fn player_keys_view(&self) -> Seq<schnorrkel::PublicKey> {
        self.players@.map_values(|p: Player| p.spec_public_key())
    }

    /// Every participant's verified card value; absent means voided.
    pub closed spec fn verified_view(&self) -> Seq<Option<u64>> {
        self.verified_values@
    }

    /// The frozen shared seed (empty before derivation).
    pub closed spec fn seed_view(&self) -> Seq<u8> {
        self.shared_seed@
    }

    /// The message board's ledger.
    pub closed spec fn board_ledger(&self) -> Ledger {
        self.message_board.ledger()
    }

    /// Round invariant: participants carry their index as id, the board is
    /// well formed, and everything each reached state promises has been
    /// established and stays established.
    pub closed spec fn inv(&self) -> bool {
        let n = self.players@.len();
        let stage = stage_of(self.state);
        &&& self.message_board.well_formed()
        &&& n <= 255
        &&& forall|i: int| 0 <= i < n ==> self.players@[i].id == i as u8
        &&& (stage >= 1 ==> n >= 1)
        &&& (stage >= 2 ==> self.commitments@.len() == n && self.salted_messages@.len() == n
            && forall|i: int| 0 <= i < n ==> self.commitments_view()[i].len() == 32)
        &&& (stage >= 3 ==> self.shared_seed@ == shared_seed_of(self.commitments_view())
            && self.shared_seed@.len() == 32)
        &&& (stage >= 4 ==> self.reveals@.len() == n && self.outputs@.len() == n && forall|i: int|
            0 <= i < n ==> self.cards_view()[i] == spec_card_value(self.outputs_view()[i]) && 1
                <= self.cards_view()[i] <= 52)
        &&& (stage >= 5 ==> self.verified_values@.len() == n && forall|i: int|
            0 <= i < n ==> self.verified_view()[i] is None || self.verified_view()[i] == Some(
                self.cards_view()[i],
            ))
    }

    /// The round's current state.
    pub fn state(&self) -> (r: GameState)
        ensures
            r == self.spec_state(),
    {
        self.state
    }

    /// How many participants play this round.
    pub fn players_len(&self) -> (r: usize)
        ensures
            r == self.num_players(),
    {
        self.players.len()
    }

    /// The participants of this round.
    pub fn players(&self) -> (r: &Vec<Player>)
        ensures
            r@.len() == self.num_players(),
            self.inv() ==> forall|i: int| 0 <= i < r@.len() ==> r@[i].spec_id() == i as u8,
    {
        &self.players
    }

    /// Every participant's commitment bytes.
    pub fn commitments(&self) -> (r: &Vec<Vec<u8>>)
        ensures
            r.deep_view() == self.commitments_view(),
    {
        &self.commitments
    }

    /// Every participant's retained salted message.
    pub fn salted_messages(&self) -> (r: &Vec<String>)
        ensures
            r.deep_view() == self.salted_view(),
    {
        &self.salted_messages
    }

    /// Every participant's VRF output bytes.
    pub fn outputs(&self) -> (r: &Vec<[u8; 32]>)
        ensures
            r.deep_view() == self.outputs_view(),
    {
        &self.outputs
    }

    /// Every participant's published result.
    pub fn reveals(&self) -> (r: &Vec<Reveal>)
        ensures
            r@.len() == self.cards_view().len(),
            forall|i: int| 0 <= i < r@.len() ==> r@[i].spec_card() == self.cards_view()[i],
    {
        &self.reveals
    }

    /// Every participant's verified card value; absent means voided.
    pub fn verified_values(&self) -> (r: &Vec<Option<u64>>)
        ensures
            r@ == self.verified_view(),
    {
        &self.verified_values
    }

    /// The frozen shared seed.
    pub fn shared_seed(&self) -> (r: &Vec<u8>)
        ensures
            r@ == self.seed_view(),
    {
        &self.shared_seed
    }

    /// The message board of this round.
    pub fn message_board(&self) -> (r: &PublicMessageBoard)
        ensures
            r.ledger() == self.board_ledger(),
            self.inv() ==> r.well_formed(),
    {
        &self.message_board
    }
}

/// Start a round: create the configured number of participants, each with a
/// fresh keypair, and an empty message board seeded deterministically.
/// Starting with no participants at all is a configuration error.
pub fn init_game(num_players: u8, rng_seed: u64) -> (r: Result<Game, GameError>)
    ensures
        match r {
            Ok(g) => num_players >= 1 && g.inv() && g.spec_state() == GameState::PlayersJoined
                && g.num_players() == num_players as nat && g.board_ledger() == Map::<
                Seq<u8>,
                Option<Seq<char>>,
            >::empty() && g.commitments_view().len() == 0 && g.cards_view().len() == 0,
            Err(e) => e == GameError::InsufficientParticipants && num_players == 0,
        },
{
    if num_players == 0 {
        return Err(GameError::InsufficientParticipants);
    }
    let mut players: Vec<Player> = Vec::new();
    let mut i: u8 = 0;
    while i < num_players
        invariant
            i <= num_players,
            players@.len() == i as nat,
            forall|j: int| 0 <= j < i as int ==> players@[j].id == j as u8,
        decreases num_players - i,
    {
        let player = create_player(i);
        players.push(player);
        i += 1;
    }
    let pmb = PublicMessageBoard::new(rng_seed);
    let game = Game {
        message_board: pmb,
        commitments: Vec::new(),
        salted_messages: Vec::new(),
        reveals: Vec::new(),
        outputs: Vec::new(),
        verified_values: Vec::new(),
        players,
        shared_seed: Vec::new(),
        state: GameState::PlayersJoined,
    };
    Ok(game)
}

impl Game {
    /// Each participant draws private randomness and hashes it into a
    /// commitment, kept locally until published.
    pub fn generate_commit_for_players(&mut self)
        requires
            old(self).inv(),
            old(self).spec_state() == GameState::PlayersJoined,
            old(self).commitments_view().len() == 0,
        ensures
            final(self).inv(),
            final(self).spec_state() == GameState::PlayersJoined,
            final(self).num_players() == old(self).num_players(),
            final(self).players_seq() == old(self).players_seq(),
            final(self).commitments_view().len() == old(self).num_players(),
            forall|i: int|
                0 <= i < final(self).commitments_view().len() ==> #[trigger] final(
                    self
                ).commitments_view()[i].len() == 32 && (exists|d: Seq<u8>|
                    d.len() == 32 && final(self).commitments_view()[i] == sha256_of(d)@),
            final(self).salted_view() == old(self).salted_view(),
            final(self).board_ledger() == old(self).board_ledger(),
            final(self).cards_view() == old(self).cards_view(),
    {
        let n = self.players.len();
        let ghost mut draws: Seq<Seq<u8>> = Seq::empty();
        let mut k: usize = 0;
        while k < n
            invariant
                k <= n,
                n == self.players@.len(),
                self.inv(),
                self.state == GameState::PlayersJoined,
                self.commitments@.len() == k,
                draws.len() == k,
                forall|i: int| 0 <= i < k ==> (#[trigger] draws[i]).len() == 32
                    && self.commitments_view()[i] == sha256_of(draws[i])@,
                self.players@ == old(self).players@,
                self.salted_messages@ == old(self).salted_messages@,
                self.message_board == old(self).message_board,
                self.reveals@ == old(self).reveals@,
                self.state == old(self).state,
            decreases n - k,
        {
            let commit = generate_commit_for_player(&self.players[k]);
            let ghost pre = self.commitments.deep_view();
            self.commitments.push(commit);
            proof {
                assert(self.commitments.deep_view() =~~= pre.push(commit@));
                let d = choose|d: Seq<u8>| d.len() == 32 && commit@ == sha256_of(d)@;
                draws = draws.push(d);
                assert(self.commitments_view()[k as int] == commit@);
                assert(draws[k as int] == d);
            }
            k += 1;
        }
        proof {
            assert forall|i: int| 0 <= i < self.commitments_view().len() implies #[trigger] self
                .commitments_view()[i].len() == 32 && (exists|d: Seq<u8>|
                d.len() == 32 && self.commitments_view()[i] == sha256_of(d)@) by {
                assert(draws[i].len() == 32 && self.commitments_view()[i] == sha256_of(draws[i])@);
            }
        }
    }

    /// Each participant posts its commitment, hex-encoded, to the message
    /// board, and retains the returned salted message for the later reveal.
    /// Afterwards every salted message's hash sits in the ledger.
    pub fn publish_commit_to_board_for_players(&mut self)
        requires
            old(self).inv(),
            old(self).spec_state() == GameState::PlayersJoined,
            old(self).commitments_view().len() == old(self).num_players(),
            forall|i: int|
                0 <= i < old(self).commitments_view().len() ==> #[trigger] old(
                    self
                ).commitments_view()[i].len() == 32,
            old(self).salted_view().len() == 0,
        ensures
            final(self).inv(),
            final(self).spec_state() == GameState::CommitmentsPosted,
            final(self).num_players() == old(self).num_players(),
            final(self).players_seq() == old(self).players_seq(),
            final(self).commitments_view() == old(self).commitments_view(),
            final(self).cards_view() == old(self).cards_view(),
            final(self).seed_view() == old(self).seed_view(),
            final(self).salted_view().len() == old(self).num_players(),
            forall|i: int|
                0 <= i < final(self).salted_view().len() ==> (#[trigger] final(
                    self
                ).salted_view()[i]).len() == 72 && final(self).salted_view()[i].subrange(0, 64)
                    == hex_of(final(self).commitments_view()[i]) && final(
                    self
                ).board_ledger().contains_key(commit_of(final(self).salted_view()[i])),
            final(self).board_ledger() == spec_post_all(
                old(self).board_ledger(),
                final(self).salted_view(),
            ),
    {
        let ghost l0 = old(self).board_ledger();
        let n = self.commitments.len();
        let mut k: usize = 0;
        while k < n
            invariant
                k <= n,
                n == self.commitments@.len(),
                self.inv(),
                self.state == GameState::PlayersJoined,
                self.message_board.well_formed(),
                self.players@ == old(self).players@,
                self.commitments@ == old(self).commitments@,
                self.reveals@ == old(self).reveals@,
                self.outputs@ == old(self).outputs@,
                self.verified_values@ == old(self).verified_values@,
                self.shared_seed@ == old(self).shared_seed@,
                forall|i: int|
                    0 <= i < n ==> #[trigger] self.commitments_view()[i].len() == 32,
                self.salted_messages@.len() == k,
                forall|i: int|
                    0 <= i < k ==> (#[trigger] self.salted_view()[i]).len() == 72
                        && self.salted_view()[i].subrange(0, 64) == hex_of(
                        self.commitments_view()[i],
                    ) && self.board_ledger().contains_key(commit_of(self.salted_view()[i])),
                self.board_ledger() == spec_post_all(l0, self.salted_view().take(k as int)),
            decreases n - k,
        {
            let hexmsg = hex_encode(self.commitments[k].as_slice());
            proof {
                assert(self.commitments@[k as int]@ == self.commitments_view()[k as int]);
                lemma_hex_of_len(self.commitments_view()[k as int]);
            }
            let ghost pre_salted = self.salted_messages.deep_view();
            let ghost pre_ledger = self.message_board.ledger();
            let (salted, _commitment) = self.message_board.post_commitment(hexmsg);
            self.salted_messages.push(salted);
            proof {
                assert(self.salted_messages.deep_view() =~~= pre_salted.push(salted@));
                assert(pre_salted.take(k as int) =~= pre_salted);
                assert(self.salted_view().take(k as int) =~= pre_salted);
                assert(self.salted_view().take(k + 1) =~= self.salted_view());
                assert(self.salted_view()[k as int] == salted@);
                assert(pre_ledger == spec_post_all(l0, self.salted_view().take(k as int)));
                assert(self.board_ledger() == spec_post_commitment(pre_ledger, salted@).0);
                lemma_spec_post_all_take(l0, self.salted_view(), k as int);
                assert(self.board_ledger() == spec_post_all(l0, self.salted_view().take(k + 1)));
                assert(salted@.subrange(0, 64) =~= hex_of(self.commitments_view()[k as int]));
            }
            k += 1;
        }
        proof {
            assert(self.salted_view().take(n as int) =~= self.salted_view());
        }
        self.state = GameState::CommitmentsPosted;
    }

    /// Freeze the shared seed: fold every posted commitment into one
    /// 32-byte value that no single participant controls.  After this, no
    /// commitment can influence the seed any more.
    pub fn get_vrf_input(&mut self) -> (r: Vec<u8>)
        requires
            old(self).inv(),
            old(self).spec_state() == GameState::CommitmentsPosted,
        ensures
            final(self).inv(),
            final(self).spec_state() == GameState::SeedDerived,
            r@ == shared_seed_of(old(self).commitments_view()),
            final(self).seed_view() == r@,
            final(self).num_players() == old(self).num_players(),
            final(self).players_seq() == old(self).players_seq(),
            final(self).commitments_view() == old(self).commitments_view(),
            final(self).salted_view() == old(self).salted_view(),
            final(self).cards_view() == old(self).cards_view(),
            final(self).outputs_view() == old(self).outputs_view(),
            final(self).board_ledger() == old(self).board_ledger(),
    {
        let seed_vec = fold_commitments_into_seed(&self.commitments);
        let mut copy: Vec<u8> = Vec::new();
        let mut i: usize = 0;
        while i < seed_vec.len()
            invariant
                i <= seed_vec@.len(),
                copy@ == seed_vec@.take(i as int),
            decreases seed_vec@.len() - i,
        {
            copy.push(seed_vec[i]);
            assert(copy@ =~= seed_vec@.take(i + 1));
            i += 1;
        }
        assert(copy@ =~= seed_vec@);
        self.shared_seed = copy;
        self.state = GameState::SeedDerived;
        proof {
            assert(self.commitments_view() == old(self).commitments_view());
            assert forall|i: int|
                0 <= i < self.commitments@.len() implies #[trigger] self.commitments_view()[i].len()
                == 32 by {
                assert(old(self).commitments_view()[i].len() == 32);
            }
        }
        seed_vec
    }

    /// Each participant runs the VRF over the frozen shared seed and
    /// derives its card value; outputs and proofs are kept for publication
    /// and verification.  Every stored output is the deterministic VRF
    /// evaluation for that participant's keypair over the frozen seed, and
    /// every stored proof verifies against that participant's public key,
    /// the protocol label, the seed and the output.
    pub fn generate_pseudorandom_output_for_players(&mut self)
        requires
            old(self).inv(),
            old(self).spec_state() == GameState::SeedDerived,
            old(self).cards_view().len() == 0,
            old(self).outputs_view().len() == 0,
        ensures
            final(self).inv(),
            final(self).spec_state() == GameState::SeedDerived,
            final(self).num_players() == old(self).num_players(),
            final(self).players_seq() == old(self).players_seq(),
            final(self).cards_view().len() == old(self).num_players(),
            final(self).outputs_view().len() == old(self).num_players(),
            forall|i: int|
                0 <= i < final(self).cards_view().len() ==> #[trigger] final(self).cards_view()[i]
                    == spec_card_value(final(self).outputs_view()[i]) && 1 <= final(
                    self
                ).cards_view()[i] <= 52,
            forall|i: int|
                0 <= i < final(self).outputs_view().len() ==> #[trigger] final(
                    self
                ).outputs_view()[i] == vrf_output_of(
                    final(self).players_seq()[i].spec_key_pair(),
                    context_label_bytes(),
                    final(self).seed_view(),
                )@,
            forall|i: int|
                0 <= i < final(self).outputs_view().len() ==> #[trigger] vrf_valid_of(
                    final(self).player_keys_view()[i],
                    context_label_bytes(),
                    final(self).seed_view(),
                    final(self).proofs_view()[i],
                    final(self).outputs_view()[i],
                ),
            final(self).commitments_view() == old(self).commitments_view(),
            final(self).salted_view() == old(self).salted_view(),
            final(self).seed_view() == old(self).seed_view(),
            final(self).board_ledger() == old(self).board_ledger(),
    {
        let n = self.players.len();
        let ghost mut outs: Seq<Seq<u8>> = Seq::empty();
        let ghost mut prfs: Seq<schnorrkel::vrf::VRFProof> = Seq::empty();
        let mut k: usize = 0;
        while k < n
            invariant
                k <= n,
                n == self.players@.len(),
                self.inv(),
                self.state == GameState::SeedDerived,
                self.players@ == old(self).players@,
                self.commitments@ == old(self).commitments@,
                self.salted_messages@ == old(self).salted_messages@,
                self.verified_values@ == old(self).verified_values@,
                self.shared_seed@ == old(self).shared_seed@,
                self.message_board == old(self).message_board,
                self.reveals@.len() == k,
                self.outputs@.len() == k,
                outs.len() == k,
                prfs.len() == k,
                self.outputs.deep_view() == outs,
                self.proofs_view() == prfs,
                forall|i: int|
                    0 <= i < k ==> #[trigger] self.cards_view()[i] == spec_card_value(
                        self.outputs_view()[i],
                    ) && 1 <= self.cards_view()[i] <= 52,
                forall|i: int|
                    0 <= i < k ==> (#[trigger] outs[i]) == vrf_output_of(
                        old(self).players_seq()[i].spec_key_pair(),
                        context_label_bytes(),
                        old(self).seed_view(),
                    )@,
                forall|i: int|
                    0 <= i < k ==> #[trigger] vrf_valid_of(
                        old(self).player_keys_view()[i],
                        context_label_bytes(),
                        old(self).seed_view(),
                        prfs[i],
                        outs[i],
                    ),
            decreases n - k,
        {
            let (reveal, output) = generate_pseudorandom_output_for_player(
                &self.players[k],
                self.shared_seed.as_slice(),
            );
            let ghost pre_cards = self.cards_view();
            let ghost pre_proofs = self.proofs_view();
            let ghost pre_outputs = self.outputs.deep_view();
            let ghost card = reveal.spec_card();
            let ghost prf = reveal.spec_proof();
            self.reveals.push(reveal);
            self.outputs.push(output);
            proof {
                assert(self.cards_view() =~= pre_cards.push(card));
                assert(self.proofs_view() =~= pre_proofs.push(prf));
                assert(self.outputs.deep_view() =~~= pre_outputs.push(output@));
                outs = outs.push(output@);
                prfs = prfs.push(prf);
                assert(outs[k as int] == output@);
                assert(prfs[k as int] == prf);
                assert(old(self).players_seq()[k as int] == self.players@[k as int]);
                assert(old(self).player_keys_view()[k as int] == self.players@[k as int
                ].spec_public_key());
                assert(output@ == vrf_output_of(
                    self.players@[k as int].spec_key_pair(),
                    context_label_bytes(),
                    old(self).seed_view(),
                )@);
                assert(vrf_valid_of(
                    self.players@[k as int].spec_public_key(),
                    context_label_bytes(),
                    old(self).seed_view(),
                    prf,
                    output@,
                ));
            }
            k += 1;
        }
        proof {
            assert forall|i: int|
                0 <= i < self.outputs@.len() implies #[trigger] self.outputs_view()[i]
                == vrf_output_of(
                self.players_seq()[i].spec_key_pair(),
                context_label_bytes(),
                self.seed_view(),
            )@ by {
                assert(self.outputs_view()[i] == outs[i]);
                assert(self.players_seq()[i] == old(self).players_seq()[i]);
            }
            assert forall|i: int| 0 <= i < self.outputs@.len() implies #[trigger] vrf_valid_of(
                self.player_keys_view()[i],
                context_label_bytes(),
                self.seed_view(),
                self.proofs_view()[i],
                self.outputs_view()[i],
            ) by {
                assert(self.proofs_view()[i] == prfs[i] && self.outputs_view()[i] == outs[i]);
                assert(self.player_keys_view()[i] == old(self).player_keys_view()[i]);
                assert(vrf_valid_of(
                    old(self).player_keys_view()[i],
                    context_label_bytes(),
                    old(self).seed_view(),
                    prfs[i],
                    outs[i],
                ));
            }
        }
    }

    /// Each participant offers its retained salted message to the board as
    /// a reveal.  Per-participant failures are reported, never raised: a
    /// rejected reveal voids nobody else's.
    pub fn reveal_results_for_players(&mut self) -> (r: Vec<Result<[u8; HASH_SIZE], RevealError>>)
        requires
            old(self).inv(),
            old(self).spec_state() == GameState::SeedDerived,
            old(self).cards_view().len() == old(self).num_players(),
            old(self).outputs_view().len() == old(self).num_players(),
            forall|i: int|
                0 <= i < old(self).cards_view().len() ==> #[trigger] old(self).cards_view()[i]
                    == spec_card_value(old(self).outputs_view()[i]) && 1 <= old(
                    self
                ).cards_view()[i] <= 52,
        ensures
            final(self).inv(),
            final(self).spec_state() == GameState::RevealsPosted,
            final(self).num_players() == old(self).num_players(),
            final(self).players_seq() == old(self).players_seq(),
            final(self).commitments_view() == old(self).commitments_view(),
            final(self).salted_view() == old(self).salted_view(),
            final(self).cards_view() == old(self).cards_view(),
            final(self).proofs_view() == old(self).proofs_view(),
            final(self).outputs_view() == old(self).outputs_view(),
            final(self).seed_view() == old(self).seed_view(),
            r@.len() == old(self).num_players(),
            final(self).board_ledger() == spec_reveal_all(
                old(self).board_ledger(),
                old(self).salted_view(),
            ),
            forall|i: int|
                0 <= i < r@.len() ==> (match (
                    #[trigger] r@[i],
                    spec_reveal_result(old(self).board_ledger(), old(self).salted_view(), i),
                ) {
                    (Ok(c), Ok(cc)) => c@ == cc,
                    (Err(e), Err(ee)) => e == ee,
                    _ => false,
                }),
    {
        let ghost l0 = old(self).board_ledger();
        let ghost sv = old(self).salted_view();
        let n = self.salted_messages.len();
        let mut results: Vec<Result<[u8; HASH_SIZE], RevealError>> = Vec::new();
        let mut k: usize = 0;
        while k < n
            invariant
                k <= n,
                n == self.salted_messages@.len(),
                self.inv(),
                self.state == GameState::SeedDerived,
                sv == self.salted_view(),
                self.players@ == old(self).players@,
                self.commitments@ == old(self).commitments@,
                self.salted_messages@ == old(self).salted_messages@,
                self.reveals@ == old(self).reveals@,
                self.outputs@ == old(self).outputs@,
                self.verified_values@ == old(self).verified_values@,
                self.shared_seed@ == old(self).shared_seed@,
                self.message_board.well_formed(),
                self.board_ledger() == spec_reveal_all(l0, sv.take(k as int)),
                results@.len() == k,
                forall|i: int|
                    0 <= i < k ==> (match (#[trigger] results@[i], spec_reveal_result(l0, sv, i)) {
                        (Ok(c), Ok(cc)) => c@ == cc,
                        (Err(e), Err(ee)) => e == ee,
                        _ => false,
                    }),
            decreases n - k,
        {
            let msg = self.salted_messages[k].clone();
            proof {
                assert(msg@ == sv[k as int]);
            }
            let res = self.message_board.post_reveal(msg);
            proof {
                lemma_spec_reveal_all_take(l0, sv, k as int);
            }
            results.push(res);
            k += 1;
        }
        proof {
            assert(sv.take(n as int) =~= sv);
        }
        self.state = GameState::RevealsPosted;
        results
    }

    /// Check every participant's claimed output against its proof, the
    /// frozen shared seed and that participant's public key.  Position `i`
    /// of the verified values holds the claimed card exactly when that
    /// participant's tuple passes VRF verification, and is void otherwise:
    /// a failed check voids only that participant's value; every other
    /// value stays.
    pub fn verify_proofs_for_players(&mut self)
        requires
            old(self).inv(),
            old(self).spec_state() == GameState::RevealsPosted,
        ensures
            final(self).inv(),
            final(self).spec_state() == GameState::Verified,
            final(self).num_players() == old(self).num_players(),
            final(self).players_seq() == old(self).players_seq(),
            final(self).cards_view() == old(self).cards_view(),
            final(self).proofs_view() == old(self).proofs_view(),
            final(self).outputs_view() == old(self).outputs_view(),
            final(self).commitments_view() == old(self).commitments_view(),
            final(self).salted_view() == old(self).salted_view(),
            final(self).seed_view() == old(self).seed_view(),
            final(self).board_ledger() == old(self).board_ledger(),
            final(self).verified_view().len() == old(self).num_players(),
            forall|i: int|
                0 <= i < final(self).verified_view().len() ==> #[trigger] final(
                    self
                ).verified_view()[i] == (if vrf_valid_of(
                    final(self).player_keys_view()[i],
                    context_label_bytes(),
                    final(self).seed_view(),
                    final(self).proofs_view()[i],
                    final(self).outputs_view()[i],
                ) {
                    Some(final(self).cards_view()[i])
                } else {
                    None::<u64>
                }),
            forall|i: int|
                0 <= i < final(self).verified_view().len() ==> #[trigger] final(
                    self
                ).verified_view()[i] is None || final(self).verified_view()[i] == Some(
                    final(self).cards_view()[i],
                ),
    {
        let n = self.players.len();
        let mut cards: Vec<u64> = Vec::new();
        let mut k: usize = 0;
        while k < n
            invariant
                k <= n,
                n == self.players@.len(),
                self.inv(),
                self.state == GameState::RevealsPosted,
                cards@.len() == k,
                forall|j: int| 0 <= j < k ==> #[trigger] cards@[j] == self.cards_view()[j],
            decreases n - k,
        {
            let card = self.reveals[k].card();
            proof {
                assert(self.cards_view()[k as int] == self.reveals@[k as int].spec_card());
            }
            cards.push(card);
            k += 1;
        }
        let mut proof_ok: Vec<bool> = Vec::new();
        let mut m: usize = 0;
        while m < n
            invariant
                m <= n,
                n == self.players@.len(),
                self.inv(),
                self.state == GameState::RevealsPosted,
                cards@.len() == n,
                forall|j: int| 0 <= j < n ==> #[trigger] cards@[j] == self.cards_view()[j],
                proof_ok@.len() == m,
                forall|j: int|
                    0 <= j < m ==> #[trigger] proof_ok@[j] == vrf_valid_of(
                        self.player_keys_view()[j],
                        context_label_bytes(),
                        self.shared_seed@,
                        self.proofs_view()[j],
                        self.outputs_view()[j],
                    ),
            decreases n - m,
        {
            let pk = self.players[m].public_key();
            let label = signing_context_label();
            let label_bytes = label.as_bytes();
            assert(label_bytes@ == context_label_bytes());
            let res = crate::vrf::verify(
                &pk,
                label_bytes,
                self.shared_seed.as_slice(),
                self.reveals[m].vrf_proof(),
                &self.outputs[m],
            );
            proof {
                assert(self.player_keys_view()[m as int] == self.players@[m as int
                ].spec_public_key());
                assert(self.proofs_view()[m as int] == self.reveals@[m as int].spec_proof());
                assert(self.outputs_view()[m as int] == self.outputs@[m as int]@);
            }
            proof_ok.push(res.is_ok());
            m += 1;
        }
        let verified = apply_verification(&cards, &proof_ok);
        self.verified_values = verified;
        self.state = GameState::Verified;
        proof {
            assert(self.cards_view() == old(self).cards_view());
            assert(self.outputs_view() == old(self).outputs_view());
            assert(self.proofs_view() == old(self).proofs_view());
            assert(self.players_seq() == old(self).players_seq());
            assert forall|i: int|
                0 <= i < self.verified_values@.len() implies #[trigger] self.verified_view()[i] == (
            if vrf_valid_of(
                self.player_keys_view()[i],
                context_label_bytes(),
                self.seed_view(),
                self.proofs_view()[i],
                self.outputs_view()[i],
            ) {
                Some(self.cards_view()[i])
            } else {
                None::<u64>
            }) by {
                assert(self.verified_values@[i] == (if proof_ok@[i] {
                    Some(cards@[i])
                } else {
                    None::<u64>
                }));
                assert(proof_ok@[i] == vrf_valid_of(
                    old(self).player_keys_view()[i],
                    context_label_bytes(),
                    old(self).seed_view(),
                    old(self).proofs_view()[i],
                    old(self).outputs_view()[i],
                ));
                assert(self.player_keys_view()[i] == old(self).player_keys_view()[i]);
                assert(cards@[i] == self.cards_view()[i]);
            }
            assert forall|i: int|
                0 <= i < self.players@.len() implies #[trigger] self.cards_view()[i]
                == spec_card_value(self.outputs_view()[i]) && 1 <= self.cards_view()[i] <= 52 by {
                assert(old(self).cards_view()[i] == spec_card_value(old(self).outputs_view()[i]));
                assert(1 <= old(self).cards_view()[i] <= 52);
            }
            assert forall|i: int|
                0 <= i < self.verified_values@.len() implies #[trigger] self.verified_view()[i]
                is None || self.verified_view()[i] == Some(self.cards_view()[i]) by {
                assert(self.verified_values@[i] == (if proof_ok@[i] {
                    Some(cards@[i])
                } else {
                    None::<u64>
                }));
                assert(cards@[i] == self.cards_view()[i]);
            }
        }
    }

    /// Deterministic winner selection over the verified card values: the
    /// highest card wins, ties are broken by the lowest participant id, and
    /// voided participants never win.  With no valid value at all there is
    /// no winner.
    pub fn select_winner(&mut self) -> (r: Option<u8>)
        requires
            old(self).inv(),
            old(self).spec_state() == GameState::Verified,
        ensures
            final(self).inv(),
            final(self).spec_state() == GameState::WinnerSelected,
            final(self).num_players() == old(self).num_players(),
            final(self).players_seq() == old(self).players_seq(),
            final(self).verified_view() == old(self).verified_view(),
            final(self).cards_view() == old(self).cards_view(),
            final(self).proofs_view() == old(self).proofs_view(),
            final(self).outputs_view() == old(self).outputs_view(),
            final(self).seed_view() == old(self).seed_view(),
            final(self).board_ledger() == old(self).board_ledger(),
            match r {
                None => forall|i: int|
                    0 <= i < old(self).verified_view().len() ==> old(self).verified_view()[i]
                        is None,
                Some(w) => (w as int) < old(self).verified_view().len() && old(
                    self,
                ).verified_view()[w as int] is Some && forall|j: int|
                    0 <= j < old(self).verified_view().len() && old(self).verified_view()[j]
                        is Some ==> (old(self).verified_view()[j]->0 < old(
                        self
                    ).verified_view()[w as int]->0 || (old(self).verified_view()[j]->0 == old(
                        self
                    ).verified_view()[w as int]->0 && w as int <= j)),
            },
    {
        let win = select_winner_from(&self.verified_values);
        self.state = GameState::WinnerSelected;
        match win {
            None => None,
            Some(w) => Some(w as u8),
        }
    }
}

} // verus!
