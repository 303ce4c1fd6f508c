//! Commit-reveal public message board.
//!
//! The board keeps a ledger from 128-bit commitment hashes to an optional
//! revealed payload: absent means "committed, not yet revealed", present
//! holds the original salted message.  A key, once inserted, is immutable;
//! its payload moves from absent to present exactly once.
//!
//! The ledger is modelled as a `Map` from digest bytes to optional payload
//! text, and every operation's contract is stated against that map.

use vstd::prelude::*;
use vstd::string::StringExecFns;
use vstd::utf8::encode_utf8;

use rand::Rng;
use rand::SeedableRng;

use crate::hashing::{blake2_128_of, hash_with_blake, hashes_equal, HASH_SIZE};

verus! {

/// Why a reveal or a commitment lookup was rejected.
#[derive(Clone, Copy, PartialEq, Eq, Debug, Structural)]
pub enum RevealError {
    /// The referenced commitment hash was never posted.
    UnknownCommitment,
    /// A reveal was already posted for this commitment.
    AlreadyRevealed,
}

/// The commitment hash bound to a piece of reveal text: the Blake2 128-bit
/// digest of its UTF-8 bytes.
pub open spec fn commit_of(msg: Seq<char>) -> Seq<u8> {
    blake2_128_of(encode_utf8(msg))@
}

/// The lowercase hex digit for a value below 16.
pub open spec fn hex_digit_char(n: u8) -> char {
    if n < 10 {
        ((n + 48) as char)
    } else {
        ((n + 87) as char)
    }
}

/// Standard lowercase hex without separators: two digits per byte, high
/// nibble first.
pub open spec fn hex_of(data: Seq<u8>) -> Seq<char>
    decreases data.len(),
{
    if data.len() == 0 {
        Seq::empty()
    } else {
        hex_of(data.drop_last()) + seq![
            hex_digit_char(data.last() / 16),
            hex_digit_char(data.last() % 16),
        ]
    }
}

/// Hex encoding writes exactly two characters per byte.
pub proof fn lemma_hex_of_len(data: Seq<u8>)
    ensures
        hex_of(data).len() == 2 * data.len(),
    decreases data.len(),
{
    if data.len() > 0 {
        lemma_hex_of_len(data.drop_last());
    }
}

/// Relies on `hex::encode`: standard lowercase hex without separators, two
/// digits per byte, high nibble first.
#[verifier::external_body]
pub fn hex_encode(data: &[u8]) -> (r: String)
    ensures
        r@ == hex_of(data@),
{
    hex::encode(data)
}

#[verifier::external_type_specification]
#[verifier::external_body]
pub struct ExSmallRng(rand::rngs::SmallRng);

/// Relies on `rand::rngs::SmallRng::seed_from_u64` to build the board's
/// deterministically seeded salt source.
#[verifier::external_body]
fn small_rng_from_seed(seed: u64) -> rand::rngs::SmallRng {
    rand::rngs::SmallRng::seed_from_u64(seed)
}

/// Relies on `rand::Rng::gen` to draw the four salt bytes for a commitment;
/// nothing is assumed about the bytes that come back.
#[verifier::external_body]
fn draw_salt(rng: &mut rand::rngs::SmallRng) -> [u8; 4] {
    rng.gen()
}

/// One ledger entry: a commitment key and its optional revealed payload.
pub type LedgerEntry = (Seq<u8>, Option<Seq<char>>);

/// The ledger as a mapping from commitment hash to optional payload.
pub type Ledger = Map<Seq<u8>, Option<Seq<char>>>;

/// The key stored at slot `i` of the association list.
pub open spec fn entry_key(s: Seq<LedgerEntry>, i: int) -> Seq<u8> {
    s[i].0
}

/// No two entries of the association list carry the same key.
pub open spec fn assoc_keys_unique(s: Seq<LedgerEntry>) -> bool {
    forall|i: int, j: int| 0 <= i < j < s.len() ==> entry_key(s, i) != entry_key(s, j)
}

/// Whether some entry of the association list carries key `k`.
pub open spec fn assoc_has_key(s: Seq<LedgerEntry>, k: Seq<u8>) -> bool {
    exists|i: int| 0 <= i < s.len() && #[trigger] entry_key(s, i) == k
}

/// The slot whose entry carries key `k`, when one exists.
pub open spec fn assoc_index_of(s: Seq<LedgerEntry>, k: Seq<u8>) -> int {
    choose|i: int| 0 <= i < s.len() && #[trigger] entry_key(s, i) == k
}

/// The mapping an association list denotes.
pub open spec fn assoc_map(s: Seq<LedgerEntry>) -> Ledger {
    Map::new(|k: Seq<u8>| assoc_has_key(s, k), |k: Seq<u8>| s[assoc_index_of(s, k)].1)
}

proof fn lemma_assoc_index(s: Seq<LedgerEntry>, i: int)
    requires
        assoc_keys_unique(s),
        0 <= i < s.len(),
    ensures
        assoc_map(s).contains_key(s[i].0),
        assoc_map(s)[s[i].0] == s[i].1,
{
    assert(entry_key(s, i) == s[i].0);
    assert(assoc_has_key(s, s[i].0));
    let j = assoc_index_of(s, s[i].0);
    assert(0 <= j < s.len() && entry_key(s, j) == s[i].0);
    assert(j == i);
}

proof fn lemma_assoc_absent(s: Seq<LedgerEntry>, k: Seq<u8>)
    requires
        forall|i: int| 0 <= i < s.len() ==> #[trigger] entry_key(s, i) != k,
    ensures
        !assoc_map(s).contains_key(k),
{
}

proof fn lemma_assoc_push(s: Seq<LedgerEntry>, k: Seq<u8>, v: Option<Seq<char>>)
    requires
        assoc_keys_unique(s),
        forall|i: int| 0 <= i < s.len() ==> #[trigger] entry_key(s, i) != k,
    ensures
        assoc_keys_unique(s.push((k, v))),
        assoc_map(s.push((k, v))) == assoc_map(s).insert(k, v),
{
    let s2 = s.push((k, v));
    assert(forall|i: int| 0 <= i < s.len() ==> #[trigger] entry_key(s2, i) == entry_key(s, i));
    assert(entry_key(s2, s.len() as int) == k);
    assert(assoc_keys_unique(s2));
    assert forall|k2: Seq<u8>| assoc_has_key(s2, k2) <==> assoc_map(s).insert(
        k,
        v,
    ).contains_key(k2) by {
        if k2 == k {
            assert(entry_key(s2, s.len() as int) == k2);
        } else {
            if assoc_has_key(s2, k2) {
                let i = assoc_index_of(s2, k2);
                assert(i < s.len() && entry_key(s, i) == k2);
            }
            if assoc_has_key(s, k2) {
                let i = assoc_index_of(s, k2);
                assert(entry_key(s2, i) == k2);
            }
        }
    }
    assert forall|k2: Seq<u8>| #[trigger] assoc_map(s2).contains_key(k2) implies assoc_map(s2)[k2]
        == assoc_map(s).insert(k, v)[k2] by {
        if k2 == k {
            lemma_assoc_index(s2, s.len() as int);
        } else {
            let i = assoc_index_of(s2, k2);
            assert(i < s.len() && entry_key(s, i) == k2);
            lemma_assoc_index(s2, i);
            lemma_assoc_index(s, i);
        }
    }
    assert(assoc_map(s2) =~= assoc_map(s).insert(k, v));
}

proof fn lemma_assoc_update(s: Seq<LedgerEntry>, i: int, v: Option<Seq<char>>)
    requires
        assoc_keys_unique(s),
        0 <= i < s.len(),
    ensures
        assoc_keys_unique(s.update(i, (s[i].0, v))),
        assoc_map(s.update(i, (s[i].0, v))) == assoc_map(s).insert(s[i].0, v),
{
    let s2 = s.update(i, (s[i].0, v));
    assert(forall|j: int| 0 <= j < s.len() ==> #[trigger] entry_key(s2, j) == entry_key(s, j));
    assert(assoc_keys_unique(s2));
    assert forall|k2: Seq<u8>| assoc_has_key(s2, k2) <==> assoc_map(s).insert(
        s[i].0,
        v,
    ).contains_key(k2) by {
        if assoc_has_key(s2, k2) {
            let j = assoc_index_of(s2, k2);
            assert(entry_key(s, j) == k2);
        }
        if assoc_has_key(s, k2) {
            let j = assoc_index_of(s, k2);
            assert(entry_key(s2, j) == k2);
        }
        assert(entry_key(s, i) == s[i].0);
    }
    assert forall|k2: Seq<u8>| #[trigger] assoc_map(s2).contains_key(k2) implies assoc_map(s2)[k2]
        == assoc_map(s).insert(s[i].0, v)[k2] by {
        if k2 == s[i].0 {
            lemma_assoc_index(s2, i);
        } else {
            let j = assoc_index_of(s2, k2);
            assert(entry_key(s, j) == k2);
            assert(j != i);
            lemma_assoc_index(s2, j);
            lemma_assoc_index(s, j);
        }
    }
    assert(assoc_map(s2) =~= assoc_map(s).insert(s[i].0, v));
}

/// What posting a commitment with salted text `salted` does to a ledger:
/// a fresh hash is inserted unrevealed; a hash already present leaves the
/// ledger untouched (the call is idempotent).
pub open spec fn spec_post_commitment(l: Ledger, salted: Seq<char>) -> (Ledger, Seq<u8>) {
    let c = commit_of(salted);
    if l.contains_key(c) {
        (l, c)
    } else {
        (l.insert(c, None), c)
    }
}

/// What posting a reveal does to a ledger: an unknown hash and an already
/// revealed one are rejected without mutation; otherwise the payload is set,
/// exactly once.
pub open spec fn spec_post_reveal(l: Ledger, msg: Seq<char>) -> (Ledger, Result<
    Seq<u8>,
    RevealError,
>) {
    let c = commit_of(msg);
    if !l.contains_key(c) {
        (l, Err(RevealError::UnknownCommitment))
    } else if l[c] is Some {
        (l, Err(RevealError::AlreadyRevealed))
    } else {
        (l.insert(c, Some(msg)), Ok(c))
    }
}

/// The ledger after posting a sequence of salted messages in order.
pub open spec fn spec_post_all(l: Ledger, salteds: Seq<Seq<char>>) -> Ledger
    decreases salteds.len(),
{
    if salteds.len() == 0 {
        l
    } else {
        spec_post_commitment(spec_post_all(l, salteds.drop_last()), salteds.last()).0
    }
}

/// Posting one more salted message extends the fold by one step.
pub proof fn lemma_spec_post_all_take(l: Ledger, salteds: Seq<Seq<char>>, k: int)
    requires
        0 <= k < salteds.len(),
    ensures
        spec_post_all(l, salteds.take(k + 1)) == spec_post_commitment(
            spec_post_all(l, salteds.take(k)),
            salteds[k],
        ).0,
{
    assert(salteds.take(k + 1).drop_last() =~= salteds.take(k));
    assert(salteds.take(k + 1).last() == salteds[k]);
}

/// The ledger after offering a sequence of reveals in order.
pub open spec fn spec_reveal_all(l: Ledger, msgs: Seq<Seq<char>>) -> Ledger
    decreases msgs.len(),
{
    if msgs.len() == 0 {
        l
    } else {
        spec_post_reveal(spec_reveal_all(l, msgs.drop_last()), msgs.last()).0
    }
}

/// The outcome the `i`-th reveal of the sequence gets.
pub open spec fn spec_reveal_result(l: Ledger, msgs: Seq<Seq<char>>, i: int) -> Result<
    Seq<u8>,
    RevealError,
> {
    spec_post_reveal(spec_reveal_all(l, msgs.take(i)), msgs[i]).1
}

/// Offering one more reveal extends the fold by one step.
pub proof fn lemma_spec_reveal_all_take(l: Ledger, msgs: Seq<Seq<char>>, k: int)
    requires
        0 <= k < msgs.len(),
    ensures
        spec_reveal_all(l, msgs.take(k + 1)) == spec_post_reveal(
            spec_reveal_all(l, msgs.take(k)),
            msgs[k],
        ).0,
{
    assert(msgs.take(k + 1).drop_last() =~= msgs.take(k));
    assert(msgs.take(k + 1).last() == msgs[k]);
}

/// Posting a commitment whose hash already sits in the ledger changes
/// nothing: resubmitting a salted message never grows the ledger.
pub proof fn lemma_post_commitment_idempotent(l: Ledger, salted: Seq<char>)
    requires
        l.contains_key(commit_of(salted)),
    ensures
        spec_post_commitment(l, salted).0 == l,
{
}

/// A reveal can happen exactly once: on a never-posted hash it is rejected
/// as unknown; on a posted, unrevealed hash it succeeds, and revealing the
/// same message a second time is then rejected as already revealed.
pub proof fn lemma_reveal_exactly_once(l: Ledger, msg: Seq<char>)
    ensures
        !l.contains_key(commit_of(msg)) ==> spec_post_reveal(l, msg) == (
            l,
            Err::<Seq<u8>, RevealError>(RevealError::UnknownCommitment),
        ),
        l.contains_key(commit_of(msg)) && l[commit_of(msg)] is None ==> {
            let (l2, first) = spec_post_reveal(l, msg);
            first == Ok::<Seq<u8>, RevealError>(commit_of(msg)) && spec_post_reveal(l2, msg).1
                == Err::<Seq<u8>, RevealError>(RevealError::AlreadyRevealed) && spec_post_reveal(
                l2,
                msg,
            ).0 == l2
        },
{
}

/// A commit-reveal public message board over the 128-bit Blake2 algorithm.
pub struct PublicMessageBoard {
    /// The commitals to this public message board, keyed by commitment hash.
    /// An absent payload is a commitment that has not been revealed; a
    /// present payload holds the revealed salted message.
    commitals: Vec<([u8; HASH_SIZE], Option<String>)>,
    /// A seeded RNG used to generate randomness for committing.
    rng: rand::rngs::SmallRng,
}

impl PublicMessageBoard {
    /// The board's ledger entries, oldest first.
    pub closed spec fn entries(&self) -> Seq<LedgerEntry> {
        self.commitals@.map_values(
            |e: ([u8; HASH_SIZE], Option<String>)| (e.0@, e.1.deep_view()),
        )
    }

    /// The board's ledger as a mapping from commitment hash to optional
    /// revealed payload.
    pub open spec fn ledger(&self) -> Ledger {
        assoc_map(self.entries())
    }

    /// Every commitment hash sits in the ledger once.
    pub open spec fn well_formed(&self) -> bool {
        assoc_keys_unique(self.entries())
    }

    /// How many commitments the ledger holds.
    pub open spec fn spec_count(&self) -> nat {
        self.entries().len()
    }

    /// Create a new message board whose salt source is seeded
    /// deterministically (so board behaviour is reproducible under test).
    pub fn new(rng_seed: u64) -> (r: PublicMessageBoard)
        ensures
            r.well_formed(),
            r.ledger() == Map::<Seq<u8>, Option<Seq<char>>>::empty(),
            r.spec_count() == 0,
    {
        let r = PublicMessageBoard { commitals: Vec::new(), rng: small_rng_from_seed(rng_seed) };
        proof {
            assert(r.ledger() =~= Map::<Seq<u8>, Option<Seq<char>>>::empty());
        }
        r
    }

    /// Number of commitments posted so far, counting each hash once.
    pub fn commitment_count(&self) -> (r: usize)
        ensures
            r == self.spec_count(),
    {
        self.commitals.len()
    }

    /// Find the ledger slot of a commitment hash, if any.
    fn find_commitment(&self, key: &[u8; HASH_SIZE]) -> (r: Option<usize>)
        requires
            self.well_formed(),
        ensures
            match r {
                Some(i) => i < self.entries().len() && self.entries()[i as int].0 == key@
                    && self.ledger().contains_key(key@) && self.ledger()[key@]
                    == self.entries()[i as int].1,
                None => !self.ledger().contains_key(key@),
            },
    {
        let mut i: usize = 0;
        while i < self.commitals.len()
            invariant
                self.well_formed(),
                i <= self.commitals.len(),
                self.entries().len() == self.commitals@.len(),
                forall|j: int| 0 <= j < i ==> #[trigger] entry_key(self.entries(), j) != key@,
            decreases self.commitals@.len() - i,
        {
            let entry = &self.commitals[i];
            if hashes_equal(&entry.0, key) {
                proof {
                    lemma_assoc_index(self.entries(), i as int);
                }
                return Some(i);
            }
            i += 1;
        }
        proof {
            lemma_assoc_absent(self.entries(), key@);
        }
        None
    }

    /// Post a commitment to the public message board, returning the message
    /// with added randomness and the commitment hash to share.
    ///
    /// Exactly four bytes of board randomness are drawn, hex-encoded and
    /// appended to the message; the commitment is the Blake2 hash of that
    /// salted text.  If the hash already exists the board is not modified,
    /// but the same values are returned — the caller must retain the salted
    /// message from the return value in order to reveal later.
    pub fn post_commitment(&mut self, msg: String) -> (r: (String, [u8; HASH_SIZE]))
        requires
            old(self).well_formed(),
        ensures
            final(self).well_formed(),
            r.0@.len() == msg@.len() + 8,
            r.0@.subrange(0, msg@.len() as int) == msg@,
            exists|salt: Seq<u8>| salt.len() == 4 && r.0@ == msg@ + hex_of(salt),
            r.1@ == commit_of(r.0@),
            (final(self).ledger(), r.1@) == spec_post_commitment(old(self).ledger(), r.0@),
            final(self).spec_count() == if old(self).ledger().contains_key(commit_of(r.0@)) {
                old(self).spec_count()
            } else {
                old(self).spec_count() + 1
            },
    {
        let randomness: [u8; 4] = draw_salt(&mut self.rng);
        let randomness_string = hex_encode(randomness.as_slice());
        proof {
            lemma_hex_of_len(randomness@);
        }
        let appended_message = msg.concat(randomness_string.as_str());
        let commitment = hash_with_blake(appended_message.as_str().as_bytes());
        assert(appended_message@.subrange(0, msg@.len() as int) =~= msg@);
        assert(randomness@.len() == 4 && appended_message@ == msg@ + hex_of(randomness@));
        let existing = self.find_commitment(&commitment);
        match existing {
            Some(_) => {},
            None => {
                let ghost pre = self.entries();
                self.commitals.push((commitment, None));
                proof {
                    assert(self.entries() =~= pre.push((commitment@, None)));
                    lemma_assoc_push(pre, commitment@, None);
                }
            },
        }
        (appended_message, commitment)
    }

    /// Post a reveal for an existing commitment.  The input should be the
    /// message with randomness added.  Returns the commitment hash if the
    /// reveal was successful, an error if the commitment was never posted or
    /// was already revealed; the board is mutated only on success.
    pub fn post_reveal(&mut self, committed_msg: String) -> (r: Result<[u8; HASH_SIZE], RevealError>)
        requires
            old(self).well_formed(),
        ensures
            final(self).well_formed(),
            final(self).spec_count() == old(self).spec_count(),
            ({
                let (l2, res) = spec_post_reveal(old(self).ledger(), committed_msg@);
                final(self).ledger() == l2 && (match (r, res) {
                    (Ok(c), Ok(cc)) => c@ == cc,
                    (Err(e), Err(ee)) => e == ee,
                    _ => false,
                })
            }),
    {
        let commitment = hash_with_blake(committed_msg.as_str().as_bytes());
        let found = self.find_commitment(&commitment);
        match found {
            None => Err(RevealError::UnknownCommitment),
            Some(i) => {
                let slot = &self.commitals[i];
                match &slot.1 {
                    Some(_) => Err(RevealError::AlreadyRevealed),
                    None => {
                        let ghost pre = self.entries();
                        self.commitals.set(i, (commitment, Some(committed_msg)));
                        proof {
                            assert(self.entries() =~= pre.update(
                                i as int,
                                (pre[i as int].0, Some(committed_msg@)),
                            ));
                            lemma_assoc_update(pre, i as int, Some(committed_msg@));
                        }
                        Ok(commitment)
                    },
                }
            },
        }
    }

    /// Check a certain commitment.  Errors if the commitment does not exist;
    /// otherwise returns the revealed payload, or nothing if the commitment
    /// has not been revealed yet.
    pub fn check_commitment(&self, commitment: [u8; HASH_SIZE]) -> (r: Result<Option<String>, RevealError>)
        requires
            self.well_formed(),
        ensures
            match r {
                Ok(payload) => self.ledger().contains_key(commitment@) && payload.deep_view()
                    == self.ledger()[commitment@],
                Err(e) => e == RevealError::UnknownCommitment && !self.ledger().contains_key(
                    commitment@,
                ),
            },
    {
        let found = self.find_commitment(&commitment);
        match found {
            None => Err(RevealError::UnknownCommitment),
            Some(i) => {
                let slot = &self.commitals[i];
                match &slot.1 {
                    None => Ok(None),
                    Some(s) => Ok(Some(s.clone())),
                }
            },
        }
    }

    /// Helper method to convert from a reveal to the corresponding
    /// commitment, without touching board state.
    pub fn reveal_to_commit(reveal: &str) -> (r: [u8; HASH_SIZE])
        ensures
            r@ == commit_of(reveal@),
    {
        hash_with_blake(reveal.as_bytes())
    }
}

} // verus!
