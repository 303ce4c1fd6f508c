//! VRF engine: wrap a participant's keypair to produce a
//! deterministic-but-unpredictable signed output over an input message, and
//! derive a bounded card value from that output.
//!
//! The cryptography itself lives in `schnorrkel`; what this module proves is
//! the card-value derivation and the exact handling of every verification
//! outcome.  Nothing is assumed about which proofs `schnorrkel` accepts: a
//! verification result is consumed as an opaque boolean.

use vstd::prelude::*;

verus! {

/// A participant's claimed output failed VRF verification.
#[derive(Clone, Copy, PartialEq, Eq, Debug, Structural)]
pub enum VrfVerificationError {
    /// The proof does not attest that the output is the VRF evaluation of
    /// the input under the given public key and context label.
    InvalidProof,
}

#[verifier::external_type_specification]
#[verifier::external_body]
pub struct ExKeypair(schnorrkel::Keypair);

#[verifier::external_type_specification]
#[verifier::external_body]
pub struct ExPublicKey(schnorrkel::PublicKey);

#[verifier::external_type_specification]
#[verifier::external_body]
pub struct ExVRFProof(schnorrkel::vrf::VRFProof);

/// The public half of a keypair, as `schnorrkel::Keypair`'s `public` field
/// holds it.
pub uninterp spec fn spec_public_key_of(key_pair: schnorrkel::Keypair) -> schnorrkel::PublicKey;

/// The VRF output bytes for a keypair, context label and input.  The output
/// point is the secret key applied to the hashed input transcript, so it is
/// a deterministic function of these three alone; only the proof half of a
/// signing call is randomized.
pub uninterp spec fn vrf_output_of(
    key_pair: schnorrkel::Keypair,
    context_label: Seq<u8>,
    input: Seq<u8>,
) -> [u8; 32];

/// Whether VRF verification accepts the tuple: a deterministic function of
/// the public key, context label, input, proof and output alone —
/// verification draws no randomness.
pub uninterp spec fn vrf_valid_of(
    public_key: schnorrkel::PublicKey,
    context_label: Seq<u8>,
    input: Seq<u8>,
    proof: schnorrkel::vrf::VRFProof,
    output: Seq<u8>,
) -> bool;

/// Relies on `schnorrkel::Keypair::generate` to draw a fresh signing
/// keypair from the system randomness source; nothing is assumed about the
/// keys that come back.
#[verifier::external_body]
pub fn generate_keypair() -> schnorrkel::Keypair {
    schnorrkel::Keypair::generate()
}

/// Relies on `schnorrkel::Keypair`'s `public` field: the public half of the
/// keypair, safe to share.
#[verifier::external_body]
pub fn public_key_of(key_pair: &schnorrkel::Keypair) -> (r: schnorrkel::PublicKey)
    ensures
        r == spec_public_key_of(*key_pair),
{
    key_pair.public
}

/// Relies on `schnorrkel::Keypair::vrf_sign` over
/// `schnorrkel::signing_context`: evaluates the VRF on the input bytes under
/// the given domain-separation label, returning the 32-byte output and a
/// proof of correct evaluation.  The output is the deterministic VRF value
/// for this keypair, label and input, and the returned proof verifies
/// against exactly that tuple under the keypair's public half (schnorrkel's
/// own sign-then-verify round trip).
#[verifier::external_body]
pub fn vrf_sign(
    key_pair: &schnorrkel::Keypair,
    context_label: &[u8],
    input: &[u8],
) -> (r: ([u8; 32], schnorrkel::vrf::VRFProof))
    ensures
        r.0@ == vrf_output_of(*key_pair, context_label@, input@)@,
        vrf_valid_of(spec_public_key_of(*key_pair), context_label@, input@, r.1, r.0@),
{
    let transcript = schnorrkel::signing_context(context_label).bytes(input);
    let (in_out, proof, _) = key_pair.vrf_sign(transcript);
    (*in_out.as_output_bytes(), proof)
}

/// Relies on `schnorrkel::PublicKey::vrf_verify`: the call accepts exactly
/// when the proof attests that `output` is the VRF evaluation of `input`
/// under this public key and context label.
#[verifier::external_body]
fn vrf_verify_raw(
    public_key: &schnorrkel::PublicKey,
    context_label: &[u8],
    input: &[u8],
    proof: &schnorrkel::vrf::VRFProof,
    output: &[u8; 32],
) -> (r: bool)
    ensures
        r == vrf_valid_of(*public_key, context_label@, input@, *proof, output@),
{
    let transcript = schnorrkel::signing_context(context_label).bytes(input);
    let pre_out = schnorrkel::vrf::VRFPreOut(*output);
    public_key.vrf_verify(transcript, &pre_out, proof).is_ok()
}

/// Verify that `output` is the VRF evaluation of `input` under `public_key`
/// and `context_label`, as attested by `proof`.  Acceptance is exactly
/// `vrf_valid_of` of the tuple; the only possible rejection is
/// `InvalidProof`.
pub fn verify(
    public_key: &schnorrkel::PublicKey,
    context_label: &[u8],
    input: &[u8],
    proof: &schnorrkel::vrf::VRFProof,
    output: &[u8; 32],
) -> (r: Result<(), VrfVerificationError>)
    ensures
        r is Ok <==> vrf_valid_of(*public_key, context_label@, input@, *proof, output@),
        r is Err ==> r == Err::<(), VrfVerificationError>(VrfVerificationError::InvalidProof),
{
    if vrf_verify_raw(public_key, context_label, input, proof, output) {
        Ok(())
    } else {
        Err(VrfVerificationError::InvalidProof)
    }
}

/// The first eight bytes of a VRF output read as an unsigned little-endian
/// 64-bit integer.
pub open spec fn le64_of(s: Seq<u8>) -> int
    recommends
        s.len() >= 8,
{
    s[0] + s[1] * 0x100 + s[2] * 0x1_0000 + s[3] * 0x100_0000 + s[4] * 0x1_0000_0000 + s[5]
        * 0x100_0000_0000 + s[6] * 0x1_0000_0000_0000 + s[7] * 0x100_0000_0000_0000
}

/// The card value a VRF output maps to: its first eight bytes reduced
/// modulo 52, shifted into [1, 52].
///
/// The mapping is not perfectly uniform, since 52 does not divide 2^64; the
/// bias is negligible and kept as documented behaviour.
pub open spec fn spec_card_value(s: Seq<u8>) -> int
    recommends
        s.len() >= 8,
{
    le64_of(s) % 52 + 1
}

/// Derive a card value in [1, 52] from a VRF output: interpret the first
/// eight bytes as an unsigned little-endian integer, reduce modulo 52, add
/// one.
pub fn derive_card_value(output: &[u8]) -> (r: u64)
    requires
        output@.len() >= 8,
    ensures
        r == spec_card_value(output@),
        1 <= r <= 52,
{
    let v: u64 = output[0] as u64 + (output[1] as u64) * 0x100 + (output[2] as u64) * 0x1_0000 + (
    output[3] as u64) * 0x100_0000 + (output[4] as u64) * 0x1_0000_0000 + (output[5] as u64)
        * 0x100_0000_0000 + (output[6] as u64) * 0x1_0000_0000_0000 + (output[7] as u64)
        * 0x100_0000_0000_0000;
    assert(v == le64_of(output@));
    v % 52 + 1
}

} // verus!
