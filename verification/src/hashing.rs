//! Fixed-size hashing for commitments and integrity checks.
//!
//! The protocol works with 128-bit digests throughout.  Two interchangeable
//! algorithms are offered; both are deterministic and fixed-output-size, so a
//! digest is modelled as an opaque function of the input bytes alone.

use vstd::prelude::*;

use sha2::Digest;

verus! {

/// Number of bytes in every digest the protocol uses.
pub const HASH_SIZE: usize = 16;

/// The 128-bit Blake2b digest of a byte sequence.  The digest itself is far
/// too involved to state here, but it depends on the input bytes alone.
pub uninterp spec fn blake2_128_of(data: Seq<u8>) -> [u8; HASH_SIZE];

/// The 128-bit TwoX (xxHash-based) digest of a byte sequence; a function of
/// the input bytes alone.
pub uninterp spec fn twox_128_of(data: Seq<u8>) -> [u8; HASH_SIZE];

/// Use the blake2 hashing algorithm to calculate the 128-bit hash of some
/// input data.
///
/// Relies on `sp_crypto_hashing::blake2_128`: the 128-bit Blake2b digest of
/// the input, a deterministic function of the input bytes.
#[verifier::external_body]
pub fn hash_with_blake(data: &[u8]) -> (r: [u8; HASH_SIZE])
    ensures
        r@ == blake2_128_of(data@)@,
{
    sp_crypto_hashing::blake2_128(data)
}

/// Use the twox hashing algorithm to calculate the 128-bit hash of some
/// input data.
///
/// Relies on `sp_crypto_hashing::twox_128`: two seeded 64-bit xxHash runs
/// over the input, a deterministic function of the input bytes.
#[verifier::external_body]
pub fn hash_with_twox(data: &[u8]) -> (r: [u8; HASH_SIZE])
    ensures
        r@ == twox_128_of(data@)@,
{
    sp_crypto_hashing::twox_128(data)
}

/// The 256-bit SHA-2 digest of a byte sequence; a function of the input
/// bytes alone.  Participants bind themselves to their private random draw
/// with it.
pub uninterp spec fn sha256_of(data: Seq<u8>) -> [u8; 32];

/// Calculate the 256-bit SHA-2 hash of some input data.
///
/// Relies on `sha2::Sha256` (via the `Digest` trait): the SHA-256 digest of
/// the input, a deterministic function of the input bytes.
#[verifier::external_body]
pub fn hash_with_sha256(data: &[u8]) -> (r: [u8; 32])
    ensures
        r@ == sha256_of(data@)@,
{
    let mut hasher = sha2::Sha256::new();
    hasher.update(data);
    hasher.finalize().into()
}

/// Selects which of the two 128-bit algorithms a caller wants.
#[derive(Clone, Copy, PartialEq, Eq, Structural)]
pub enum HashAlgo {
    TwoX,
    Blake2,
}

/// The digest the chosen algorithm assigns to `data`.
pub open spec fn spec_hash_with(data: Seq<u8>, algorithm: HashAlgo) -> Seq<u8> {
    match algorithm {
        HashAlgo::Blake2 => blake2_128_of(data)@,
        HashAlgo::TwoX => twox_128_of(data)@,
    }
}

/// Use the hashing algorithm variant specified in the argument to hash the
/// data.
pub fn hash_with(data: &[u8], algorithm: HashAlgo) -> (r: [u8; HASH_SIZE])
    ensures
        r@ == spec_hash_with(data@, algorithm),
{
    match algorithm {
        HashAlgo::Blake2 => hash_with_blake(data),
        HashAlgo::TwoX => hash_with_twox(data),
    }
}

/// Compare two 16-byte digests byte for byte.
pub fn hashes_equal(a: &[u8; HASH_SIZE], b: &[u8; HASH_SIZE]) -> (r: bool)
    ensures
        r == (a@ == b@),
{
    let mut i: usize = 0;
    while i < 16
        invariant
            i <= 16,
            forall|k: int| 0 <= k < i ==> a@[k] == b@[k],
        decreases 16 - i,
    {
        if a[i] != b[i] {
            assert(a@ != b@);
            return false;
        }
        i += 1;
    }
    assert(a@ =~= b@);
    true
}

/// Return true iff data is the preimage of hash under the specified
/// algorithm.
pub fn is_hash_preimage(hash: [u8; HASH_SIZE], data: &[u8], algorithm: HashAlgo) -> (r: bool)
    ensures
        r == (hash@ == spec_hash_with(data@, algorithm)),
{
    let computed = hash_with(data, algorithm);
    hashes_equal(&computed, &hash)
}

} // verus!
