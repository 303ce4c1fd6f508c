//! Integrity codec: append a 128-bit checksum to opaque byte payloads and
//! verify it on the way back in.
//!
//! `add_integrity_check` produces `data ++ hash(data)` with the Blake2
//! variant; `verify_data_integrity` splits the trailing digest off, recomputes
//! it over the prefix and hands the prefix back only when the two agree.

use vstd::prelude::*;

use crate::hashing::{blake2_128_of, hash_with_blake, hashes_equal};

verus! {

/// Why an integrity-checked payload was rejected.
#[derive(Clone, Copy, PartialEq, Eq, Debug, Structural)]
pub enum IntegrityError {
    /// The payload is shorter than one digest, so it cannot carry a checksum.
    TooShort,
    /// The trailing digest does not match the digest of the prefix.
    Mismatch,
}

/// The bytes `add_integrity_check` owes for a payload.
pub open spec fn spec_add_integrity_check(data: Seq<u8>) -> Seq<u8> {
    data + blake2_128_of(data)@
}

/// The outcome `verify_data_integrity` owes for a received payload.
pub open spec fn spec_verify_data_integrity(data: Seq<u8>) -> Result<Seq<u8>, IntegrityError> {
    if data.len() < 16 {
        Err(IntegrityError::TooShort)
    } else {
        let original = data.subrange(0, data.len() - 16);
        let claimed = data.subrange(data.len() - 16, data.len() as int);
        if claimed == blake2_128_of(original)@ {
            Ok(original)
        } else {
            Err(IntegrityError::Mismatch)
        }
    }
}

/// Add an integrity check to some data: the result is `data | hash(data)`,
/// using `|` for concatenation and the 128-bit Blake2 algorithm.
pub fn add_integrity_check(data: &[u8]) -> (r: Vec<u8>)
    ensures
        r@ == spec_add_integrity_check(data@),
{
    let hash_result = hash_with_blake(data);
    let mut result: Vec<u8> = Vec::new();
    result.extend_from_slice(data);
    result.extend_from_slice(hash_result.as_slice());
    result
}

/// Verify the integrity of some data via the trailing checksum, and return
/// the original data.  Fails with `TooShort` when the input cannot even hold
/// a digest, and with `Mismatch` when the recomputed digest differs from the
/// received one.
pub fn verify_data_integrity(data: Vec<u8>) -> (r: Result<Vec<u8>, IntegrityError>)
    ensures
        match r {
            Ok(original) => spec_verify_data_integrity(data@) == Ok::<Seq<u8>, IntegrityError>(
                original@,
            ),
            Err(e) => spec_verify_data_integrity(data@) == Err::<Seq<u8>, IntegrityError>(e),
        },
{
    if data.len() < 16 {
        return Err(IntegrityError::TooShort);
    }
    let split = data.len() - 16;
    let mut claimed: [u8; 16] = [0; 16];
    let mut i: usize = 0;
    while i < 16
        invariant
            i <= 16,
            split == data@.len() - 16,
            data@.len() <= usize::MAX,
            forall|k: int| 0 <= k < i ==> claimed@[k] == data@[split + k],
        decreases 16 - i,
    {
        claimed[i] = data[split + i];
        i += 1;
    }
    assert(claimed@ =~= data@.subrange(split as int, data@.len() as int));
    let mut original: Vec<u8> = Vec::new();
    let mut j: usize = 0;
    while j < split
        invariant
            j <= split,
            split == data@.len() - 16,
            original@ == data@.subrange(0, j as int),
        decreases split - j,
    {
        original.push(data[j]);
        assert(original@ =~= data@.subrange(0, j + 1 as int));
        j += 1;
    }
    let recomputed = hash_with_blake(original.as_slice());
    if hashes_equal(&recomputed, &claimed) {
        Ok(original)
    } else {
        Err(IntegrityError::Mismatch)
    }
}

/// Round trip: a payload wrapped by `add_integrity_check` always verifies
/// back to itself.
pub proof fn lemma_integrity_round_trip(data: Seq<u8>)
    ensures
        spec_verify_data_integrity(spec_add_integrity_check(data)) == Ok::<
            Seq<u8>,
            IntegrityError,
        >(data),
{
    let wrapped = spec_add_integrity_check(data);
    assert(wrapped.subrange(0, wrapped.len() - 16) =~= data);
    assert(wrapped.subrange(wrapped.len() - 16, wrapped.len() as int) =~= blake2_128_of(data)@);
}

/// Tampering is detected: replacing the appended digest by any other 16-byte
/// value (for instance by flipping a single bit of it) makes verification
/// fail with `Mismatch`.
pub proof fn lemma_integrity_detects_tamper(data: Seq<u8>, tampered: Seq<u8>)
    requires
        tampered.len() == 16,
    ensures
        tampered != blake2_128_of(data)@ ==> spec_verify_data_integrity(data + tampered) == Err::<
            Seq<u8>,
            IntegrityError,
        >(IntegrityError::Mismatch),
{
    let wrapped = data + tampered;
    assert(wrapped.subrange(0, wrapped.len() - 16) =~= data);
    assert(wrapped.subrange(wrapped.len() - 16, wrapped.len() as int) =~= tampered);
}

} // verus!
