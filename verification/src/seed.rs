//! Shared-seed derivation: fold every participant's commitment bytes into one
//! fixed-size seed.
//!
//! Byte `i` of a commitment lands on seed position `i % 32` by wrapping
//! addition.  Because integer addition is commutative and associative, the
//! seed does not depend on the order in which commitments are folded — the
//! property `lemma_shared_seed_order_independent` states and proves.

use vstd::prelude::*;

verus! {

/// Total contribution of one commitment's bytes to seed position `j`:
/// the sum of its bytes whose index is congruent to `j` modulo 32.
pub open spec fn byte_contrib(c: Seq<u8>, j: int) -> int
    decreases c.len(),
{
    if c.len() == 0 {
        0
    } else {
        byte_contrib(c.drop_last(), j) + if (c.len() - 1) % 32 == j {
            c.last() as int
        } else {
            0
        }
    }
}

/// Total contribution of a list of commitments to seed position `j`.
pub open spec fn total_contrib(cs: Seq<Seq<u8>>, j: int) -> int
    decreases cs.len(),
{
    if cs.len() == 0 {
        0
    } else {
        total_contrib(cs.drop_last(), j) + byte_contrib(cs.last(), j)
    }
}

/// The seed a list of commitments folds to: at each position, the summed
/// contributions reduced modulo 256 (wrapping byte addition).
pub open spec fn shared_seed_of(cs: Seq<Seq<u8>>) -> Seq<u8> {
    Seq::new(32, |j: int| (total_contrib(cs, j) % 256) as u8)
}

proof fn lemma_byte_contrib_take(c: Seq<u8>, i: int, j: int)
    requires
        0 <= i < c.len(),
    ensures
        byte_contrib(c.take(i + 1), j) == byte_contrib(c.take(i), j) + if i % 32 == j {
            c[i] as int
        } else {
            0
        },
{
    assert(c.take(i + 1).drop_last() =~= c.take(i));
    assert(c.take(i + 1).last() == c[i]);
}

proof fn lemma_total_contrib_take(cs: Seq<Seq<u8>>, k: int, j: int)
    requires
        0 <= k < cs.len(),
    ensures
        total_contrib(cs.take(k + 1), j) == total_contrib(cs.take(k), j) + byte_contrib(cs[k], j),
{
    assert(cs.take(k + 1).drop_last() =~= cs.take(k));
    assert(cs.take(k + 1).last() == cs[k]);
}

/// Removing element `k` splits the total contribution into the rest plus
/// that element's own contribution.
proof fn lemma_total_contrib_remove(cs: Seq<Seq<u8>>, k: int, j: int)
    requires
        0 <= k < cs.len(),
    ensures
        total_contrib(cs, j) == total_contrib(cs.remove(k), j) + byte_contrib(cs[k], j),
    decreases cs.len(),
{
    if k == cs.len() - 1 {
        assert(cs.remove(k) =~= cs.drop_last());
    } else {
        assert(cs.remove(k).drop_last() =~= cs.drop_last().remove(k));
        assert(cs.remove(k).last() == cs.last());
        lemma_total_contrib_remove(cs.drop_last(), k, j);
    }
}

/// Two lists holding the same commitments (as a multiset, so in any order)
/// contribute the same total to every seed position.
proof fn lemma_total_contrib_permutation(a: Seq<Seq<u8>>, b: Seq<Seq<u8>>, j: int)
    requires
        a.to_multiset() == b.to_multiset(),
    ensures
        total_contrib(a, j) == total_contrib(b, j),
    decreases a.len(),
{
    a.to_multiset_ensures();
    b.to_multiset_ensures();
    if a.len() == 0 {
        assert(b.len() == 0);
    } else {
        let x = a.last();
        assert(a.contains(x));
        assert(b.to_multiset().count(x) > 0);
        assert(b.contains(x));
        let k = choose|k: int| 0 <= k < b.len() && b[k] == x;
        assert(a.remove(a.len() - 1).to_multiset() =~= a.to_multiset().remove(x));
        assert(a.remove(a.len() - 1) =~= a.drop_last());
        assert(b.remove(k).to_multiset() =~= b.to_multiset().remove(x));
        assert(a.drop_last().to_multiset() == b.remove(k).to_multiset());
        lemma_total_contrib_permutation(a.drop_last(), b.remove(k), j);
        lemma_total_contrib_remove(b, k, j);
    }
}

/// Order independence of the shared seed: permuting the list of commitment
/// byte-vectors before folding yields an identical seed.
pub proof fn lemma_shared_seed_order_independent(a: Seq<Seq<u8>>, b: Seq<Seq<u8>>)
    requires
        a.to_multiset() == b.to_multiset(),
    ensures
        shared_seed_of(a) == shared_seed_of(b),
{
    assert forall|j: int| 0 <= j < 32 implies shared_seed_of(a)[j] == shared_seed_of(b)[j] by {
        lemma_total_contrib_permutation(a, b, j);
    }
    assert(shared_seed_of(a) =~= shared_seed_of(b));
}

/// Fold all posted commitments into a single fixed-size shared seed via
/// commutative byte-wise wrapping addition.
pub fn fold_commitments_into_seed(commitments: &Vec<Vec<u8>>) -> (r: Vec<u8>)
    ensures
        r@ == shared_seed_of(commitments.deep_view()),
        r@.len() == 32,
{
    let ghost cs = commitments.deep_view();
    let mut sum: Vec<u8> = Vec::new();
    let mut z: usize = 0;
    while z < 32
        invariant
            z <= 32,
            sum@.len() == z,
            forall|j: int| 0 <= j < z ==> sum@[j] == 0,
        decreases 32 - z,
    {
        sum.push(0);
        z += 1;
    }
    assert(forall|j: int| 0 <= j < 32 ==> total_contrib(cs.take(0), j) == 0);
    let mut k: usize = 0;
    while k < commitments.len()
        invariant
            k <= commitments.len(),
            cs == commitments.deep_view(),
            cs.len() == commitments@.len(),
            forall|t: int| 0 <= t < cs.len() ==> cs[t] == commitments@[t]@,
            sum@.len() == 32,
            forall|j: int| 0 <= j < 32 ==> sum@[j] == (total_contrib(cs.take(k as int), j)
                % 256) as u8,
        decreases commitments@.len() - k,
    {
        let c = &commitments[k];
        let ghost cseq = c@;
        let mut i: usize = 0;
        while i < c.len()
            invariant
                i <= c.len(),
                cseq == c@,
                sum@.len() == 32,
                forall|j: int| 0 <= j < 32 ==> sum@[j] == ((total_contrib(cs.take(k as int), j)
                    + byte_contrib(cseq.take(i as int), j)) % 256) as u8,
            decreases c@.len() - i,
        {
            let j = i % 32;
            let ghost pre = total_contrib(cs.take(k as int), j as int) + byte_contrib(
                cseq.take(i as int),
                j as int,
            );
            let s: u16 = sum[j] as u16 + c[i] as u16;
            let b: u8 = (s % 256) as u8;
            sum.set(j, b);
            proof {
                lemma_byte_contrib_take(cseq, i as int, j as int);
                vstd::arithmetic::div_mod::lemma_add_mod_noop(pre, cseq[i as int] as int, 256);
                assert(s as int == (pre % 256) + cseq[i as int] as int);
                assert(b as int == ((pre % 256) + cseq[i as int] as int) % 256);
                assert forall|j2: int| 0 <= j2 < 32 && j2 != j implies byte_contrib(
                    cseq.take(i + 1),
                    j2,
                ) == byte_contrib(cseq.take(i as int), j2) by {
                    lemma_byte_contrib_take(cseq, i as int, j2);
                }
            }
            i += 1;
        }
        proof {
            assert(cseq.take(c@.len() as int) =~= cseq);
            assert forall|j: int| 0 <= j < 32 implies total_contrib(cs.take(k + 1), j)
                == total_contrib(cs.take(k as int), j) + byte_contrib(cseq, j) by {
                lemma_total_contrib_take(cs, k as int, j);
            }
        }
        k += 1;
    }
    proof {
        assert(cs.take(cs.len() as int) =~= cs);
        assert(sum@ =~= shared_seed_of(cs));
    }
    sum
}

} // verus!
