use vstd::prelude::*;

verus! {

use vstd::arithmetic::power2::pow2;
use crate::bits::pow2_usize;
use crate::types::{Digest, LedgerError};

/// A commitment cap is sound in shape only when it holds exactly one digest
/// per leaf of its declared height; anything else is a structural mismatch
/// between a proof and the verifying data it claims to match.
pub fn check_cap_shape(cap_len: usize, cap_height: usize) -> (r: Result<(), LedgerError>)
    ensures
        r.is_ok() <==> (cap_height < 32 && cap_len == pow2(cap_height as nat)),
        r.is_err() ==> r == Result::<(), LedgerError>::Err(LedgerError::EngineFailure),
{
    if cap_height >= 32 {
        return Err(LedgerError::EngineFailure);
    }
    if cap_len == pow2_usize(cap_height) {
        Ok(())
    } else {
        Err(LedgerError::EngineFailure)
    }
}

/// Filler constraints for size normalization: how many no-operation gates
/// bring a circuit of `num_gates` gates up to 2^(min_degree_bits - 1) + 1,
/// after which the builder's own power-of-two padding reaches exactly
/// 2^min_degree_bits. A circuit already at or above the bound needs none.
pub fn noop_gates_needed(num_gates: usize, min_degree_bits: usize) -> (r: Result<
    usize,
    LedgerError,
>)
    ensures
        r.is_ok() <==> (0 < min_degree_bits < 32),
        match r {
            Ok(n) => {
                let min_gates = pow2((min_degree_bits - 1) as nat) + 1;
                n == if num_gates >= min_gates {
                    0int
                } else {
                    min_gates - num_gates
                }
            },
            Err(e) => e == LedgerError::EngineFailure,
        },
{
    if min_degree_bits == 0 || min_degree_bits >= 32 {
        return Err(LedgerError::EngineFailure);
    }
    let filled = pow2_usize(min_degree_bits - 1);
    proof {
        vstd::arithmetic::power2::lemma_pow2_strictly_increases((min_degree_bits - 1) as nat, 31);
        vstd::arithmetic::power2::lemma2_to64();
    }
    let min_gates = filled + 1;
    if num_gates >= min_gates {
        Ok(0)
    } else {
        Ok(min_gates - num_gates)
    }
}

/// The elements of a commitment cap's digests, laid out in cap order.
pub open spec fn cap_elements(cap: Seq<Digest>) -> Seq<u64>
    decreases cap.len(),
{
    if cap.len() == 0 {
        Seq::empty()
    } else {
        cap_elements(cap.drop_last()) + cap.last().elements@
    }
}

/// The ordered public inputs a recursive wrap re-exposes, preserving
/// external auditability across a chain of wraps: the four elements of the
/// inner verifying key's circuit digest, then the four elements of each
/// inner commitment-cap digest in cap order.
pub fn recursive_public_inputs(circuit_digest: &Digest, cap: &Vec<Digest>) -> (r: Vec<u64>)
    requires
        cap@.len() < 100_000_000,
    ensures
        r@ == circuit_digest.elements@ + cap_elements(cap@),
        r@.len() == 4 + 4 * cap@.len(),
{
    let mut r: Vec<u64> = Vec::new();
    let mut i: usize = 0;
    while i < 4
        invariant
            i <= 4,
            r@ =~= circuit_digest.elements@.take(i as int),
        decreases 4 - i,
    {
        r.push(circuit_digest.elements[i]);
        proof {
            assert(r@ =~= circuit_digest.elements@.take(i + 1));
        }
        i = i + 1;
    }
    proof {
        assert(circuit_digest.elements@.take(4) =~= circuit_digest.elements@);
        assert(cap@.take(0) =~= Seq::<Digest>::empty());
    }
    let mut j: usize = 0;
    while j < cap.len()
        invariant
            j <= cap@.len(),
            cap@.len() < 100_000_000,
            r@ =~= circuit_digest.elements@ + cap_elements(cap@.take(j as int)),
            r@.len() == 4 + 4 * j,
        decreases cap@.len() - j,
    {
        let d = cap[j];
        r.push(d.elements[0]);
        r.push(d.elements[1]);
        r.push(d.elements[2]);
        r.push(d.elements[3]);
        proof {
            assert(cap@.take(j + 1).drop_last() =~= cap@.take(j as int));
            assert(cap@.take(j + 1).last() == cap@[j as int]);
            assert(d.elements@ =~= seq![d.elements[0], d.elements[1], d.elements[2], d.elements[3]]);
            assert(r@ =~= circuit_digest.elements@ + cap_elements(cap@.take(j + 1)));
        }
        j = j + 1;
    }
    proof {
        assert(cap@.take(cap@.len() as int) =~= cap@);
    }
    r
}

/// The number of public inputs a recursive wrap re-exposes for a cap of the
/// given height: four digest elements plus four per cap entry.
pub fn recursive_public_input_count(cap_height: usize) -> (r: Result<usize, LedgerError>)
    ensures
        r.is_ok() <==> cap_height < 28,
        match r {
            Ok(n) => n == 4 + 4 * pow2(cap_height as nat),
            Err(e) => e == LedgerError::EngineFailure,
        },
{
    if cap_height >= 28 {
        return Err(LedgerError::EngineFailure);
    }
    let n = pow2_usize(cap_height);
    proof {
        vstd::arithmetic::power2::lemma_pow2_strictly_increases(cap_height as nat, 28);
        vstd::arithmetic::power2::lemma2_to64();
    }
    Ok(4 + 4 * n)
}

} // verus!
