use vstd::prelude::*;

verus! {

use vstd::arithmetic::div_mod::{
    lemma_basic_div,
    lemma_div_denominator,
    lemma_div_non_zero,
    lemma_fundamental_div_mod,
};
use vstd::arithmetic::power2::{
    pow2,
    lemma_pow2_unfold,
    lemma_pow2_pos,
    lemma_pow2_strictly_increases,
    lemma2_to64,
};

/// 2^e as a machine integer.
pub fn pow2_usize(e: usize) -> (r: usize)
    requires
        e < 32,
    ensures
        r == pow2(e as nat),
{
    let mut r: usize = 1;
    let mut i: usize = 0;
    proof {
        lemma2_to64();
    }
    while i < e
        invariant
            i <= e,
            e < 32,
            r == pow2(i as nat),
        decreases e - i,
    {
        proof {
            lemma_pow2_unfold((i + 1) as nat);
            lemma_pow2_strictly_increases((i + 1) as nat, 32);
            lemma2_to64();
        }
        r = r * 2;
        i = i + 1;
    }
    r
}

/// Bit `i` of `index`, counting from the least significant.
pub open spec fn bit_of(index: nat, i: nat) -> bool {
    (index / pow2(i)) % 2 == 1
}

/// The number a little-endian bit string denotes.
pub open spec fn recompose(bits: Seq<bool>) -> nat
    decreases bits.len(),
{
    if bits.len() == 0 {
        0
    } else {
        ((if bits[0] {
            1nat
        } else {
            0nat
        }) + 2 * recompose(bits.drop_first())) as nat
    }
}

/// A little-endian bit string of length `depth` denotes the number whose low
/// bits it lists, whenever that number fits in `depth` bits.
pub proof fn lemma_recompose_bits(index: nat, depth: nat, bits: Seq<bool>)
    requires
        bits.len() == depth,
        forall|j: nat| j < depth ==> #[trigger] bits[j as int] == bit_of(index, j),
        index < pow2(depth),
    ensures
        recompose(bits) == index,
    decreases depth,
{
    if depth == 0 {
        assert(pow2(0) == 1) by {
            lemma2_to64();
        }
    } else {
        let rest = bits.drop_first();
        let half = index / 2;
        assert(bits[0] == bit_of(index, 0));
        assert(pow2(0) == 1) by {
            lemma2_to64();
        }
        assert(index / pow2(0) == index);
        assert forall|j: nat| j < depth - 1 implies #[trigger] rest[j as int] == bit_of(half, j) by {
            assert(rest[j as int] == bits[j as int + 1]);
            assert(bits[j as int + 1] == bit_of(index, j + 1));
            lemma_pow2_pos(j);
            lemma_div_denominator(index as int, 2, pow2(j) as int);
            lemma_pow2_unfold((j + 1) as nat);
            assert(pow2((j + 1) as nat) == 2 * pow2(j));
            assert(index / pow2((j + 1) as nat) == half / pow2(j));
        }
        assert(half < pow2((depth - 1) as nat)) by {
            lemma_pow2_unfold(depth);
            lemma_pow2_pos((depth - 1) as nat);
            lemma_fundamental_div_mod(index as int, 2);
        }
        lemma_recompose_bits(half, (depth - 1) as nat, rest);
        lemma_fundamental_div_mod(index as int, 2);
        assert(index % 2 == if bits[0] { 1int } else { 0int });
    }
}

/// Little-endian decomposition of `index` into `depth` boolean digits, the
/// arithmetization of the position index. The decomposition exists exactly
/// when the index fits in `depth` bits; an index at or above 2^depth is not
/// representable and is rejected deterministically.
pub fn decompose_index(index: u64, depth: usize) -> (r: Option<Vec<bool>>)
    ensures
        match r {
            Some(bits) => {
                &&& (index as nat) < pow2(depth as nat)
                &&& bits@.len() == depth
                &&& forall|j: nat| j < depth ==> #[trigger] bits@[j as int] == bit_of(index as nat, j)
                &&& recompose(bits@) == index
            },
            None => (index as nat) >= pow2(depth as nat),
        },
{
    let mut bits: Vec<bool> = Vec::new();
    let mut rem: u64 = index;
    let mut i: usize = 0;
    proof {
        assert(pow2(0) == 1) by {
            lemma2_to64();
        }
    }
    while i < depth
        invariant
            i <= depth,
            bits@.len() == i,
            rem == (index as nat) / pow2(i as nat),
            forall|j: nat| j < i ==> #[trigger] bits@[j as int] == bit_of(index as nat, j),
        decreases depth - i,
    {
        bits.push(rem % 2 == 1);
        proof {
            assert((rem % 2 == 1) == bit_of(index as nat, i as nat));
            lemma_pow2_pos(i as nat);
            lemma_div_denominator(index as int, pow2(i as nat) as int, 2);
            lemma_pow2_unfold((i + 1) as nat);
            assert(pow2(i as nat) * 2 == pow2((i + 1) as nat)) by {
                lemma_pow2_unfold((i + 1) as nat);
            }
            assert((index as nat) / pow2(i as nat) / 2 == (index as nat) / pow2((i + 1) as nat));
        }
        rem = rem / 2;
        i = i + 1;
    }
    if rem != 0 {
        proof {
            lemma_pow2_pos(depth as nat);
            if (index as nat) < pow2(depth as nat) {
                lemma_basic_div(index as int, pow2(depth as nat) as int);
            }
        }
        None
    } else {
        proof {
            lemma_pow2_pos(depth as nat);
            if (index as nat) >= pow2(depth as nat) {
                lemma_div_non_zero(index as int, pow2(depth as nat) as int);
            }
            lemma_recompose_bits(index as nat, depth as nat, bits@);
        }
        Some(bits)
    }
}

} // verus!
