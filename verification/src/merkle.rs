use vstd::prelude::*;

verus! {

use vstd::arithmetic::div_mod::{
    lemma_div_pos_is_pos,
    lemma_fundamental_div_mod,
    lemma_fundamental_div_mod_converse,
    lemma_mod_multiples_vanish,
};
use vstd::arithmetic::power2::{pow2, lemma_pow2_adds, lemma_pow2_pos, lemma_pow2_unfold,
    lemma2_to64};
use crate::bits::bit_of;
use crate::sequencer::apply_kind;
use crate::types::{Digest, TransactionKind, FIELD_ORDER};

/// The digest of one leaf holding a single balance: the value padded with
/// zeros, as a value short enough to be committed without a compression
/// round.
pub open spec fn leaf_digest_spec(balance: u64) -> Digest {
    Digest { elements: [balance, 0u64, 0u64, 0u64] }
}

/// The digest of one leaf holding a single balance: the value padded with
/// zeros. A one-element leaf is short enough to be committed without a
/// compression round, so its digest lists the value itself.
pub fn leaf_digest(balance: u64) -> (r: Digest)
    requires
        balance < FIELD_ORDER,
    ensures
        r == leaf_digest_spec(balance),
        r.elements@ == seq![balance, 0u64, 0u64, 0u64],
        r.canonical(),
{
    let r = Digest { elements: [balance, 0u64, 0u64, 0u64] };
    proof {
        assert(r.elements@ =~= seq![balance, 0u64, 0u64, 0u64]);
    }
    r
}

/// The operand order of one authentication-path level: with the level's
/// index bit set the running digest is the right child and the sibling the
/// left, otherwise the running digest is the left child. The pair is handed
/// to the compression function as (left, right).
pub fn replay_pair(current: Digest, sibling: Digest, bit: bool) -> (r: (Digest, Digest))
    ensures
        bit ==> r == ((sibling, current)),
        !bit ==> r == ((current, sibling)),
{
    if bit {
        (sibling, current)
    } else {
        (current, sibling)
    }
}

/// The root of the subtree of height `h` starting at leaf `start`, built
/// with an arbitrary compression function over a sequence of leaf digests.
pub open spec fn subtree_root(
    leaves: Seq<Digest>,
    combine: spec_fn(Digest, Digest) -> Digest,
    h: nat,
    start: nat,
) -> Digest
    decreases h,
{
    if h == 0 {
        leaves[start as int]
    } else {
        combine(
            subtree_root(leaves, combine, (h - 1) as nat, start),
            subtree_root(leaves, combine, (h - 1) as nat, start + pow2((h - 1) as nat)),
        )
    }
}

/// The digest an authentication-path replay recomputes from a leaf digest:
/// level `l` combines the running digest with `siblings[l]`, the running
/// digest standing right exactly when `bits[l]` is set.
pub open spec fn replay_root(
    leaf: Digest,
    bits: Seq<bool>,
    siblings: Seq<Digest>,
    combine: spec_fn(Digest, Digest) -> Digest,
) -> Digest
    decreases siblings.len(),
{
    if siblings.len() == 0 {
        leaf
    } else {
        let below = replay_root(leaf, bits.drop_last(), siblings.drop_last(), combine);
        if bits.last() {
            combine(siblings.last(), below)
        } else {
            combine(below, siblings.last())
        }
    }
}

/// Where the level-`l` sibling subtree of the leaf at `index` starts,
/// relative to the enclosing subtree.
pub open spec fn sibling_start(index: nat, l: nat) -> nat {
    let q = index / pow2(l);
    if q % 2 == 0 {
        ((q + 1) * pow2(l)) as nat
    } else {
        ((q as int - 1) * pow2(l) as int) as nat
    }
}

/// `siblings` is the authentication path of the leaf at `index` within the
/// subtree of height `depth` starting at `start`: at every level, the root
/// of the sibling subtree along the leaf's path.
pub open spec fn path_ok(
    leaves: Seq<Digest>,
    combine: spec_fn(Digest, Digest) -> Digest,
    depth: nat,
    index: nat,
    start: nat,
    siblings: Seq<Digest>,
) -> bool {
    &&& siblings.len() == depth
    &&& forall|l: nat|
        l < depth ==> #[trigger] siblings[l as int] == subtree_root(
            leaves,
            combine,
            l,
            (start + sibling_start(index, l)) as nat,
        )
}

/// An index below 2^h splits at its highest bit: quotient 0 or 1 by
/// 2^(h-1), with the bit set exactly when the quotient is 1.
proof fn lemma_index_split(index: nat, h: nat)
    requires
        h > 0,
        index < pow2(h),
    ensures
        index / pow2((h - 1) as nat) < 2,
        index == (index / pow2((h - 1) as nat)) * pow2((h - 1) as nat) + index % pow2(
            (h - 1) as nat,
        ),
        index % pow2((h - 1) as nat) < pow2((h - 1) as nat),
        bit_of(index, (h - 1) as nat) == (index / pow2((h - 1) as nat) == 1),
{
    let p = pow2((h - 1) as nat) as int;
    lemma_pow2_pos((h - 1) as nat);
    lemma_pow2_unfold(h);
    lemma_fundamental_div_mod(index as int, p);
    lemma_div_pos_is_pos(index as int, p);
    let q = index as int / p;
    if q >= 2 {
        assert(q * p >= 2 * p) by (nonlinear_arith)
            requires
                q >= 2,
                p >= 1,
        ;
        assert(false);
    }
}

/// Below the top level, the bits and the sibling subtrees of an index in
/// the right half agree with those of its offset into that half, shifted by
/// the half's width.
proof fn lemma_low_levels_agree(index: nat, h: nat, l: nat)
    requires
        h > 0,
        index < pow2(h),
        index / pow2((h - 1) as nat) == 1,
        l < h - 1,
    ensures
        bit_of(index, l) == bit_of((index - pow2((h - 1) as nat)) as nat, l),
        sibling_start(index, l) == pow2((h - 1) as nat) + sibling_start(
            (index - pow2((h - 1) as nat)) as nat,
            l,
        ),
{
    let p1 = pow2((h - 1) as nat) as int;
    let pl = pow2(l) as int;
    lemma_index_split(index, h);
    let rest = (index - p1) as nat;
    let m = pow2(((h - 1) - l) as nat) as int;
    lemma_pow2_adds(((h - 1) - l) as nat, l);
    lemma_pow2_pos(l);
    lemma_pow2_pos(((h - 1) - l) as nat);
    lemma_fundamental_div_mod(rest as int, pl);
    lemma_div_pos_is_pos(rest as int, pl);
    let q2 = rest as int / pl;
    let r2 = rest as int % pl;
    assert(index as int == (m + q2) * pl + r2) by (nonlinear_arith)
        requires
            index as int == p1 + rest,
            p1 == m * pl,
            rest as int == q2 * pl + r2,
    ;
    lemma_fundamental_div_mod_converse(index as int, pl, m + q2, r2);
    lemma_pow2_unfold(((h - 1) - l) as nat);
    let m_half = pow2(((h - 1) - l - 1) as nat) as int;
    assert(m == 2 * m_half);
    lemma_mod_multiples_vanish(m_half, q2, 2);
    assert((m + q2) % 2 == q2 % 2);
    if q2 % 2 == 0 {
        assert((m + q2 + 1) * pl == p1 + (q2 + 1) * pl) by (nonlinear_arith)
            requires
                p1 == m * pl,
        ;
    } else {
        assert((m + q2 - 1) * pl == p1 + (q2 - 1) * pl) by (nonlinear_arith)
            requires
                p1 == m * pl,
        ;
    }
}

/// Replaying an authentication path reconstructs the subtree root: from the
/// digest of the leaf at `index`, combining with the path's siblings in
/// order, directed by the index's bits, yields the root of the subtree —
/// for every compression function.
pub proof fn lemma_replay_reconstructs_root(
    leaves: Seq<Digest>,
    combine: spec_fn(Digest, Digest) -> Digest,
    h: nat,
    start: nat,
    index: nat,
    bits: Seq<bool>,
    siblings: Seq<Digest>,
)
    requires
        index < pow2(h),
        start + pow2(h) <= leaves.len(),
        bits.len() == h,
        forall|l: nat| l < h ==> #[trigger] bits[l as int] == bit_of(index, l),
        path_ok(leaves, combine, h, index, start, siblings),
    ensures
        replay_root(leaves[(start + index) as int], bits, siblings, combine) == subtree_root(
            leaves,
            combine,
            h,
            start,
        ),
    decreases h,
{
    if h == 0 {
        assert(pow2(0) == 1) by {
            lemma2_to64();
        }
    } else {
        let h1 = (h - 1) as nat;
        let p1 = pow2(h1);
        lemma_pow2_pos(h1);
        lemma_pow2_unfold(h);
        lemma_index_split(index, h);
        let q = index / p1;
        let bits1 = bits.drop_last();
        let sibs1 = siblings.drop_last();
        assert(bits[h1 as int] == bit_of(index, h1));
        assert(siblings[h1 as int] == subtree_root(
            leaves,
            combine,
            h1,
            (start + sibling_start(index, h1)) as nat,
        ));
        if q == 0 {
            assert((q as int + 1) * (p1 as int) == p1) by (nonlinear_arith)
                requires
                    q == 0,
                    p1 >= 1,
            ;
            assert(q * p1 == 0) by (nonlinear_arith)
                requires
                    q == 0,
            ;
            assert(index < p1);
            assert forall|l: nat| l < h1 implies #[trigger] sibs1[l as int] == subtree_root(
                leaves,
                combine,
                l,
                (start + sibling_start(index, l)) as nat,
            ) by {
                assert(sibs1[l as int] == siblings[l as int]);
            }
            lemma_replay_reconstructs_root(leaves, combine, h1, start, index, bits1, sibs1);
            assert(sibling_start(index, h1) == p1);
            assert(!bits.last());
        } else {
            assert(q * p1 == p1) by (nonlinear_arith)
                requires
                    q == 1,
            ;
            let rest = (index - p1) as nat;
            assert(rest < p1);
            assert forall|l: nat| l < h1 implies #[trigger] bits1[l as int] == bit_of(rest, l) by {
                lemma_low_levels_agree(index, h, l);
                assert(bits1[l as int] == bits[l as int]);
            }
            assert forall|l: nat| l < h1 implies #[trigger] sibs1[l as int] == subtree_root(
                leaves,
                combine,
                l,
                ((start + p1) + sibling_start(rest, l)) as nat,
            ) by {
                lemma_low_levels_agree(index, h, l);
                assert(sibs1[l as int] == siblings[l as int]);
            }
            lemma_replay_reconstructs_root(leaves, combine, h1, start + p1, rest, bits1, sibs1);
            assert(sibling_start(index, h1) == 0) by {
                assert((1int - 1) * (p1 as int) == 0) by (nonlinear_arith);
            }
            assert(bits.last());
            assert(leaves[(start + index) as int] == leaves[((start + p1) + rest) as int]);
        }
    }
}

/// A subtree's root depends only on the leaves below it.
pub proof fn lemma_subtree_root_local(
    l1: Seq<Digest>,
    l2: Seq<Digest>,
    combine: spec_fn(Digest, Digest) -> Digest,
    h: nat,
    start: nat,
)
    requires
        start + pow2(h) <= l1.len(),
        l1.len() == l2.len(),
        forall|i: int| start <= i < start + pow2(h) ==> l1[i] == #[trigger] l2[i],
    ensures
        subtree_root(l1, combine, h, start) == subtree_root(l2, combine, h, start),
    decreases h,
{
    if h == 0 {
        assert(pow2(0) == 1) by {
            lemma2_to64();
        }
        assert(l2[start as int] == l1[start as int]);
    } else {
        lemma_pow2_unfold(h);
        lemma_pow2_pos((h - 1) as nat);
        lemma_subtree_root_local(l1, l2, combine, (h - 1) as nat, start);
        lemma_subtree_root_local(l1, l2, combine, (h - 1) as nat, start + pow2((h - 1) as nat));
    }
}

/// The leaf at `index` lies outside every sibling subtree of its own path,
/// and each sibling subtree lies inside the tree.
proof fn lemma_sibling_range(index: nat, l: nat, depth: nat)
    requires
        l < depth,
        index < pow2(depth),
    ensures
        index < sibling_start(index, l) || index >= sibling_start(index, l) + pow2(l),
        sibling_start(index, l) + pow2(l) <= pow2(depth),
{
    let pl = pow2(l) as int;
    let pd = pow2(depth) as int;
    let m = pow2((depth - l) as nat) as int;
    lemma_pow2_pos(l);
    lemma_pow2_pos((depth - l) as nat);
    lemma_pow2_adds((depth - l) as nat, l);
    lemma_pow2_unfold((depth - l) as nat);
    let m_half = pow2((depth - l - 1) as nat) as int;
    assert(m == 2 * m_half);
    lemma_fundamental_div_mod(index as int, pl);
    lemma_div_pos_is_pos(index as int, pl);
    let q = index as int / pl;
    let r = index as int % pl;
    assert(q < m) by (nonlinear_arith)
        requires
            index as int == q * pl + r,
            0 <= r < pl,
            index < pd,
            pd == m * pl,
            pl >= 1,
    ;
    if q % 2 == 0 {
        assert(q + 2 <= m);
        assert(index < (q + 1) * pl && (q + 1) * pl + pl <= pd) by (nonlinear_arith)
            requires
                index as int == q * pl + r,
                0 <= r < pl,
                q + 2 <= m,
                pd == m * pl,
                pl >= 1,
        ;
    } else {
        assert(q >= 1);
        assert((q as int - 1) * pl + pl <= index && q * pl <= pd) by (nonlinear_arith)
            requires
                index as int == q * pl + r,
                0 <= r < pl,
                q < m,
                pd == m * pl,
                pl >= 1,
        ;
    }
}

/// A change of the one leaf on the path leaves every sibling subtree
/// untouched: the same authentication path serves the updated leaves, since
/// only the leaf's value changes and never its position.
pub proof fn lemma_path_ok_after_update(
    leaves: Seq<Digest>,
    combine: spec_fn(Digest, Digest) -> Digest,
    depth: nat,
    index: nat,
    siblings: Seq<Digest>,
    d: Digest,
)
    requires
        leaves.len() == pow2(depth),
        index < pow2(depth),
        path_ok(leaves, combine, depth, index, 0, siblings),
    ensures
        path_ok(leaves.update(index as int, d), combine, depth, index, 0, siblings),
{
    let l2 = leaves.update(index as int, d);
    assert forall|l: nat| l < depth implies #[trigger] siblings[l as int] == subtree_root(
        l2,
        combine,
        l,
        (0 + sibling_start(index, l)) as nat,
    ) by {
        lemma_sibling_range(index, l, depth);
        lemma_subtree_root_local(leaves, l2, combine, l, sibling_start(index, l));
    }
}

/// Round trip of one balance update: the authentication path captured
/// before the update replays the old leaf digest to the old root, and the
/// new leaf digest to the root of the updated tree — for every compression
/// function. Only the leaf's value changes, so one path serves both roots.
pub proof fn lemma_replay_round_trip(
    leaves: Seq<Digest>,
    combine: spec_fn(Digest, Digest) -> Digest,
    depth: nat,
    index: nat,
    bits: Seq<bool>,
    siblings: Seq<Digest>,
    d: Digest,
)
    requires
        leaves.len() == pow2(depth),
        index < pow2(depth),
        bits.len() == depth,
        forall|l: nat| l < depth ==> #[trigger] bits[l as int] == bit_of(index, l),
        path_ok(leaves, combine, depth, index, 0, siblings),
    ensures
        replay_root(leaves[index as int], bits, siblings, combine) == subtree_root(
            leaves,
            combine,
            depth,
            0,
        ),
        replay_root(d, bits, siblings, combine) == subtree_root(
            leaves.update(index as int, d),
            combine,
            depth,
            0,
        ),
{
    lemma_replay_reconstructs_root(leaves, combine, depth, 0, index, bits, siblings);
    lemma_path_ok_after_update(leaves, combine, depth, index, siblings, d);
    let l2 = leaves.update(index as int, d);
    lemma_replay_reconstructs_root(l2, combine, depth, 0, index, bits, siblings);
    assert(l2[(0 + index) as int] == d);
}

/// The digests of a ledger's balances, leaf by leaf.
pub open spec fn leaf_digests(balances: Seq<u64>) -> Seq<Digest> {
    Seq::new(balances.len(), |i: int| leaf_digest_spec(balances[i]))
}

/// One balance update changes exactly one leaf digest.
pub proof fn lemma_leaf_digests_update(balances: Seq<u64>, index: int, b: u64)
    requires
        0 <= index < balances.len(),
    ensures
        leaf_digests(balances.update(index, b)) == leaf_digests(balances).update(
            index,
            leaf_digest_spec(b),
        ),
{
    assert(leaf_digests(balances.update(index, b)) =~= leaf_digests(balances).update(
        index,
        leaf_digest_spec(b),
    ));
}

/// The round trip of one sequencer step, in the ledger's terms: against the
/// digest tree of the balances, the authentication path captured before the
/// step replays the old balance's digest to the old root, and the digest of
/// balance_before with the amount applied — balance_after — to the root of
/// the updated ledger's tree, for every compression function.
pub proof fn lemma_step_round_trip(
    balances: Seq<u64>,
    combine: spec_fn(Digest, Digest) -> Digest,
    depth: nat,
    index: nat,
    bits: Seq<bool>,
    siblings: Seq<Digest>,
    kind: TransactionKind,
    amount: u64,
)
    requires
        balances.len() == pow2(depth),
        index < pow2(depth),
        bits.len() == depth,
        forall|l: nat| l < depth ==> #[trigger] bits[l as int] == bit_of(index, l),
        path_ok(leaf_digests(balances), combine, depth, index, 0, siblings),
    ensures
        replay_root(leaf_digest_spec(balances[index as int]), bits, siblings, combine)
            == subtree_root(leaf_digests(balances), combine, depth, 0),
        replay_root(
            leaf_digest_spec(apply_kind(balances[index as int], kind, amount)),
            bits,
            siblings,
            combine,
        ) == subtree_root(
            leaf_digests(balances.update(index as int, apply_kind(balances[index as int], kind, amount))),
            combine,
            depth,
            0,
        ),
{
    let nb = apply_kind(balances[index as int], kind, amount);
    lemma_replay_round_trip(
        leaf_digests(balances),
        combine,
        depth,
        index,
        bits,
        siblings,
        leaf_digest_spec(nb),
    );
    lemma_leaf_digests_update(balances, index as int, nb);
    assert(leaf_digests(balances)[index as int] == leaf_digest_spec(balances[index as int]));
}

} // verus!
