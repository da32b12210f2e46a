use vstd::prelude::*;

verus! {

use vstd::arithmetic::power2::pow2;

/// Order of the Goldilocks prime field, 2^64 - 2^32 + 1. Every balance,
/// amount and digest element is kept canonical: a `u64` strictly below it.
pub const FIELD_ORDER: u64 = 0xFFFF_FFFF_0000_0001;

/// Height of the position tree in the standard configuration: the ledger
/// holds 2^10 balances.
pub const POSITION_TREE_DEPTH: usize = 10;

/// Operation code for a deposit in an operation sequence.
pub const DEPOSIT: usize = 0;

/// Operation code for a withdrawal in an operation sequence.
pub const WITHDRAW: usize = 1;

/// A commitment digest: four canonical field elements, as the tree's
/// compression function produces.
#[derive(Clone, Copy, Debug)]
pub struct Digest {
    pub elements: [u64; 4],
}

impl PartialEq for Digest {
    fn eq(&self, o: &Digest) -> (r: bool) {
        let r = self.elements[0] == o.elements[0] && self.elements[1] == o.elements[1]
            && self.elements[2] == o.elements[2] && self.elements[3] == o.elements[3];
        proof {
            if r {
                assert(self.elements@ =~= o.elements@);
            }
        }
        r
    }
}

impl vstd::std_specs::cmp::PartialEqSpecImpl for Digest {
    open spec fn obeys_eq_spec() -> bool {
        true
    }

    open spec fn eq_spec(&self, o: &Digest) -> bool {
        self.elements@ == o.elements@
    }
}

impl Digest {
    /// All four elements are canonical field values.
    pub open spec fn canonical(self) -> bool {
        forall|i: int| 0 <= i < 4 ==> #[trigger] self.elements[i] < FIELD_ORDER
    }

    /// Checks that all four elements are canonical field values.
    pub fn is_canonical(&self) -> (r: bool)
        ensures
            r == self.canonical(),
    {
        let r = self.elements[0] < FIELD_ORDER && self.elements[1] < FIELD_ORDER
            && self.elements[2] < FIELD_ORDER && self.elements[3] < FIELD_ORDER;
        proof {
            if r {
                assert forall|i: int| 0 <= i < 4 implies #[trigger] self.elements[i]
                    < FIELD_ORDER by {
                    if i == 0 {
                    } else if i == 1 {
                    } else if i == 2 {
                    } else {
                    }
                }
            }
        }
        r
    }

    /// The all-zero digest.
    pub fn zero() -> (r: Digest)
        ensures
            r.elements@ == seq![0u64, 0u64, 0u64, 0u64],
            r.canonical(),
    {
        let r = Digest { elements: [0u64, 0u64, 0u64, 0u64] };
        assert(r.elements@ =~= seq![0u64, 0u64, 0u64, 0u64]);
        r
    }
}

/// The closed set of ledger operations. The kind never reaches the circuit's
/// public interface: it only decides the sign that the witness gives `amount`.
#[derive(Clone, Copy, Debug, PartialEq, Eq, Structural)]
pub enum TransactionKind {
    Deposit,
    Withdraw,
}

/// Error taxonomy of the library. Build, prove and verify failures are fatal
/// and propagate to the caller; nothing is retried.
#[derive(Clone, Copy, Debug, PartialEq, Eq, Structural)]
pub enum LedgerError {
    /// The witness violates the circuit, e.g. a position index at or above
    /// 2^depth, which the bit decomposition cannot represent.
    ConstraintUnsatisfiable,
    /// An operation sequence holds a code outside {DEPOSIT, WITHDRAW};
    /// the whole batch is abandoned.
    UnsupportedOperation,
    /// The proving engine rejected a witness.
    ProofGenerationFailure,
    /// The mandatory check of a freshly produced proof rejected it.
    SelfVerificationFailure,
    /// A final proof failed verification against its verifying data.
    InvalidProof,
    /// Structural mismatch, e.g. a commitment cap whose length does not
    /// match the declared cap height during recursive wrapping.
    EngineFailure,
}

/// One balance update, captured by the sequencer before and after mutating
/// the ledger. The same authentication path serves both roots: only the leaf
/// value changes, never its position.
#[derive(Clone, Debug)]
pub struct Transaction {
    pub transaction_type: TransactionKind,
    pub root_before: Digest,
    pub root_after: Digest,
    pub merkle_proof: Vec<Digest>,
    pub balance_before: u64,
    pub position_index: usize,
    pub amount: u64,
    pub position_tree_depth: usize,
}

impl Transaction {
    /// A transaction the state-transition gadget can consume: the index is
    /// representable in `position_tree_depth` bits, the authentication path
    /// has one sibling per level, and every scalar is canonical.
    pub open spec fn valid(self) -> bool {
        &&& self.position_tree_depth < 64
        &&& (self.position_index as nat) < pow2(self.position_tree_depth as nat)
        &&& self.merkle_proof@.len() == self.position_tree_depth
        &&& self.balance_before < FIELD_ORDER
        &&& self.amount < FIELD_ORDER
        &&& self.root_before.canonical()
        &&& self.root_after.canonical()
        &&& forall|i: int|
            0 <= i < self.merkle_proof@.len() ==> (#[trigger] self.merkle_proof@[i]).canonical()
    }
}

/// Checks that every digest in a sequence of siblings is canonical.
pub fn digests_canonical(path: &Vec<Digest>) -> (r: bool)
    ensures
        r == (forall|i: int| 0 <= i < path@.len() ==> (#[trigger] path@[i]).canonical()),
{
    let mut i: usize = 0;
    while i < path.len()
        invariant
            i <= path@.len(),
            forall|j: int| 0 <= j < i ==> (#[trigger] path@[j]).canonical(),
        decreases path@.len() - i,
    {
        if !path[i].is_canonical() {
            return false;
        }
        i = i + 1;
    }
    true
}

/// A deposit captured against the demonstration ledger, without an operation
/// tag: the amount is always added.
#[derive(Clone, Debug)]
pub struct DepositTransaction {
    pub balance_before: u64,
    pub root_before: Digest,
    pub root_after: Digest,
    pub merkle_proof: Vec<Digest>,
    pub position_index: usize,
    pub amount: u64,
}

/// A membership proof of one leaf: its authentication path, its index and
/// the root it commits to.
#[derive(Clone, Debug)]
pub struct VDProof {
    pub merkle_proof: Vec<Digest>,
    pub index: u64,
    pub root: Digest,
}

} // verus!
