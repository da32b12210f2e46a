use vstd::prelude::*;

verus! {

use vstd::arithmetic::power2::pow2;
use crate::bits::{bit_of, decompose_index};
use crate::field::{fadd, fneg, field_add, field_neg, lemma_fadd_fneg_is_fsub};
use crate::sequencer::{apply_kind, LedgerStep};
use crate::types::{digests_canonical, DepositTransaction, Digest, LedgerError, Transaction,
    TransactionKind, FIELD_ORDER, POSITION_TREE_DEPTH};

/// The amount value the witness assigns to the one shared circuit template:
/// the amount itself for a deposit, its field negation for a withdrawal. The
/// operation kind is encoded only in this sign.
pub open spec fn signed_amount_spec(kind: TransactionKind, amount: u64) -> u64 {
    match kind {
        TransactionKind::Deposit => amount,
        TransactionKind::Withdraw => fneg(amount as int) as u64,
    }
}

/// The signed amount as a canonical field value.
pub fn signed_amount(kind: TransactionKind, amount: u64) -> (r: u64)
    requires
        amount < FIELD_ORDER,
    ensures
        r == signed_amount_spec(kind, amount),
        r < FIELD_ORDER,
{
    match kind {
        TransactionKind::Deposit => amount,
        TransactionKind::Withdraw => field_neg(amount),
    }
}

/// One template covers both operations: the circuit's single addition of the
/// signed amount computes exactly the balance the operation leaves behind,
/// balance_before + amount for a deposit and balance_before - amount for a
/// withdrawal.
pub proof fn lemma_signed_amount_applies_kind(balance: u64, kind: TransactionKind, amount: u64)
    requires
        balance < FIELD_ORDER,
        amount < FIELD_ORDER,
    ensures
        fadd(balance as int, signed_amount_spec(kind, amount) as int) == apply_kind(
            balance,
            kind,
            amount,
        ),
{
    match kind {
        TransactionKind::Deposit => {
        },
        TransactionKind::Withdraw => {
            lemma_fadd_fneg_is_fsub(balance as int, amount as int);
        },
    }
}

/// Every value the witness assigns to the state-transition template, in
/// assignment order: the two roots, the balance, the position index and its
/// boolean digits, the signed amount, the computed balance after, and one
/// sibling digest per tree level.
#[derive(Clone, Debug)]
pub struct WitnessAssignment {
    pub root_before: Digest,
    pub root_after: Digest,
    pub balance_before: u64,
    pub position_index_value: u64,
    pub index_bits: Vec<bool>,
    pub signed_amount: u64,
    pub balance_after: u64,
    pub siblings: Vec<Digest>,
}

/// The assignment agrees with the transaction on every variable.
pub open spec fn assignment_ok(tx: Transaction, wa: WitnessAssignment) -> bool {
    &&& wa.root_before == tx.root_before
    &&& wa.root_after == tx.root_after
    &&& wa.balance_before == tx.balance_before
    &&& wa.position_index_value == tx.position_index as u64
    &&& wa.index_bits@.len() == tx.position_tree_depth
    &&& forall|j: nat|
        j < tx.position_tree_depth ==> #[trigger] wa.index_bits@[j as int] == bit_of(
            tx.position_index as nat,
            j,
        )
    &&& wa.signed_amount == signed_amount_spec(tx.transaction_type, tx.amount)
    &&& wa.balance_after == apply_kind(tx.balance_before, tx.transaction_type, tx.amount)
    &&& wa.siblings@ == tx.merkle_proof@
}

/// The transaction's shape fits the template: one sibling per level and
/// canonical scalars. Validity is this plus a representable position index.
pub open spec fn structurally_ok(tx: Transaction) -> bool {
    &&& tx.position_tree_depth < 64
    &&& tx.merkle_proof@.len() == tx.position_tree_depth
    &&& tx.balance_before < FIELD_ORDER
    &&& tx.amount < FIELD_ORDER
    &&& tx.root_before.canonical()
    &&& tx.root_after.canonical()
    &&& forall|i: int|
        0 <= i < tx.merkle_proof@.len() ==> (#[trigger] tx.merkle_proof@[i]).canonical()
}

/// Copies a path of sibling digests.
fn clone_digests(path: &Vec<Digest>) -> (r: Vec<Digest>)
    ensures
        r@ == path@,
{
    let mut r: Vec<Digest> = Vec::new();
    let mut i: usize = 0;
    while i < path.len()
        invariant
            i <= path@.len(),
            r@ =~= path@.take(i as int),
        decreases path@.len() - i,
    {
        r.push(path[i]);
        proof {
            assert(r@ =~= path@.take(i + 1));
        }
        i = i + 1;
    }
    proof {
        assert(path@.take(path@.len() as int) =~= path@);
    }
    r
}

/// Assigns every circuit variable from one transaction. Assignment succeeds
/// exactly on valid transactions. A position index at or above 2^depth has
/// no boolean decomposition of length depth, so the constraints cannot be
/// satisfied and the transaction is rejected deterministically; a shape
/// mismatch is a structural error instead.
pub fn assign_witness(tx: &Transaction) -> (r: Result<WitnessAssignment, LedgerError>)
    ensures
        r.is_ok() <==> tx.valid(),
        match r {
            Ok(wa) => assignment_ok(*tx, wa),
            Err(e) => e == (if structurally_ok(*tx) {
                LedgerError::ConstraintUnsatisfiable
            } else {
                LedgerError::EngineFailure
            }),
        },
{
    if tx.position_tree_depth >= 64 || tx.merkle_proof.len() != tx.position_tree_depth
        || tx.balance_before >= FIELD_ORDER || tx.amount >= FIELD_ORDER
        || !tx.root_before.is_canonical() || !tx.root_after.is_canonical()
        || !digests_canonical(&tx.merkle_proof) {
        return Err(LedgerError::EngineFailure);
    }
    let index_value = tx.position_index as u64;
    match decompose_index(index_value, tx.position_tree_depth) {
        None => Err(LedgerError::ConstraintUnsatisfiable),
        Some(bits) => {
            let amount_value = signed_amount(tx.transaction_type, tx.amount);
            let balance_after = field_add(tx.balance_before, amount_value);
            proof {
                lemma_signed_amount_applies_kind(
                    tx.balance_before,
                    tx.transaction_type,
                    tx.amount,
                );
            }
            Ok(
                WitnessAssignment {
                    root_before: tx.root_before,
                    root_after: tx.root_after,
                    balance_before: tx.balance_before,
                    position_index_value: index_value,
                    index_bits: bits,
                    signed_amount: amount_value,
                    balance_after,
                    siblings: clone_digests(&tx.merkle_proof),
                },
            )
        },
    }
}

/// The ordered public inputs of the state-transition circuit: the four
/// root_before elements, then the four root_after elements. The operation
/// kind is deliberately absent from the public interface.
pub fn transition_public_inputs(tx: &Transaction) -> (r: Vec<u64>)
    ensures
        r@ == tx.root_before.elements@ + tx.root_after.elements@,
        r@.len() == 8,
{
    let mut r: Vec<u64> = Vec::new();
    let mut i: usize = 0;
    while i < 4
        invariant
            i <= 4,
            r@ =~= tx.root_before.elements@.take(i as int),
        decreases 4 - i,
    {
        r.push(tx.root_before.elements[i]);
        proof {
            assert(r@ =~= tx.root_before.elements@.take(i + 1));
        }
        i = i + 1;
    }
    let mut j: usize = 0;
    while j < 4
        invariant
            j <= 4,
            r@ =~= tx.root_before.elements@ + tx.root_after.elements@.take(j as int),
        decreases 4 - j,
    {
        r.push(tx.root_after.elements[j]);
        proof {
            assert(r@ =~= tx.root_before.elements@ + tx.root_after.elements@.take(j + 1));
        }
        j = j + 1;
    }
    proof {
        assert(tx.root_before.elements@.take(4) =~= tx.root_before.elements@);
        assert(tx.root_after.elements@.take(4) =~= tx.root_after.elements@);
        assert(r@ =~= tx.root_before.elements@ + tx.root_after.elements@);
    }
    r
}

/// Assembles the transaction of one sequencer step once the hashing engine
/// has produced the two roots and the authentication path. Succeeds exactly
/// when the pieces fit the step's tree shape and are canonical.
pub fn build_transaction(
    step: &LedgerStep,
    root_before: Digest,
    merkle_proof: Vec<Digest>,
    root_after: Digest,
) -> (r: Result<Transaction, LedgerError>)
    ensures
        r.is_ok() <==> {
            &&& step.position_tree_depth < 64
            &&& (step.position_index as nat) < pow2(step.position_tree_depth as nat)
            &&& merkle_proof@.len() == step.position_tree_depth
            &&& step.balance_before < FIELD_ORDER
            &&& step.amount < FIELD_ORDER
            &&& root_before.canonical()
            &&& root_after.canonical()
            &&& forall|i: int|
                0 <= i < merkle_proof@.len() ==> (#[trigger] merkle_proof@[i]).canonical()
        },
        match r {
            Ok(tx) => {
                &&& tx.valid()
                &&& tx.transaction_type == step.transaction_type
                &&& tx.root_before == root_before
                &&& tx.root_after == root_after
                &&& tx.merkle_proof@ == merkle_proof@
                &&& tx.balance_before == step.balance_before
                &&& tx.position_index == step.position_index
                &&& tx.amount == step.amount
                &&& tx.position_tree_depth == step.position_tree_depth
            },
            Err(e) => e == LedgerError::EngineFailure,
        },
{
    if step.position_tree_depth >= 64 || merkle_proof.len() != step.position_tree_depth
        || step.balance_before >= FIELD_ORDER || step.amount >= FIELD_ORDER
        || !root_before.is_canonical() || !root_after.is_canonical()
        || !digests_canonical(&merkle_proof) {
        return Err(LedgerError::EngineFailure);
    }
    match decompose_index(step.position_index as u64, step.position_tree_depth) {
        None => Err(LedgerError::EngineFailure),
        Some(_) => Ok(
            Transaction {
                transaction_type: step.transaction_type,
                root_before,
                root_after,
                merkle_proof,
                balance_before: step.balance_before,
                position_index: step.position_index,
                amount: step.amount,
                position_tree_depth: step.position_tree_depth,
            },
        ),
    }
}

/// Assembles the fixed demonstration deposit: amount 5 against the uniform
/// balance of 100 at position 10 of the standard tree. The roots and the
/// authentication path come from the hashing engine; assembly succeeds
/// exactly when they fit the standard tree and are canonical.
pub fn create_deposit_tx(
    root_before: Digest,
    merkle_proof: Vec<Digest>,
    root_after: Digest,
) -> (r: Result<DepositTransaction, LedgerError>)
    ensures
        r.is_ok() <==> {
            &&& merkle_proof@.len() == POSITION_TREE_DEPTH
            &&& root_before.canonical()
            &&& root_after.canonical()
            &&& forall|i: int|
                0 <= i < merkle_proof@.len() ==> (#[trigger] merkle_proof@[i]).canonical()
        },
        match r {
            Ok(tx) => {
                &&& tx.balance_before == 100
                &&& tx.amount == 5
                &&& tx.position_index == 10
                &&& tx.root_before == root_before
                &&& tx.root_after == root_after
                &&& tx.merkle_proof@ == merkle_proof@
            },
            Err(e) => e == LedgerError::EngineFailure,
        },
{
    if merkle_proof.len() != POSITION_TREE_DEPTH || !root_before.is_canonical()
        || !root_after.is_canonical() || !digests_canonical(&merkle_proof) {
        return Err(LedgerError::EngineFailure);
    }
    Ok(
        DepositTransaction {
            balance_before: 100,
            root_before,
            root_after,
            merkle_proof,
            position_index: 10,
            amount: 5,
        },
    )
}

} // verus!
