use zk_ledger::merkle::{leaf_digest, replay_pair};
use zk_ledger::recursive::{check_cap_shape, noop_gates_needed, recursive_public_input_count,
    recursive_public_inputs};
use zk_ledger::sequencer::generate_transactions;
use zk_ledger::transition::{assign_witness, build_transaction, create_deposit_tx, signed_amount,
    transition_public_inputs};
use zk_ledger::types::{Digest, LedgerError, Transaction, TransactionKind, FIELD_ORDER};

fn digest(a: u64, b: u64, c: u64, d: u64) -> Digest {
    Digest { elements: [a, b, c, d] }
}

#[test]
fn test_create_deposit_tx() {
    let path = vec![Digest::zero(); 10];
    let deposit_tx = create_deposit_tx(Digest::zero(), path, Digest::zero()).unwrap();
    assert_eq!(deposit_tx.balance_before, 100);
    assert_eq!(deposit_tx.amount, 5);
    assert_eq!(deposit_tx.position_index, 10);
}

#[test]
fn create_deposit_tx_rejects_short_path() {
    let path = vec![Digest::zero(); 9];
    let r = create_deposit_tx(Digest::zero(), path, Digest::zero());
    assert_eq!(r.unwrap_err(), LedgerError::EngineFailure);
}

#[test]
fn build_transaction_from_sequencer_step() {
    let steps = generate_transactions(vec![0]).unwrap();
    let path = vec![Digest::zero(); 10];
    let tx = build_transaction(&steps[0], digest(1, 2, 3, 4), path, digest(5, 6, 7, 8)).unwrap();
    assert_eq!(tx.transaction_type, TransactionKind::Deposit);
    assert_eq!(tx.balance_before, 100);
    assert_eq!(tx.position_index, 10);
    assert_eq!(tx.amount, 1);
    assert_eq!(tx.position_tree_depth, 10);
    assert_eq!(tx.root_before, digest(1, 2, 3, 4));
    assert_eq!(tx.root_after, digest(5, 6, 7, 8));
}

#[test]
fn build_transaction_rejects_wrong_path_length() {
    let steps = generate_transactions(vec![0]).unwrap();
    let path = vec![Digest::zero(); 9];
    let r = build_transaction(&steps[0], Digest::zero(), path, Digest::zero());
    assert_eq!(r.unwrap_err(), LedgerError::EngineFailure);
}

fn sample_transaction(position_index: usize, path_len: usize) -> Transaction {
    Transaction {
        transaction_type: TransactionKind::Withdraw,
        root_before: digest(1, 2, 3, 4),
        root_after: digest(5, 6, 7, 8),
        merkle_proof: vec![Digest::zero(); path_len],
        balance_before: 101,
        position_index,
        amount: 1,
        position_tree_depth: 10,
    }
}

#[test]
fn assign_witness_on_valid_transaction() {
    let wa = assign_witness(&sample_transaction(10, 10)).unwrap();
    assert_eq!(wa.balance_before, 101);
    assert_eq!(wa.position_index_value, 10);
    assert_eq!(wa.index_bits.len(), 10);
    assert_eq!(wa.signed_amount, FIELD_ORDER - 1);
    assert_eq!(wa.balance_after, 100);
    assert_eq!(wa.siblings.len(), 10);
    assert_eq!(wa.root_before, digest(1, 2, 3, 4));
}

#[test]
fn assign_witness_boundary_index_succeeds() {
    assert!(assign_witness(&sample_transaction(1023, 10)).is_ok());
}

#[test]
fn assign_witness_out_of_range_index_is_unsatisfiable() {
    let r = assign_witness(&sample_transaction(1024, 10));
    assert_eq!(r.unwrap_err(), LedgerError::ConstraintUnsatisfiable);
    let r = assign_witness(&sample_transaction(4096, 10));
    assert_eq!(r.unwrap_err(), LedgerError::ConstraintUnsatisfiable);
}

#[test]
fn assign_witness_shape_mismatch_is_structural() {
    let r = assign_witness(&sample_transaction(10, 9));
    assert_eq!(r.unwrap_err(), LedgerError::EngineFailure);
}

#[test]
fn signed_amount_by_kind() {
    assert_eq!(signed_amount(TransactionKind::Deposit, 7), 7);
    assert_eq!(signed_amount(TransactionKind::Withdraw, 7), FIELD_ORDER - 7);
    assert_eq!(signed_amount(TransactionKind::Withdraw, 0), 0);
}

#[test]
fn transition_public_inputs_order() {
    let tx = sample_transaction(10, 10);
    let pis = transition_public_inputs(&tx);
    assert_eq!(pis, vec![1, 2, 3, 4, 5, 6, 7, 8]);
}

#[test]
fn leaf_digest_pads_with_zeros() {
    let d = leaf_digest(42);
    assert_eq!(d.elements, [42, 0, 0, 0]);
}

#[test]
fn replay_pair_order_follows_bit() {
    let cur = digest(1, 1, 1, 1);
    let sib = digest(2, 2, 2, 2);
    assert_eq!(replay_pair(cur, sib, false), (cur, sib));
    assert_eq!(replay_pair(cur, sib, true), (sib, cur));
}

#[test]
fn noop_padding_counts() {
    assert_eq!(noop_gates_needed(7, 12).unwrap(), 2048 + 1 - 7);
    assert_eq!(noop_gates_needed(5000, 12).unwrap(), 0);
    assert_eq!(noop_gates_needed(2049, 12).unwrap(), 0);
    assert_eq!(noop_gates_needed(7, 0).unwrap_err(), LedgerError::EngineFailure);
    assert_eq!(noop_gates_needed(7, 40).unwrap_err(), LedgerError::EngineFailure);
}

#[test]
fn cap_shape_check() {
    assert!(check_cap_shape(16, 4).is_ok());
    assert!(check_cap_shape(1, 0).is_ok());
    assert_eq!(check_cap_shape(15, 4).unwrap_err(), LedgerError::EngineFailure);
    assert_eq!(check_cap_shape(0, 40).unwrap_err(), LedgerError::EngineFailure);
}

#[test]
fn recursive_public_inputs_order() {
    let cap = vec![digest(10, 11, 12, 13), digest(20, 21, 22, 23)];
    let pis = recursive_public_inputs(&digest(1, 2, 3, 4), &cap);
    assert_eq!(pis, vec![1, 2, 3, 4, 10, 11, 12, 13, 20, 21, 22, 23]);
}

#[test]
fn recursive_public_input_counts() {
    assert_eq!(recursive_public_input_count(0).unwrap(), 8);
    assert_eq!(recursive_public_input_count(3).unwrap(), 36);
    assert_eq!(recursive_public_input_count(30).unwrap_err(), LedgerError::EngineFailure);
}

/// A toy compression function for exercising the replay plumbing: an
/// elementwise field sum with the operands' sides distinguished.
fn toy_combine(l: &Digest, r: &Digest) -> Digest {
    let mut e = [0u64; 4];
    for i in 0..4 {
        e[i] = zk_ledger::field::field_add(
            zk_ledger::field::field_add(l.elements[i], l.elements[i]),
            r.elements[i],
        );
    }
    Digest { elements: e }
}

#[test]
fn replay_recomputes_toy_tree_root() {
    // Four leaves; the updated leaf sits at index 2.
    let leaves: Vec<Digest> = (0..4).map(|v| leaf_digest(v as u64)).collect();
    let n01 = toy_combine(&leaves[0], &leaves[1]);
    let n23 = toy_combine(&leaves[2], &leaves[3]);
    let root = toy_combine(&n01, &n23);

    let index: u64 = 2;
    let bits = zk_ledger::bits::decompose_index(index, 2).unwrap();
    let siblings = vec![leaves[3], n01];

    let mut current = leaves[2];
    for l in 0..2 {
        let (left, right) = replay_pair(current, siblings[l], bits[l]);
        current = toy_combine(&left, &right);
    }
    assert_eq!(current, root);

    // The same path replays an updated leaf to the updated tree's root.
    let new_leaf = leaf_digest(9);
    let n23_after = toy_combine(&new_leaf, &leaves[3]);
    let root_after = toy_combine(&n01, &n23_after);
    let mut current = new_leaf;
    for l in 0..2 {
        let (left, right) = replay_pair(current, siblings[l], bits[l]);
        current = toy_combine(&left, &right);
    }
    assert_eq!(current, root_after);
}

#[test]
fn digest_equality_is_by_elements() {
    assert_eq!(digest(1, 2, 3, 4), digest(1, 2, 3, 4));
    assert_ne!(digest(1, 2, 3, 4), digest(1, 2, 3, 5));
}
