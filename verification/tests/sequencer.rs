use zk_ledger::sequencer::{generate_transactions, run_sequencer, Ledger, SequencerConfig};
use zk_ledger::types::{Digest, LedgerError, TransactionKind, VDProof, FIELD_ORDER};

#[test]
fn test_generate_txs() {
    let vd_proof = VDProof {
        merkle_proof: vec![],
        index: 0,
        root: Digest::zero(),
    };
    assert_eq!(vd_proof.index, 0);
    let sequency = vec![0, 0, 1, 1];
    let txs = generate_transactions(sequency).unwrap();
    assert_eq!(txs.len(), 4);
}

#[test]
fn deposit_deposit_withdraw_withdraw_balances() {
    let txs = generate_transactions(vec![0, 0, 1, 1]).unwrap();
    assert_eq!(txs[0].balance_before, 100);
    assert_eq!(txs[0].balance_after, 101);
    assert_eq!(txs[1].balance_before, 101);
    assert_eq!(txs[1].balance_after, 102);
    assert_eq!(txs[2].balance_before, 102);
    assert_eq!(txs[2].balance_after, 101);
    assert_eq!(txs[3].balance_before, 101);
    assert_eq!(txs[3].balance_after, 100);
    assert_eq!(txs[0].transaction_type, TransactionKind::Deposit);
    assert_eq!(txs[3].transaction_type, TransactionKind::Withdraw);
}

#[test]
fn deposit_deposit_withdraw_withdraw_restores_ledger() {
    let config = SequencerConfig::standard();
    let (steps, ledger) = run_sequencer(&config, &vec![0, 0, 1, 1]).unwrap();
    assert_eq!(steps.len(), 4);
    assert_eq!(ledger.balances.len(), 1024);
    for b in ledger.balances.iter() {
        assert_eq!(*b, 100);
    }
}

#[test]
fn concrete_scenario_deposit_then_withdraw() {
    let txs = generate_transactions(vec![0, 1]).unwrap();
    assert_eq!(txs[0].balance_before, 100);
    assert_eq!(txs[0].balance_after, 101);
    assert_eq!(txs[0].position_index, 10);
    assert_eq!(txs[0].amount, 1);
    assert_eq!(txs[0].position_tree_depth, 10);
    assert_eq!(txs[1].balance_before, 101);
    assert_eq!(txs[1].balance_after, 100);
}

#[test]
fn unknown_code_aborts_batch() {
    let r = generate_transactions(vec![0, 2, 1]);
    assert_eq!(r.unwrap_err(), LedgerError::UnsupportedOperation);
    let r = generate_transactions(vec![5]);
    assert_eq!(r.unwrap_err(), LedgerError::UnsupportedOperation);
}

#[test]
fn empty_sequence_gives_no_transactions() {
    let txs = generate_transactions(vec![]).unwrap();
    assert_eq!(txs.len(), 0);
}

#[test]
fn ledger_new_and_apply() {
    let mut ledger = Ledger::new(3, 7);
    assert_eq!(ledger.balances, vec![7u64; 8]);
    ledger.apply_op(TransactionKind::Deposit, 2, 3);
    assert_eq!(ledger.balances[2], 10);
    assert_eq!(ledger.balances[1], 7);
    ledger.apply_op(TransactionKind::Withdraw, 2, 3);
    assert_eq!(ledger.balances[2], 7);
}

#[test]
fn withdraw_below_zero_wraps_in_the_field() {
    let mut ledger = Ledger::new(1, 0);
    ledger.apply_op(TransactionKind::Withdraw, 0, 1);
    assert_eq!(ledger.balances[0], FIELD_ORDER - 1);
}
