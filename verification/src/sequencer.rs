use vstd::prelude::*;

verus! {

use vstd::arithmetic::power2::{pow2, lemma2_to64};
use crate::bits::pow2_usize;
use crate::field::{fadd, fsub, field_add, field_sub, lemma_fadd_fsub_cancel};
use crate::types::{LedgerError, TransactionKind, DEPOSIT, FIELD_ORDER, POSITION_TREE_DEPTH,
    WITHDRAW};

/// The position ledger: an ordered array of 2^depth canonical balances.
#[derive(Clone, Debug)]
pub struct Ledger {
    pub balances: Vec<u64>,
    pub depth: usize,
}

/// The balance an operation leaves behind: the amount is added to it for a
/// deposit and subtracted from it for a withdrawal, both in the field.
pub open spec fn apply_kind(balance: u64, kind: TransactionKind, amount: u64) -> u64 {
    match kind {
        TransactionKind::Deposit => fadd(balance as int, amount as int) as u64,
        TransactionKind::Withdraw => fsub(balance as int, amount as int) as u64,
    }
}

impl Ledger {
    /// The size is a power of two and every balance is canonical.
    pub open spec fn wf(self) -> bool {
        &&& self.depth < 32
        &&& self.balances@.len() == pow2(self.depth as nat)
        &&& forall|i: int|
            0 <= i < self.balances@.len() ==> #[trigger] self.balances@[i] < FIELD_ORDER
    }

    /// A fresh ledger with one uniform initial balance per position.
    pub fn new(depth: usize, initial_balance: u64) -> (r: Ledger)
        requires
            depth < 32,
            initial_balance < FIELD_ORDER,
        ensures
            r.wf(),
            r.depth == depth,
            r.balances@ == Seq::new(pow2(depth as nat), |i: int| initial_balance),
    {
        let n = pow2_usize(depth);
        let mut balances: Vec<u64> = Vec::new();
        let mut i: usize = 0;
        while i < n
            invariant
                i <= n,
                n == pow2(depth as nat),
                balances@.len() == i,
                forall|j: int| 0 <= j < i ==> #[trigger] balances@[j] == initial_balance,
            decreases n - i,
        {
            balances.push(initial_balance);
            i = i + 1;
        }
        let r = Ledger { balances, depth };
        proof {
            assert(r.balances@ =~= Seq::new(pow2(depth as nat), |i: int| initial_balance));
        }
        r
    }

    /// The balance stored at one position.
    pub fn get(&self, index: usize) -> (r: u64)
        requires
            index < self.balances@.len(),
        ensures
            r == self.balances@[index as int],
    {
        self.balances[index]
    }

    /// Applies one signed balance delta at one position; nothing else moves.
    pub fn apply_op(&mut self, kind: TransactionKind, index: usize, amount: u64)
        requires
            old(self).wf(),
            index < old(self).balances@.len(),
            amount < FIELD_ORDER,
        ensures
            final(self).wf(),
            final(self).depth == old(self).depth,
            final(self).balances@ == old(self).balances@.update(
                index as int,
                apply_kind(old(self).balances@[index as int], kind, amount),
            ),
    {
        let b = self.balances[index];
        let nb = match kind {
            TransactionKind::Deposit => field_add(b, amount),
            TransactionKind::Withdraw => field_sub(b, amount),
        };
        self.balances.set(index, nb);
    }
}

/// Does a numeric operation code denote an operation of the closed set?
pub open spec fn code_supported(code: usize) -> bool {
    code == DEPOSIT || code == WITHDRAW
}

/// The operation a supported code denotes.
pub open spec fn kind_of_code(code: usize) -> TransactionKind {
    if code == DEPOSIT {
        TransactionKind::Deposit
    } else {
        TransactionKind::Withdraw
    }
}

/// One operation applied to the ledger's contents.
pub open spec fn apply_code_spec(balances: Seq<u64>, code: usize, index: int, amount: u64) -> Seq<
    u64,
> {
    balances.update(index, apply_kind(balances[index], kind_of_code(code), amount))
}

/// A whole operation sequence applied in input order.
pub open spec fn apply_codes_spec(
    balances: Seq<u64>,
    codes: Seq<usize>,
    index: int,
    amount: u64,
) -> Seq<u64>
    decreases codes.len(),
{
    if codes.len() == 0 {
        balances
    } else {
        apply_code_spec(
            apply_codes_spec(balances, codes.drop_last(), index, amount),
            codes.last(),
            index,
            amount,
        )
    }
}

/// What one sequencer run is parameterized by: the tree height, the uniform
/// initial balance, and the one position and amount every operation uses.
#[derive(Clone, Copy, Debug, PartialEq, Eq, Structural)]
pub struct SequencerConfig {
    pub tree_depth: usize,
    pub initial_balance: u64,
    pub position_index: usize,
    pub amount: u64,
}

/// The standard configuration: a tree of height POSITION_TREE_DEPTH, every
/// balance 100, updates of amount 1 at position 10.
pub open spec fn standard_config() -> SequencerConfig {
    SequencerConfig { tree_depth: POSITION_TREE_DEPTH, initial_balance: 100u64, position_index: 10usize, amount: 1u64 }
}

impl SequencerConfig {
    /// The position index addresses a leaf and all scalars are canonical.
    pub open spec fn wf(self) -> bool {
        &&& self.tree_depth < 32
        &&& (self.position_index as nat) < pow2(self.tree_depth as nat)
        &&& self.initial_balance < FIELD_ORDER
        &&& self.amount < FIELD_ORDER
    }

    /// The standard configuration as a value.
    pub fn standard() -> (r: SequencerConfig)
        ensures
            r == standard_config(),
            r.wf(),
    {
        proof {
            lemma2_to64();
        }
        SequencerConfig {
            tree_depth: POSITION_TREE_DEPTH,
            initial_balance: 100,
            position_index: 10,
            amount: 1,
        }
    }
}

/// The plain record of one processed operation: everything the witness needs
/// except the commitments, which only the hashing engine can produce.
#[derive(Clone, Copy, Debug, PartialEq, Eq, Structural)]
pub struct LedgerStep {
    pub transaction_type: TransactionKind,
    pub balance_before: u64,
    pub balance_after: u64,
    pub position_index: usize,
    pub amount: u64,
    pub position_tree_depth: usize,
}

/// The ledger's contents after the first `i` operations of a run.
pub open spec fn ledger_state(config: SequencerConfig, codes: Seq<usize>, i: int) -> Seq<u64> {
    apply_codes_spec(
        Seq::new(pow2(config.tree_depth as nat), |j: int| config.initial_balance),
        codes.take(i),
        config.position_index as int,
        config.amount,
    )
}

/// Step `i` of a run records the operation of code `codes[i]` and the balance
/// at the configured position just before and just after it.
pub open spec fn step_ok(config: SequencerConfig, codes: Seq<usize>, step: LedgerStep, i: int) -> bool {
    &&& step.transaction_type == kind_of_code(codes[i])
    &&& step.position_index == config.position_index
    &&& step.amount == config.amount
    &&& step.position_tree_depth == config.tree_depth
    &&& step.balance_before == ledger_state(config, codes, i)[config.position_index as int]
    &&& step.balance_after == apply_kind(step.balance_before, step.transaction_type, config.amount)
    &&& step.balance_after == ledger_state(config, codes, i + 1)[config.position_index as int]
}

/// Replays an ordered operation sequence against a fresh ledger: captures the
/// balance before each mutation, applies the signed delta, and emits one step
/// per operation in input order. A code outside the closed set stops the
/// whole batch with UnsupportedOperation.
pub fn run_sequencer(config: &SequencerConfig, transaction_sequence: &Vec<usize>) -> (r: Result<
    (Vec<LedgerStep>, Ledger),
    LedgerError,
>)
    requires
        config.wf(),
    ensures
        match r {
            Ok(p) => {
                &&& forall|i: int|
                    0 <= i < transaction_sequence@.len() ==> code_supported(
                        #[trigger] transaction_sequence@[i],
                    )
                &&& p.0@.len() == transaction_sequence@.len()
                &&& p.1.wf()
                &&& p.1.depth == config.tree_depth
                &&& p.1.balances@ == ledger_state(
                    *config,
                    transaction_sequence@,
                    transaction_sequence@.len() as int,
                )
                &&& forall|i: int|
                    0 <= i < p.0@.len() ==> step_ok(
                        *config,
                        transaction_sequence@,
                        #[trigger] p.0@[i],
                        i,
                    )
            },
            Err(e) => {
                &&& e == LedgerError::UnsupportedOperation
                &&& exists|i: int|
                    0 <= i < transaction_sequence@.len() && !code_supported(
                        #[trigger] transaction_sequence@[i],
                    )
            },
        },
{
    let ghost codes = transaction_sequence@;
    let mut ledger = Ledger::new(config.tree_depth, config.initial_balance);
    let mut steps: Vec<LedgerStep> = Vec::new();
    let mut i: usize = 0;
    proof {
        assert(codes.take(0) =~= Seq::<usize>::empty());
    }
    while i < transaction_sequence.len()
        invariant
            config.wf(),
            i <= codes.len(),
            transaction_sequence@ == codes,
            steps@.len() == i,
            ledger.wf(),
            ledger.depth == config.tree_depth,
            ledger.balances@ == ledger_state(*config, codes, i as int),
            forall|j: int| 0 <= j < i ==> code_supported(#[trigger] codes[j]),
            forall|j: int| 0 <= j < i ==> step_ok(*config, codes, #[trigger] steps@[j], j),
        decreases codes.len() - i,
    {
        let code = transaction_sequence[i];
        if code != DEPOSIT && code != WITHDRAW {
            assert(!code_supported(codes[i as int]));
            return Err(LedgerError::UnsupportedOperation);
        }
        let kind = if code == DEPOSIT {
            TransactionKind::Deposit
        } else {
            TransactionKind::Withdraw
        };
        let balance_before = ledger.get(config.position_index);
        ledger.apply_op(kind, config.position_index, config.amount);
        let balance_after = ledger.get(config.position_index);
        let step = LedgerStep {
            transaction_type: kind,
            balance_before,
            balance_after,
            position_index: config.position_index,
            amount: config.amount,
            position_tree_depth: config.tree_depth,
        };
        steps.push(step);
        proof {
            assert(codes.take(i + 1).drop_last() =~= codes.take(i as int));
            assert(codes.take(i + 1).last() == codes[i as int]);
            assert(ledger.balances@ == ledger_state(*config, codes, i + 1));
        }
        i = i + 1;
    }
    proof {
        assert(codes.take(codes.len() as int) =~= codes);
    }
    Ok((steps, ledger))
}

/// Replays an operation sequence against the standard ledger configuration
/// and returns the per-operation records, in 1:1 input order.
pub fn generate_transactions(transaction_sequence: Vec<usize>) -> (r: Result<
    Vec<LedgerStep>,
    LedgerError,
>)
    ensures
        match r {
            Ok(steps) => {
                &&& forall|i: int|
                    0 <= i < transaction_sequence@.len() ==> code_supported(
                        #[trigger] transaction_sequence@[i],
                    )
                &&& steps@.len() == transaction_sequence@.len()
                &&& forall|i: int|
                    0 <= i < steps@.len() ==> step_ok(
                        standard_config(),
                        transaction_sequence@,
                        #[trigger] steps@[i],
                        i,
                    )
            },
            Err(e) => {
                &&& e == LedgerError::UnsupportedOperation
                &&& exists|i: int|
                    0 <= i < transaction_sequence@.len() && !code_supported(
                        #[trigger] transaction_sequence@[i],
                    )
            },
        },
{
    let config = SequencerConfig::standard();
    match run_sequencer(&config, &transaction_sequence) {
        Ok(p) => Ok(p.0),
        Err(e) => Err(e),
    }
}

/// A batch of two deposits followed by two withdrawals of one amount at one
/// position returns every balance to its initial value: the net delta of the
/// batch is zero and the final ledger equals the initial ledger.
pub proof fn lemma_deposit_withdraw_batch_is_identity(balances: Seq<u64>, index: int, amount: u64)
    requires
        0 <= index < balances.len(),
        amount < FIELD_ORDER,
        forall|i: int| 0 <= i < balances.len() ==> #[trigger] balances[i] < FIELD_ORDER,
    ensures
        apply_codes_spec(
            balances,
            seq![DEPOSIT, DEPOSIT, WITHDRAW, WITHDRAW],
            index,
            amount,
        ) == balances,
{
    let codes = seq![DEPOSIT, DEPOSIT, WITHDRAW, WITHDRAW];
    let b0 = balances[index];
    let d1 = apply_kind(b0, TransactionKind::Deposit, amount);
    let d2 = apply_kind(d1, TransactionKind::Deposit, amount);
    let w1 = apply_kind(d2, TransactionKind::Withdraw, amount);
    let w2 = apply_kind(w1, TransactionKind::Withdraw, amount);
    let s1 = apply_codes_spec(balances, codes.take(1), index, amount);
    let s2 = apply_codes_spec(balances, codes.take(2), index, amount);
    let s3 = apply_codes_spec(balances, codes.take(3), index, amount);
    let s4 = apply_codes_spec(balances, codes, index, amount);
    assert(codes.take(1).drop_last() =~= Seq::<usize>::empty());
    assert(codes.take(2).drop_last() =~= codes.take(1));
    assert(codes.take(3).drop_last() =~= codes.take(2));
    assert(codes.drop_last() =~= codes.take(3));
    assert(codes.take(1).last() == DEPOSIT);
    assert(codes.take(2).last() == DEPOSIT);
    assert(codes.take(3).last() == WITHDRAW);
    assert(codes.last() == WITHDRAW);
    assert(apply_codes_spec(balances, Seq::<usize>::empty(), index, amount) == balances);
    assert(s1 == balances.update(index, d1));
    assert(s2 == s1.update(index, d2));
    assert(s3 == s2.update(index, w1));
    assert(s4 == s3.update(index, w2));
    lemma_fadd_fsub_cancel(d1 as int, amount as int);
    assert(w1 == d1);
    lemma_fadd_fsub_cancel(b0 as int, amount as int);
    assert(w2 == b0);
    assert(s4 =~= balances);
}

} // verus!
