//! Wallet-side transaction helpers: grouping output values by currency and
//! assembling partially signed transactions.

use vstd::prelude::*;

use crate::amount::Amount;
use crate::amounts_map::{lemma_get_nonneg, lemma_values_le_max, spec_get, spec_has, AmountsMap};
use crate::chain::{
    CoinOrTokenId, InputWitness, OutputValue, SignedTransaction, TokenId, Transaction, TxOutput,
};
use crate::config::ChainConfig;

verus! {

/// The currency a wallet groups value under.
#[derive(PartialEq, Eq, Clone, Copy, Debug, Hash, PartialOrd, Ord, Structural)]
pub enum Currency {
    Coin,
    Token(TokenId),
}

/// Errors of the wallet helpers.
#[derive(Clone, Debug, PartialEq, Eq)]
pub enum WalletError {
    UnsupportedTransactionOutput,
    OutputAmountOverflow,
    FailedToConvertPartiallySignedTx(PartiallySignedTransaction),
    InvalidWitnessCount,
}

/// The fee rates a wallet works with while composing a transaction.
#[derive(Clone, Copy, Debug, PartialEq, Eq, Structural)]
pub struct CurrentFeeRate {
    /// Atoms of fee per kilobyte for fresh outputs.
    pub current_fee_rate: u64,
    /// Atoms of fee per kilobyte when consolidating small outputs.
    pub consolidate_fee_rate: u64,
}

/// A transaction whose witnesses may still be missing.
#[derive(Debug, Eq, PartialEq, Clone)]
pub struct PartiallySignedTransaction {
    pub tx: Transaction,
    pub witnesses: Vec<Option<InputWitness>>,
}

/// How many witnesses of a list are present.
pub open spec fn spec_count_some(s: Seq<Option<InputWitness>>) -> int
    decreases s.len(),
{
    if s.len() == 0 {
        0
    } else {
        spec_count_some(s.drop_last()) + (if s.last() is Some {
            1int
        } else {
            0int
        })
    }
}

impl PartiallySignedTransaction {
    pub fn new(tx: Transaction, witnesses: Vec<Option<InputWitness>>) -> (r:
        PartiallySignedTransaction)
        ensures
            r.tx == tx,
            r.witnesses == witnesses,
    {
        PartiallySignedTransaction { tx, witnesses }
    }

    /// How many inputs the transaction has.
    pub fn count_inputs(&self) -> (r: usize)
        ensures
            r == self.tx.inputs@.len(),
    {
        self.tx.inputs.len()
    }

    /// How many inputs already carry their witness.
    pub fn count_completed_signatures(&self) -> (r: usize)
        ensures
            r == spec_count_some(self.witnesses@),
    {
        let n = self.witnesses.len();
        let mut count: usize = 0;
        let mut i: usize = 0;
        while i < n
            invariant
                i <= n,
                n == self.witnesses@.len(),
                count == spec_count_some(self.witnesses@.take(i as int)),
                count <= i,
            decreases n - i,
        {
            proof {
                assert(self.witnesses@.take(i + 1).drop_last() =~= self.witnesses@.take(i as int));
                assert(self.witnesses@.take(i + 1).last() == self.witnesses@[i as int]);
            }
            if self.witnesses[i].is_some() {
                count = count + 1;
            }
            i = i + 1;
        }
        proof {
            assert(self.witnesses@.take(n as int) =~= self.witnesses@);
        }
        count
    }

    /// Whether every input carries its witness.
    pub fn is_fully_signed(&self) -> (r: bool)
        ensures
            r == forall|i: int| 0 <= i < self.witnesses@.len() ==> self.witnesses@[i] is Some,
    {
        let n = self.witnesses.len();
        let mut i: usize = 0;
        while i < n
            invariant
                i <= n,
                n == self.witnesses@.len(),
                forall|j: int| 0 <= j < i ==> self.witnesses@[j] is Some,
            decreases n - i,
        {
            if self.witnesses[i].is_none() {
                return false;
            }
            i = i + 1;
        }
        true
    }

    /// Finishes the transaction.  Rejected exactly when a witness is still
    /// missing or the witness count does not match the input count.
    pub fn into_signed_tx(self) -> (r: Result<SignedTransaction, WalletError>)
        ensures
            match r {
                Ok(s) => (forall|i: int|
                    0 <= i < self.witnesses@.len() ==> self.witnesses@[i] is Some)
                    && self.witnesses@.len() == self.tx.inputs@.len() && s.spec_transaction()
                    == self.tx && s.spec_signatures().len() == self.witnesses@.len() && (forall|
                    i: int,
                |
                    0 <= i < self.witnesses@.len() ==> Some(s.spec_signatures()[i])
                        == self.witnesses@[i]),
                Err(_) => !(forall|i: int|
                    0 <= i < self.witnesses@.len() ==> self.witnesses@[i] is Some)
                    || self.witnesses@.len() != self.tx.inputs@.len(),
            },
    {
        if !self.is_fully_signed() {
            return Err(WalletError::FailedToConvertPartiallySignedTx(self));
        }
        let PartiallySignedTransaction { tx, witnesses } = self;
        let n = witnesses.len();
        let mut unwrapped: Vec<InputWitness> = Vec::new();
        let mut rest = witnesses;
        let ghost w0 = rest@;
        let mut i: usize = 0;
        while i < n
            invariant
                i <= n,
                n == w0.len(),
                rest@ == w0.skip(i as int),
                unwrapped@.len() == i,
                forall|j: int| 0 <= j < w0.len() ==> w0[j] is Some,
                forall|j: int| 0 <= j < i ==> Some(#[trigger] unwrapped@[j]) == w0[j],
            decreases n - i,
        {
            let w = rest.remove(0);
            proof {
                assert(w0.skip(i as int)[0] == w0[i as int]);
            }
            match w {
                Some(witness) => {
                    unwrapped.push(witness);
                },
                None => {
                    proof {
                        assert(false);
                    }
                },
            }
            i = i + 1;
            proof {
                assert(rest@ =~= w0.skip(i as int));
            }
        }
        match SignedTransaction::new(tx, unwrapped) {
            Ok(s) => Ok(s),
            Err(_) => Err(WalletError::InvalidWitnessCount),
        }
    }

    /// Splits the transaction from its witnesses.
    pub fn take(self) -> (r: (Transaction, Vec<Option<InputWitness>>))
        ensures
            r.0 == self.tx,
            r.1 == self.witnesses,
    {
        (self.tx, self.witnesses)
    }
}

/// How the wallet reads one output while grouping.
#[derive(Clone, Copy, Debug, PartialEq, Eq, Structural)]
pub enum GroupMode {
    /// Group plain outputs; issuances count nothing.
    Outputs,
    /// Group plain outputs, charging issuance fees as coins.
    OutputsWithIssuanceFee,
    /// Group spendable outputs a wallet owns.
    UtxosForInput,
}

/// What one output adds, under a grouping mode, to currency `k`; an
/// unsupported output is rejected rather than counted.
pub open spec fn group_contribution(
    mode: GroupMode,
    config: ChainConfig,
    o: TxOutput,
    k: u128,
) -> int {
    match o {
        TxOutput::Transfer(v, _) => crate::constraints::value_unconstrained_contrib(v, k),
        TxOutput::LockThenTransfer(v, _, _) => crate::constraints::value_unconstrained_contrib(
            v,
            k,
        ),
        TxOutput::Burn(v) => match mode {
            GroupMode::UtxosForInput => 0,
            _ => crate::constraints::value_unconstrained_contrib(v, k),
        },
        TxOutput::CreateStakePool(_, data) => if k == 0 {
            data.pledge.atoms() as int
        } else {
            0
        },
        TxOutput::DelegateStaking(c, _) => match mode {
            GroupMode::UtxosForInput => 0,
            _ => if k == 0 {
                c.atoms() as int
            } else {
                0
            },
        },
        TxOutput::IssueFungibleToken(_) => match mode {
            GroupMode::OutputsWithIssuanceFee => if k == 0 {
                config.fungible_token_issuance_fee.atoms() as int
            } else {
                0
            },
            _ => 0,
        },
        TxOutput::IssueNft(t, _) => match mode {
            GroupMode::Outputs => 0,
            GroupMode::OutputsWithIssuanceFee => if k == 0 {
                config.nft_issuance_fee.atoms() as int
            } else {
                0
            },
            GroupMode::UtxosForInput => if k == CoinOrTokenId::TokenId(t).spec_key() {
                1
            } else {
                0
            },
        },
        TxOutput::DataDeposit(_) => match mode {
            GroupMode::OutputsWithIssuanceFee => if k == 0 {
                config.data_deposit_fee.atoms() as int
            } else {
                0
            },
            _ => 0,
        },
        TxOutput::ProduceBlockFromStake(_, _) => 0,
        TxOutput::CreateDelegationId(_, _) => 0,
    }
}

/// Whether a grouping mode accepts the output at all.
pub open spec fn group_supported(mode: GroupMode, o: TxOutput) -> bool {
    match o {
        TxOutput::ProduceBlockFromStake(_, _) => false,
        TxOutput::Burn(_) => mode != GroupMode::UtxosForInput,
        TxOutput::CreateDelegationId(_, _) => mode != GroupMode::UtxosForInput,
        TxOutput::DelegateStaking(_, _) => mode != GroupMode::UtxosForInput,
        TxOutput::IssueFungibleToken(_) => mode != GroupMode::UtxosForInput,
        TxOutput::DataDeposit(_) => mode != GroupMode::UtxosForInput,
        _ => true,
    }
}

/// The grouped total of currency `k` over a list of outputs.
pub open spec fn group_sum(mode: GroupMode, config: ChainConfig, outs: Seq<TxOutput>, k: u128) -> int
    decreases outs.len(),
{
    if outs.len() == 0 {
        0
    } else {
        group_sum(mode, config, outs.drop_last(), k) + group_contribution(
            mode,
            config,
            outs.last(),
            k,
        )
    }
}

/// Whether grouping a list of outputs goes through: every output supported
/// and no currency total past the representable range.
pub open spec fn group_ok(mode: GroupMode, config: ChainConfig, outs: Seq<TxOutput>) -> bool {
    &&& forall|i: int| 0 <= i < outs.len() ==> group_supported(mode, #[trigger] outs[i])
    &&& forall|k: u128| #[trigger] group_sum(mode, config, outs, k) <= u128::MAX
}

/// One more output extends the grouped totals by its contribution.
proof fn lemma_group_take_step(
    mode: GroupMode,
    config: ChainConfig,
    outs: Seq<TxOutput>,
    k: u128,
    i: int,
)
    requires
        0 <= i < outs.len(),
    ensures
        group_sum(mode, config, outs.take(i + 1), k) == group_sum(mode, config, outs.take(i), k)
            + group_contribution(mode, config, outs[i], k),
{
    assert(outs.take(i + 1).drop_last() =~= outs.take(i));
    assert(outs.take(i + 1).last() == outs[i]);
}

/// A grouped prefix never exceeds the whole.
proof fn lemma_group_mono(mode: GroupMode, config: ChainConfig, outs: Seq<TxOutput>, k: u128, i: int)
    requires
        0 <= i <= outs.len(),
    ensures
        group_sum(mode, config, outs.take(i), k) <= group_sum(mode, config, outs, k),
    decreases outs.len() - i,
{
    if i == outs.len() {
        assert(outs.take(i) =~= outs);
    } else {
        lemma_group_take_step(mode, config, outs, k, i);
        lemma_group_mono(mode, config, outs, k, i + 1);
    }
}

/// Groups the outputs by currency, the coin group always present.
/// Succeeds exactly when every output is supported and nothing overflows;
/// the result then carries per currency exactly the grouped total.
fn group_by_currency(
    mode: GroupMode,
    config: &ChainConfig,
    outputs: &Vec<TxOutput>,
) -> (r: Result<AmountsMap, WalletError>)
    ensures
        match r {
            Ok(m) => {
                &&& group_ok(mode, *config, outputs@)
                &&& m.wf()
                &&& forall|k: u128| m.spec_value(k) == group_sum(mode, *config, outputs@, k)
                &&& spec_has(m.seq(), 0)
            },
            Err(_) => !group_ok(mode, *config, outputs@),
        },
{
    let ghost outs = outputs@;
    let mut m = AmountsMap::new();
    let n = outputs.len();
    let mut i: usize = 0;
    while i < n
        invariant
            i <= n,
            n == outs.len(),
            outputs@ == outs,
            m.wf(),
            forall|k: u128| m.spec_value(k) == group_sum(mode, *config, outs.take(i as int), k),
            forall|j: int| 0 <= j < i ==> group_supported(mode, #[trigger] outs[j]),
        decreases n - i,
    {
        let ghost gi = i as int;
        let output = &outputs[i];
        let entry: Option<(CoinOrTokenId, Amount)> = match output {
            TxOutput::Transfer(v, _) | TxOutput::LockThenTransfer(v, _, _) => match v {
                OutputValue::Coin(a) => Some((CoinOrTokenId::Coin, *a)),
                OutputValue::TokenV0(_) => None,
                OutputValue::TokenV1(t, a) => Some((CoinOrTokenId::TokenId(*t), *a)),
            },
            TxOutput::Burn(v) => match mode {
                GroupMode::UtxosForInput => {
                    return Err(WalletError::UnsupportedTransactionOutput);
                },
                _ => match v {
                    OutputValue::Coin(a) => Some((CoinOrTokenId::Coin, *a)),
                    OutputValue::TokenV0(_) => None,
                    OutputValue::TokenV1(t, a) => Some((CoinOrTokenId::TokenId(*t), *a)),
                },
            },
            TxOutput::CreateStakePool(_, data) => Some((CoinOrTokenId::Coin, data.pledge())),
            TxOutput::DelegateStaking(c, _) => match mode {
                GroupMode::UtxosForInput => {
                    return Err(WalletError::UnsupportedTransactionOutput);
                },
                _ => Some((CoinOrTokenId::Coin, *c)),
            },
            TxOutput::IssueFungibleToken(_) => match mode {
                GroupMode::OutputsWithIssuanceFee => Some(
                    (CoinOrTokenId::Coin, config.fungible_token_issuance_fee()),
                ),
                GroupMode::Outputs => None,
                GroupMode::UtxosForInput => {
                    return Err(WalletError::UnsupportedTransactionOutput);
                },
            },
            TxOutput::IssueNft(t, _) => match mode {
                GroupMode::Outputs => None,
                GroupMode::OutputsWithIssuanceFee => Some(
                    (CoinOrTokenId::Coin, config.nft_issuance_fee(crate::chain::BlockHeight(0))),
                ),
                GroupMode::UtxosForInput => Some(
                    (CoinOrTokenId::TokenId(*t), Amount::from_atoms(1)),
                ),
            },
            TxOutput::DataDeposit(_) => match mode {
                GroupMode::OutputsWithIssuanceFee => Some(
                    (CoinOrTokenId::Coin, config.data_deposit_fee()),
                ),
                GroupMode::Outputs => None,
                GroupMode::UtxosForInput => {
                    return Err(WalletError::UnsupportedTransactionOutput);
                },
            },
            TxOutput::ProduceBlockFromStake(_, _) => {
                return Err(WalletError::UnsupportedTransactionOutput);
            },
            TxOutput::CreateDelegationId(_, _) => match mode {
                GroupMode::UtxosForInput => {
                    return Err(WalletError::UnsupportedTransactionOutput);
                },
                _ => None,
            },
        };
        if let Some((currency, amount)) = entry {
            match m.insert_or_increase(currency.key(), amount) {
                Ok(_) => {},
                Err(_) => {
                    proof {
                        lemma_group_take_step(mode, *config, outs, currency.spec_key(), gi);
                        lemma_group_mono(mode, *config, outs, currency.spec_key(), gi + 1);
                    }
                    return Err(WalletError::OutputAmountOverflow);
                },
            }
        }
        i = i + 1;
        proof {
            assert forall|k: u128|
                m.spec_value(k) == group_sum(mode, *config, outs.take(gi + 1), k) by {
                lemma_group_take_step(mode, *config, outs, k, gi);
            }
        }
    }
    let coin_ok = m.insert_or_increase(0, Amount::zero());
    proof {
        assert(outs.take(n as int) =~= outs);
        lemma_values_le_max(m.entries@);
        assert(coin_ok is Ok);
        assert forall|k: u128| #[trigger] group_sum(mode, *config, outs, k) <= u128::MAX by {
            assert(m.spec_value(k) == group_sum(mode, *config, outs.take(n as int), k));
            assert(spec_get(m.entries@, k) <= u128::MAX);
        }
    }
    Ok(m)
}

/// Groups a transaction's outputs by currency, issuances counting nothing.
pub fn group_outputs(config: &ChainConfig, outputs: &Vec<TxOutput>) -> (r: Result<
    AmountsMap,
    WalletError,
>)
    ensures
        match r {
            Ok(m) => {
                &&& group_ok(GroupMode::Outputs, *config, outputs@)
                &&& m.wf()
                &&& forall|k: u128|
                    m.spec_value(k) == group_sum(GroupMode::Outputs, *config, outputs@, k)
                &&& spec_has(m.seq(), 0)
            },
            Err(_) => !group_ok(GroupMode::Outputs, *config, outputs@),
        },
{
    group_by_currency(GroupMode::Outputs, config, outputs)
}

/// Groups a transaction's outputs by currency, charging issuance fees to
/// the coin group.
pub fn group_outputs_with_issuance_fee(config: &ChainConfig, outputs: &Vec<TxOutput>) -> (r: Result<
    AmountsMap,
    WalletError,
>)
    ensures
        match r {
            Ok(m) => {
                &&& group_ok(GroupMode::OutputsWithIssuanceFee, *config, outputs@)
                &&& m.wf()
                &&& forall|k: u128|
                    m.spec_value(k) == group_sum(
                        GroupMode::OutputsWithIssuanceFee,
                        *config,
                        outputs@,
                        k,
                    )
                &&& spec_has(m.seq(), 0)
            },
            Err(_) => !group_ok(GroupMode::OutputsWithIssuanceFee, *config, outputs@),
        },
{
    group_by_currency(GroupMode::OutputsWithIssuanceFee, config, outputs)
}

/// Groups the wallet's own spendable outputs by currency.
pub fn group_utxos_for_input(config: &ChainConfig, outputs: &Vec<TxOutput>) -> (r: Result<
    AmountsMap,
    WalletError,
>)
    ensures
        match r {
            Ok(m) => {
                &&& group_ok(GroupMode::UtxosForInput, *config, outputs@)
                &&& m.wf()
                &&& forall|k: u128|
                    m.spec_value(k) == group_sum(GroupMode::UtxosForInput, *config, outputs@, k)
                &&& spec_has(m.seq(), 0)
            },
            Err(_) => !group_ok(GroupMode::UtxosForInput, *config, outputs@),
        },
{
    group_by_currency(GroupMode::UtxosForInput, config, outputs)
}

} // verus!
