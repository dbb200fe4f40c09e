//! The constrained-value accumulator: per-transaction conservation of value
//! and timelock satisfaction.
//!
//! Inputs are folded into an accumulator of liquid ("unconstrained") value
//! per currency and timelocked ("constrained") coin value per remaining
//! block count; outputs are folded the same way; then the inputs-side
//! accumulator must cover the outputs side.  The residual is the fee.

use std::collections::BTreeMap;
use vstd::prelude::*;

use crate::amount::Amount;
use crate::amounts_map::{
    lemma_cut_is_count, lemma_get_absent, lemma_get_at, lemma_get_nonneg, lemma_get_pos_has,
    lemma_sorted_take_absent, lemma_sum_nonneg, lemma_take_snoc_get, lemma_values_le_max, spec_cut,
    spec_get, spec_has, sum_amounts, AmountsMap,
};
use crate::chain::{
    AccountCommand, AccountSpending, BlockHeight, CoinOrTokenId, DelegationId, OutputTimeLock,
    OutputValue, PoolId, TxInput, TxOutput, UtxoOutPoint,
};
use crate::config::{AccountsBalancesCheckVersion, ChainConfig};

verus! {

broadcast use {vstd::std_specs::btree::group_btree_axioms, vstd::laws_cmp::group_laws_cmp};

/// Errors of the constrained-value accumulator.
#[derive(Clone, Copy, Debug, PartialEq, Eq, Structural)]
pub enum Error {
    AttemptToPrintMoney(CoinOrTokenId),
    AttemptToPrintMoneyOrViolateTimelockConstraints(CoinOrTokenId),
    CoinOrTokenOverflow(CoinOrTokenId),
    AttemptToViolateFeeRequirements,
    InputsAndInputsUtxosLengthMismatch(usize, usize),
    MissingOutputOrSpent(UtxoOutPoint),
    SpendingNonSpendableOutput(UtxoOutPoint),
    PledgeAmountNotFound(PoolId),
    DelegationBalanceNotFound(DelegationId),
    AccountBalanceNotFound(DelegationId),
    NegativeAccountBalance(DelegationId),
}

/// What an output value adds to the liquid balance of currency `k`.
pub open spec fn value_unconstrained_contrib(v: OutputValue, k: u128) -> int {
    match v {
        OutputValue::Coin(a) => if k == 0 {
            a.atoms() as int
        } else {
            0
        },
        OutputValue::TokenV0(_) => 0,
        OutputValue::TokenV1(t, a) => if k == CoinOrTokenId::TokenId(t).spec_key() {
            a.atoms() as int
        } else {
            0
        },
    }
}

/// What one output adds to the liquid balance of currency `k`: coins under
/// a block-count lock go to the constrained side instead; height- and
/// time-based locks count as liquid here, their maturity being enforced
/// elsewhere.
pub open spec fn output_unconstrained_contrib(config: ChainConfig, o: TxOutput, k: u128) -> int {
    match o {
        TxOutput::Transfer(v, _) => value_unconstrained_contrib(v, k),
        TxOutput::Burn(v) => value_unconstrained_contrib(v, k),
        TxOutput::LockThenTransfer(v, _, tl) => match v {
            OutputValue::Coin(c) => match tl {
                OutputTimeLock::ForBlockCount(n) => if n == 0 && k == 0 {
                    c.atoms() as int
                } else {
                    0
                },
                OutputTimeLock::UntilHeight(_) => if k == 0 {
                    c.atoms() as int
                } else {
                    0
                },
                OutputTimeLock::UntilTime(_) => if k == 0 {
                    c.atoms() as int
                } else {
                    0
                },
                OutputTimeLock::ForSeconds(_) => if k == 0 {
                    c.atoms() as int
                } else {
                    0
                },
            },
            OutputValue::TokenV0(_) => 0,
            OutputValue::TokenV1(t, a) => if k == CoinOrTokenId::TokenId(t).spec_key() {
                a.atoms() as int
            } else {
                0
            },
        },
        TxOutput::DelegateStaking(c, _) => if k == 0 {
            c.atoms() as int
        } else {
            0
        },
        TxOutput::CreateStakePool(_, data) => if k == 0 {
            data.pledge.atoms() as int
        } else {
            0
        },
        TxOutput::ProduceBlockFromStake(_, _) => 0,
        TxOutput::CreateDelegationId(_, _) => 0,
        TxOutput::DataDeposit(_) => if k == 0 {
            config.data_deposit_fee.atoms() as int
        } else {
            0
        },
        TxOutput::IssueFungibleToken(_) => if k == 0 {
            config.fungible_token_issuance_fee.atoms() as int
        } else {
            0
        },
        TxOutput::IssueNft(_, _) => if k == 0 {
            config.nft_issuance_fee.atoms() as int
        } else {
            0
        },
    }
}

/// What one output adds to the constrained bucket of remaining count `b`.
pub open spec fn output_timelocked_contrib(o: TxOutput, b: u128) -> int {
    match o {
        TxOutput::LockThenTransfer(v, _, tl) => match (v, tl) {
            (OutputValue::Coin(c), OutputTimeLock::ForBlockCount(n)) => if n > 0 && b
                == n as u128 {
                c.atoms() as int
            } else {
                0
            },
            _ => 0,
        },
        _ => 0,
    }
}

/// What one output adds to the constrained side over all buckets.
pub open spec fn output_timelocked_total_contrib(o: TxOutput) -> int {
    match o {
        TxOutput::LockThenTransfer(v, _, tl) => match (v, tl) {
            (OutputValue::Coin(c), OutputTimeLock::ForBlockCount(n)) => if n > 0 {
                c.atoms() as int
            } else {
                0
            },
            _ => 0,
        },
        _ => 0,
    }
}

/// The liquid balance of currency `k` accumulated over a list of outputs.
pub open spec fn outputs_unconstrained_sum(config: ChainConfig, outs: Seq<TxOutput>, k: u128) -> int
    decreases outs.len(),
{
    if outs.len() == 0 {
        0
    } else {
        outputs_unconstrained_sum(config, outs.drop_last(), k) + output_unconstrained_contrib(
            config,
            outs.last(),
            k,
        )
    }
}

/// The constrained balance of bucket `b` accumulated over a list of outputs.
pub open spec fn outputs_timelocked_sum(outs: Seq<TxOutput>, b: u128) -> int
    decreases outs.len(),
{
    if outs.len() == 0 {
        0
    } else {
        outputs_timelocked_sum(outs.drop_last(), b) + output_timelocked_contrib(outs.last(), b)
    }
}

/// The whole constrained side accumulated over a list of outputs.
pub open spec fn outputs_timelocked_total(outs: Seq<TxOutput>) -> int
    decreases outs.len(),
{
    if outs.len() == 0 {
        0
    } else {
        outputs_timelocked_total(outs.drop_last()) + output_timelocked_total_contrib(outs.last())
    }
}

/// Accumulating a list of outputs succeeds exactly when no currency and no
/// bucket leaves the representable range.
pub open spec fn from_outputs_ok(config: ChainConfig, outs: Seq<TxOutput>) -> bool {
    &&& forall|k: u128| outputs_unconstrained_sum(config, outs, k) <= u128::MAX
    &&& forall|b: u128| outputs_timelocked_sum(outs, b) <= u128::MAX
}

/// No output takes liquid value away.
proof fn lemma_output_contribs_nonneg(config: ChainConfig, o: TxOutput, k: u128)
    ensures
        output_unconstrained_contrib(config, o, k) >= 0,
        output_timelocked_contrib(o, k) >= 0,
        output_timelocked_total_contrib(o) >= 0,
{
}

/// A prefix never exceeds the whole accumulation.
proof fn lemma_outputs_sums_mono(config: ChainConfig, outs: Seq<TxOutput>, k: u128, i: int)
    requires
        0 <= i <= outs.len(),
    ensures
        outputs_unconstrained_sum(config, outs.take(i), k) <= outputs_unconstrained_sum(
            config,
            outs,
            k,
        ),
        outputs_timelocked_sum(outs.take(i), k) <= outputs_timelocked_sum(outs, k),
        outputs_timelocked_total(outs.take(i)) <= outputs_timelocked_total(outs),
    decreases outs.len() - i,
{
    if i == outs.len() {
        assert(outs.take(i) =~= outs);
    } else {
        lemma_outputs_take_step(config, outs, k, i);
        lemma_output_contribs_nonneg(config, outs[i], k);
        lemma_outputs_sums_mono(config, outs, k, i + 1);
    }
}

/// One more output extends each accumulation by its contribution.
proof fn lemma_outputs_take_step(config: ChainConfig, outs: Seq<TxOutput>, k: u128, i: int)
    requires
        0 <= i < outs.len(),
    ensures
        outputs_unconstrained_sum(config, outs.take(i + 1), k) == outputs_unconstrained_sum(
            config,
            outs.take(i),
            k,
        ) + output_unconstrained_contrib(config, outs[i], k),
        outputs_timelocked_sum(outs.take(i + 1), k) == outputs_timelocked_sum(outs.take(i), k)
            + output_timelocked_contrib(outs[i], k),
        outputs_timelocked_total(outs.take(i + 1)) == outputs_timelocked_total(outs.take(i))
            + output_timelocked_total_contrib(outs[i]),
{
    assert(outs.take(i + 1).drop_last() =~= outs.take(i));
    assert(outs.take(i + 1).last() == outs[i]);
}

/// A per-transaction tracker of remaining account balances: the first spend
/// from an account reads the ledger balance, later spends in the same
/// transaction are charged against what is left, so one transaction cannot
/// draw the same account twice over.
pub struct AccountsBalancesTracker<'a> {
    pub balances: AmountsMap,
    pub delegation_balance_getter: &'a BTreeMap<u128, Amount>,
}

/// The balance a key carries in a ledger balance map, absence as zero.
pub open spec fn ledger_balance_of(m: Map<u128, Amount>, k: u128) -> int {
    if m.contains_key(k) {
        m[k].atoms() as int
    } else {
        0
    }
}

impl<'a> AccountsBalancesTracker<'a> {
    pub open spec fn wf(self) -> bool {
        self.balances.wf()
    }

    /// Whether the transaction has already spent from this account.
    pub open spec fn touched(self, key: u128) -> bool {
        spec_has(self.balances.seq(), key)
    }

    /// What the account may still spend in this transaction.
    pub open spec fn remaining(self, key: u128) -> int {
        if self.touched(key) {
            self.balances.spec_value(key)
        } else {
            ledger_balance_of(self.delegation_balance_getter@, key)
        }
    }

    pub open spec fn spec_getter(self) -> Map<u128, Amount> {
        self.delegation_balance_getter@
    }

    /// A fresh tracker over the ledger's delegation balances.
    pub fn new(delegation_balance_getter: &'a BTreeMap<u128, Amount>) -> (r:
        AccountsBalancesTracker<'a>)
        ensures
            r.wf(),
            r.spec_getter() == delegation_balance_getter@,
            forall|k: u128| !r.touched(k),
    {
        AccountsBalancesTracker { balances: AmountsMap::new(), delegation_balance_getter }
    }

    /// Charges one spend against the account.  Exact errors: an account the
    /// ledger does not know on first touch, or a spend past the remaining
    /// balance; on success exactly the spend leaves the remaining balance.
    pub fn spend_from_account(&mut self, account: AccountSpending) -> (r: Result<(), Error>)
        requires
            old(self).wf(),
        ensures
            final(self).wf(),
            final(self).spec_getter() == old(self).spec_getter(),
            match account {
                AccountSpending::DelegationBalance(id, amt) => {
                    let key = id.0 as u128;
                    match r {
                        Ok(_) => {
                            &&& (old(self).touched(key) || old(self).spec_getter().contains_key(
                                key,
                            ))
                            &&& amt.atoms() <= old(self).remaining(key)
                            &&& final(self).remaining(key) == old(self).remaining(key)
                                - amt.atoms()
                            &&& final(self).touched(key)
                            &&& forall|k2: u128|
                                k2 != key ==> final(self).remaining(k2) == old(self).remaining(k2)
                                    && (final(self).touched(k2) <==> old(self).touched(k2))
                        },
                        Err(e) => {
                            &&& *final(self) == *old(self)
                            &&& (e == Error::AccountBalanceNotFound(id) <==> !old(
                                self,
                            ).touched(key) && !old(self).spec_getter().contains_key(key))
                            &&& (e == Error::NegativeAccountBalance(id) <==> (old(
                                self,
                            ).touched(key) || old(self).spec_getter().contains_key(key))
                                && amt.atoms() > old(self).remaining(key))
                            &&& (e == Error::AccountBalanceNotFound(id) || e
                                == Error::NegativeAccountBalance(id))
                        },
                    }
                },
            },
    {
        let AccountSpending::DelegationBalance(id, spending) = account;
        let key = id.0 as u128;
        let (found, idx) = self.balances.search_pub(key);
        if found {
            let current = self.balances.get(key);
            match current.sub(spending) {
                Some(rest) => {
                    let res = self.balances.decrease_or_err(key, spending);
                    proof {
                        assert(res is Ok);
                    }
                    Ok(())
                },
                None => Err(Error::NegativeAccountBalance(id)),
            }
        } else {
            let balance = match self.delegation_balance_getter.get(&key) {
                Some(b) => *b,
                None => {
                    return Err(Error::AccountBalanceNotFound(id));
                },
            };
            match balance.sub(spending) {
                Some(rest) => {
                    proof {
                        lemma_get_absent(self.balances.entries@, key);
                    }
                    let res = self.balances.insert_or_increase(key, rest);
                    proof {
                        assert(res is Ok);
                    }
                    Ok(())
                },
                None => Err(Error::NegativeAccountBalance(id)),
            }
        }
    }
}

/// Whether folding one output into an accumulator stays representable for
/// currency and bucket `k`.
pub open spec fn output_step_at(
    acc: ConstrainedValueAccumulator,
    config: ChainConfig,
    o: TxOutput,
    k: u128,
) -> bool {
    &&& acc.unconstrained(k) + output_unconstrained_contrib(config, o, k) <= u128::MAX
    &&& acc.timelocked(k) + output_timelocked_contrib(o, k) <= u128::MAX
}

/// Whether folding one output into an accumulator stays representable.
pub open spec fn output_step_ok(
    acc: ConstrainedValueAccumulator,
    config: ChainConfig,
    o: TxOutput,
) -> bool {
    forall|k: u128| #[trigger] output_step_at(acc, config, o, k)
}

/// What one input adds to the liquid balance of currency `k`.  A staker
/// balance or an account spend is liquid only when the maturity distance is
/// zero; otherwise it lands in the constrained bucket of that distance.
pub open spec fn input_unconstrained_contrib(
    config: ChainConfig,
    pools: Map<u128, Amount>,
    input: TxInput,
    utxo: Option<TxOutput>,
    k: u128,
) -> int {
    match input {
        TxInput::Utxo(_) => match utxo {
            None => 0,
            Some(out) => match out {
                TxOutput::Transfer(v, _) => value_unconstrained_contrib(v, k),
                TxOutput::LockThenTransfer(v, _, _) => value_unconstrained_contrib(v, k),
                TxOutput::IssueNft(t, _) => if k == CoinOrTokenId::TokenId(t).spec_key() {
                    1
                } else {
                    0
                },
                TxOutput::DelegateStaking(c, _) => if k == 0 {
                    c.atoms() as int
                } else {
                    0
                },
                TxOutput::CreateStakePool(p, _) => if k == 0 && config.maturity_distance == 0 {
                    ledger_balance_of(pools, p.0 as u128)
                } else {
                    0
                },
                TxOutput::ProduceBlockFromStake(_, p) => if k == 0 && config.maturity_distance
                    == 0 {
                    ledger_balance_of(pools, p.0 as u128)
                } else {
                    0
                },
                _ => 0,
            },
        },
        TxInput::Account(_, spending) => match spending {
            AccountSpending::DelegationBalance(_, amt) => if k == 0 && config.maturity_distance
                == 0 {
                amt.atoms() as int
            } else {
                0
            },
        },
        TxInput::AccountCommand(_, cmd) => match cmd {
            AccountCommand::MintTokens(t, a) => if k == CoinOrTokenId::TokenId(t).spec_key() {
                a.atoms() as int
            } else {
                0
            },
            _ => 0,
        },
    }
}

/// What one input adds to the constrained bucket of remaining count `b`.
pub open spec fn input_timelocked_contrib(
    config: ChainConfig,
    pools: Map<u128, Amount>,
    input: TxInput,
    utxo: Option<TxOutput>,
    b: u128,
) -> int {
    if config.maturity_distance == 0 || b != config.maturity_distance as u128 {
        0
    } else {
        match input {
            TxInput::Utxo(_) => match utxo {
                None => 0,
                Some(out) => match out {
                    TxOutput::CreateStakePool(p, _) => ledger_balance_of(pools, p.0 as u128),
                    TxOutput::ProduceBlockFromStake(_, p) => ledger_balance_of(
                        pools,
                        p.0 as u128,
                    ),
                    _ => 0,
                },
            },
            TxInput::Account(_, spending) => match spending {
                AccountSpending::DelegationBalance(_, amt) => amt.atoms() as int,
            },
            TxInput::AccountCommand(_, _) => 0,
        }
    }
}

/// What one input adds to the constrained side over all buckets.
pub open spec fn input_timelocked_total_contrib(
    config: ChainConfig,
    pools: Map<u128, Amount>,
    input: TxInput,
    utxo: Option<TxOutput>,
) -> int {
    if config.maturity_distance == 0 {
        0
    } else {
        input_timelocked_contrib(config, pools, input, utxo, config.maturity_distance as u128)
    }
}

/// The command fee one input owes.
pub open spec fn input_fee_contrib(config: ChainConfig, input: TxInput) -> int {
    match input {
        TxInput::AccountCommand(_, cmd) => match cmd {
            AccountCommand::MintTokens(_, _) => config.token_supply_change_fee.atoms() as int,
            AccountCommand::UnmintTokens(_) => config.token_supply_change_fee.atoms() as int,
            AccountCommand::LockTokenSupply(_) => config.token_supply_change_fee.atoms() as int,
            AccountCommand::FreezeToken(_, _) => config.token_freeze_fee.atoms() as int,
            AccountCommand::UnfreezeToken(_) => config.token_freeze_fee.atoms() as int,
            AccountCommand::ChangeTokenAuthority(_, _) => config.token_change_authority_fee.atoms()
                as int,
        },
        _ => 0,
    }
}

/// How much one input's delegation spend draws from account `key`.
pub open spec fn input_del_spend(input: TxInput, key: u128) -> int {
    match input {
        TxInput::Account(_, AccountSpending::DelegationBalance(id, amt)) => if id.0 as u128
            == key {
            amt.atoms() as int
        } else {
            0
        },
        _ => 0,
    }
}

/// Whether folding one input into an accumulator stays representable for
/// currency and bucket `k`.
pub open spec fn input_step_at(
    acc: ConstrainedValueAccumulator,
    config: ChainConfig,
    pools: Map<u128, Amount>,
    input: TxInput,
    utxo: Option<TxOutput>,
    k: u128,
) -> bool {
    &&& acc.unconstrained(k) + input_unconstrained_contrib(config, pools, input, utxo, k)
        <= u128::MAX
    &&& acc.timelocked(k) + input_timelocked_contrib(config, pools, input, utxo, k) <= u128::MAX
}

/// Whether one input can be folded at all: its own checks, the tracked
/// account balance, and representability.
pub open spec fn input_step_ok<'a>(
    acc: ConstrainedValueAccumulator,
    tracker: AccountsBalancesTracker<'a>,
    config: ChainConfig,
    pools: Map<u128, Amount>,
    dels: Map<u128, Amount>,
    version: AccountsBalancesCheckVersion,
    input: TxInput,
    utxo: Option<TxOutput>,
) -> bool {
    &&& input_valid(config, pools, dels, version, input, utxo)
    &&& (version == AccountsBalancesCheckVersion::V1 ==> match input {
        TxInput::Account(_, AccountSpending::DelegationBalance(id, amt)) => amt.atoms()
            <= tracker.remaining(id.0 as u128),
        _ => true,
    })
    &&& forall|k: u128| #[trigger] input_step_at(acc, config, pools, input, utxo, k)
}

/// A step that fails on the coin side or on its own checks.
pub open spec fn input_step_ok_at_zero_or_invalid<'a>(
    acc: ConstrainedValueAccumulator,
    tracker: AccountsBalancesTracker<'a>,
    config: ChainConfig,
    pools: Map<u128, Amount>,
    dels: Map<u128, Amount>,
    version: AccountsBalancesCheckVersion,
    input: TxInput,
    utxo: Option<TxOutput>,
) -> bool {
    input_valid(config, pools, dels, version, input, utxo) && input_step_at(
        acc,
        config,
        pools,
        input,
        utxo,
        0,
    )
}

/// Whether folding one input opens the liquid coin balance (even with a
/// zero amount), which the fee deduction at the end reads.
pub open spec fn input_touches_coin(
    config: ChainConfig,
    input: TxInput,
    utxo: Option<TxOutput>,
) -> bool {
    match input {
        TxInput::Utxo(_) => match utxo {
            None => false,
            Some(out) => match out {
                TxOutput::Transfer(v, _) => v is Coin,
                TxOutput::LockThenTransfer(v, _, _) => v is Coin,
                TxOutput::DelegateStaking(_, _) => true,
                TxOutput::CreateStakePool(_, _) => config.maturity_distance == 0,
                TxOutput::ProduceBlockFromStake(_, _) => config.maturity_distance == 0,
                _ => false,
            },
        },
        TxInput::Account(_, _) => config.maturity_distance == 0,
        TxInput::AccountCommand(_, _) => false,
    }
}

/// Whether one input passes its own checks: the consumed output must exist
/// and be spendable, a staked pool must have a balance, and a delegation
/// spend must name a known account (under the older check, one whose stored
/// balance covers this spend alone).
pub open spec fn input_valid(
    config: ChainConfig,
    pools: Map<u128, Amount>,
    dels: Map<u128, Amount>,
    version: AccountsBalancesCheckVersion,
    input: TxInput,
    utxo: Option<TxOutput>,
) -> bool {
    match input {
        TxInput::Utxo(_) => match utxo {
            None => false,
            Some(out) => match out {
                TxOutput::CreateDelegationId(_, _) => false,
                TxOutput::IssueFungibleToken(_) => false,
                TxOutput::Burn(_) => false,
                TxOutput::DataDeposit(_) => false,
                TxOutput::CreateStakePool(p, _) => pools.contains_key(p.0 as u128),
                TxOutput::ProduceBlockFromStake(_, p) => pools.contains_key(p.0 as u128),
                _ => true,
            },
        },
        TxInput::Account(_, spending) => match spending {
            AccountSpending::DelegationBalance(id, amt) => dels.contains_key(id.0 as u128)
                && (version == AccountsBalancesCheckVersion::V0 ==> amt.atoms()
                <= ledger_balance_of(dels, id.0 as u128)),
        },
        TxInput::AccountCommand(_, _) => true,
    }
}

/// How much the delegation spends of a list of inputs draw from account
/// `key` in all.
pub open spec fn del_spend_total(inputs: Seq<TxInput>, key: u128) -> int
    decreases inputs.len(),
{
    if inputs.len() == 0 {
        0
    } else {
        del_spend_total(inputs.drop_last(), key) + (match inputs.last() {
            TxInput::Account(_, AccountSpending::DelegationBalance(id, amt)) => if id.0 as u128
                == key {
                amt.atoms() as int
            } else {
                0
            },
            _ => 0,
        })
    }
}

/// The liquid balance of currency `k` accumulated over a list of inputs.
pub open spec fn inputs_unconstrained_sum(
    config: ChainConfig,
    pools: Map<u128, Amount>,
    inputs: Seq<TxInput>,
    utxos: Seq<Option<TxOutput>>,
    k: u128,
) -> int
    decreases inputs.len(),
{
    if inputs.len() == 0 || inputs.len() != utxos.len() {
        0
    } else {
        inputs_unconstrained_sum(config, pools, inputs.drop_last(), utxos.drop_last(), k)
            + input_unconstrained_contrib(config, pools, inputs.last(), utxos.last(), k)
    }
}

/// The constrained balance of bucket `b` accumulated over a list of inputs.
pub open spec fn inputs_timelocked_sum(
    config: ChainConfig,
    pools: Map<u128, Amount>,
    inputs: Seq<TxInput>,
    utxos: Seq<Option<TxOutput>>,
    b: u128,
) -> int
    decreases inputs.len(),
{
    if inputs.len() == 0 || inputs.len() != utxos.len() {
        0
    } else {
        inputs_timelocked_sum(config, pools, inputs.drop_last(), utxos.drop_last(), b)
            + input_timelocked_contrib(config, pools, inputs.last(), utxos.last(), b)
    }
}

/// The whole constrained side accumulated over a list of inputs.
pub open spec fn inputs_timelocked_total(
    config: ChainConfig,
    pools: Map<u128, Amount>,
    inputs: Seq<TxInput>,
    utxos: Seq<Option<TxOutput>>,
) -> int
    decreases inputs.len(),
{
    if inputs.len() == 0 || inputs.len() != utxos.len() {
        0
    } else {
        inputs_timelocked_total(config, pools, inputs.drop_last(), utxos.drop_last())
            + input_timelocked_total_contrib(config, pools, inputs.last(), utxos.last())
    }
}

/// The command fees accumulated over a list of inputs.
pub open spec fn inputs_fee_total(config: ChainConfig, inputs: Seq<TxInput>) -> int
    decreases inputs.len(),
{
    if inputs.len() == 0 {
        0
    } else {
        inputs_fee_total(config, inputs.drop_last()) + input_fee_contrib(config, inputs.last())
    }
}

/// Whether any input opens the liquid coin balance.
pub open spec fn inputs_touch_coin(
    config: ChainConfig,
    inputs: Seq<TxInput>,
    utxos: Seq<Option<TxOutput>>,
) -> bool {
    exists|i: int|
        0 <= i < inputs.len() && i < utxos.len() && #[trigger] input_touches_coin(
            config,
            inputs[i],
            utxos[i],
        )
}

/// Folding a list of inputs succeeds exactly when the two lists pair up,
/// every input passes its checks, under the tracked check no account is
/// drawn past its stored balance over the whole list, nothing overflows,
/// and the accumulated liquid coins cover the command fees.
pub open spec fn from_inputs_ok(
    config: ChainConfig,
    pools: Map<u128, Amount>,
    dels: Map<u128, Amount>,
    version: AccountsBalancesCheckVersion,
    inputs: Seq<TxInput>,
    utxos: Seq<Option<TxOutput>>,
) -> bool {
    &&& inputs.len() == utxos.len()
    &&& forall|i: int|
        0 <= i < inputs.len() ==> #[trigger] input_valid(
            config,
            pools,
            dels,
            version,
            inputs[i],
            utxos[i],
        )
    &&& (version == AccountsBalancesCheckVersion::V1 ==> forall|key: u128|
        #[trigger] del_spend_total(inputs, key) <= ledger_balance_of(dels, key))
    &&& forall|k: u128|
        #[trigger] inputs_unconstrained_sum(config, pools, inputs, utxos, k) <= u128::MAX
    &&& forall|b: u128| #[trigger] inputs_timelocked_sum(config, pools, inputs, utxos, b) <= u128::MAX
    &&& inputs_fee_total(config, inputs) <= u128::MAX
    &&& (inputs_fee_total(config, inputs) == 0 || (inputs_touch_coin(config, inputs, utxos)
        && inputs_fee_total(config, inputs) <= inputs_unconstrained_sum(
        config,
        pools,
        inputs,
        utxos,
        0,
    )))
}

/// The constrained-value accumulator.
#[derive(Clone, Debug, PartialEq, Eq)]
pub struct ConstrainedValueAccumulator {
    pub unconstrained_value: AmountsMap,
    pub timelock_constrained: AmountsMap,
}

/// One more input extends each accumulation by its contribution.
proof fn lemma_inputs_take_step(
    config: ChainConfig,
    pools: Map<u128, Amount>,
    inputs: Seq<TxInput>,
    utxos: Seq<Option<TxOutput>>,
    k: u128,
    i: int,
)
    requires
        inputs.len() == utxos.len(),
        0 <= i < inputs.len(),
    ensures
        inputs_unconstrained_sum(config, pools, inputs.take(i + 1), utxos.take(i + 1), k)
            == inputs_unconstrained_sum(config, pools, inputs.take(i), utxos.take(i), k)
            + input_unconstrained_contrib(config, pools, inputs[i], utxos[i], k),
        inputs_timelocked_sum(config, pools, inputs.take(i + 1), utxos.take(i + 1), k)
            == inputs_timelocked_sum(config, pools, inputs.take(i), utxos.take(i), k)
            + input_timelocked_contrib(config, pools, inputs[i], utxos[i], k),
        inputs_timelocked_total(config, pools, inputs.take(i + 1), utxos.take(i + 1))
            == inputs_timelocked_total(config, pools, inputs.take(i), utxos.take(i))
            + input_timelocked_total_contrib(config, pools, inputs[i], utxos[i]),
        inputs_fee_total(config, inputs.take(i + 1)) == inputs_fee_total(config, inputs.take(i))
            + input_fee_contrib(config, inputs[i]),
        del_spend_total(inputs.take(i + 1), k) == del_spend_total(inputs.take(i), k)
            + input_del_spend(inputs[i], k),
{
    assert(inputs.take(i + 1).drop_last() =~= inputs.take(i));
    assert(utxos.take(i + 1).drop_last() =~= utxos.take(i));
    assert(inputs.take(i + 1).last() == inputs[i]);
    assert(utxos.take(i + 1).last() == utxos[i]);
}

/// No input takes value away.
proof fn lemma_input_contribs_nonneg(
    config: ChainConfig,
    pools: Map<u128, Amount>,
    input: TxInput,
    utxo: Option<TxOutput>,
    k: u128,
)
    ensures
        input_unconstrained_contrib(config, pools, input, utxo, k) >= 0,
        input_timelocked_contrib(config, pools, input, utxo, k) >= 0,
        input_timelocked_total_contrib(config, pools, input, utxo) >= 0,
        input_fee_contrib(config, input) >= 0,
        input_del_spend(input, k) >= 0,
{
}

/// A prefix never exceeds the whole accumulation.
proof fn lemma_inputs_sums_mono(
    config: ChainConfig,
    pools: Map<u128, Amount>,
    inputs: Seq<TxInput>,
    utxos: Seq<Option<TxOutput>>,
    k: u128,
    i: int,
)
    requires
        inputs.len() == utxos.len(),
        0 <= i <= inputs.len(),
    ensures
        inputs_unconstrained_sum(config, pools, inputs.take(i), utxos.take(i), k)
            <= inputs_unconstrained_sum(config, pools, inputs, utxos, k),
        inputs_timelocked_sum(config, pools, inputs.take(i), utxos.take(i), k)
            <= inputs_timelocked_sum(config, pools, inputs, utxos, k),
        inputs_fee_total(config, inputs.take(i)) <= inputs_fee_total(config, inputs),
        del_spend_total(inputs.take(i), k) <= del_spend_total(inputs, k),
    decreases inputs.len() - i,
{
    if i == inputs.len() {
        assert(inputs.take(i) =~= inputs);
        assert(utxos.take(i) =~= utxos);
    } else {
        lemma_inputs_take_step(config, pools, inputs, utxos, k, i);
        lemma_input_contribs_nonneg(config, pools, inputs[i], utxos[i], k);
        lemma_inputs_sums_mono(config, pools, inputs, utxos, k, i + 1);
    }
}

/// One more input opens the coin balance exactly when it touches it.
proof fn lemma_touch_step(
    config: ChainConfig,
    inputs: Seq<TxInput>,
    utxos: Seq<Option<TxOutput>>,
    i: int,
)
    requires
        inputs.len() == utxos.len(),
        0 <= i < inputs.len(),
    ensures
        inputs_touch_coin(config, inputs.take(i + 1), utxos.take(i + 1)) <==> (inputs_touch_coin(
            config,
            inputs.take(i),
            utxos.take(i),
        ) || input_touches_coin(config, inputs[i], utxos[i])),
{
    if inputs_touch_coin(config, inputs.take(i + 1), utxos.take(i + 1)) {
        let j = choose|j: int|
            0 <= j < i + 1 && j < i + 1 && #[trigger] input_touches_coin(
                config,
                inputs.take(i + 1)[j],
                utxos.take(i + 1)[j],
            );
        if j < i {
            assert(input_touches_coin(config, inputs.take(i)[j], utxos.take(i)[j]));
        } else {
            assert(input_touches_coin(config, inputs[i], utxos[i]));
        }
    }
    if inputs_touch_coin(config, inputs.take(i), utxos.take(i)) {
        let j = choose|j: int|
            0 <= j < i && j < i && #[trigger] input_touches_coin(
                config,
                inputs.take(i)[j],
                utxos.take(i)[j],
            );
        assert(input_touches_coin(config, inputs.take(i + 1)[j], utxos.take(i + 1)[j]));
    }
    if input_touches_coin(config, inputs[i], utxos[i]) {
        assert(input_touches_coin(config, inputs.take(i + 1)[i], utxos.take(i + 1)[i]));
    }
}

impl ConstrainedValueAccumulator {
    pub open spec fn wf(self) -> bool {
        self.unconstrained_value.wf() && self.timelock_constrained.wf()
    }

    /// The liquid balance of currency `k` (key 0 is the coin).
    pub open spec fn unconstrained(self, k: u128) -> int {
        self.unconstrained_value.spec_value(k)
    }

    /// The constrained balance locked for exactly `b` more blocks.
    pub open spec fn timelocked(self, b: u128) -> int {
        self.timelock_constrained.spec_value(b)
    }

    /// The whole constrained side.
    pub open spec fn timelocked_total(self) -> int {
        self.timelock_constrained.spec_total()
    }

    /// All value the accumulator carries in currency `k`: the constrained
    /// side counts toward the coin.
    pub open spec fn total(self, k: u128) -> int {
        self.unconstrained(k) + if k == 0 {
            self.timelocked_total()
        } else {
            0
        }
    }

    /// An empty accumulator.
    pub fn new() -> (r: ConstrainedValueAccumulator)
        ensures
            r.wf(),
            forall|k: u128| r.unconstrained(k) == 0,
            forall|b: u128| r.timelocked(b) == 0,
            r.timelocked_total() == 0,
            r.unconstrained_value.seq() == Seq::<(u128, Amount)>::empty(),
            r.timelock_constrained.seq() == Seq::<(u128, Amount)>::empty(),
    {
        let r = ConstrainedValueAccumulator {
            unconstrained_value: AmountsMap::new(),
            timelock_constrained: AmountsMap::new(),
        };
        proof {
            assert forall|k: u128| r.unconstrained(k) == 0 by {
                lemma_get_nonneg(r.unconstrained_value.entries@, k);
            }
            assert forall|b: u128| r.timelocked(b) == 0 by {
                lemma_get_nonneg(r.timelock_constrained.entries@, b);
            }
        }
        r
    }

    /// The accumulator a block reward may draw from: the fees plus the
    /// subsidy, liquid in coin.  `None` exactly on overflow.
    pub fn from_block_reward(total_fee: crate::amount::Fee, subsidy: crate::amount::Subsidy) -> (r:
        Option<ConstrainedValueAccumulator>)
        ensures
            total_fee.0.atoms() + subsidy.0.atoms() <= u128::MAX ==> (r matches Some(acc) && {
                &&& acc.wf()
                &&& acc.unconstrained(0) == total_fee.0.atoms() + subsidy.0.atoms()
                &&& forall|k: u128| k != 0 ==> acc.unconstrained(k) == 0
                &&& forall|b: u128| acc.timelocked(b) == 0
                &&& acc.timelocked_total() == 0
            }),
            total_fee.0.atoms() + subsidy.0.atoms() > u128::MAX ==> r is None,
    {
        let initial_value = match total_fee.0.add(subsidy.0) {
            Some(v) => v,
            None => {
                return None;
            },
        };
        let mut acc = ConstrainedValueAccumulator::new();
        proof {
            assert(acc.unconstrained(0) == 0);
        }
        let ghost acc0 = acc;
        let res = acc.unconstrained_value.insert_or_increase(0, initial_value);
        proof {
            assert(res is Ok);
            assert(acc.unconstrained(0) == acc0.unconstrained(0) + initial_value.atoms());
            assert forall|k: u128| k != 0 implies acc.unconstrained(k) == 0 by {
                assert(acc0.unconstrained(k) == 0);
            }
            assert forall|b: u128| acc.timelocked(b) == 0 by {
                assert(acc0.timelocked(b) == 0);
            }
            assert(acc.timelocked_total() == acc0.timelocked_total());
        }
        Some(acc)
    }

    /// Folds a transaction's inputs into an accumulator and deducts the
    /// command fees from the liquid coins.  Succeeds exactly when the input
    /// and consumed-output lists pair up, every input passes its checks,
    /// no tracked account is overdrawn, nothing overflows, and the liquid
    /// coins cover the fees; the result then carries, per currency and per
    /// bucket, exactly the accumulated value, the fees already deducted.
    pub fn from_inputs(
        chain_config: &ChainConfig,
        block_height: BlockHeight,
        pool_balances: &BTreeMap<u128, Amount>,
        delegation_balances: &BTreeMap<u128, Amount>,
        inputs: &Vec<TxInput>,
        inputs_utxos: &Vec<Option<TxOutput>>,
    ) -> (r: Result<ConstrainedValueAccumulator, Error>)
        ensures
            match r {
                Ok(acc) => {
                    &&& from_inputs_ok(
                        *chain_config,
                        pool_balances@,
                        delegation_balances@,
                        chain_config.spec_accounts_balances_version(block_height),
                        inputs@,
                        inputs_utxos@,
                    )
                    &&& acc.wf()
                    &&& acc.unconstrained(0) == inputs_unconstrained_sum(
                        *chain_config,
                        pool_balances@,
                        inputs@,
                        inputs_utxos@,
                        0,
                    ) - inputs_fee_total(*chain_config, inputs@)
                    &&& forall|k: u128|
                        k != 0 ==> acc.unconstrained(k) == inputs_unconstrained_sum(
                            *chain_config,
                            pool_balances@,
                            inputs@,
                            inputs_utxos@,
                            k,
                        )
                    &&& forall|b: u128|
                        acc.timelocked(b) == inputs_timelocked_sum(
                            *chain_config,
                            pool_balances@,
                            inputs@,
                            inputs_utxos@,
                            b,
                        )
                    &&& acc.timelocked_total() == inputs_timelocked_total(
                        *chain_config,
                        pool_balances@,
                        inputs@,
                        inputs_utxos@,
                    )
                },
                Err(e) => {
                    &&& !from_inputs_ok(
                        *chain_config,
                        pool_balances@,
                        delegation_balances@,
                        chain_config.spec_accounts_balances_version(block_height),
                        inputs@,
                        inputs_utxos@,
                    )
                    &&& (inputs@.len() != inputs_utxos@.len() <==> e
                        == Error::InputsAndInputsUtxosLengthMismatch(
                        inputs@.len() as usize,
                        inputs_utxos@.len() as usize,
                    ))
                    &&& (e matches Error::MissingOutputOrSpent(op) ==> exists|i: int|
                        0 <= i < inputs@.len() && i < inputs_utxos@.len() && inputs@[i]
                            == TxInput::Utxo(op) && inputs_utxos@[i] is None)
                    &&& (e matches Error::PledgeAmountNotFound(p) ==> !pool_balances@.contains_key(
                        p.0 as u128,
                    ))
                    &&& (e == Error::AttemptToViolateFeeRequirements ==> inputs_fee_total(
                        *chain_config,
                        inputs@,
                    ) > 0 && !(inputs_touch_coin(*chain_config, inputs@, inputs_utxos@)
                        && inputs_fee_total(*chain_config, inputs@) <= inputs_unconstrained_sum(
                        *chain_config,
                        pool_balances@,
                        inputs@,
                        inputs_utxos@,
                        0,
                    )))
                },
            },
    {
        let ghost cfg = *chain_config;
        let ghost pools = pool_balances@;
        let ghost dels = delegation_balances@;
        let ghost ins = inputs@;
        let ghost uts = inputs_utxos@;
        let n = inputs.len();
        if n != inputs_utxos.len() {
            return Err(Error::InputsAndInputsUtxosLengthMismatch(n, inputs_utxos.len()));
        }
        let version = chain_config.accounts_balances_version(block_height);
        let mut acc = ConstrainedValueAccumulator::new();
        let mut tracker = AccountsBalancesTracker::new(delegation_balances);
        let mut total_fee: Amount = Amount::zero();
        proof {
            assert(!spec_has(acc.unconstrained_value.seq(), 0));
            assert(!inputs_touch_coin(cfg, ins.take(0), uts.take(0)));
        }
        let mut i: usize = 0;
        while i < n
            invariant
                i <= n,
                n == ins.len(),
                n == uts.len(),
                inputs@ == ins,
                inputs_utxos@ == uts,
                cfg == *chain_config,
                pools == pool_balances@,
                dels == delegation_balances@,
                version == cfg.spec_accounts_balances_version(block_height),
                acc.wf(),
                tracker.wf(),
                tracker.spec_getter() == dels,
                forall|key: u128| #[trigger] tracker.touched(key) ==> dels.contains_key(key),
                forall|k: u128|
                    acc.unconstrained(k) == inputs_unconstrained_sum(
                        cfg,
                        pools,
                        ins.take(i as int),
                        uts.take(i as int),
                        k,
                    ),
                forall|b: u128|
                    acc.timelocked(b) == inputs_timelocked_sum(
                        cfg,
                        pools,
                        ins.take(i as int),
                        uts.take(i as int),
                        b,
                    ),
                acc.timelocked_total() == inputs_timelocked_total(
                    cfg,
                    pools,
                    ins.take(i as int),
                    uts.take(i as int),
                ),
                total_fee.atoms() == inputs_fee_total(cfg, ins.take(i as int)),
                spec_has(acc.unconstrained_value.seq(), 0) <==> inputs_touch_coin(
                    cfg,
                    ins.take(i as int),
                    uts.take(i as int),
                ),
                forall|j: int|
                    0 <= j < i ==> #[trigger] input_valid(cfg, pools, dels, version, ins[j], uts[j]),
                version == AccountsBalancesCheckVersion::V1 ==> forall|key: u128|
                    #[trigger] tracker.remaining(key) == ledger_balance_of(dels, key)
                        - del_spend_total(ins.take(i as int), key),
            decreases n - i,
        {
            let ghost gi = i as int;
            let ghost acc_before = acc;
            let ghost tracker_before = tracker;
            let step = Self::accumulate_input(
                &mut acc,
                &mut tracker,
                chain_config,
                block_height,
                pool_balances,
                delegation_balances,
                version,
                &inputs[i],
                &inputs_utxos[i],
            );
            match step {
                Err(e) => {
                    proof {
                        if !input_valid(cfg, pools, dels, version, ins[gi], uts[gi]) {
                        } else if version == AccountsBalancesCheckVersion::V1
                            && !(match ins[gi] {
                            TxInput::Account(_, AccountSpending::DelegationBalance(id, amt)) => amt
                                .atoms() <= tracker_before.remaining(id.0 as u128),
                            _ => true,
                        }) {
                            match ins[gi] {
                                TxInput::Account(_, AccountSpending::DelegationBalance(id, amt)) => {
                                    let key = id.0 as u128;
                                    lemma_inputs_take_step(cfg, pools, ins, uts, key, gi);
                                    lemma_inputs_sums_mono(cfg, pools, ins, uts, key, gi + 1);
                                    assert(del_spend_total(ins, key) > ledger_balance_of(
                                        dels,
                                        key,
                                    ));
                                },
                                _ => {},
                            }
                        } else {
                            let k_bad = choose|k: u128|
                                !#[trigger] input_step_at(
                                    acc_before,
                                    cfg,
                                    pools,
                                    ins[gi],
                                    uts[gi],
                                    k,
                                );
                            lemma_inputs_take_step(cfg, pools, ins, uts, k_bad, gi);
                            lemma_inputs_sums_mono(cfg, pools, ins, uts, k_bad, gi + 1);
                        }
                        match e {
                            Error::MissingOutputOrSpent(op) => {
                                assert(ins[gi] == TxInput::Utxo(op) && uts[gi] is None);
                            },
                            _ => {},
                        }
                    }
                    return Err(e);
                },
                Ok(fee) => {
                    match total_fee.add(fee) {
                        Some(new_fee) => {
                            total_fee = new_fee;
                        },
                        None => {
                            proof {
                                lemma_inputs_take_step(cfg, pools, ins, uts, 0, gi);
                                lemma_inputs_sums_mono(cfg, pools, ins, uts, 0, gi + 1);
                            }
                            return Err(Error::CoinOrTokenOverflow(CoinOrTokenId::Coin));
                        },
                    }
                },
            }
            i = i + 1;
            proof {
                assert forall|k: u128|
                    acc.unconstrained(k) == inputs_unconstrained_sum(
                        cfg,
                        pools,
                        ins.take(gi + 1),
                        uts.take(gi + 1),
                        k,
                    ) by {
                    lemma_inputs_take_step(cfg, pools, ins, uts, k, gi);
                }
                assert forall|b: u128|
                    acc.timelocked(b) == inputs_timelocked_sum(
                        cfg,
                        pools,
                        ins.take(gi + 1),
                        uts.take(gi + 1),
                        b,
                    ) by {
                    lemma_inputs_take_step(cfg, pools, ins, uts, b, gi);
                }
                lemma_inputs_take_step(cfg, pools, ins, uts, 0, gi);
                lemma_touch_step(cfg, ins, uts, gi);
                if version == AccountsBalancesCheckVersion::V1 {
                    assert forall|key: u128|
                        tracker.remaining(key) == ledger_balance_of(dels, key) - del_spend_total(
                            ins.take(gi + 1),
                            key,
                        ) by {
                        lemma_inputs_take_step(cfg, pools, ins, uts, key, gi);
                        assert(tracker.remaining(key) == tracker_before.remaining(key)
                            - input_del_spend(ins[gi], key));
                    }
                }
            }
        }
        proof {
            assert(ins.take(n as int) =~= ins);
            assert(uts.take(n as int) =~= uts);
            lemma_values_le_max(acc.unconstrained_value.entries@);
            lemma_values_le_max(acc.timelock_constrained.entries@);
            assert forall|k: u128|
                inputs_unconstrained_sum(cfg, pools, ins, uts, k) <= u128::MAX by {
                assert(acc.unconstrained(k) == inputs_unconstrained_sum(
                    cfg,
                    pools,
                    ins.take(n as int),
                    uts.take(n as int),
                    k,
                ));
                assert(spec_get(acc.unconstrained_value.entries@, k) <= u128::MAX);
            }
            assert forall|b: u128| inputs_timelocked_sum(cfg, pools, ins, uts, b) <= u128::MAX by {
                assert(acc.timelocked(b) == inputs_timelocked_sum(
                    cfg,
                    pools,
                    ins.take(n as int),
                    uts.take(n as int),
                    b,
                ));
                assert(spec_get(acc.timelock_constrained.entries@, b) <= u128::MAX);
            }
            if version == AccountsBalancesCheckVersion::V1 {
                assert forall|key: u128|
                    del_spend_total(ins, key) <= ledger_balance_of(dels, key) by {
                    assert(tracker.remaining(key) == ledger_balance_of(dels, key)
                        - del_spend_total(ins.take(n as int), key));
                    if tracker.touched(key) {
                        lemma_get_nonneg(tracker.balances.entries@, key);
                    }
                }
            }
        }
        let ghost acc_full = acc;
        let res = acc.unconstrained_value.decrease_or_err(0, total_fee);
        match res {
            Ok(_) => {
                proof {
                    assert(total_fee.atoms() == inputs_fee_total(cfg, ins.take(n as int)));
                    assert(total_fee.atoms() == inputs_fee_total(cfg, ins));
                    assert(acc_full.unconstrained(0) == inputs_unconstrained_sum(
                        cfg,
                        pools,
                        ins.take(n as int),
                        uts.take(n as int),
                        0,
                    ));
                    assert(acc_full.unconstrained(0) == inputs_unconstrained_sum(
                        cfg,
                        pools,
                        ins,
                        uts,
                        0,
                    ));
                    assert(total_fee.atoms() <= acc_full.unconstrained(0));
                    assert(acc.unconstrained(0) == acc_full.unconstrained(0) - total_fee.atoms());
                    assert forall|k: u128|
                        k != 0 implies acc.unconstrained(k) == inputs_unconstrained_sum(
                            cfg,
                            pools,
                            ins,
                            uts,
                            k,
                        ) by {
                        assert(acc.unconstrained(k) == acc_full.unconstrained(k));
                        assert(acc_full.unconstrained(k) == inputs_unconstrained_sum(
                            cfg,
                            pools,
                            ins.take(n as int),
                            uts.take(n as int),
                            k,
                        ));
                    }
                    assert forall|b: u128|
                        acc.timelocked(b) == inputs_timelocked_sum(cfg, pools, ins, uts, b) by {
                        assert(acc_full.timelocked(b) == inputs_timelocked_sum(
                            cfg,
                            pools,
                            ins.take(n as int),
                            uts.take(n as int),
                            b,
                        ));
                    }
                }
                Ok(acc)
            },
            Err(_) => {
                proof {
                    assert(total_fee.atoms() == inputs_fee_total(cfg, ins.take(n as int)));
                    assert(total_fee.atoms() == inputs_fee_total(cfg, ins));
                    assert(acc_full.unconstrained(0) == inputs_unconstrained_sum(
                        cfg,
                        pools,
                        ins.take(n as int),
                        uts.take(n as int),
                        0,
                    ));
                    assert(acc_full.unconstrained(0) == inputs_unconstrained_sum(
                        cfg,
                        pools,
                        ins,
                        uts,
                        0,
                    ));
                    assert(spec_has(acc_full.unconstrained_value.seq(), 0) <==> inputs_touch_coin(
                        cfg,
                        ins.take(n as int),
                        uts.take(n as int),
                    ));
                    assert(inputs_touch_coin(cfg, ins.take(n as int), uts.take(n as int))
                        <==> inputs_touch_coin(cfg, ins, uts));
                }
                Err(Error::AttemptToViolateFeeRequirements)
            },
        }
    }

    /// Folds a transaction's outputs into an accumulator.  Succeeds exactly
    /// when no currency and no bucket overflows; the result then carries,
    /// per currency and per bucket, exactly the accumulated value.
    pub fn from_outputs(
        chain_config: &ChainConfig,
        block_height: BlockHeight,
        outputs: &Vec<TxOutput>,
    ) -> (r: Result<ConstrainedValueAccumulator, Error>)
        ensures
            match r {
                Ok(acc) => {
                    &&& from_outputs_ok(*chain_config, outputs@)
                    &&& acc.wf()
                    &&& forall|k: u128|
                        acc.unconstrained(k) == outputs_unconstrained_sum(
                            *chain_config,
                            outputs@,
                            k,
                        )
                    &&& forall|b: u128|
                        acc.timelocked(b) == outputs_timelocked_sum(outputs@, b)
                    &&& acc.timelocked_total() == outputs_timelocked_total(outputs@)
                    &&& (outputs@.len() == 0 ==> acc.unconstrained_value.seq() == Seq::<
                        (u128, Amount),
                    >::empty() && acc.timelock_constrained.seq() == Seq::<(u128, Amount)>::empty())
                },
                Err(e) => {
                    &&& !from_outputs_ok(*chain_config, outputs@)
                    &&& e matches Error::CoinOrTokenOverflow(_)
                },
            },
    {
        let ghost outs = outputs@;
        let mut acc = ConstrainedValueAccumulator::new();
        let n = outputs.len();
        let mut i: usize = 0;
        while i < n
            invariant
                i <= n,
                n == outs.len(),
                outputs@ == outs,
                acc.wf(),
                forall|k: u128|
                    acc.unconstrained(k) == outputs_unconstrained_sum(
                        *chain_config,
                        outs.take(i as int),
                        k,
                    ),
                forall|b: u128| acc.timelocked(b) == outputs_timelocked_sum(outs.take(i as int), b),
                acc.timelocked_total() == outputs_timelocked_total(outs.take(i as int)),
                outs.len() == 0 ==> (acc.unconstrained_value.seq() == Seq::<
                    (u128, Amount),
                >::empty() && acc.timelock_constrained.seq() == Seq::<(u128, Amount)>::empty()),
            decreases n - i,
        {
            let ghost gi = i as int;
            proof {
                lemma_outputs_take_step(*chain_config, outs, 0, gi);
            }
            let output = &outputs[i];
            let ghost acc_before = acc;
            let step = Self::accumulate_output(&mut acc, chain_config, block_height, output);
            if let Err(e) = step {
                proof {
                    assert(!output_step_ok(acc_before, *chain_config, outs[gi]));
                    let k_bad = choose|k: u128|
                        !#[trigger] output_step_at(acc_before, *chain_config, outs[gi], k);
                    lemma_outputs_take_step(*chain_config, outs, k_bad, gi);
                    lemma_outputs_sums_mono(*chain_config, outs, k_bad, gi + 1);
                }
                return Err(e);
            }
            proof {
                assert forall|k: u128|
                    acc.unconstrained(k) == outputs_unconstrained_sum(
                        *chain_config,
                        outs.take(gi + 1),
                        k,
                    ) by {
                    lemma_outputs_take_step(*chain_config, outs, k, gi);
                }
                assert forall|b: u128|
                    acc.timelocked(b) == outputs_timelocked_sum(outs.take(gi + 1), b) by {
                    lemma_outputs_take_step(*chain_config, outs, b, gi);
                }
            }
            i = i + 1;
        }
        proof {
            assert(outs.take(n as int) =~= outs);
            lemma_values_le_max(acc.unconstrained_value.entries@);
            lemma_values_le_max(acc.timelock_constrained.entries@);
            assert forall|k: u128|
                outputs_unconstrained_sum(*chain_config, outs, k) <= u128::MAX by {
                assert(acc.unconstrained(k) == outputs_unconstrained_sum(
                    *chain_config,
                    outs.take(n as int),
                    k,
                ));
                assert(spec_get(acc.unconstrained_value.entries@, k) <= u128::MAX);
            }
            assert forall|b: u128| outputs_timelocked_sum(outs, b) <= u128::MAX by {
                assert(acc.timelocked(b) == outputs_timelocked_sum(outs.take(n as int), b));
                assert(spec_get(acc.timelock_constrained.entries@, b) <= u128::MAX);
            }
        }
        Ok(acc)
    }

    /// Folds one input into the accumulator and charges any delegation
    /// spend to the tracker.  The step succeeds if and only if the input
    /// passes its checks, the tracked account can pay, and every currency
    /// and bucket stays representable; on success the returned amount is
    /// the command fee this input owes.  On failure everything is left
    /// unchanged.
    fn accumulate_input<'a>(
        acc: &mut ConstrainedValueAccumulator,
        tracker: &mut AccountsBalancesTracker<'a>,
        chain_config: &ChainConfig,
        block_height: BlockHeight,
        pool_balances: &BTreeMap<u128, Amount>,
        delegation_balances: &BTreeMap<u128, Amount>,
        version: AccountsBalancesCheckVersion,
        input: &TxInput,
        input_utxo: &Option<TxOutput>,
    ) -> (r: Result<Amount, Error>)
        requires
            old(acc).wf(),
            old(tracker).wf(),
            old(tracker).spec_getter() == delegation_balances@,
            forall|key: u128|
                #[trigger] old(tracker).touched(key) ==> delegation_balances@.contains_key(key),
        ensures
            final(acc).wf(),
            final(tracker).wf(),
            final(tracker).spec_getter() == delegation_balances@,
            forall|key: u128|
                #[trigger] final(tracker).touched(key) ==> delegation_balances@.contains_key(key),
            r is Ok ==> input_step_ok(
                *old(acc),
                *old(tracker),
                *chain_config,
                pool_balances@,
                delegation_balances@,
                version,
                *input,
                *input_utxo,
            ),
            r is Err ==> !input_step_ok(
                *old(acc),
                *old(tracker),
                *chain_config,
                pool_balances@,
                delegation_balances@,
                version,
                *input,
                *input_utxo,
            ),
            match r {
                Ok(fee) => {
                    &&& fee.atoms() == input_fee_contrib(*chain_config, *input)
                    &&& forall|k: u128|
                        final(acc).unconstrained(k) == old(acc).unconstrained(k)
                            + input_unconstrained_contrib(
                            *chain_config,
                            pool_balances@,
                            *input,
                            *input_utxo,
                            k,
                        )
                    &&& forall|b: u128|
                        final(acc).timelocked(b) == old(acc).timelocked(b)
                            + input_timelocked_contrib(
                            *chain_config,
                            pool_balances@,
                            *input,
                            *input_utxo,
                            b,
                        )
                    &&& final(acc).timelocked_total() == old(acc).timelocked_total()
                        + input_timelocked_total_contrib(
                        *chain_config,
                        pool_balances@,
                        *input,
                        *input_utxo,
                    )
                    &&& (spec_has(final(acc).unconstrained_value.seq(), 0) <==> spec_has(
                        old(acc).unconstrained_value.seq(),
                        0,
                    ) || input_touches_coin(*chain_config, *input, *input_utxo))
                    &&& (version == AccountsBalancesCheckVersion::V1 ==> forall|key: u128|
                        #[trigger] final(tracker).remaining(key) == old(tracker).remaining(key)
                            - input_del_spend(*input, key))
                    &&& (version == AccountsBalancesCheckVersion::V0 ==> *final(tracker) == *old(
                        tracker,
                    ))
                },
                Err(e) => {
                    &&& *final(acc) == *old(acc)
                    &&& *final(tracker) == *old(tracker)
                    &&& !(e matches Error::InputsAndInputsUtxosLengthMismatch(_, _))
                    &&& !(e matches Error::AttemptToViolateFeeRequirements)
                    &&& (e matches Error::MissingOutputOrSpent(op) ==> *input == TxInput::Utxo(op)
                        && *input_utxo is None)
                    &&& (e matches Error::SpendingNonSpendableOutput(op) ==> *input
                        == TxInput::Utxo(op) && (match *input_utxo {
                        Some(out) => out is CreateDelegationId || out is IssueFungibleToken
                            || out is Burn || out is DataDeposit,
                        None => false,
                    }))
                    &&& (e matches Error::PledgeAmountNotFound(p) ==> !pool_balances@.contains_key(
                        p.0 as u128,
                    ))
                    &&& (e matches Error::DelegationBalanceNotFound(id) ==> version
                        == AccountsBalancesCheckVersion::V0 && !delegation_balances@.contains_key(
                        id.0 as u128,
                    ))
                    &&& (e matches Error::AccountBalanceNotFound(id) ==> version
                        == AccountsBalancesCheckVersion::V1 && !old(tracker).touched(id.0 as u128)
                        && !delegation_balances@.contains_key(id.0 as u128))
                    &&& (e matches Error::NegativeAccountBalance(id) ==> (match *input {
                        TxInput::Account(_, AccountSpending::DelegationBalance(id2, amt)) => id
                            == id2 && (version == AccountsBalancesCheckVersion::V1 ==> amt.atoms()
                            > old(tracker).remaining(id.0 as u128)),
                        _ => false,
                    }))
                    // The account's own checks come first: an overflow is
                    // only reported once the account was found and covers
                    // the spend.
                    &&& (e matches Error::CoinOrTokenOverflow(_) ==> (match *input {
                        TxInput::Account(_, AccountSpending::DelegationBalance(id, amt)) => (
                        match version {
                            AccountsBalancesCheckVersion::V0 => delegation_balances@.contains_key(
                                id.0 as u128,
                            ) && amt.atoms() <= ledger_balance_of(
                                delegation_balances@,
                                id.0 as u128,
                            ),
                            AccountsBalancesCheckVersion::V1 => (old(tracker).touched(id.0 as u128)
                                || delegation_balances@.contains_key(id.0 as u128)) && amt.atoms()
                                <= old(tracker).remaining(id.0 as u128),
                        }),
                        _ => true,
                    }))
                },
            },
    {
        let ghost a0 = *acc;
        let ghost t0 = *tracker;
        let maturity = chain_config.staking_pool_spend_maturity_block_count(block_height);
        let res: Result<Amount, Error> = match input {
            TxInput::Utxo(outpoint) => {
                match input_utxo {
                    None => Err(Error::MissingOutputOrSpent(*outpoint)),
                    Some(out) => match out {
                        TxOutput::Transfer(v, _) | TxOutput::LockThenTransfer(v, _, _) => match v {
                            OutputValue::Coin(amount) => match acc.insert_unconstrained(
                                CoinOrTokenId::Coin,
                                *amount,
                            ) {
                                Ok(_) => Ok(Amount::zero()),
                                Err(e) => Err(e),
                            },
                            OutputValue::TokenV0(_) => Ok(Amount::zero()),
                            OutputValue::TokenV1(token_id, amount) => match acc
                                .insert_unconstrained(CoinOrTokenId::TokenId(*token_id), *amount) {
                                Ok(_) => Ok(Amount::zero()),
                                Err(e) => Err(e),
                            },
                        },
                        TxOutput::IssueNft(token_id, _) => match acc.insert_unconstrained(
                            CoinOrTokenId::TokenId(*token_id),
                            Amount::from_atoms(1),
                        ) {
                            Ok(_) => Ok(Amount::zero()),
                            Err(e) => Err(e),
                        },
                        TxOutput::DelegateStaking(coins, _) => match acc.insert_unconstrained(
                            CoinOrTokenId::Coin,
                            *coins,
                        ) {
                            Ok(_) => Ok(Amount::zero()),
                            Err(e) => Err(e),
                        },
                        TxOutput::CreateStakePool(pool_id, _) | TxOutput::ProduceBlockFromStake(
                            _,
                            pool_id,
                        ) => {
                            let staker_balance = match pool_balances.get(&(pool_id.0 as u128)) {
                                Some(b) => *b,
                                None => {
                                    return Err(Error::PledgeAmountNotFound(*pool_id));
                                },
                            };
                            if maturity == 0 {
                                match acc.insert_unconstrained(CoinOrTokenId::Coin, staker_balance)
                                    {
                                    Ok(_) => Ok(Amount::zero()),
                                    Err(e) => Err(e),
                                }
                            } else {
                                match acc.timelock_constrained.insert_or_increase(
                                    maturity as u128,
                                    staker_balance,
                                ) {
                                    Ok(_) => Ok(Amount::zero()),
                                    Err(_) => Err(
                                        Error::CoinOrTokenOverflow(CoinOrTokenId::Coin),
                                    ),
                                }
                            }
                        },
                        TxOutput::CreateDelegationId(_, _) | TxOutput::IssueFungibleToken(_)
                            | TxOutput::Burn(_) | TxOutput::DataDeposit(_) => Err(
                            Error::SpendingNonSpendableOutput(*outpoint),
                        ),
                    },
                }
            },
            TxInput::Account(_, spending) => {
                let AccountSpending::DelegationBalance(delegation_id, spend_amount) = spending;
                // The account's own checks come before the arithmetic: an
                // unknown or overdrawn account is reported as such even
                // when the target bucket would also overflow.
                let account_err: Option<Error> = match version {
                    AccountsBalancesCheckVersion::V0 => {
                        match delegation_balances.get(&(delegation_id.0 as u128)) {
                            None => Some(Error::DelegationBalanceNotFound(*delegation_id)),
                            Some(balance) => {
                                if spend_amount.into_atoms() <= balance.into_atoms() {
                                    None
                                } else {
                                    Some(Error::AttemptToPrintMoney(CoinOrTokenId::Coin))
                                }
                            },
                        }
                    },
                    AccountsBalancesCheckVersion::V1 => {
                        let akey = delegation_id.0 as u128;
                        let (found, _) = tracker.balances.search_pub(akey);
                        if found {
                            let current = tracker.balances.get(akey);
                            if spend_amount.into_atoms() <= current.into_atoms() {
                                None
                            } else {
                                Some(Error::NegativeAccountBalance(*delegation_id))
                            }
                        } else {
                            match tracker.delegation_balance_getter.get(&akey) {
                                None => Some(Error::AccountBalanceNotFound(*delegation_id)),
                                Some(b) => {
                                    if spend_amount.into_atoms() <= b.into_atoms() {
                                        None
                                    } else {
                                        Some(Error::NegativeAccountBalance(*delegation_id))
                                    }
                                },
                            }
                        }
                    },
                };
                let room_ok: bool = if maturity == 0 {
                    let current = acc.unconstrained_value.get(0);
                    current.into_atoms() <= u128::MAX - spend_amount.into_atoms()
                } else {
                    let current = acc.timelock_constrained.get(maturity as u128);
                    current.into_atoms() <= u128::MAX - spend_amount.into_atoms()
                };
                match account_err {
                    Some(e) => Err(e),
                    None => {
                        if !room_ok {
                            Err(Error::CoinOrTokenOverflow(CoinOrTokenId::Coin))
                        } else {
                            match version {
                                AccountsBalancesCheckVersion::V0 => {},
                                AccountsBalancesCheckVersion::V1 => {
                                    let charged = tracker.spend_from_account(*spending);
                                    proof {
                                        assert(charged is Ok);
                                    }
                                },
                            }
                            if maturity == 0 {
                                let ins = acc.insert_unconstrained(
                                    CoinOrTokenId::Coin,
                                    *spend_amount,
                                );
                                proof {
                                    assert(ins is Ok);
                                }
                                Ok(Amount::zero())
                            } else {
                                let ins = acc.timelock_constrained.insert_or_increase(
                                    maturity as u128,
                                    *spend_amount,
                                );
                                proof {
                                    assert(ins is Ok);
                                }
                                Ok(Amount::zero())
                            }
                        }
                    },
                }
            },
            TxInput::AccountCommand(_, command) => match command {
                AccountCommand::MintTokens(token_id, amount) => {
                    match acc.insert_unconstrained(CoinOrTokenId::TokenId(*token_id), *amount) {
                        Ok(_) => Ok(chain_config.token_supply_change_fee(block_height)),
                        Err(e) => Err(e),
                    }
                },
                AccountCommand::UnmintTokens(_) | AccountCommand::LockTokenSupply(_) => Ok(
                    chain_config.token_supply_change_fee(block_height),
                ),
                AccountCommand::FreezeToken(_, _) | AccountCommand::UnfreezeToken(_) => Ok(
                    chain_config.token_freeze_fee(block_height),
                ),
                AccountCommand::ChangeTokenAuthority(_, _) => Ok(
                    chain_config.token_change_authority_fee(block_height),
                ),
            },
        };
        proof {
            let cfg = *chain_config;
            let pools = pool_balances@;
            let dels = delegation_balances@;
            match res {
                Ok(_) => {
                    assert(input_valid(cfg, pools, dels, version, *input, *input_utxo));
                    assert(version == AccountsBalancesCheckVersion::V1 ==> match *input {
                        TxInput::Account(_, AccountSpending::DelegationBalance(id, amt)) => amt
                            .atoms() <= t0.remaining(id.0 as u128),
                        _ => true,
                    });
                    lemma_values_le_max(acc.unconstrained_value.entries@);
                    lemma_values_le_max(acc.timelock_constrained.entries@);
                    assert forall|k: u128|
                        acc.unconstrained(k) == a0.unconstrained(k) + input_unconstrained_contrib(
                            cfg,
                            pools,
                            *input,
                            *input_utxo,
                            k,
                        ) by {}
                    assert forall|b: u128|
                        acc.timelocked(b) == a0.timelocked(b) + input_timelocked_contrib(
                            cfg,
                            pools,
                            *input,
                            *input_utxo,
                            b,
                        ) by {}
                    assert forall|k: u128|
                        input_step_at(a0, cfg, pools, *input, *input_utxo, k) by {
                        assert(acc.unconstrained(k) == a0.unconstrained(k)
                            + input_unconstrained_contrib(cfg, pools, *input, *input_utxo, k));
                        assert(spec_get(acc.unconstrained_value.entries@, k) <= u128::MAX);
                        assert(acc.timelocked(k) == a0.timelocked(k) + input_timelocked_contrib(
                            cfg,
                            pools,
                            *input,
                            *input_utxo,
                            k,
                        ));
                        assert(spec_get(acc.timelock_constrained.entries@, k) <= u128::MAX);
                    }
                    if version == AccountsBalancesCheckVersion::V1 {
                        assert forall|key: u128|
                            tracker.remaining(key) == t0.remaining(key) - input_del_spend(
                                *input,
                                key,
                            ) by {}
                    }
                },
                Err(_) => {
                    match *input {
                        TxInput::Utxo(_) => {
                            match input_utxo {
                                Some(out) => match out {
                                    TxOutput::Transfer(v, _) | TxOutput::LockThenTransfer(
                                        v,
                                        _,
                                        _,
                                    ) => match v {
                                        OutputValue::TokenV1(t, _) => {
                                            let t = *t;
                                            assert(!input_step_at(
                                                a0,
                                                cfg,
                                                pools,
                                                *input,
                                                *input_utxo,
                                                CoinOrTokenId::TokenId(t).spec_key(),
                                            ));
                                        },
                                        _ => {
                                            assert(!input_step_ok_at_zero_or_invalid(
                                                a0,
                                                t0,
                                                cfg,
                                                pools,
                                                dels,
                                                version,
                                                *input,
                                                *input_utxo,
                                            ));
                                        },
                                    },
                                    TxOutput::IssueNft(t, _) => {
                                        let t = *t;
                                        assert(!input_step_at(
                                            a0,
                                            cfg,
                                            pools,
                                            *input,
                                            *input_utxo,
                                            CoinOrTokenId::TokenId(t).spec_key(),
                                        ));
                                    },
                                    TxOutput::DelegateStaking(_, _) => {
                                        assert(!input_step_at(a0, cfg, pools, *input, *input_utxo, 0));
                                    },
                                    TxOutput::CreateStakePool(p, _)
                                        | TxOutput::ProduceBlockFromStake(_, p) => {
                                        let p = *p;
                                        if pools.contains_key(p.0 as u128) {
                                            if cfg.maturity_distance == 0 {
                                                assert(!input_step_at(
                                                    a0,
                                                    cfg,
                                                    pools,
                                                    *input,
                                                    *input_utxo,
                                                    0,
                                                ));
                                            } else {
                                                assert(!input_step_at(
                                                    a0,
                                                    cfg,
                                                    pools,
                                                    *input,
                                                    *input_utxo,
                                                    cfg.maturity_distance as u128,
                                                ));
                                            }
                                        }
                                    },
                                    _ => {},
                                },
                                None => {},
                            }
                        },
                        TxInput::Account(_, spending) => {
                            let AccountSpending::DelegationBalance(id, amt) = spending;
                            if cfg.maturity_distance == 0 {
                                if a0.unconstrained(0) + amt.atoms() > u128::MAX {
                                    assert(!input_step_at(a0, cfg, pools, *input, *input_utxo, 0));
                                }
                            } else {
                                if a0.timelocked(cfg.maturity_distance as u128) + amt.atoms()
                                    > u128::MAX {
                                    assert(!input_step_at(
                                        a0,
                                        cfg,
                                        pools,
                                        *input,
                                        *input_utxo,
                                        cfg.maturity_distance as u128,
                                    ));
                                }
                            }
                        },
                        TxInput::AccountCommand(_, cmd) => {
                            match cmd {
                                AccountCommand::MintTokens(t, _) => {
                                    assert(!input_step_at(
                                        a0,
                                        cfg,
                                        pools,
                                        *input,
                                        *input_utxo,
                                        CoinOrTokenId::TokenId(t).spec_key(),
                                    ));
                                },
                                _ => {},
                            }
                        },
                    }
                },
            }
        }
        res
    }

    /// Folds one output into the accumulator: the exact contribution lands
    /// on the exact currency or bucket.  The step succeeds if and only if
    /// every currency and bucket stays representable; on failure the
    /// overflowing currency is named and the accumulator is unchanged.
    fn accumulate_output(
        acc: &mut ConstrainedValueAccumulator,
        chain_config: &ChainConfig,
        block_height: BlockHeight,
        output: &TxOutput,
    ) -> (r: Result<(), Error>)
        requires
            old(acc).wf(),
        ensures
            final(acc).wf(),
            r is Ok <==> output_step_ok(*old(acc), *chain_config, *output),
            match r {
                Ok(_) => {
                    &&& forall|k: u128|
                        final(acc).unconstrained(k) == old(acc).unconstrained(k)
                            + output_unconstrained_contrib(*chain_config, *output, k)
                    &&& forall|b: u128|
                        final(acc).timelocked(b) == old(acc).timelocked(b)
                            + output_timelocked_contrib(*output, b)
                    &&& final(acc).timelocked_total() == old(acc).timelocked_total()
                        + output_timelocked_total_contrib(*output)
                },
                Err(e) => {
                    &&& e matches Error::CoinOrTokenOverflow(_)
                    &&& *final(acc) == *old(acc)
                },
            },
    {
        let ghost a0 = *acc;
        proof {
            lemma_values_le_max(acc.unconstrained_value.entries@);
            lemma_values_le_max(acc.timelock_constrained.entries@);
        }
        let res: Result<(), Error> = match output {
            TxOutput::Transfer(v, _) | TxOutput::Burn(v) => match v {
                OutputValue::Coin(amount) => acc.insert_unconstrained(
                    CoinOrTokenId::Coin,
                    *amount,
                ),
                OutputValue::TokenV0(_) => Ok(()),
                OutputValue::TokenV1(token_id, amount) => acc.insert_unconstrained(
                    CoinOrTokenId::TokenId(*token_id),
                    *amount,
                ),
            },
            TxOutput::LockThenTransfer(v, _, timelock) => match v {
                OutputValue::Coin(coins) => acc.process_output_timelock(timelock, *coins),
                OutputValue::TokenV0(_) => Ok(()),
                OutputValue::TokenV1(token_id, amount) => acc.insert_unconstrained(
                    CoinOrTokenId::TokenId(*token_id),
                    *amount,
                ),
            },
            TxOutput::DelegateStaking(coins, _) => acc.insert_unconstrained(
                CoinOrTokenId::Coin,
                *coins,
            ),
            TxOutput::CreateStakePool(_, data) => acc.insert_unconstrained(
                CoinOrTokenId::Coin,
                data.pledge(),
            ),
            TxOutput::ProduceBlockFromStake(_, _) => Ok(()),
            TxOutput::CreateDelegationId(_, _) => Ok(()),
            TxOutput::DataDeposit(_) => acc.insert_unconstrained(
                CoinOrTokenId::Coin,
                chain_config.data_deposit_fee(),
            ),
            TxOutput::IssueFungibleToken(_) => acc.insert_unconstrained(
                CoinOrTokenId::Coin,
                chain_config.fungible_token_issuance_fee(),
            ),
            TxOutput::IssueNft(_, _) => acc.insert_unconstrained(
                CoinOrTokenId::Coin,
                chain_config.nft_issuance_fee(block_height),
            ),
        };
        proof {
            match res {
                Ok(_) => {
                    lemma_values_le_max(acc.unconstrained_value.entries@);
                    lemma_values_le_max(acc.timelock_constrained.entries@);
                    assert forall|k: u128|
                        acc.unconstrained(k) == a0.unconstrained(k) + output_unconstrained_contrib(
                            *chain_config,
                            *output,
                            k,
                        ) by {}
                    assert forall|b: u128|
                        acc.timelocked(b) == a0.timelocked(b) + output_timelocked_contrib(
                            *output,
                            b,
                        ) by {}
                    assert forall|k: u128| output_step_at(a0, *chain_config, *output, k) by {
                        assert(acc.unconstrained(k) == a0.unconstrained(k)
                            + output_unconstrained_contrib(*chain_config, *output, k));
                        assert(spec_get(acc.unconstrained_value.entries@, k) <= u128::MAX);
                        assert(acc.timelocked(k) == a0.timelocked(k) + output_timelocked_contrib(
                            *output,
                            k,
                        ));
                        assert(spec_get(acc.timelock_constrained.entries@, k) <= u128::MAX);
                    }
                },
                Err(_) => {
                    match *output {
                        TxOutput::LockThenTransfer(v, _, tl) => {
                            match (v, tl) {
                                (OutputValue::Coin(c), OutputTimeLock::ForBlockCount(n)) => {
                                    if n > 0 {
                                        assert(!output_step_at(
                                            a0,
                                            *chain_config,
                                            *output,
                                            n as u128,
                                        ));
                                    } else {
                                        assert(!output_step_at(a0, *chain_config, *output, 0));
                                    }
                                },
                                (OutputValue::TokenV1(t, _), _) => {
                                    assert(!output_step_at(
                                        a0,
                                        *chain_config,
                                        *output,
                                        CoinOrTokenId::TokenId(t).spec_key(),
                                    ));
                                },
                                _ => {
                                    assert(!output_step_at(a0, *chain_config, *output, 0));
                                },
                            }
                        },
                        TxOutput::Transfer(v, _) | TxOutput::Burn(v) => {
                            match v {
                                OutputValue::TokenV1(t, _) => {
                                    assert(!output_step_at(
                                        a0,
                                        *chain_config,
                                        *output,
                                        CoinOrTokenId::TokenId(t).spec_key(),
                                    ));
                                },
                                _ => {
                                    assert(!output_step_at(a0, *chain_config, *output, 0));
                                },
                            }
                        },
                        _ => {
                            assert(!output_step_at(a0, *chain_config, *output, 0));
                        },
                    }
                },
            }
        }
        res
    }

    /// Folds one token-account command into the accumulator: a mint adds
    /// the minted tokens as liquid value; every command owes its fee, which
    /// is returned for the caller to deduct.  Rejected exactly when a mint
    /// overflows its token's balance; the accumulator is then unchanged.
    pub fn process_input_account_command(
        &mut self,
        chain_config: &ChainConfig,
        block_height: BlockHeight,
        command: &AccountCommand,
    ) -> (r: Result<Amount, Error>)
        requires
            old(self).wf(),
        ensures
            final(self).wf(),
            final(self).timelock_constrained == old(self).timelock_constrained,
            match r {
                Ok(fee) => {
                    &&& fee.atoms() == input_fee_contrib(
                        *chain_config,
                        crate::chain::TxInput::AccountCommand(
                            crate::chain::AccountNonce(0),
                            *command,
                        ),
                    )
                    &&& forall|k: u128|
                        final(self).unconstrained(k) == old(self).unconstrained(k) + (
                        match *command {
                            AccountCommand::MintTokens(t, a) => if k == CoinOrTokenId::TokenId(
                                t,
                            ).spec_key() {
                                a.atoms() as int
                            } else {
                                0
                            },
                            _ => 0,
                        })
                },
                Err(e) => {
                    &&& (match *command {
                        AccountCommand::MintTokens(t, a) => old(self).unconstrained(
                            CoinOrTokenId::TokenId(t).spec_key(),
                        ) + a.atoms() > u128::MAX,
                        _ => false,
                    })
                    &&& e matches Error::CoinOrTokenOverflow(_)
                    &&& *final(self) == *old(self)
                },
            },
    {
        match command {
            AccountCommand::MintTokens(token_id, amount) => {
                match self.insert_unconstrained(CoinOrTokenId::TokenId(*token_id), *amount) {
                    Ok(_) => Ok(chain_config.token_supply_change_fee(block_height)),
                    Err(e) => Err(e),
                }
            },
            AccountCommand::UnmintTokens(_) | AccountCommand::LockTokenSupply(_) => Ok(
                chain_config.token_supply_change_fee(block_height),
            ),
            AccountCommand::FreezeToken(_, _) | AccountCommand::UnfreezeToken(_) => Ok(
                chain_config.token_freeze_fee(block_height),
            ),
            AccountCommand::ChangeTokenAuthority(_, _) => Ok(
                chain_config.token_change_authority_fee(block_height),
            ),
        }
    }

    /// Adds liquid value in one currency; on overflow the accumulator is
    /// unchanged and the currency is named.
    fn insert_unconstrained(&mut self, currency: CoinOrTokenId, amount: Amount) -> (r: Result<
        (),
        Error,
    >)
        requires
            old(self).wf(),
        ensures
            final(self).wf(),
            final(self).timelock_constrained == old(self).timelock_constrained,
            match r {
                Ok(_) => {
                    &&& old(self).unconstrained(currency.spec_key()) + amount.atoms() <= u128::MAX
                    &&& final(self).unconstrained(currency.spec_key()) == old(self).unconstrained(
                        currency.spec_key(),
                    ) + amount.atoms()
                    &&& forall|k: u128|
                        k != currency.spec_key() ==> final(self).unconstrained(k) == old(
                            self,
                        ).unconstrained(k)
                    &&& forall|k2: u128|
                        spec_has(final(self).unconstrained_value.seq(), k2) <==> spec_has(
                            old(self).unconstrained_value.seq(),
                            k2,
                        ) || k2 == currency.spec_key()
                },
                Err(e) => {
                    &&& old(self).unconstrained(currency.spec_key()) + amount.atoms() > u128::MAX
                    &&& e == Error::CoinOrTokenOverflow(currency)
                    &&& *final(self) == *old(self)
                },
            },
    {
        match self.unconstrained_value.insert_or_increase(currency.key(), amount) {
            Ok(_) => Ok(()),
            Err(_) => Err(Error::CoinOrTokenOverflow(currency)),
        }
    }

    /// Adds locked coins under a timelock: height- and time-based locks are
    /// liquid for this check; a block-count lock fills its exact bucket, a
    /// zero count being liquid at once.
    fn process_output_timelock(&mut self, timelock: &OutputTimeLock, locked_coins: Amount) -> (r:
        Result<(), Error>)
        requires
            old(self).wf(),
        ensures
            final(self).wf(),
            match r {
                Ok(_) => {
                    &&& forall|k: u128|
                        final(self).unconstrained(k) == old(self).unconstrained(k) + (
                        match *timelock {
                            OutputTimeLock::ForBlockCount(n) => if n == 0 && k == 0 {
                                locked_coins.atoms() as int
                            } else {
                                0
                            },
                            _ => if k == 0 {
                                locked_coins.atoms() as int
                            } else {
                                0
                            },
                        })
                    &&& forall|b: u128|
                        final(self).timelocked(b) == old(self).timelocked(b) + (match *timelock {
                            OutputTimeLock::ForBlockCount(n) => if n > 0 && b == n as u128 {
                                locked_coins.atoms() as int
                            } else {
                                0
                            },
                            _ => 0,
                        })
                    &&& final(self).timelocked_total() == old(self).timelocked_total() + (
                    match *timelock {
                        OutputTimeLock::ForBlockCount(n) => if n > 0 {
                            locked_coins.atoms() as int
                        } else {
                            0
                        },
                        _ => 0,
                    })
                },
                Err(e) => {
                    &&& (match *timelock {
                        OutputTimeLock::ForBlockCount(n) => if n > 0 {
                            old(self).timelocked(n as u128) + locked_coins.atoms() > u128::MAX
                        } else {
                            old(self).unconstrained(0) + locked_coins.atoms() > u128::MAX
                        },
                        _ => old(self).unconstrained(0) + locked_coins.atoms() > u128::MAX,
                    })
                    &&& e matches Error::CoinOrTokenOverflow(_)
                    &&& *final(self) == *old(self)
                },
            },
    {
        match timelock {
            OutputTimeLock::UntilHeight(_) | OutputTimeLock::UntilTime(_)
                | OutputTimeLock::ForSeconds(_) => self.insert_unconstrained(
                CoinOrTokenId::Coin,
                locked_coins,
            ),
            OutputTimeLock::ForBlockCount(block_count) => {
                if *block_count == 0 {
                    self.insert_unconstrained(CoinOrTokenId::Coin, locked_coins)
                } else {
                    match self.timelock_constrained.insert_or_increase(
                        *block_count as u128,
                        locked_coins,
                    ) {
                        Ok(_) => Ok(()),
                        Err(_) => Err(Error::CoinOrTokenOverflow(CoinOrTokenId::Coin)),
                    }
                }
            },
        }
    }
}

/// The residual of a satisfied transaction: the fee, still split into its
/// liquid balances and left-over timelocked buckets.
#[derive(Clone, Debug, PartialEq, Eq)]
pub struct AccumulatedFee {
    pub unconstrained_value: AmountsMap,
    pub timelock_constrained: AmountsMap,
}

impl AccumulatedFee {
    pub open spec fn wf(self) -> bool {
        self.unconstrained_value.wf() && self.timelock_constrained.wf()
    }

    pub open spec fn unconstrained(self, k: u128) -> int {
        self.unconstrained_value.spec_value(k)
    }

    pub open spec fn timelocked_total(self) -> int {
        self.timelock_constrained.spec_total()
    }

    /// All residual value in currency `k`.
    pub open spec fn total(self, k: u128) -> int {
        self.unconstrained(k) + if k == 0 {
            self.timelocked_total()
        } else {
            0
        }
    }

    /// The liquid coin residual: the part paid out as the block fee.
    pub fn coin_fee(&self) -> (r: Amount)
        requires
            self.wf(),
        ensures
            r.atoms() == self.unconstrained(0),
    {
        self.unconstrained_value.get(0)
    }
}

/// Phase one of satisfaction: each liquid entry reduced by the other
/// side's reading of its key.
pub open spec fn spec_settle_liquid(
    s: Seq<(u128, Amount)>,
    o: Seq<(u128, Amount)>,
) -> Seq<(u128, Amount)> {
    Seq::new(
        s.len(),
        |i: int| (s[i].0, Amount { atoms: (s[i].1.atoms() - spec_get(o, s[i].0)) as u128 }),
    )
}

/// Draining a demand from the buckets below an index, the highest first.
pub open spec fn spec_drain_buckets(s: Seq<(u128, Amount)>, idx: int, need: int) -> (
    Seq<(u128, Amount)>,
    int,
)
    decreases idx,
{
    if idx <= 0 || need <= 0 {
        (s, need)
    } else {
        let avail = s[idx - 1].1.atoms() as int;
        let take = if need <= avail {
            need
        } else {
            avail
        };
        let s2 = s.update(idx - 1, (s[idx - 1].0, Amount { atoms: (avail - take) as u128 }));
        spec_drain_buckets(s2, idx - 1, need - take)
    }
}

/// The liquid entries with the coin reduced by a drained amount.
pub open spec fn spec_drain_coin(s: Seq<(u128, Amount)>, take: int) -> Seq<(u128, Amount)> {
    Seq::new(
        s.len(),
        |i: int|
            if s[i].0 == 0 {
                (0u128, Amount { atoms: (s[i].1.atoms() - take) as u128 })
            } else {
                s[i]
            },
    )
}

/// One timelocked demand satisfied: the eligible buckets (those locked for
/// at most the demand's bound) longest lock first, the liquid coins last;
/// yields the buckets, the liquid entries, and what stayed uncovered.
pub open spec fn spec_settle_demand(
    tl: Seq<(u128, Amount)>,
    uv: Seq<(u128, Amount)>,
    bound: u128,
    demand: int,
) -> (Seq<(u128, Amount)>, Seq<(u128, Amount)>, int) {
    let drained = spec_drain_buckets(tl, spec_cut(tl, bound), demand);
    let avail = spec_get(uv, 0);
    let take = if drained.1 <= avail {
        drained.1
    } else {
        avail
    };
    (drained.0, spec_drain_coin(uv, take), drained.1 - take)
}

/// Every timelocked demand satisfied in order, or `None` at the first that
/// cannot be.
pub open spec fn spec_settle_timelocks(
    tl: Seq<(u128, Amount)>,
    uv: Seq<(u128, Amount)>,
    demands: Seq<(u128, Amount)>,
) -> Option<(Seq<(u128, Amount)>, Seq<(u128, Amount)>)>
    decreases demands.len(),
{
    if demands.len() == 0 {
        Some((tl, uv))
    } else {
        let step = spec_settle_demand(tl, uv, demands[0].0, demands[0].1.atoms() as int);
        if step.2 > 0 {
            None
        } else {
            spec_settle_timelocks(step.0, step.1, demands.drop_first())
        }
    }
}

/// The whole satisfaction, and with it the exact residual: the liquid
/// demands covered pointwise, then the timelocked demands in their order.
/// This fixes the fee's split between liquid coins and leftover buckets,
/// and with it the longest-lock-first drain policy the fee depends on.
pub open spec fn spec_satisfy(
    this: ConstrainedValueAccumulator,
    other: ConstrainedValueAccumulator,
) -> Option<(Seq<(u128, Amount)>, Seq<(u128, Amount)>)> {
    if forall|k: u128| #[trigger] other.unconstrained(k) <= this.unconstrained(k) {
        spec_settle_timelocks(
            this.timelock_constrained.seq(),
            spec_settle_liquid(this.unconstrained_value.seq(), other.unconstrained_value.seq()),
            other.timelock_constrained.seq(),
        )
    } else {
        None
    }
}

/// An accumulator of which nothing is demanded is satisfied as it stands.
pub proof fn lemma_satisfy_empty_demand(
    this: ConstrainedValueAccumulator,
    other: ConstrainedValueAccumulator,
)
    requires
        other.unconstrained_value.seq() == Seq::<(u128, Amount)>::empty(),
        other.timelock_constrained.seq() == Seq::<(u128, Amount)>::empty(),
    ensures
        spec_satisfy(this, other) is Some,
{
    assert forall|k: u128| #[trigger] other.unconstrained(k) <= this.unconstrained(k) by {
        lemma_get_nonneg(this.unconstrained_value.entries@, k);
        assert(other.unconstrained(k) == 0);
    }
}

impl ConstrainedValueAccumulator {
    /// Satisfies the outputs-side accumulator `other` from this inputs-side
    /// accumulator.  Liquid balances cover liquid demands one for one; each
    /// timelocked demand is covered from the buckets locked at most as long
    /// as it, longest lock first, the liquid coins last.  The residual is
    /// the fee: [`spec_satisfy`] fixes its exact split between liquid coins
    /// and leftover buckets, success holds exactly when the satisfaction
    /// has a result, and per currency the residual is exactly what the
    /// inputs carried beyond the outputs (conservation of value).
    pub fn satisfy_with(self, other: ConstrainedValueAccumulator) -> (r: Result<
        AccumulatedFee,
        Error,
    >)
        requires
            self.wf(),
            other.wf(),
        ensures
            r is Ok <==> spec_satisfy(self, other) is Some,
            match r {
                Ok(fee) => {
                    &&& fee.wf()
                    &&& fee.timelock_constrained.seq() == spec_satisfy(self, other).unwrap().0
                    &&& fee.unconstrained_value.seq() == spec_satisfy(self, other).unwrap().1
                    &&& forall|k: u128| #[trigger] fee.total(k) + other.total(k) == self.total(k)
                    &&& forall|k: u128|
                        k != 0 ==> #[trigger] fee.unconstrained(k) == self.unconstrained(k)
                            - other.unconstrained(k)
                    &&& forall|k: u128| #[trigger] other.unconstrained(k) <= self.unconstrained(k)
                },
                Err(e) => e matches Error::AttemptToPrintMoneyOrViolateTimelockConstraints(_),
            },
            ((forall|k: u128| #[trigger] other.unconstrained(k) <= self.unconstrained(k))
                && other.timelocked_total() + other.unconstrained(0) <= self.unconstrained(0))
                ==> r is Ok,
    {
        let ghost orig = self;
        let ghost pre = (forall|k: u128| #[trigger] other.unconstrained(k) <= self.unconstrained(k))
            && other.timelocked_total() + other.unconstrained(0) <= self.unconstrained(0);
        let mut acc = self;
        let n1 = other.unconstrained_value.len();
        let mut i: usize = 0;
        while i < n1
            invariant
                i <= n1,
                n1 == other.unconstrained_value.seq().len(),
                other.wf(),
                acc.wf(),
                orig == self,
                pre == ((forall|k: u128|
                    #[trigger] other.unconstrained(k) <= orig.unconstrained(k))
                    && other.timelocked_total() + other.unconstrained(0) <= orig.unconstrained(0)),
                acc.timelock_constrained == orig.timelock_constrained,
                acc.unconstrained_value.seq().len() == orig.unconstrained_value.seq().len(),
                forall|p: int|
                    0 <= p < orig.unconstrained_value.seq().len() ==> (
                    #[trigger] acc.unconstrained_value.seq()[p]).0
                        == orig.unconstrained_value.seq()[p].0,
                forall|k: u128|
                    #[trigger] acc.unconstrained(k) == orig.unconstrained(k) - spec_get(
                        other.unconstrained_value.seq().take(i as int),
                        k,
                    ),
                forall|k: u128|
                    spec_has(acc.unconstrained_value.seq(), k) <==> spec_has(
                        orig.unconstrained_value.seq(),
                        k,
                    ),
                forall|j: int|
                    0 <= j < i ==> other.unconstrained_value.seq()[j].1.atoms()
                        <= orig.unconstrained(#[trigger] other.unconstrained_value.seq()[j].0),
            decreases n1 - i,
        {
            let ghost gi = i as int;
            let ghost acc0 = acc;
            let key = other.unconstrained_value.key_at(i);
            let value = other.unconstrained_value.value_at(i);
            proof {
                lemma_sorted_take_absent(other.unconstrained_value.seq(), gi);
                lemma_get_absent(other.unconstrained_value.seq().take(gi), key);
                lemma_get_at(other.unconstrained_value.seq(), key, gi);
                assert(acc0.unconstrained(key) == orig.unconstrained(key));
                if value.atoms() > 0 && value.atoms() <= acc0.unconstrained(key) {
                    lemma_get_pos_has(acc0.unconstrained_value.entries@, key);
                }
            }
            let step = acc.unconstrained_value.decrease_or_err(key, value);
            if step.is_err() {
                proof {
                    // The uncovered liquid demand refutes the coverage
                    // condition, so the satisfaction has no result.
                    if !spec_has(acc0.unconstrained_value.seq(), key) {
                        lemma_get_absent(acc0.unconstrained_value.entries@, key);
                    }
                    assert(value.atoms() > acc0.unconstrained(key));
                    assert(other.unconstrained(key) > orig.unconstrained(key));
                    assert(spec_satisfy(orig, other) is None);
                    if pre {
                        assert(false);
                    }
                }
                return Err(Error::AttemptToPrintMoneyOrViolateTimelockConstraints(
                    if key == 0 {
                        CoinOrTokenId::Coin
                    } else {
                        CoinOrTokenId::TokenId(crate::chain::TokenId(#[verifier::truncate] ((key
                            - 1) as u64)))
                    },
                ));
            }
            i = i + 1;
            proof {
                assert forall|k: u128|
                    acc.unconstrained(k) == orig.unconstrained(k) - spec_get(
                        other.unconstrained_value.seq().take(gi + 1),
                        k,
                    ) by {
                    lemma_take_snoc_get(other.unconstrained_value.seq(), gi, k);
                    assert(acc0.unconstrained(k) == orig.unconstrained(k) - spec_get(
                        other.unconstrained_value.seq().take(gi),
                        k,
                    ));
                }
            }
        }
        proof {
            crate::amounts_map::lemma_take_all(other.unconstrained_value.seq());
            assert forall|k: u128|
                #[trigger] other.unconstrained(k) <= orig.unconstrained(k) by {
                lemma_get_nonneg(orig.unconstrained_value.entries@, k);
                if spec_has(other.unconstrained_value.seq(), k) {
                    let jj = choose|jj: int|
                        0 <= jj < other.unconstrained_value.seq().len()
                            && other.unconstrained_value.seq()[jj].0 == k;
                    lemma_get_at(other.unconstrained_value.seq(), k, jj);
                } else {
                    lemma_get_absent(other.unconstrained_value.seq(), k);
                }
            }
            // Phase one matches its mirror entry for entry.
            assert forall|p: int|
                0 <= p < acc.unconstrained_value.seq().len() implies #[trigger] acc
                .unconstrained_value
                .seq()[p] == spec_settle_liquid(
                orig.unconstrained_value.seq(),
                other.unconstrained_value.seq(),
            )[p] by {
                let k = orig.unconstrained_value.seq()[p].0;
                assert(acc.unconstrained_value.seq()[p].0 == k);
                lemma_get_at(acc.unconstrained_value.entries@, k, p);
                lemma_get_at(orig.unconstrained_value.entries@, k, p);
                lemma_get_nonneg(acc.unconstrained_value.entries@, k);
                assert(acc.unconstrained(k) == orig.unconstrained(k) - spec_get(
                    other.unconstrained_value.seq().take(n1 as int),
                    k,
                ));
                assert(acc.unconstrained_value.seq()[p].1.atoms() == orig.unconstrained(k)
                    - spec_get(other.unconstrained_value.seq(), k));
            }
            assert(acc.unconstrained_value.seq() =~= spec_settle_liquid(
                orig.unconstrained_value.seq(),
                other.unconstrained_value.seq(),
            ));
        }
        let ghost after_p1 = acc;
        let n2 = other.timelock_constrained.len();
        proof {
            assert(other.timelock_constrained.seq().skip(0) =~= other.timelock_constrained.seq());
        }
        let mut j: usize = 0;
        while j < n2
            invariant
                j <= n2,
                n2 == other.timelock_constrained.seq().len(),
                other.wf(),
                acc.wf(),
                orig == self,
                pre == ((forall|k: u128|
                    #[trigger] other.unconstrained(k) <= orig.unconstrained(k))
                    && other.timelocked_total() + other.unconstrained(0) <= orig.unconstrained(0)),
                forall|k: u128| #[trigger] other.unconstrained(k) <= orig.unconstrained(k),
                after_p1.timelock_constrained == orig.timelock_constrained,
                after_p1.unconstrained_value.seq() == spec_settle_liquid(
                    orig.unconstrained_value.seq(),
                    other.unconstrained_value.seq(),
                ),
                spec_settle_timelocks(
                    acc.timelock_constrained.seq(),
                    acc.unconstrained_value.seq(),
                    other.timelock_constrained.seq().skip(j as int),
                ) == spec_settle_timelocks(
                    after_p1.timelock_constrained.seq(),
                    after_p1.unconstrained_value.seq(),
                    other.timelock_constrained.seq(),
                ),
                forall|k: u128|
                    k != 0 ==> #[trigger] acc.unconstrained(k) == after_p1.unconstrained(k),
                acc.unconstrained(0) + acc.timelocked_total() == after_p1.unconstrained(0)
                    + after_p1.timelocked_total() - sum_amounts(
                    other.timelock_constrained.seq().take(j as int),
                ),
                pre ==> acc.unconstrained(0) >= other.timelocked_total() - sum_amounts(
                    other.timelock_constrained.seq().take(j as int),
                ),
                pre ==> after_p1.unconstrained(0) == orig.unconstrained(0) - other.unconstrained(0),
            decreases n2 - j,
        {
            let ghost gj = j as int;
            let ghost acc_at_entry = acc;
            let demand = other.timelock_constrained.value_at(j);
            let bound = other.timelock_constrained.key_at(j);
            proof {
                lemma_sum_nonneg(other.timelock_constrained.seq().take(gj));
                if pre {
                    crate::amounts_map::lemma_prefix_plus_entry_le_total(
                        other.timelock_constrained.seq(),
                        gj,
                    );
                }
            }
            let mut need = demand;
            let cut = acc.timelock_constrained.count_upto(bound);
            proof {
                lemma_cut_is_count(acc.timelock_constrained.seq(), bound, cut as int);
            }
            let mut idx = cut;
            while need.into_atoms() > 0 && idx > 0
                invariant
                    idx <= cut,
                    cut <= acc.timelock_constrained.seq().len(),
                    acc.wf(),
                    need.atoms() <= demand.atoms(),
                    acc.unconstrained_value == acc_at_entry.unconstrained_value,
                    spec_drain_buckets(
                        acc_at_entry.timelock_constrained.seq(),
                        cut as int,
                        demand.atoms() as int,
                    ) == spec_drain_buckets(
                        acc.timelock_constrained.seq(),
                        idx as int,
                        need.atoms() as int,
                    ),
                    acc.unconstrained(0) + acc.timelocked_total() == acc_at_entry.unconstrained(0)
                        + acc_at_entry.timelocked_total() - (demand.atoms() - need.atoms()),
                decreases idx,
            {
                let ghost s_before = acc.timelock_constrained.seq();
                let ghost need_before = need;
                let ghost idx_before = idx as int;
                idx = idx - 1;
                let available = acc.timelock_constrained.value_at(idx);
                let take = if need.into_atoms() <= available.into_atoms() {
                    need
                } else {
                    available
                };
                let rest = match available.sub(take) {
                    Some(v) => v,
                    None => {
                        proof {
                            assert(false);
                        }
                        Amount::zero()
                    },
                };
                acc.timelock_constrained.set_value_at(idx, rest);
                let new_need = match need.sub(take) {
                    Some(v) => v,
                    None => {
                        proof {
                            assert(false);
                        }
                        Amount::zero()
                    },
                };
                need = new_need;
                proof {
                    assert(acc.timelock_constrained.seq() == s_before.update(
                        idx_before - 1,
                        (s_before[idx_before - 1].0, rest),
                    ));
                    assert(spec_drain_buckets(
                        s_before,
                        idx_before,
                        need_before.atoms() as int,
                    ) == spec_drain_buckets(
                        acc.timelock_constrained.seq(),
                        idx as int,
                        need.atoms() as int,
                    ));
                }
            }
            let ghost rem_after_buckets = need;
            proof {
                assert(spec_drain_buckets(
                    acc.timelock_constrained.seq(),
                    idx as int,
                    need.atoms() as int,
                ) == (acc.timelock_constrained.seq(), need.atoms() as int));
                assert(spec_drain_buckets(
                    acc_at_entry.timelock_constrained.seq(),
                    cut as int,
                    demand.atoms() as int,
                ) == (acc.timelock_constrained.seq(), need.atoms() as int));
            }
            let ghost tl_after_drain = acc.timelock_constrained.seq();
            let ghost uv_at_entry = acc_at_entry.unconstrained_value.seq();
            let ghost coin_avail: int = spec_get(uv_at_entry, 0);
            let ghost coin_take: int = if rem_after_buckets.atoms() as int <= coin_avail {
                rem_after_buckets.atoms() as int
            } else {
                coin_avail
            };
            proof {
                lemma_get_nonneg(acc_at_entry.unconstrained_value.entries@, 0);
            }
            if need.into_atoms() > 0 {
                let ghost acc_mid = acc;
                let available = acc.unconstrained_value.get(0);
                let take = if need.into_atoms() <= available.into_atoms() {
                    need
                } else {
                    available
                };
                proof {
                    assert(available.atoms() == coin_avail);
                    assert(take.atoms() as int == coin_take);
                }
                if take.into_atoms() > 0 {
                    proof {
                        lemma_get_pos_has(acc.unconstrained_value.entries@, 0);
                    }
                    let step = acc.unconstrained_value.decrease_or_err(0, take);
                    proof {
                        assert(step is Ok);
                    }
                }
                let new_need = match need.sub(take) {
                    Some(v) => v,
                    None => {
                        proof {
                            assert(false);
                        }
                        Amount::zero()
                    },
                };
                need = new_need;
                if need.into_atoms() > 0 {
                    proof {
                        // The demand stayed uncovered: the mirror yields no
                        // result either.
                        let demands = other.timelock_constrained.seq();
                        assert(demands.skip(gj)[0] == demands[gj]);
                        let stepg = spec_settle_demand(
                            acc_at_entry.timelock_constrained.seq(),
                            uv_at_entry,
                            bound,
                            demand.atoms() as int,
                        );
                        assert(stepg.2 == rem_after_buckets.atoms() - coin_take);
                        assert(stepg.2 > 0);
                        assert(spec_settle_timelocks(
                            acc_at_entry.timelock_constrained.seq(),
                            uv_at_entry,
                            demands.skip(gj),
                        ) is None);
                        assert(spec_satisfy(orig, other) is None);
                        if pre {
                            assert(demand == other.timelock_constrained.seq()[gj].1);
                            assert(acc_at_entry.unconstrained(0) >= other.timelocked_total()
                                - sum_amounts(other.timelock_constrained.seq().take(gj)));
                            assert(other.timelocked_total() - sum_amounts(
                                other.timelock_constrained.seq().take(gj),
                            ) >= demand.atoms());
                            assert(acc_mid.unconstrained(0) == acc_at_entry.unconstrained(0));
                            assert(available.atoms() == acc_mid.unconstrained(0));
                            assert(false);
                        }
                    }
                    return Err(Error::AttemptToPrintMoneyOrViolateTimelockConstraints(
                        CoinOrTokenId::Coin,
                    ));
                }
            }
            j = j + 1;
            proof {
                lemma_take_snoc_get(other.timelock_constrained.seq(), gj, 0);
                assert forall|k: u128|
                    k != 0 implies acc.unconstrained(k) == after_p1.unconstrained(k) by {
                    assert(acc_at_entry.unconstrained(k) == after_p1.unconstrained(k));
                }
                // The demand was covered exactly as the mirror covers it.
                let demands = other.timelock_constrained.seq();
                assert(demands.skip(gj)[0] == demands[gj]);
                assert(demands.skip(gj).drop_first() =~= demands.skip(gj + 1));
                let stepg = spec_settle_demand(
                    acc_at_entry.timelock_constrained.seq(),
                    uv_at_entry,
                    bound,
                    demand.atoms() as int,
                );
                assert(stepg.0 == acc.timelock_constrained.seq());
                assert(stepg.2 == rem_after_buckets.atoms() - coin_take);
                assert(stepg.2 == 0);
                assert forall|p: int|
                    0 <= p < uv_at_entry.len() implies #[trigger] acc.unconstrained_value.seq()[p]
                        == spec_drain_coin(uv_at_entry, coin_take)[p] by {}
                assert(acc.unconstrained_value.seq() =~= spec_drain_coin(
                    uv_at_entry,
                    coin_take,
                ));
                assert(spec_settle_timelocks(
                    acc.timelock_constrained.seq(),
                    acc.unconstrained_value.seq(),
                    demands.skip(gj + 1),
                ) == spec_settle_timelocks(
                    acc_at_entry.timelock_constrained.seq(),
                    uv_at_entry,
                    demands.skip(gj),
                ));
            }
        }
        proof {
            crate::amounts_map::lemma_take_all(other.timelock_constrained.seq());
            let demands = other.timelock_constrained.seq();
            assert(demands.skip(n2 as int) =~= Seq::<(u128, Amount)>::empty());
            assert(spec_settle_timelocks(
                acc.timelock_constrained.seq(),
                acc.unconstrained_value.seq(),
                demands.skip(n2 as int),
            ) == Some((acc.timelock_constrained.seq(), acc.unconstrained_value.seq())));
            assert(spec_satisfy(orig, other) == Some(
                (acc.timelock_constrained.seq(), acc.unconstrained_value.seq()),
            ));
            let fee = AccumulatedFee {
                unconstrained_value: acc.unconstrained_value,
                timelock_constrained: acc.timelock_constrained,
            };
            assert forall|k: u128|
                k != 0 implies fee.unconstrained(k) == orig.unconstrained(k)
                    - other.unconstrained(k) by {
                assert(acc.unconstrained(k) == after_p1.unconstrained(k));
            }
            assert forall|k: u128| fee.total(k) + other.total(k) == orig.total(k) by {
                if k == 0 {
                    assert(acc.unconstrained(0) + acc.timelocked_total()
                        == after_p1.unconstrained(0) + after_p1.timelocked_total() - sum_amounts(
                        other.timelock_constrained.seq(),
                    ));
                    assert(after_p1.unconstrained(0) == orig.unconstrained(0)
                        - other.unconstrained(0));
                    assert(after_p1.timelocked_total() == orig.timelocked_total());
                } else {
                    assert(acc.unconstrained(k) == after_p1.unconstrained(k));
                    assert(after_p1.unconstrained(k) == orig.unconstrained(k)
                        - other.unconstrained(k));
                }
            }
        }
        Ok(AccumulatedFee {
            unconstrained_value: acc.unconstrained_value,
            timelock_constrained: acc.timelock_constrained,
        })
    }
}

/// Conservation of value: when the inputs side satisfies the outputs side,
/// then in every currency the outputs' value together with the residual fee
/// is exactly the inputs' value, the fee is never negative, and so the
/// outputs never exceed the inputs.
pub proof fn lemma_conservation_of_value(
    fee: AccumulatedFee,
    outputs: ConstrainedValueAccumulator,
    inputs: ConstrainedValueAccumulator,
)
    requires
        forall|k: u128| #[trigger] fee.total(k) + outputs.total(k) == inputs.total(k),
    ensures
        forall|k: u128| 0 <= #[trigger] fee.total(k),
        forall|k: u128| #[trigger] outputs.total(k) <= inputs.total(k),
{
    assert forall|k: u128| 0 <= #[trigger] fee.total(k) by {
        lemma_get_nonneg(fee.unconstrained_value.entries@, k);
        lemma_sum_nonneg(fee.timelock_constrained.entries@);
    }
    assert forall|k: u128| #[trigger] outputs.total(k) <= inputs.total(k) by {
        assert(fee.total(k) + outputs.total(k) == inputs.total(k));
        assert(0 <= fee.total(k));
    }
}

} // verus!