use std::collections::BTreeMap;

use chaincore::amount::{Amount, Fee, Subsidy};
use chaincore::amounts_map::AmountsMap;
use chaincore::chain::{
    AccountCommand, AccountNonce, AccountSpending, BlockHeight, CoinOrTokenId, DelegationId,
    Destination, OutPointSourceId, OutputTimeLock, OutputValue, PoolId, TokenId, TxInput, TxOutput,
    UtxoOutPoint,
};
use chaincore::config::ChainConfig;
use chaincore::constraints::{AccountsBalancesTracker, ConstrainedValueAccumulator, Error};
use chaincore::chain::Transaction;
use chaincore::tx_utils::{
    check_transferred_amount, get_input_token_id_and_amount, get_output_token_id_and_amount,
    ConnectTransactionError, LegacyOutputValue, LegacyTokenData, TokensError,
};

fn config() -> ChainConfig {
    ChainConfig {
        maturity_distance: 100,
        token_supply_change_fee: Amount::from_atoms(50),
        token_freeze_fee: Amount::from_atoms(60),
        token_change_authority_fee: Amount::from_atoms(70),
        data_deposit_fee: Amount::from_atoms(20),
        fungible_token_issuance_fee: Amount::from_atoms(100),
        nft_issuance_fee: Amount::from_atoms(110),
        min_hash_len: 16,
        max_hash_len: 64,
        token_max_ticker_len: 12,
        token_max_name_len: 16,
        token_max_description_len: 100,
        token_max_uri_len: 200,
        min_stake_pool_pledge: Amount::from_atoms(1000),
        accounts_balances_v1_from: 0,
    }
}

fn outpoint(tx: u64, index: u32) -> UtxoOutPoint {
    UtxoOutPoint::new(OutPointSourceId::Transaction(tx), index)
}

#[test]
fn outputs_accumulate_per_currency_and_bucket() {
    let cfg = config();
    let outputs = vec![
        TxOutput::Transfer(OutputValue::Coin(Amount::from_atoms(10)), Destination::Address(1)),
        TxOutput::Transfer(
            OutputValue::TokenV1(TokenId(7), Amount::from_atoms(5)),
            Destination::Address(1),
        ),
        TxOutput::LockThenTransfer(
            OutputValue::Coin(Amount::from_atoms(40)),
            Destination::Address(1),
            OutputTimeLock::ForBlockCount(3),
        ),
        TxOutput::LockThenTransfer(
            OutputValue::Coin(Amount::from_atoms(8)),
            Destination::Address(1),
            OutputTimeLock::UntilHeight(999),
        ),
        TxOutput::DataDeposit(vec![1, 2, 3]),
    ];
    let acc = ConstrainedValueAccumulator::from_outputs(&cfg, BlockHeight(1), &outputs).unwrap();
    // Liquid coins: 10 + 8 (height locks count as liquid here) + 20 deposit fee.
    assert_eq!(acc.unconstrained_value.get(0).into_atoms(), 38);
    // The token key is one past its identifier.
    assert_eq!(acc.unconstrained_value.get(8).into_atoms(), 5);
    // The block-count lock fills its exact bucket.
    assert_eq!(acc.timelock_constrained.get(3).into_atoms(), 40);
}

#[test]
fn satisfy_with_computes_the_fee_exactly() {
    let cfg = config();
    let inputs_side = vec![
        TxOutput::Transfer(OutputValue::Coin(Amount::from_atoms(100)), Destination::Address(1)),
    ];
    let outputs_side = vec![
        TxOutput::Transfer(OutputValue::Coin(Amount::from_atoms(90)), Destination::Address(2)),
    ];
    let inputs_acc =
        ConstrainedValueAccumulator::from_outputs(&cfg, BlockHeight(1), &inputs_side).unwrap();
    let outputs_acc =
        ConstrainedValueAccumulator::from_outputs(&cfg, BlockHeight(1), &outputs_side).unwrap();
    let fee = inputs_acc.satisfy_with(outputs_acc).unwrap();
    assert_eq!(fee.coin_fee().into_atoms(), 10);
}

#[test]
fn satisfy_with_rejects_printing_money() {
    let cfg = config();
    let inputs_side = vec![
        TxOutput::Transfer(OutputValue::Coin(Amount::from_atoms(10)), Destination::Address(1)),
    ];
    let outputs_side = vec![
        TxOutput::Transfer(OutputValue::Coin(Amount::from_atoms(11)), Destination::Address(2)),
    ];
    let inputs_acc =
        ConstrainedValueAccumulator::from_outputs(&cfg, BlockHeight(1), &inputs_side).unwrap();
    let outputs_acc =
        ConstrainedValueAccumulator::from_outputs(&cfg, BlockHeight(1), &outputs_side).unwrap();
    let e = inputs_acc.satisfy_with(outputs_acc).unwrap_err();
    assert!(matches!(e, Error::AttemptToPrintMoneyOrViolateTimelockConstraints(_)));
}

#[test]
fn satisfy_with_drains_longest_lock_first() {
    // The inputs side holds buckets of thirty at distances five and nine.
    // An output locked for six blocks may draw on buckets up to six, and
    // the drain starts at the longest of those, so only the distance-five
    // bucket loses value here.
    let cfg = config();
    let inputs_side = vec![
        TxOutput::LockThenTransfer(
            OutputValue::Coin(Amount::from_atoms(30)),
            Destination::Address(1),
            OutputTimeLock::ForBlockCount(5),
        ),
        TxOutput::LockThenTransfer(
            OutputValue::Coin(Amount::from_atoms(30)),
            Destination::Address(1),
            OutputTimeLock::ForBlockCount(9),
        ),
    ];
    let inputs_acc =
        ConstrainedValueAccumulator::from_outputs(&cfg, BlockHeight(1), &inputs_side).unwrap();
    let outputs_side = vec![
        TxOutput::LockThenTransfer(
            OutputValue::Coin(Amount::from_atoms(20)),
            Destination::Address(2),
            OutputTimeLock::ForBlockCount(6),
        ),
    ];
    let outputs_acc =
        ConstrainedValueAccumulator::from_outputs(&cfg, BlockHeight(1), &outputs_side).unwrap();
    let fee = inputs_acc.satisfy_with(outputs_acc).unwrap();
    // Twenty left the distance-five bucket; the distance-nine one is whole.
    assert_eq!(fee.timelock_constrained.get(5).into_atoms(), 10);
    assert_eq!(fee.timelock_constrained.get(9).into_atoms(), 30);
    assert_eq!(fee.coin_fee().into_atoms(), 0);
}

#[test]
fn unknown_account_reported_before_bucket_overflow() {
    // The maturity bucket is already full, so the account spend would also
    // overflow it; the account's own failure is reported first.
    let mut cfg = config();
    cfg.accounts_balances_v1_from = 1000;
    let mut pools: BTreeMap<u128, Amount> = BTreeMap::new();
    pools.insert(9, Amount::from_atoms(u128::MAX));
    let dels: BTreeMap<u128, Amount> = BTreeMap::new();
    let inputs = vec![
        TxInput::Utxo(outpoint(1, 0)),
        TxInput::Account(
            AccountNonce(0),
            AccountSpending::DelegationBalance(DelegationId(5), Amount::from_atoms(1)),
        ),
    ];
    let utxos = vec![
        Some(TxOutput::ProduceBlockFromStake(Destination::Address(1), PoolId(9))),
        None,
    ];
    let e = ConstrainedValueAccumulator::from_inputs(
        &cfg,
        BlockHeight(1),
        &pools,
        &dels,
        &inputs,
        &utxos,
    )
    .unwrap_err();
    assert_eq!(e, Error::DelegationBalanceNotFound(DelegationId(5)));

    // Under the tracker-based check the same spend names the account too.
    cfg.accounts_balances_v1_from = 0;
    let e = ConstrainedValueAccumulator::from_inputs(
        &cfg,
        BlockHeight(1),
        &pools,
        &dels,
        &inputs,
        &utxos,
    )
    .unwrap_err();
    assert_eq!(e, Error::AccountBalanceNotFound(DelegationId(5)));
}

#[test]
fn from_inputs_routes_staker_balance_through_maturity() {
    let cfg = config();
    let mut pools: BTreeMap<u128, Amount> = BTreeMap::new();
    pools.insert(9, Amount::from_atoms(5000));
    let dels: BTreeMap<u128, Amount> = BTreeMap::new();
    let inputs = vec![TxInput::Utxo(outpoint(1, 0))];
    let utxos = vec![Some(TxOutput::ProduceBlockFromStake(Destination::Address(1), PoolId(9)))];
    let acc = ConstrainedValueAccumulator::from_inputs(
        &cfg,
        BlockHeight(1),
        &pools,
        &dels,
        &inputs,
        &utxos,
    )
    .unwrap();
    // The whole staker balance is locked for the maturity distance.
    assert_eq!(acc.timelock_constrained.get(100).into_atoms(), 5000);
    assert_eq!(acc.unconstrained_value.get(0).into_atoms(), 0);
}

#[test]
fn from_inputs_rejects_missing_or_nonspendable() {
    let cfg = config();
    let pools: BTreeMap<u128, Amount> = BTreeMap::new();
    let dels: BTreeMap<u128, Amount> = BTreeMap::new();

    let inputs = vec![TxInput::Utxo(outpoint(1, 0))];
    let utxos = vec![None];
    let e = ConstrainedValueAccumulator::from_inputs(
        &cfg,
        BlockHeight(1),
        &pools,
        &dels,
        &inputs,
        &utxos,
    )
    .unwrap_err();
    assert!(matches!(e, Error::MissingOutputOrSpent(_)));

    let utxos = vec![Some(TxOutput::Burn(OutputValue::Coin(Amount::from_atoms(1))))];
    let e = ConstrainedValueAccumulator::from_inputs(
        &cfg,
        BlockHeight(1),
        &pools,
        &dels,
        &inputs,
        &utxos,
    )
    .unwrap_err();
    assert!(matches!(e, Error::SpendingNonSpendableOutput(_)));

    let utxos = vec![Some(TxOutput::CreateStakePool(
        PoolId(4),
        chaincore::chain::StakePoolData::new(
            Amount::from_atoms(10),
            Destination::Address(1),
            0,
            Destination::Address(1),
            1000,
            Amount::from_atoms(0),
        ),
    ))];
    let e = ConstrainedValueAccumulator::from_inputs(
        &cfg,
        BlockHeight(1),
        &pools,
        &dels,
        &inputs,
        &utxos,
    )
    .unwrap_err();
    assert_eq!(e, Error::PledgeAmountNotFound(PoolId(4)));

    let e = ConstrainedValueAccumulator::from_inputs(
        &cfg,
        BlockHeight(1),
        &pools,
        &dels,
        &inputs,
        &vec![],
    )
    .unwrap_err();
    assert_eq!(e, Error::InputsAndInputsUtxosLengthMismatch(1, 0));
}

#[test]
fn tracked_accounts_balances_stop_double_spending() {
    // Under the tracked check a transaction cannot draw the same account
    // past its ledger balance over several inputs, even though each input
    // alone would pass.
    let mut dels: BTreeMap<u128, Amount> = BTreeMap::new();
    dels.insert(3, Amount::from_atoms(1000));
    let mut tracker = AccountsBalancesTracker::new(&dels);
    tracker
        .spend_from_account(AccountSpending::DelegationBalance(
            DelegationId(3),
            Amount::from_atoms(700),
        ))
        .unwrap();
    let e = tracker
        .spend_from_account(AccountSpending::DelegationBalance(
            DelegationId(3),
            Amount::from_atoms(700),
        ))
        .unwrap_err();
    assert_eq!(e, Error::NegativeAccountBalance(DelegationId(3)));
    tracker
        .spend_from_account(AccountSpending::DelegationBalance(
            DelegationId(3),
            Amount::from_atoms(300),
        ))
        .unwrap();
    let e = tracker
        .spend_from_account(AccountSpending::DelegationBalance(
            DelegationId(9),
            Amount::from_atoms(1),
        ))
        .unwrap_err();
    assert_eq!(e, Error::AccountBalanceNotFound(DelegationId(9)));
}

#[test]
fn command_fees_come_out_of_liquid_coins() {
    let cfg = config();
    let pools: BTreeMap<u128, Amount> = BTreeMap::new();
    let dels: BTreeMap<u128, Amount> = BTreeMap::new();
    // A mint command owes the supply-change fee; the coin input pays it.
    let inputs = vec![
        TxInput::Utxo(outpoint(1, 0)),
        TxInput::AccountCommand(
            AccountNonce(0),
            AccountCommand::MintTokens(TokenId(2), Amount::from_atoms(500)),
        ),
    ];
    let utxos = vec![
        Some(TxOutput::Transfer(
            OutputValue::Coin(Amount::from_atoms(80)),
            Destination::Address(1),
        )),
        None,
    ];
    let acc = ConstrainedValueAccumulator::from_inputs(
        &cfg,
        BlockHeight(1),
        &pools,
        &dels,
        &inputs,
        &utxos,
    )
    .unwrap();
    assert_eq!(acc.unconstrained_value.get(0).into_atoms(), 30);
    assert_eq!(acc.unconstrained_value.get(3).into_atoms(), 500);

    // With too few coins the fee requirement is violated.
    let poor = vec![
        Some(TxOutput::Transfer(
            OutputValue::Coin(Amount::from_atoms(10)),
            Destination::Address(1),
        )),
        None,
    ];
    let e = ConstrainedValueAccumulator::from_inputs(
        &cfg,
        BlockHeight(1),
        &pools,
        &dels,
        &inputs,
        &poor,
    )
    .unwrap_err();
    assert_eq!(e, Error::AttemptToViolateFeeRequirements);
}

#[test]
fn block_reward_accumulator_is_fees_plus_subsidy() {
    let acc = ConstrainedValueAccumulator::from_block_reward(
        Fee(Amount::from_atoms(7)),
        Subsidy(Amount::from_atoms(100)),
    )
    .unwrap();
    assert_eq!(acc.unconstrained_value.get(0).into_atoms(), 107);
    assert!(ConstrainedValueAccumulator::from_block_reward(
        Fee(Amount::from_atoms(u128::MAX)),
        Subsidy(Amount::from_atoms(1)),
    )
    .is_none());
}

#[test]
fn transferred_amount_check_is_per_currency() {
    let mut inputs = AmountsMap::new();
    inputs.insert_or_increase(0, Amount::from_atoms(100)).unwrap();
    inputs.insert_or_increase(8, Amount::from_atoms(5)).unwrap();
    let mut outputs = AmountsMap::new();
    outputs.insert_or_increase(0, Amount::from_atoms(90)).unwrap();
    outputs.insert_or_increase(8, Amount::from_atoms(5)).unwrap();
    assert!(check_transferred_amount(&inputs, &outputs).is_ok());

    let mut too_much = AmountsMap::new();
    too_much.insert_or_increase(0, Amount::from_atoms(101)).unwrap();
    assert!(matches!(
        check_transferred_amount(&inputs, &too_much).unwrap_err(),
        ConnectTransactionError::AttemptToPrintMoney(_, _)
    ));

    let mut unknown = AmountsMap::new();
    unknown.insert_or_increase(9, Amount::from_atoms(1)).unwrap();
    assert_eq!(
        check_transferred_amount(&inputs, &unknown).unwrap_err(),
        ConnectTransactionError::MissingOutputOrSpent
    );
}

#[test]
fn legacy_token_values_resolve_their_token() {
    let issuing = Transaction::new(42, 0, vec![TxInput::Utxo(outpoint(1, 0))], vec![]);
    let value = LegacyOutputValue::Token(LegacyTokenData::TokenIssuanceV1(Amount::from_atoms(9)));
    let got = get_output_token_id_and_amount(&value, Some(&issuing)).unwrap();
    assert_eq!(got, Some((CoinOrTokenId::TokenId(TokenId(42)), Amount::from_atoms(9))));
    assert_eq!(get_output_token_id_and_amount(&value, None).unwrap(), None);

    // Without any input the token identifier cannot be derived.
    let inputless = Transaction::new(42, 0, vec![], vec![]);
    assert_eq!(
        get_output_token_id_and_amount(&value, Some(&inputless)).unwrap_err(),
        TokensError::TokenIdCantBeCalculated
    );

    let got = get_input_token_id_and_amount(&value, Some(TokenId(7))).unwrap();
    assert_eq!(got, (CoinOrTokenId::TokenId(TokenId(7)), Amount::from_atoms(9)));
    assert_eq!(
        get_input_token_id_and_amount(&value, None).unwrap_err(),
        ConnectTransactionError::TokensError(TokensError::TokenIdCantBeCalculated)
    );
    let coin = LegacyOutputValue::Coin(Amount::from_atoms(3));
    assert_eq!(
        get_input_token_id_and_amount(&coin, None).unwrap(),
        (CoinOrTokenId::Coin, Amount::from_atoms(3))
    );
}
