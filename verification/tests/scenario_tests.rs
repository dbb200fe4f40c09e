use chaincore::amount::Amount;
use chaincore::chain::{
    AccountCommand, AccountNonce, AccountSpending, Block, BlockId, BlockReward, ConsensusData,
    Destination, DelegationId, InputWitness, OutPointSourceId, OutputTimeLock, OutputValue, PoolId,
    SignedTransaction, StakePoolData, TokenId, Transaction, TxInput, TxOutput, UtxoOutPoint,
};
use chaincore::chain_index::BlockStatus;
use chaincore::chainstate::ChainstateError;
use chaincore::config::ChainConfig;
use chaincore::reorg::Chainstate;
use chaincore::tokens::{IsTokenFreezable, TokenIssuance, TokenIssuanceV1, TokenTotalSupply};
use chaincore::orphans::OrphanBlocksPool;
use chaincore::builder::BlockBuilder;
use chaincore::scanner::{address_balance, Utxo};
use chaincore::chainstate::{DelegationData, Ledgers};
use chaincore::delta::UndoEntry;

fn config(maturity_distance: u64) -> ChainConfig {
    ChainConfig {
        maturity_distance,
        token_supply_change_fee: Amount::from_atoms(50),
        token_freeze_fee: Amount::from_atoms(60),
        token_change_authority_fee: Amount::from_atoms(70),
        data_deposit_fee: Amount::from_atoms(20),
        fungible_token_issuance_fee: Amount::from_atoms(100),
        nft_issuance_fee: Amount::from_atoms(110),
        min_hash_len: 4,
        max_hash_len: 8,
        token_max_ticker_len: 5,
        token_max_name_len: 10,
        token_max_description_len: 100,
        token_max_uri_len: 200,
        min_stake_pool_pledge: Amount::from_atoms(1000),
        accounts_balances_v1_from: 0,
    }
}

fn genesis_with_mint(mint: u128) -> Block {
    Block {
        id: BlockId(0),
        prev_block_hash: BlockId(0),
        timestamp: 0,
        consensus_data: ConsensusData::IgnoreConsensus,
        reward: BlockReward::new(vec![TxOutput::Transfer(
            OutputValue::Coin(Amount::from_atoms(mint)),
            Destination::AnyoneCanSpend,
        )]),
        transactions: Vec::new(),
    }
}

fn coin(amount: u128) -> OutputValue {
    OutputValue::Coin(Amount::from_atoms(amount))
}

fn transfer(amount: u128, to: u64) -> TxOutput {
    TxOutput::Transfer(coin(amount), Destination::Address(to))
}

fn utxo_input(src: OutPointSourceId, index: u32) -> TxInput {
    TxInput::Utxo(UtxoOutPoint::new(src, index))
}

fn signed(tx: Transaction) -> SignedTransaction {
    let n = tx.inputs.len();
    let witnesses = (0..n).map(|_| InputWitness::NoSignature(None)).collect();
    SignedTransaction::new(tx, witnesses).unwrap()
}

fn block(id: u64, prev: u64, work: u64, txs: Vec<SignedTransaction>) -> Block {
    Block {
        id: BlockId(id),
        prev_block_hash: BlockId(prev),
        timestamp: 0,
        consensus_data: ConsensusData::PoW(work),
        reward: BlockReward::new(Vec::new()),
        transactions: txs,
    }
}

#[test]
fn pool_decommission_routes_staker_balance_to_timelock() {
    // Genesis mints coins; one block creates a stake pool with a pledge of
    // fifty thousand; the next decommissions it.  Afterwards the pool's
    // balance is gone and the decommission destination holds the whole
    // former staker balance, timelocked for the maturity distance.
    let mut cs = Chainstate::new(config(100), genesis_with_mint(100_000), Amount::from_atoms(0))
        .unwrap();

    let pool_data = StakePoolData::new(
        Amount::from_atoms(50_000),
        Destination::Address(42),
        7,
        Destination::Address(99),
        1000,
        Amount::from_atoms(0),
    );
    let tx_a = Transaction::new(
        10,
        0,
        vec![utxo_input(OutPointSourceId::BlockReward(BlockId(0)), 0)],
        vec![
            TxOutput::CreateStakePool(PoolId(7), pool_data),
            transfer(50_000, 42),
        ],
    );
    cs.process_block(block(1, 0, 1, vec![signed(tx_a)])).unwrap();
    assert_eq!(
        cs.ledgers.pool_balances.get(&7),
        Some(&Amount::from_atoms(50_000))
    );

    let decommission_output = TxOutput::LockThenTransfer(
        coin(50_000),
        Destination::Address(99),
        OutputTimeLock::ForBlockCount(100),
    );
    let tx_b = Transaction::new(
        11,
        0,
        vec![utxo_input(OutPointSourceId::Transaction(10), 0)],
        vec![decommission_output.clone()],
    );
    cs.process_block(block(2, 1, 1, vec![signed(tx_b)])).unwrap();

    assert!(cs.ledgers.pool_data.get(&7).is_none());
    assert!(cs.ledgers.pool_balances.get(&7).is_none());
    let key = UtxoOutPoint::new(OutPointSourceId::Transaction(11), 0).key();
    assert_eq!(cs.ledgers.utxos.get(&key), Some(&decommission_output));
    assert_eq!(cs.best_block_id(), BlockId(2));

    // The address-balance aggregate over the surviving records: the
    // decommission destination holds the whole former staker balance; the
    // staker's own address holds nothing.
    let records = vec![Utxo::new(cs.ledgers.utxos.get(&key).unwrap().clone(), false)];
    assert_eq!(
        address_balance(&records, &Destination::Address(99)),
        Some(Amount::from_atoms(50_000))
    );
    assert_eq!(
        address_balance(&records, &Destination::Address(42)),
        Some(Amount::from_atoms(0))
    );
}

#[test]
fn address_balance_counts_only_unspent_coins_to_the_address() {
    let dest = Destination::Address(9);
    let records = vec![
        Utxo::new(transfer(1_000, 9), false),
        Utxo::new(
            TxOutput::LockThenTransfer(coin(200), dest, OutputTimeLock::ForBlockCount(5)),
            false,
        ),
        Utxo::new(transfer(70, 8), false),
        Utxo::new(transfer(4_000, 9), true),
        Utxo::new(TxOutput::Burn(coin(30)), false),
    ];
    assert_eq!(address_balance(&records, &dest), Some(Amount::from_atoms(1_200)));
    assert_eq!(
        address_balance(&records, &Destination::Address(8)),
        Some(Amount::from_atoms(70))
    );
    assert_eq!(address_balance(&Vec::new(), &dest), Some(Amount::from_atoms(0)));

    let huge = vec![
        Utxo::new(transfer(u128::MAX, 9), false),
        Utxo::new(transfer(1, 9), false),
    ];
    assert_eq!(address_balance(&huge, &dest), None);
}

#[test]
fn reorg_to_heavier_branch_equals_direct_build() {
    // Two branches fork off the same ancestor; the shorter one carries more
    // work per block.  Processing the longer branch first and then switching
    // to the shorter one leaves exactly the ledgers that building the
    // shorter branch directly gives.
    let cfg = config(0);

    let tx_split = Transaction::new(
        10,
        0,
        vec![utxo_input(OutPointSourceId::BlockReward(BlockId(0)), 0)],
        vec![transfer(60_000, 1), transfer(40_000, 1)],
    );
    let tx_x = Transaction::new(
        20,
        0,
        vec![utxo_input(OutPointSourceId::Transaction(10), 0)],
        vec![transfer(60_000, 7)],
    );
    let tx_y1 = Transaction::new(
        120,
        0,
        vec![utxo_input(OutPointSourceId::Transaction(10), 0)],
        vec![transfer(60_000, 5)],
    );
    let tx_y2 = Transaction::new(
        130,
        0,
        vec![utxo_input(OutPointSourceId::Transaction(120), 0)],
        vec![transfer(60_000, 6)],
    );

    // The reorged chainstate: ancestor, long light branch, then the short
    // heavy branch arrives.
    let mut cs = Chainstate::new(cfg, genesis_with_mint(100_000), Amount::from_atoms(0)).unwrap();
    cs.process_block(block(1, 0, 0, vec![signed(tx_split.clone())])).unwrap();
    assert_eq!(cs.process_block(block(2, 1, 0, vec![signed(tx_x)])).unwrap(), true);
    cs.process_block(block(3, 2, 0, vec![])).unwrap();
    cs.process_block(block(4, 3, 0, vec![])).unwrap();
    assert_eq!(cs.best_block_id(), BlockId(4));

    // The first heavy block alone has less trust than the current tip: it
    // is parked, the tip stays, the ledgers stay.
    let moved = cs.process_block(block(12, 1, 1, vec![signed(tx_y1.clone())])).unwrap();
    assert_eq!(moved, false);
    assert_eq!(cs.best_block_id(), BlockId(4));

    // The second heavy block tips the balance: the light branch leaves, the
    // heavy one connects from the parking store.
    let moved = cs.process_block(block(13, 12, 1, vec![signed(tx_y2.clone())])).unwrap();
    assert_eq!(moved, true);
    assert_eq!(cs.best_block_id(), BlockId(13));

    // The ancestor of the two tips is the fork block.
    let lca = cs.chain_index.last_common_ancestor(BlockId(4), BlockId(13)).unwrap();
    assert_eq!(lca.block_id, BlockId(1));

    // The same branch built directly, with no reorg.
    let mut direct =
        Chainstate::new(cfg, genesis_with_mint(100_000), Amount::from_atoms(0)).unwrap();
    direct.process_block(block(1, 0, 0, vec![signed(tx_split)])).unwrap();
    direct.process_block(block(12, 1, 1, vec![signed(tx_y1)])).unwrap();
    direct.process_block(block(13, 12, 1, vec![signed(tx_y2)])).unwrap();

    assert_eq!(cs.best_block_id(), direct.best_block_id());
    assert_eq!(cs.ledgers.utxos, direct.ledgers.utxos);
    assert_eq!(cs.ledgers.pool_data, direct.ledgers.pool_data);
    assert_eq!(cs.ledgers.pool_balances, direct.ledgers.pool_balances);
    assert_eq!(cs.ledgers.delegation_balances, direct.ledgers.delegation_balances);
    assert_eq!(cs.ledgers.delegation_nonces, direct.ledgers.delegation_nonces);
    assert_eq!(cs.ledgers.tokens.token_data, direct.ledgers.tokens.token_data);
    assert_eq!(
        cs.ledgers.tokens.circulating_supply,
        direct.ledgers.tokens.circulating_supply
    );
}

#[test]
fn genesis_declaring_a_pool_twice_is_rejected() {
    let pool = |pledge: u128| {
        TxOutput::CreateStakePool(
            PoolId(7),
            StakePoolData::new(
                Amount::from_atoms(pledge),
                Destination::Address(1),
                7,
                Destination::Address(2),
                1000,
                Amount::from_atoms(0),
            ),
        )
    };
    let genesis = Block {
        id: BlockId(0),
        prev_block_hash: BlockId(0),
        timestamp: 0,
        consensus_data: ConsensusData::IgnoreConsensus,
        reward: BlockReward::new(vec![pool(5_000), transfer(10, 1), pool(6_000)]),
        transactions: Vec::new(),
    };
    let e = match Chainstate::new(config(0), genesis, Amount::from_atoms(0)) {
        Ok(_) => panic!("a duplicated pool must be rejected"),
        Err(e) => e,
    };
    assert!(matches!(e, ChainstateError::PoolAlreadyExists(PoolId(7))));
}

#[test]
fn reorg_back_to_a_former_branch_needs_no_resubmission() {
    // A branch that was canonical once is switched away from and later
    // extended past the usurper: the switch back finds the disconnected
    // block's body in the block store, with nothing submitted twice.
    let cfg = config(0);
    let tx_split = Transaction::new(
        10,
        0,
        vec![utxo_input(OutPointSourceId::BlockReward(BlockId(0)), 0)],
        vec![transfer(60_000, 1), transfer(40_000, 1)],
    );
    let tx_a = Transaction::new(
        20,
        0,
        vec![utxo_input(OutPointSourceId::Transaction(10), 0)],
        vec![transfer(60_000, 7)],
    );
    let tx_b = Transaction::new(
        21,
        0,
        vec![utxo_input(OutPointSourceId::Transaction(20), 0)],
        vec![transfer(60_000, 8)],
    );

    let mut cs = Chainstate::new(cfg, genesis_with_mint(100_000), Amount::from_atoms(0)).unwrap();
    cs.process_block(block(1, 0, 0, vec![signed(tx_split.clone())])).unwrap();
    assert_eq!(cs.process_block(block(2, 1, 0, vec![signed(tx_a.clone())])).unwrap(), true);
    assert_eq!(cs.best_block_id(), BlockId(2));

    // A heavier empty block forks off block 1: the first branch leaves.
    assert_eq!(cs.process_block(block(3, 1, 5, vec![])).unwrap(), true);
    assert_eq!(cs.best_block_id(), BlockId(3));

    // Extending the abandoned branch past the usurper switches back; the
    // body of block 2 comes from the store, not from a resubmission.
    assert_eq!(cs.process_block(block(4, 2, 9, vec![signed(tx_b.clone())])).unwrap(), true);
    assert_eq!(cs.best_block_id(), BlockId(4));

    // The ledgers equal the branch built directly, with no detour.
    let mut direct =
        Chainstate::new(cfg, genesis_with_mint(100_000), Amount::from_atoms(0)).unwrap();
    direct.process_block(block(1, 0, 0, vec![signed(tx_split)])).unwrap();
    direct.process_block(block(2, 1, 0, vec![signed(tx_a)])).unwrap();
    direct.process_block(block(4, 2, 9, vec![signed(tx_b)])).unwrap();
    assert_eq!(cs.ledgers.utxos, direct.ledgers.utxos);
    assert_eq!(cs.ledgers.pool_balances, direct.ledgers.pool_balances);
    let spent = UtxoOutPoint::new(OutPointSourceId::Transaction(20), 0).key();
    assert!(cs.ledgers.utxos.get(&spent).is_none());
    let live = UtxoOutPoint::new(OutPointSourceId::Transaction(21), 0).key();
    assert_eq!(cs.ledgers.utxos.get(&live), Some(&transfer(60_000, 8)));
}

#[test]
fn failed_connect_restores_the_ledgers() {
    // A candidate with enough trust to win whose transaction double-spends:
    // the switch is attempted and fails, and every ledger is exactly as
    // before the attempt.
    let mut cs = Chainstate::new(config(0), genesis_with_mint(100_000), Amount::from_atoms(0))
        .unwrap();
    let tx_spend = Transaction::new(
        10,
        0,
        vec![utxo_input(OutPointSourceId::BlockReward(BlockId(0)), 0)],
        vec![transfer(100_000, 1)],
    );
    cs.process_block(block(1, 0, 0, vec![signed(tx_spend.clone())])).unwrap();
    let utxos_before = cs.ledgers.utxos.clone();

    // The double spend: the same genesis output again on a heavier block.
    let tx_double = Transaction::new(
        30,
        0,
        vec![
            utxo_input(OutPointSourceId::Transaction(10), 0),
            utxo_input(OutPointSourceId::Transaction(10), 0),
        ],
        vec![transfer(100_000, 2)],
    );
    let e = cs.process_block(block(2, 1, 5, vec![signed(tx_double)])).unwrap_err();
    assert!(matches!(e, ChainstateError::MissingOutputOrSpent(_)));
    assert_eq!(cs.best_block_id(), BlockId(1));
    assert_eq!(cs.ledgers.utxos, utxos_before);
    assert_eq!(
        cs.chain_index.get_block_index(BlockId(2)).unwrap().status,
        BlockStatus::Failed
    );
}

#[test]
fn delegation_spends_need_exact_nonces() {
    // A delegation with a balance of one thousand is spent twice within one
    // block under nonces zero and one; both go through, five hundred stays,
    // and the account then expects nonce two.  A third spend reusing nonce
    // one is rejected and changes nothing.
    let mut cs = Chainstate::new(config(0), genesis_with_mint(100_000), Amount::from_atoms(0))
        .unwrap();

    let pool_data = StakePoolData::new(
        Amount::from_atoms(50_000),
        Destination::Address(42),
        7,
        Destination::Address(42),
        1000,
        Amount::from_atoms(0),
    );
    let tx_setup = Transaction::new(
        10,
        0,
        vec![utxo_input(OutPointSourceId::BlockReward(BlockId(0)), 0)],
        vec![
            TxOutput::CreateStakePool(PoolId(7), pool_data),
            TxOutput::CreateDelegationId(Destination::Address(5), PoolId(7)),
            transfer(50_000, 1),
        ],
    );
    cs.process_block(block(1, 0, 0, vec![signed(tx_setup)])).unwrap();
    let delegation = DelegationId(10);

    let tx_delegate = Transaction::new(
        11,
        0,
        vec![utxo_input(OutPointSourceId::Transaction(10), 2)],
        vec![
            TxOutput::DelegateStaking(Amount::from_atoms(1000), delegation),
            transfer(49_000, 1),
        ],
    );
    cs.process_block(block(2, 1, 0, vec![signed(tx_delegate)])).unwrap();
    assert_eq!(
        cs.ledgers.delegation_balances.get(&10),
        Some(&Amount::from_atoms(1000))
    );

    let spend = |tx_id: u64, nonce: u64, amount: u128| {
        Transaction::new(
            tx_id,
            0,
            vec![TxInput::Account(
                AccountNonce(nonce),
                AccountSpending::DelegationBalance(delegation, Amount::from_atoms(amount)),
            )],
            vec![transfer(amount, 9)],
        )
    };
    cs.process_block(block(3, 2, 0, vec![signed(spend(12, 0, 100)), signed(spend(13, 1, 400))]))
        .unwrap();
    assert_eq!(
        cs.ledgers.delegation_balances.get(&10),
        Some(&Amount::from_atoms(500))
    );
    assert_eq!(cs.ledgers.delegation_nonces.get(&10), Some(&AccountNonce(2)));

    // Reusing nonce one is a gap: the block is rejected, nothing moves.
    let e = cs.process_block(block(4, 3, 0, vec![signed(spend(14, 1, 50))])).unwrap_err();
    assert!(matches!(e, ChainstateError::NonceGap(_, 2, 1)));
    assert_eq!(
        cs.ledgers.delegation_balances.get(&10),
        Some(&Amount::from_atoms(500))
    );
    assert_eq!(cs.ledgers.delegation_nonces.get(&10), Some(&AccountNonce(2)));
}

#[test]
fn lockable_token_on_chain_rejects_mint_after_lock() {
    // One transaction mints a thousand units of a lockable token, a later
    // one locks the supply, and a third minting one more unit is rejected
    // with the ledger's supply unchanged.
    let mut cs = Chainstate::new(config(0), genesis_with_mint(100_000), Amount::from_atoms(0))
        .unwrap();
    let issuance = TokenIssuance::V1(TokenIssuanceV1 {
        token_ticker: vec![b'T', b'K', b'N'],
        number_of_decimals: 2,
        metadata_uri: vec![b'u'],
        total_supply: TokenTotalSupply::Lockable,
        authority: Destination::Address(1),
        is_freezable: IsTokenFreezable::No,
    });
    let tx_issue = Transaction::new(
        10,
        0,
        vec![utxo_input(OutPointSourceId::BlockReward(BlockId(0)), 0)],
        vec![TxOutput::IssueFungibleToken(issuance), transfer(99_900, 1)],
    );
    cs.process_block(block(1, 0, 0, vec![signed(tx_issue)])).unwrap();
    let token = TokenId(10);

    let tx_mint = Transaction::new(
        11,
        0,
        vec![
            utxo_input(OutPointSourceId::Transaction(10), 1),
            TxInput::AccountCommand(
                AccountNonce(0),
                AccountCommand::MintTokens(token, Amount::from_atoms(1000)),
            ),
        ],
        vec![
            TxOutput::Transfer(
                OutputValue::TokenV1(token, Amount::from_atoms(1000)),
                Destination::Address(2),
            ),
            transfer(99_850, 1),
        ],
    );
    cs.process_block(block(2, 1, 0, vec![signed(tx_mint)])).unwrap();
    assert_eq!(
        cs.ledgers.tokens.circulating_supply.get(&10),
        Some(&Amount::from_atoms(1000))
    );

    let tx_lock = Transaction::new(
        12,
        0,
        vec![
            utxo_input(OutPointSourceId::Transaction(11), 1),
            TxInput::AccountCommand(AccountNonce(1), AccountCommand::LockTokenSupply(token)),
        ],
        vec![transfer(99_800, 1)],
    );
    cs.process_block(block(3, 2, 0, vec![signed(tx_lock)])).unwrap();

    let tx_mint_more = Transaction::new(
        13,
        0,
        vec![
            utxo_input(OutPointSourceId::Transaction(12), 0),
            TxInput::AccountCommand(
                AccountNonce(2),
                AccountCommand::MintTokens(token, Amount::from_atoms(1)),
            ),
        ],
        vec![
            TxOutput::Transfer(
                OutputValue::TokenV1(token, Amount::from_atoms(1)),
                Destination::Address(2),
            ),
            transfer(99_750, 1),
        ],
    );
    let e = cs.process_block(block(4, 3, 0, vec![signed(tx_mint_more)])).unwrap_err();
    assert_eq!(
        e,
        ChainstateError::TokensError(
            chaincore::tokens_ledger::TokensError::CannotMintFromLockedSupply
        )
    );
    assert_eq!(
        cs.ledgers.tokens.circulating_supply.get(&10),
        Some(&Amount::from_atoms(1000))
    );
}

#[test]
fn orphans_promote_once_the_parent_arrives() {
    let mut cs = Chainstate::new(config(0), genesis_with_mint(100_000), Amount::from_atoms(0))
        .unwrap();
    let mut pool = OrphanBlocksPool::new(8);

    // The child arrives before its parent and is parked as an orphan.
    let child = block(2, 1, 0, vec![]);
    let e = cs.process_block(child.clone()).unwrap_err();
    assert!(matches!(e, ChainstateError::ParentNotFound(_)));
    pool.add_block(child).unwrap();

    // The parent arrives; its children leave the pool and connect.
    cs.process_block(block(1, 0, 0, vec![])).unwrap();
    let promoted = pool.take_all_children_of(&BlockId(1));
    assert_eq!(promoted.len(), 1);
    for b in promoted {
        cs.process_block(b).unwrap();
    }
    assert_eq!(cs.best_block_id(), BlockId(2));
    assert_eq!(pool.len(), 0);
}

#[test]
fn builder_assembles_blocks_over_the_tip() {
    let cs = Chainstate::new(config(0), genesis_with_mint(100_000), Amount::from_atoms(0))
        .unwrap();
    let b = BlockBuilder::new(&cs, BlockId(1))
        .with_timestamp(5)
        .with_consensus_data(ConsensusData::PoW(3))
        .with_reward(vec![])
        .add_transaction(signed(Transaction::new(10, 0, vec![], vec![])))
        .build();
    assert_eq!(b.id, BlockId(1));
    assert_eq!(b.prev_block_hash, BlockId(0));
    assert_eq!(b.timestamp, 5);
    assert_eq!(b.consensus_data, ConsensusData::PoW(3));
    assert_eq!(b.transactions.len(), 1);

    let b2 = BlockBuilder::new(&cs, BlockId(2))
        .with_parent(BlockId(7))
        .with_transactions(vec![])
        .build();
    assert_eq!(b2.prev_block_hash, BlockId(7));
    let b3 = BlockBuilder::new(&cs, BlockId(3)).make_orphan(BlockId(999)).build();
    assert_eq!(b3.prev_block_hash, BlockId(999));
}

#[test]
fn ledger_steps_report_their_exact_errors() {
    let mut ledgers = Ledgers::new();
    let mut pdlog: Vec<UndoEntry<StakePoolData>> = Vec::new();
    let mut pblog: Vec<UndoEntry<Amount>> = Vec::new();
    let mut ddlog: Vec<UndoEntry<DelegationData>> = Vec::new();
    let mut dblog: Vec<UndoEntry<Amount>> = Vec::new();
    let mut nlog: Vec<UndoEntry<AccountNonce>> = Vec::new();

    let pool_data = StakePoolData::new(
        Amount::from_atoms(10),
        Destination::Address(1),
        0,
        Destination::Address(1),
        1000,
        Amount::from_atoms(0),
    );
    ledgers.create_pool(PoolId(1), pool_data, &mut pdlog, &mut pblog).unwrap();
    assert_eq!(
        ledgers.create_pool(PoolId(1), pool_data, &mut pdlog, &mut pblog).unwrap_err(),
        ChainstateError::PoolAlreadyExists(PoolId(1))
    );
    assert_eq!(
        ledgers.decommission_pool(PoolId(2), &mut pdlog, &mut pblog).unwrap_err(),
        ChainstateError::PoolNotFound(PoolId(2))
    );

    let data = DelegationData { spend_destination: Destination::Address(2), source_pool: PoolId(1) };
    ledgers.create_delegation(DelegationId(5), data, &mut ddlog).unwrap();
    assert_eq!(
        ledgers.create_delegation(DelegationId(5), data, &mut ddlog).unwrap_err(),
        ChainstateError::DelegationAlreadyExists(DelegationId(5))
    );
    let missing_pool =
        DelegationData { spend_destination: Destination::Address(2), source_pool: PoolId(9) };
    assert_eq!(
        ledgers.create_delegation(DelegationId(6), missing_pool, &mut ddlog).unwrap_err(),
        ChainstateError::PoolNotFound(PoolId(9))
    );

    // Spending an unknown delegation, and spending past the balance.
    assert_eq!(
        ledgers
            .spend_delegation(
                DelegationId(9),
                AccountNonce(0),
                Amount::from_atoms(1),
                &mut dblog,
                &mut nlog,
            )
            .unwrap_err(),
        ChainstateError::DelegationNotFound(DelegationId(9))
    );
    assert_eq!(
        ledgers
            .spend_delegation(
                DelegationId(5),
                AccountNonce(0),
                Amount::from_atoms(1),
                &mut dblog,
                &mut nlog,
            )
            .unwrap_err(),
        ChainstateError::BalanceUnderflow
    );

    // An exhausted nonce counter is its own error.
    ledgers.delegation_nonces.insert(5, AccountNonce(u64::MAX));
    ledgers.delegation_balances.insert(5, Amount::from_atoms(100));
    assert_eq!(
        ledgers
            .spend_delegation(
                DelegationId(5),
                AccountNonce(u64::MAX),
                Amount::from_atoms(1),
                &mut dblog,
                &mut nlog,
            )
            .unwrap_err(),
        ChainstateError::NonceOverflow
    );

    let mut clog: Vec<UndoEntry<TxOutput>> = Vec::new();
    ledgers.create_utxo(77, transfer(1, 1), &mut clog).unwrap();
    assert_eq!(
        ledgers.create_utxo(77, transfer(1, 1), &mut clog).unwrap_err(),
        ChainstateError::UtxoAlreadyExists(77)
    );

    // Balance aggregates reject overflow with their own error.
    let mut blog: Vec<UndoEntry<Amount>> = Vec::new();
    let mut balances = std::collections::BTreeMap::new();
    balances.insert(1u128, Amount::from_atoms(u128::MAX));
    assert_eq!(
        Ledgers::increase_balance(&mut balances, 1, Amount::from_atoms(1), &mut blog).unwrap_err(),
        ChainstateError::BalanceOverflow
    );
    assert_eq!(
        Ledgers::decrease_balance(&mut balances, 2, Amount::from_atoms(1), &mut blog).unwrap_err(),
        ChainstateError::BalanceUnderflow
    );
}

#[test]
fn resubmitting_a_known_block_is_rejected() {
    let mut cs = Chainstate::new(config(0), genesis_with_mint(100_000), Amount::from_atoms(0))
        .unwrap();
    cs.process_block(block(1, 0, 0, vec![])).unwrap();
    let e = cs.process_block(block(1, 0, 0, vec![])).unwrap_err();
    assert_eq!(e, ChainstateError::BlockAlreadyProcessed(BlockId(1)));
    let e = cs.process_block(block(5, 4, 0, vec![])).unwrap_err();
    assert_eq!(e, ChainstateError::ParentNotFound(BlockId(4)));
}
